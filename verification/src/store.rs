//! The durable chat model: rooms, membership rows, messages and
//! invitations, with the exact read and write semantics of the service's
//! queries. Members are never deleted, only flagged (`left_at`,
//! `hidden_at`), and every visibility rule filters on those flags. The
//! store itself is a value; the database driver mirrors these operations
//! row for row.

use vstd::prelude::*;

verus! {

use crate::text::chars_lt;
use crate::text::str_eq;

/// A conversation is either a two-party direct chat or an N-party group.
#[derive(Clone, Copy, Debug, PartialEq, Eq, Structural)]
pub enum RoomType {
    Direct,
    Group,
}

impl RoomType {
    /// The wire name of the room type.
    pub fn as_str(&self) -> (r: &'static str)
        ensures
            self is Direct ==> r@ == "direct"@,
            self is Group ==> r@ == "group"@,
    {
        match self {
            RoomType::Direct => "direct",
            RoomType::Group => "group",
        }
    }
}

/// A member is either an admin of the room or a plain member.
#[derive(Clone, Copy, Debug, PartialEq, Eq, Structural)]
pub enum MemberRole {
    Admin,
    Member,
}

impl MemberRole {
    pub fn as_str(&self) -> (r: &'static str)
        ensures
            self is Admin ==> r@ == "admin"@,
            self is Member ==> r@ == "member"@,
    {
        match self {
            MemberRole::Admin => "admin",
            MemberRole::Member => "member",
        }
    }
}

/// An invitation moves from pending to exactly one terminal state.
#[derive(Clone, Copy, Debug, PartialEq, Eq, Structural)]
pub enum InviteStatus {
    Pending,
    Accepted,
    Declined,
}

impl InviteStatus {
    pub fn as_str(&self) -> (r: &'static str)
        ensures
            self is Pending ==> r@ == "pending"@,
            self is Accepted ==> r@ == "accepted"@,
            self is Declined ==> r@ == "declined"@,
    {
        match self {
            InviteStatus::Pending => "pending",
            InviteStatus::Accepted => "accepted",
            InviteStatus::Declined => "declined",
        }
    }
}

/// One conversation container. Timestamps are unix milliseconds.
#[derive(Debug)]
pub struct Room {
    pub id: String,
    pub name: Option<String>,
    pub room_type: RoomType,
    pub created_by: i64,
    pub created_at: i64,
    pub updated_at: i64,
    pub last_message_at: Option<i64>,
}

/// One membership row; soft state only, rows are never deleted.
#[derive(Debug)]
pub struct RoomMember {
    pub id: i64,
    pub room_id: String,
    pub user_id: i64,
    pub role: MemberRole,
    pub joined_at: i64,
    pub left_at: Option<i64>,
    pub hidden_at: Option<i64>,
    pub last_read_at: Option<i64>,
}

impl RoomMember {
    /// Still in the room.
    pub open spec fn active(self) -> bool {
        self.left_at is None
    }

    /// Active and not hidden by the member.
    pub open spec fn visible(self) -> bool {
        self.left_at is None && self.hidden_at is None
    }
}

/// One immutable message.
#[derive(Debug)]
pub struct Message {
    pub id: String,
    pub room_id: String,
    pub sender_id: i64,
    pub content: String,
    pub message_type: String,
    pub metadata: Option<String>,
    pub created_at: i64,
    pub updated_at: i64,
}

/// One invitation row.
#[derive(Debug)]
pub struct RoomInvitation {
    pub id: i64,
    pub room_id: String,
    pub user_id: i64,
    pub invited_by: i64,
    pub status: InviteStatus,
    pub created_at: i64,
    pub updated_at: i64,
}

/// One user row, read-only to the chat core.
#[derive(Debug)]
pub struct UserRec {
    pub id: i64,
    pub name: String,
    pub email: String,
}

/// Ceiling on table sizes, far beyond what a machine can hold; it keeps
/// counters and counts inside the fixed-width integer types.
pub const MAX_ROWS: usize = 0x10000000;

/// The whole relational state of the chat service.
#[derive(Debug)]
pub struct ChatStore {
    pub users: Vec<UserRec>,
    pub rooms: Vec<Room>,
    pub members: Vec<RoomMember>,
    pub messages: Vec<Message>,
    pub invitations: Vec<RoomInvitation>,
    pub next_member_id: i64,
    pub next_invitation_id: i64,
}

/// The first room with this id.
pub open spec fn find_room_row(s: Seq<Room>, rid: Seq<char>) -> Option<Room>
    decreases s.len(),
{
    if s.len() == 0 {
        None
    } else if s[0].id@ == rid {
        Some(s[0])
    } else {
        find_room_row(s.drop_first(), rid)
    }
}

/// The first membership row of (room, user).
pub open spec fn find_member_row(s: Seq<RoomMember>, rid: Seq<char>, u: i64) -> Option<RoomMember>
    decreases s.len(),
{
    if s.len() == 0 {
        None
    } else if s[0].room_id@ == rid && s[0].user_id == u {
        Some(s[0])
    } else {
        find_member_row(s.drop_first(), rid, u)
    }
}

/// Whether any membership row ties the user to the room, left or not —
/// the semantics of the service's membership check.
pub open spec fn has_member_row(s: Seq<RoomMember>, rid: Seq<char>, u: i64) -> bool {
    find_member_row(s, rid, u) is Some
}

/// The read marker of (room, user): `last_read_at`, else `joined_at`.
pub open spec fn read_marker(s: Seq<RoomMember>, rid: Seq<char>, u: i64) -> Option<int> {
    match find_member_row(s, rid, u) {
        Some(m) => Some(
            match m.last_read_at {
                Some(t) => t as int,
                None => m.joined_at as int,
            },
        ),
        None => None,
    }
}

/// How many messages of the room arrived after the marker from other
/// senders.
pub open spec fn unread_from(msgs: Seq<Message>, rid: Seq<char>, u: i64, marker: int) -> int
    decreases msgs.len(),
{
    if msgs.len() == 0 {
        0
    } else {
        unread_from(msgs.drop_last(), rid, u, marker) + if msgs.last().room_id@ == rid
            && msgs.last().created_at > marker && msgs.last().sender_id != u {
            1int
        } else {
            0int
        }
    }
}

/// The unread count a client sees: zero without a membership row.
pub open spec fn unread_spec(s: ChatStore, rid: Seq<char>, u: i64) -> int {
    match read_marker(s.members@, rid, u) {
        Some(marker) => unread_from(s.messages@, rid, u, marker),
        None => 0,
    }
}

/// The first direct room that both users have a membership row in. The
/// condition is symmetric in the two users, so the lookup is too.
pub open spec fn spec_find_direct(rooms: Seq<Room>, members: Seq<RoomMember>, a: i64, b: i64) -> Option<
    Room,
>
    decreases rooms.len(),
{
    if rooms.len() == 0 {
        None
    } else if rooms[0].room_type is Direct && has_member_row(members, rooms[0].id@, a)
        && has_member_row(members, rooms[0].id@, b) {
        Some(rooms[0])
    } else {
        spec_find_direct(rooms.drop_first(), members, a, b)
    }
}

impl ChatStore {
    /// Well-formed: unique room ids, one membership row per (room, user),
    /// unique counter-backed ids, messages in arrival order, and all
    /// tables within machine bounds.
    pub open spec fn wf(self) -> bool {
        &&& forall|i: int, j: int|
            0 <= i < j < self.rooms@.len() ==> self.rooms@[i].id@ != self.rooms@[j].id@
        &&& forall|i: int, j: int|
            0 <= i < j < self.members@.len() ==> !(self.members@[i].room_id@
                == self.members@[j].room_id@ && self.members@[i].user_id
                == self.members@[j].user_id)
        &&& forall|i: int|
            0 <= i < self.members@.len() ==> (#[trigger] self.members@[i]).id
                < self.next_member_id
        &&& forall|i: int|
            0 <= i < self.invitations@.len() ==> (#[trigger] self.invitations@[i]).id
                < self.next_invitation_id
        &&& forall|i: int, j: int|
            0 <= i < j < self.invitations@.len() ==> self.invitations@[i].id
                != self.invitations@[j].id
        &&& forall|i: int, j: int|
            0 <= i < j < self.messages@.len() ==> self.messages@[i].created_at
                <= self.messages@[j].created_at
        &&& forall|i: int, j: int|
            0 <= i < j < self.messages@.len() ==> self.messages@[i].id@ != self.messages@[j].id@
        &&& forall|i: int|
            0 <= i < self.members@.len() ==> find_room_row(
                self.rooms@,
                (#[trigger] self.members@[i]).room_id@,
            ) is Some
        &&& forall|i: int|
            0 <= i < self.invitations@.len() ==> find_room_row(
                self.rooms@,
                (#[trigger] self.invitations@[i]).room_id@,
            ) is Some
        &&& forall|i: int, j: int|
            0 <= i < j < self.invitations@.len() ==> self.invitations@[i].created_at
                <= self.invitations@[j].created_at
        &&& self.rooms@.len() < MAX_ROWS
        &&& self.members@.len() < MAX_ROWS
        &&& self.messages@.len() < MAX_ROWS
        &&& self.invitations@.len() < MAX_ROWS
        &&& 0 <= self.next_member_id <= self.members@.len() + 1
        &&& 0 <= self.next_invitation_id <= self.invitations@.len() + 1
    }

    /// No timestamp in the store is later than `t`.
    pub open spec fn fresh_until(self, t: i64) -> bool {
        &&& forall|i: int|
            0 <= i < self.rooms@.len() ==> (#[trigger] self.rooms@[i]).created_at <= t
                && self.rooms@[i].updated_at <= t && (self.rooms@[i].last_message_at matches Some(
                m,
            ) ==> m <= t)
        &&& forall|i: int|
            0 <= i < self.members@.len() ==> (#[trigger] self.members@[i]).joined_at <= t && (
            self.members@[i].left_at matches Some(m) ==> m <= t) && (self.members@[i].hidden_at
                matches Some(m) ==> m <= t) && (self.members@[i].last_read_at matches Some(m) ==> m
                <= t)
        &&& forall|i: int|
            0 <= i < self.messages@.len() ==> (#[trigger] self.messages@[i]).created_at <= t
                && self.messages@[i].updated_at <= t
        &&& forall|i: int|
            0 <= i < self.invitations@.len() ==> (#[trigger] self.invitations@[i]).created_at <= t
                && self.invitations@[i].updated_at <= t
    }

    /// An empty store.
    pub fn new() -> (r: ChatStore)
        ensures
            r.wf(),
            r.users@.len() == 0,
            r.rooms@.len() == 0,
            r.members@.len() == 0,
            r.messages@.len() == 0,
            r.invitations@.len() == 0,
            forall|t: i64| r.fresh_until(t),
    {
        ChatStore {
            users: Vec::new(),
            rooms: Vec::new(),
            members: Vec::new(),
            messages: Vec::new(),
            invitations: Vec::new(),
            next_member_id: 1,
            next_invitation_id: 1,
        }
    }

    /// Register a user row, as the user service would have.
    pub fn add_user(&mut self, id: i64, name: String, email: String)
        requires
            old(self).wf(),
        ensures
            final(self).wf(),
            forall|t: i64| old(self).fresh_until(t) ==> final(self).fresh_until(t),
            final(self).users@ == old(self).users@.push(
                (UserRec { id, name: name, email: email }),
            ),
            final(self).rooms@ == old(self).rooms@,
            final(self).members@ == old(self).members@,
            final(self).messages@ == old(self).messages@,
            final(self).invitations@ == old(self).invitations@,
    {
        let u = UserRec { id, name, email };
        self.users.push(u);
    }

    /// The display name of a user, if the user exists.
    pub fn get_user_name(&self, user_id: i64) -> (r: Option<String>)
        ensures
            ({
                let hit = exists|i: int|
                    0 <= i < self.users@.len() && (#[trigger] self.users@[i]).id == user_id;
                &&& (r is Some <==> hit)
                &&& (r matches Some(name) ==> exists|i: int|
                    0 <= i < self.users@.len() && (#[trigger] self.users@[i]).id == user_id
                        && self.users@[i].name@ == name@)
            }),
    {
        let n = self.users.len();
        let mut i: usize = 0;
        while i < n
            invariant
                n == self.users@.len(),
                0 <= i <= n,
                forall|k: int| 0 <= k < i ==> (#[trigger] self.users@[k]).id != user_id,
            decreases n - i,
        {
            if self.users[i].id == user_id {
                return Some(self.users[i].name.clone());
            }
            i = i + 1;
        }
        None
    }

    /// Whether any membership row — left or not — ties the user to the
    /// room; the membership check used before reads and sends.
    pub fn is_member(&self, room_id: &String, user_id: i64) -> (r: bool)
        ensures
            r == has_member_row(self.members@, room_id@, user_id),
    {
        let n = self.members.len();
        let mut i: usize = 0;
        while i < n
            invariant
                n == self.members@.len(),
                0 <= i <= n,
                forall|k: int|
                    0 <= k < i ==> !((#[trigger] self.members@[k]).room_id@ == room_id@
                        && self.members@[k].user_id == user_id),
            decreases n - i,
        {
            if str_eq(self.members[i].room_id.as_str(), room_id.as_str()) && self.members[i].user_id
                == user_id {
                proof {
                    lemma_find_member_at(self.members@, room_id@, user_id, i as int);
                }
                return true;
            }
            i = i + 1;
        }
        proof {
            lemma_find_member_absent(self.members@, room_id@, user_id);
        }
        false
    }

    /// Insert a room; refused when the id is already taken, as the
    /// database's primary key would.
    pub fn create_room(&mut self, room: Room) -> (r: Result<(), ()>)
        requires
            old(self).wf(),
            old(self).rooms@.len() + 1 < MAX_ROWS,
        ensures
            final(self).wf(),
            r is Err <==> find_room_row(old(self).rooms@, room.id@) is Some,
            r is Err ==> *final(self) == *old(self),
            r is Ok ==> final(self).rooms@ == old(self).rooms@.push(room) && *final(self) == (
            ChatStore { rooms: final(self).rooms, ..*old(self) }),
    {
        let n = self.rooms.len();
        let mut i: usize = 0;
        while i < n
            invariant
                n == self.rooms@.len(),
                0 <= i <= n,
                *self == *old(self),
                old(self).wf(),
                forall|k: int| 0 <= k < i ==> (#[trigger] self.rooms@[k]).id@ != room.id@,
            decreases n - i,
        {
            if str_eq(self.rooms[i].id.as_str(), room.id.as_str()) {
                proof {
                    lemma_find_room_row_at(self.rooms@, room.id@, i as int);
                }
                return Err(());
            }
            i = i + 1;
        }
        proof {
            lemma_find_room_row_absent(self.rooms@, room.id@);
        }
        let ghost rooms0 = self.rooms@;
        self.rooms.push(room);
        proof {
            assert forall|k: int|
                0 <= k < self.members@.len() implies find_room_row(
                self.rooms@,
                (#[trigger] self.members@[k]).room_id@,
            ) is Some by {
                lemma_find_room_row_append(rooms0, self.rooms@.last(), self.members@[k].room_id@);
            }
            assert forall|k: int|
                0 <= k < self.invitations@.len() implies find_room_row(
                self.rooms@,
                (#[trigger] self.invitations@[k]).room_id@,
            ) is Some by {
                lemma_find_room_row_append(
                    rooms0,
                    self.rooms@.last(),
                    self.invitations@[k].room_id@,
                );
            }
        }
        Ok(())
    }

    /// Add a membership row with a fresh id, joined now. A second add of
    /// the same (room, user) is a no-op: conflicts are idempotent.
    pub fn add_member(&mut self, room_id: &String, user_id: i64, role: MemberRole, now: i64)
        requires
            old(self).wf(),
            old(self).members@.len() + 1 < MAX_ROWS,
            0 <= now,
            find_room_row(old(self).rooms@, room_id@) is Some,
        ensures
            final(self).wf(),
            find_member_row(old(self).members@, room_id@, user_id) is Some ==> *final(self)
                == *old(self),
            find_member_row(old(self).members@, room_id@, user_id) is None ==> {
                &&& final(self).members@ == old(self).members@.push(
                    (RoomMember {
                        id: old(self).next_member_id,
                        room_id: final(self).members@.last().room_id,
                        user_id,
                        role,
                        joined_at: now,
                        left_at: None,
                        hidden_at: None,
                        last_read_at: None,
                    }),
                )
                &&& final(self).members@.last().room_id@ == room_id@
                &&& final(self).next_member_id == old(self).next_member_id + 1
                &&& *final(self) == (ChatStore {
                    members: final(self).members,
                    next_member_id: final(self).next_member_id,
                    ..*old(self)
                })
            },
    {
        let n = self.members.len();
        let mut i: usize = 0;
        while i < n
            invariant
                n == self.members@.len(),
                0 <= i <= n,
                *self == *old(self),
                old(self).wf(),
                forall|k: int|
                    0 <= k < i ==> !((#[trigger] self.members@[k]).room_id@ == room_id@
                        && self.members@[k].user_id == user_id),
            decreases n - i,
        {
            if str_eq(self.members[i].room_id.as_str(), room_id.as_str()) && self.members[i].user_id
                == user_id {
                proof {
                    lemma_find_member_at(self.members@, room_id@, user_id, i as int);
                }
                return ;
            }
            i = i + 1;
        }
        proof {
            lemma_find_member_absent(self.members@, room_id@, user_id);
        }
        let row = RoomMember {
            id: self.next_member_id,
            room_id: room_id.clone(),
            user_id,
            role,
            joined_at: now,
            left_at: None,
            hidden_at: None,
            last_read_at: None,
        };
        self.members.push(row);
        self.next_member_id = self.next_member_id + 1;
    }

    /// Set the read marker of (room, user) to now; the SQL update touches
    /// every matching row and nothing else.
    pub fn mark_room_as_read(&mut self, room_id: &String, user_id: i64, now: i64)
        requires
            old(self).wf(),
        ensures
            final(self).wf(),
            final(self).members@.len() == old(self).members@.len(),
            forall|i: int|
                0 <= i < old(self).members@.len() ==> #[trigger] final(self).members@[i] == if old(
                    self,
                ).members@[i].room_id@ == room_id@ && old(self).members@[i].user_id == user_id {
                    (RoomMember { last_read_at: Some(now), ..old(self).members@[i] })
                } else {
                    old(self).members@[i]
                },
            *final(self) == (ChatStore { members: final(self).members, ..*old(self) }),
    {
        update_member_rows(&mut self.members, room_id, Some(user_id), MemberUpdate::MarkRead, now);
    }

    /// Flag the member as having hidden the conversation.
    pub fn hide_room(&mut self, room_id: &String, user_id: i64, now: i64)
        requires
            old(self).wf(),
        ensures
            final(self).wf(),
            final(self).members@.len() == old(self).members@.len(),
            forall|i: int|
                0 <= i < old(self).members@.len() ==> #[trigger] final(self).members@[i] == if old(
                    self,
                ).members@[i].room_id@ == room_id@ && old(self).members@[i].user_id == user_id {
                    (RoomMember { hidden_at: Some(now), ..old(self).members@[i] })
                } else {
                    old(self).members@[i]
                },
            *final(self) == (ChatStore { members: final(self).members, ..*old(self) }),
    {
        update_member_rows(&mut self.members, room_id, Some(user_id), MemberUpdate::Hide, now);
    }

    /// Flag the member as having left the room.
    pub fn leave_room(&mut self, room_id: &String, user_id: i64, now: i64)
        requires
            old(self).wf(),
        ensures
            final(self).wf(),
            final(self).members@.len() == old(self).members@.len(),
            forall|i: int|
                0 <= i < old(self).members@.len() ==> #[trigger] final(self).members@[i] == if old(
                    self,
                ).members@[i].room_id@ == room_id@ && old(self).members@[i].user_id == user_id {
                    (RoomMember { left_at: Some(now), ..old(self).members@[i] })
                } else {
                    old(self).members@[i]
                },
            *final(self) == (ChatStore { members: final(self).members, ..*old(self) }),
    {
        update_member_rows(&mut self.members, room_id, Some(user_id), MemberUpdate::Leave, now);
    }

    /// New activity reveals the conversation: clear `hidden_at` for every
    /// active member of the room.
    pub fn unhide_room_for_members(&mut self, room_id: &String)
        requires
            old(self).wf(),
        ensures
            final(self).wf(),
            final(self).members@.len() == old(self).members@.len(),
            forall|i: int|
                0 <= i < old(self).members@.len() ==> #[trigger] final(self).members@[i] == if old(
                    self,
                ).members@[i].room_id@ == room_id@ && old(self).members@[i].left_at is None {
                    (RoomMember { hidden_at: None, ..old(self).members@[i] })
                } else {
                    old(self).members@[i]
                },
            *final(self) == (ChatStore { members: final(self).members, ..*old(self) }),
    {
        update_member_rows(&mut self.members, room_id, None, MemberUpdate::Unhide, 0);
    }

    /// Find the direct room shared by the two users, if one exists; the
    /// lookup is symmetric in the pair.
    pub fn find_direct_room(&self, a: i64, b: i64) -> (r: Option<usize>)
        ensures
            r is None <==> spec_find_direct(self.rooms@, self.members@, a, b) is None,
            r matches Some(i) ==> i < self.rooms@.len() && spec_find_direct(
                self.rooms@,
                self.members@,
                a,
                b,
            ) == Some(self.rooms@[i as int]),
    {
        let n = self.rooms.len();
        let mut i: usize = 0;
        while i < n
            invariant
                n == self.rooms@.len(),
                0 <= i <= n,
                forall|k: int|
                    0 <= k < i ==> !((#[trigger] self.rooms@[k]).room_type is Direct
                        && has_member_row(self.members@, self.rooms@[k].id@, a) && has_member_row(
                        self.members@,
                        self.rooms@[k].id@,
                        b,
                    )),
            decreases n - i,
        {
            let direct = match self.rooms[i].room_type {
                RoomType::Direct => true,
                RoomType::Group => false,
            };
            if direct && self.is_member(&self.rooms[i].id, a) && self.is_member(
                &self.rooms[i].id,
                b,
            ) {
                proof {
                    lemma_spec_find_direct_at(self.rooms@, self.members@, a, b, i as int);
                }
                return Some(i);
            }
            i = i + 1;
        }
        proof {
            lemma_spec_find_direct_absent(self.rooms@, self.members@, a, b);
        }
        None
    }
}

/// The first message with this id.
pub open spec fn find_message_row(s: Seq<Message>, mid: Seq<char>) -> Option<Message>
    decreases s.len(),
{
    if s.len() == 0 {
        None
    } else if s[0].id@ == mid {
        Some(s[0])
    } else {
        find_message_row(s.drop_first(), mid)
    }
}


/// The room order of spec concern: by creation time, ties broken by the
/// lexicographically comparable id.
pub open spec fn msg_before(a: Message, b: Message) -> bool {
    a.created_at < b.created_at || (a.created_at == b.created_at && chars_lt(a.id@, b.id@))
}

/// Two messages with distinct ids are strictly ordered one way.
pub proof fn lemma_msg_order_connected(a: Message, b: Message)
    requires
        a.id@ != b.id@,
    ensures
        msg_before(a, b) || msg_before(b, a),
{
    crate::text::lemma_chars_lt_connected(a.id@, b.id@);
}

/// The room order is transitive.
pub proof fn lemma_msg_order_trans(a: Message, b: Message, c: Message)
    requires
        msg_before(a, b),
        msg_before(b, c),
    ensures
        msg_before(a, c),
{
    if a.created_at == b.created_at && b.created_at == c.created_at {
        crate::text::lemma_chars_lt_trans(a.id@, b.id@, c.id@);
    }
}

/// Whether a message belongs to the requested page window.
pub open spec fn page_hit(m: Message, rid: Seq<char>, before: Option<Seq<char>>) -> bool {
    m.room_id@ == rid && (match before {
        Some(bid) => chars_lt(m.id@, bid),
        None => true,
    })
}

/// The indices of the page-window messages, oldest first.
pub open spec fn page_matches(msgs: Seq<Message>, rid: Seq<char>, before: Option<Seq<char>>) -> Seq<
    int,
>
    decreases msgs.len(),
{
    if msgs.len() == 0 {
        Seq::empty()
    } else {
        let r = page_matches(msgs.drop_last(), rid, before);
        if page_hit(msgs.last(), rid, before) {
            r.push(msgs.len() - 1)
        } else {
            r
        }
    }
}

impl ChatStore {
    /// Append a message, advance the room's `last_message_at`, and clear
    /// `hidden_at` for every active member of the room — new activity
    /// reveals the conversation for everyone still in it. Refused only
    /// when the message id is already taken, as the primary key would.
    pub fn post_message(&mut self, msg: Message) -> (r: Result<(), ()>)
        requires
            old(self).wf(),
            old(self).messages@.len() + 1 < MAX_ROWS,
            old(self).fresh_until(msg.created_at),
            msg.updated_at == msg.created_at,
        ensures
            final(self).wf(),
            r is Err <==> find_message_row(old(self).messages@, msg.id@) is Some,
            r is Err ==> *final(self) == *old(self),
            r is Ok ==> {
                &&& final(self).messages@ == old(self).messages@.push(msg)
                &&& final(self).rooms@.len() == old(self).rooms@.len()
                &&& (forall|i: int|
                    0 <= i < old(self).rooms@.len() ==> #[trigger] final(self).rooms@[i] == if old(
                        self,
                    ).rooms@[i].id@ == msg.room_id@ {
                        (Room { last_message_at: Some(msg.created_at), ..old(self).rooms@[i] })
                    } else {
                        old(self).rooms@[i]
                    })
                &&& final(self).members@.len() == old(self).members@.len()
                &&& (forall|i: int|
                    0 <= i < old(self).members@.len() ==> #[trigger] final(self).members@[i]
                        == if old(self).members@[i].room_id@ == msg.room_id@
                        && old(self).members@[i].left_at is None {
                        (RoomMember { hidden_at: None, ..old(self).members@[i] })
                    } else {
                        old(self).members@[i]
                    })
                &&& (forall|i: int|
                    0 <= i < final(self).members@.len() && (
                    #[trigger] final(self).members@[i]).room_id@ == msg.room_id@
                        && final(self).members@[i].left_at is None
                        ==> final(self).members@[i].hidden_at is None)
                &&& final(self).users@ == old(self).users@
                &&& final(self).invitations@ == old(self).invitations@
                &&& final(self).next_member_id == old(self).next_member_id
                &&& final(self).next_invitation_id == old(self).next_invitation_id
                &&& final(self).fresh_until(msg.created_at)
            },
    {
        let n = self.messages.len();
        let mut i: usize = 0;
        while i < n
            invariant
                n == self.messages@.len(),
                0 <= i <= n,
                *self == *old(self),
                old(self).wf(),
                forall|k: int| 0 <= k < i ==> (#[trigger] self.messages@[k]).id@ != msg.id@,
            decreases n - i,
        {
            if str_eq(self.messages[i].id.as_str(), msg.id.as_str()) {
                proof {
                    lemma_find_message_row_at(self.messages@, msg.id@, i as int);
                }
                return Err(());
            }
            i = i + 1;
        }
        proof {
            lemma_find_message_row_absent(self.messages@, msg.id@);
        }
        let ghost msg_snap = msg;
        let rid = msg.room_id.clone();
        self.messages.push(msg);
        let rn = self.rooms.len();
        let ghost r0 = self.rooms@;
        let mut j: usize = 0;
        while j < rn
            invariant
                rn == r0.len(),
                self.rooms@.len() == r0.len(),
                0 <= j <= rn,
                r0 == old(self).rooms@,
                rid@ == msg_snap.room_id@,
                forall|k: int| j <= k < rn ==> self.rooms@[k] == r0[k],
                forall|k: int|
                    0 <= k < j ==> #[trigger] self.rooms@[k] == if r0[k].id@ == rid@ {
                        (Room { last_message_at: Some(msg_snap.created_at), ..r0[k] })
                    } else {
                        r0[k]
                    },
                self.messages@.len() > 0,
                self.users@ == old(self).users@,
                self.members@ == old(self).members@,
                self.invitations@ == old(self).invitations@,
                self.next_member_id == old(self).next_member_id,
                self.next_invitation_id == old(self).next_invitation_id,
                self.messages@ == old(self).messages@.push(msg_snap),
            decreases rn - j,
        {
            if str_eq(self.rooms[j].id.as_str(), rid.as_str()) {
                let when = self.messages[self.messages.len() - 1].created_at;
                let entry = vstd::std_specs::vec::vec_index_mut(&mut self.rooms, j);
                entry.last_message_at = Some(when);
            }
            j = j + 1;
        }
        update_member_rows(&mut self.members, &rid, None, MemberUpdate::Unhide, 0);
        proof {
            let m0 = old(self).members@;
            let m1 = self.members@;
            assert forall|a: int, b: int| 0 <= a < b < m1.len() implies !(m1[a].room_id@
                == m1[b].room_id@ && m1[a].user_id == m1[b].user_id) by {
                assert(m1[a].room_id@ == m0[a].room_id@ && m1[a].user_id == m0[a].user_id);
                assert(m1[b].room_id@ == m0[b].room_id@ && m1[b].user_id == m0[b].user_id);
            }
            assert forall|a: int| 0 <= a < m1.len() implies (#[trigger] m1[a]).id
                < self.next_member_id by {
                assert(m1[a].id == m0[a].id);
            }
            let s0 = old(self).messages@;
            let s1 = self.messages@;
            lemma_find_message_row_none_pointwise(s0, msg_snap.id@);
            assert forall|a: int, b: int| 0 <= a < b < s1.len() implies s1[a].id@
                != s1[b].id@ by {
                if b < s1.len() - 1 {
                    assert(s1[a] == s0[a] && s1[b] == s0[b]);
                } else {
                    assert(s1[b] == msg_snap);
                    assert(s1[a] == s0[a]);
                }
            }
            assert forall|a: int, b: int| 0 <= a < b < s1.len() implies s1[a].created_at
                <= s1[b].created_at by {
                if b < s1.len() - 1 {
                    assert(s1[a] == s0[a] && s1[b] == s0[b]);
                } else {
                    assert(s1[b] == msg_snap);
                    assert(s1[a] == s0[a]);
                    assert(s0[a].created_at <= msg_snap.created_at);
                }
            }
            assert forall|k: int|
                0 <= k < m1.len() implies find_room_row(
                self.rooms@,
                (#[trigger] m1[k]).room_id@,
            ) is Some by {
                assert(m1[k].room_id@ == m0[k].room_id@);
                assert(find_room_row(old(self).rooms@, m0[k].room_id@) is Some);
                lemma_find_room_same_ids(old(self).rooms@, self.rooms@, m0[k].room_id@);
            }
            assert forall|k: int|
                0 <= k < self.invitations@.len() implies find_room_row(
                self.rooms@,
                (#[trigger] self.invitations@[k]).room_id@,
            ) is Some by {
                lemma_find_room_same_ids(
                    old(self).rooms@,
                    self.rooms@,
                    self.invitations@[k].room_id@,
                );
            }
            assert(self.fresh_until(msg_snap.created_at)) by {
                assert forall|a: int|
                    0 <= a < self.rooms@.len() implies (#[trigger] self.rooms@[a]).created_at
                    <= msg_snap.created_at && self.rooms@[a].updated_at <= msg_snap.created_at && (
                self.rooms@[a].last_message_at matches Some(m) ==> m <= msg_snap.created_at) by {
                    assert(old(self).rooms@[a].created_at <= msg_snap.created_at);
                }
                assert forall|a: int|
                    0 <= a < m1.len() implies (#[trigger] m1[a]).joined_at <= msg_snap.created_at
                    && (m1[a].left_at matches Some(m) ==> m <= msg_snap.created_at) && (
                m1[a].hidden_at matches Some(m) ==> m <= msg_snap.created_at) && (m1[a].last_read_at
                    matches Some(m) ==> m <= msg_snap.created_at) by {
                    assert(m0[a].joined_at <= msg_snap.created_at);
                    assert(m1[a].joined_at == m0[a].joined_at && m1[a].left_at == m0[a].left_at
                        && m1[a].last_read_at == m0[a].last_read_at);
                    assert(m1[a].hidden_at == m0[a].hidden_at || m1[a].hidden_at is None);
                }
                assert forall|a: int|
                    0 <= a < s1.len() implies (#[trigger] s1[a]).created_at <= msg_snap.created_at
                    && s1[a].updated_at <= msg_snap.created_at by {
                    if a < s1.len() - 1 {
                        assert(s1[a] == s0[a]);
                        assert(old(self).messages@[a].created_at <= msg_snap.created_at);
                    }
                }
            }
        }
        Ok(())
    }

    /// The number of messages of the room past the caller's read marker
    /// from other senders; zero without a membership row.
    pub fn get_unread_count(&self, room_id: &String, user_id: i64) -> (r: i64)
        requires
            self.wf(),
        ensures
            r == unread_spec(*self, room_id@, user_id),
    {
        let n = self.members.len();
        let mut i: usize = 0;
        while i < n
            invariant
                n == self.members@.len(),
                0 <= i <= n,
                self.wf(),
                forall|k: int|
                    0 <= k < i ==> !((#[trigger] self.members@[k]).room_id@ == room_id@
                        && self.members@[k].user_id == user_id),
            decreases n - i,
        {
            if str_eq(self.members[i].room_id.as_str(), room_id.as_str()) && self.members[i].user_id
                == user_id {
                proof {
                    lemma_find_member_at(self.members@, room_id@, user_id, i as int);
                }
                let marker = match self.members[i].last_read_at {
                    Some(t) => t,
                    None => self.members[i].joined_at,
                };
                return self.count_unread(room_id, user_id, marker);
            }
            i = i + 1;
        }
        proof {
            lemma_find_member_absent(self.members@, room_id@, user_id);
        }
        0
    }

    /// Count the page-window of unread messages against a given marker.
    fn count_unread(&self, room_id: &String, user_id: i64, marker: i64) -> (r: i64)
        requires
            self.wf(),
        ensures
            r == unread_from(self.messages@, room_id@, user_id, marker as int),
    {
        let n = self.messages.len();
        let mut count: i64 = 0;
        let mut i: usize = 0;
        while i < n
            invariant
                n == self.messages@.len(),
                n < MAX_ROWS,
                0 <= i <= n,
                0 <= count <= i,
                count == unread_from(
                    self.messages@.subrange(0, i as int),
                    room_id@,
                    user_id,
                    marker as int,
                ),
            decreases n - i,
        {
            proof {
                assert(self.messages@.subrange(0, i as int + 1).drop_last()
                    =~= self.messages@.subrange(0, i as int));
                assert(self.messages@.subrange(0, i as int + 1).last()
                    == self.messages@[i as int]);
            }
            if str_eq(self.messages[i].room_id.as_str(), room_id.as_str())
                && self.messages[i].created_at > marker && self.messages[i].sender_id != user_id {
                count = count + 1;
            }
            i = i + 1;
        }
        proof {
            assert(self.messages@.subrange(0, n as int) =~= self.messages@);
        }
        count
    }

    /// The page-window message indices for a room, newest first: the
    /// `limit` greatest messages of the room under the room order —
    /// creation time, ties broken by id — restricted to ids below
    /// `before_id` when given.
    #[verifier::rlimit(60)]
    pub fn get_room_messages(&self, room_id: &String, limit: usize, before_id: Option<&String>) -> (r:
        Vec<usize>)
        requires
            self.wf(),
        ensures
            ({
                let before = match before_id {
                    Some(b) => Some(b@),
                    None => None,
                };
                let matching = page_matches(self.messages@, room_id@, before);
                let k = if limit <= matching.len() {
                    limit as int
                } else {
                    matching.len() as int
                };
                &&& r@.len() == k
                &&& (forall|p: int|
                    0 <= p < k ==> 0 <= #[trigger] r@[p] < self.messages@.len() && page_hit(
                        self.messages@[r@[p] as int],
                        room_id@,
                        before,
                    ))
                &&& (forall|p: int, q: int| 0 <= p < q < k ==> r@[p] != r@[q])
                &&& (forall|p: int, q: int|
                    0 <= p < q < k ==> msg_before(
                        self.messages@[r@[q] as int],
                        self.messages@[r@[p] as int],
                    ))
                &&& (forall|j: int|
                    0 <= j < self.messages@.len() && page_hit(
                        #[trigger] self.messages@[j],
                        room_id@,
                        before,
                    ) ==> (r@.contains(j as usize) || (k == limit && (k == 0 || msg_before(
                        self.messages@[j],
                        self.messages@[r@[k - 1] as int],
                    )))))
            }),
    {
        let ghost before = match before_id {
            Some(b) => Some(b@),
            None => None,
        };
        let n = self.messages.len();
        let mut all: Vec<usize> = Vec::new();
        let mut i: usize = 0;
        while i < n
            invariant
                n == self.messages@.len(),
                0 <= i <= n,
                all@.map_values(|x: usize| x as int) == page_matches(
                    self.messages@.subrange(0, i as int),
                    room_id@,
                    before,
                ),
                forall|p: int| 0 <= p < all@.len() ==> (#[trigger] all@[p]) < i,
                before == (match before_id {
                    Some(b) => Some(b@),
                    None => None,
                }),
            decreases n - i,
        {
            proof {
                assert(self.messages@.subrange(0, i as int + 1).drop_last()
                    =~= self.messages@.subrange(0, i as int));
                assert(self.messages@.subrange(0, i as int + 1).last()
                    == self.messages@[i as int]);
            }
            let hit_room = str_eq(self.messages[i].room_id.as_str(), room_id.as_str());
            let hit_before = match before_id {
                Some(b) => crate::text::str_lt(self.messages[i].id.as_str(), b.as_str()),
                None => true,
            };
            if hit_room && hit_before {
                all.push(i);
                proof {
                    assert(all@.map_values(|x: usize| x as int) =~= page_matches(
                        self.messages@.subrange(0, i as int + 1),
                        room_id@,
                        before,
                    ));
                }
            }
            i = i + 1;
        }
        proof {
            assert(self.messages@.subrange(0, n as int) =~= self.messages@);
            lemma_page_matches_props(self.messages@, room_id@, before);
        }
        let ghost matching = page_matches(self.messages@, room_id@, before);
        proof {
            assert forall|q: int|
                0 <= q < all@.len() implies 0 <= #[trigger] all@[q] < self.messages@.len()
                && page_hit(self.messages@[all@[q] as int], room_id@, before) by {
                assert(all@.map_values(|x: usize| x as int)[q] == matching[q]);
            }
            assert forall|q1: int, q2: int|
                0 <= q1 < q2 < all@.len() implies all@[q1] < all@[q2] by {
                assert(all@.map_values(|x: usize| x as int)[q1] == matching[q1]);
                assert(all@.map_values(|x: usize| x as int)[q2] == matching[q2]);
            }
        }
        let total = all.len();
        let mut sorted: Vec<usize> = Vec::new();
        let mut p: usize = 0;
        while p < total
            invariant
                total == all@.len(),
                0 <= p <= total,
                self.wf(),
                matching == page_matches(self.messages@, room_id@, before),
                all@.map_values(|x: usize| x as int) == matching,
                forall|q: int|
                    0 <= q < all@.len() ==> 0 <= #[trigger] all@[q] < self.messages@.len()
                        && page_hit(self.messages@[all@[q] as int], room_id@, before),
                forall|q1: int, q2: int| 0 <= q1 < q2 < all@.len() ==> all@[q1] < all@[q2],
                sorted@.len() == p,
                forall|x: usize|
                    #[trigger] sorted@.contains(x) <==> all@.subrange(0, p as int).contains(x),
                forall|q: int|
                    0 <= q < sorted@.len() ==> 0 <= #[trigger] sorted@[q] < self.messages@.len()
                        && page_hit(self.messages@[sorted@[q] as int], room_id@, before),
                forall|q1: int, q2: int|
                    0 <= q1 < q2 < sorted@.len() ==> sorted@[q1] != sorted@[q2],
                forall|q1: int, q2: int|
                    0 <= q1 < q2 < sorted@.len() ==> msg_before(
                        self.messages@[sorted@[q2] as int],
                        self.messages@[sorted@[q1] as int],
                    ),
            decreases total - p,
        {
            let idx = all[p];
            proof {
                if sorted@.contains(idx) {
                    let m = choose|m: int|
                        0 <= m < p && (#[trigger] all@.subrange(0, p as int)[m]) == idx;
                    assert(all@[m] == all@[p as int]);
                    assert(all@[m] < all@[p as int]);
                }
                assert forall|q: int|
                    0 <= q < sorted@.len() implies self.messages@[(
                #[trigger] sorted@[q]) as int].id@ != self.messages@[idx as int].id@ by {
                    assert(sorted@.contains(sorted@[q]));
                    assert(all@.subrange(0, p as int).contains(sorted@[q]));
                    let m = choose|m: int|
                        0 <= m < p && (#[trigger] all@.subrange(0, p as int)[m]) == sorted@[q];
                    assert(all@[m] < all@[p as int]);
                }
            }
            let ghost pre = sorted@;
            insert_msg_sorted(&mut sorted, &self.messages, idx, Ghost(room_id@), Ghost(before));
            proof {
                assert(all@.subrange(0, p as int + 1).drop_last() =~= all@.subrange(0, p as int));
                assert forall|x: usize|
                    #[trigger] sorted@.contains(x) <==> all@.subrange(0, p as int + 1).contains(
                    x,
                ) by {
                    if sorted@.contains(x) {
                        if x == idx {
                            assert(all@.subrange(0, p as int + 1)[p as int] == x);
                        } else {
                            assert(pre.contains(x));
                            let m = choose|m: int|
                                0 <= m < p && (#[trigger] all@.subrange(0, p as int)[m]) == x;
                            assert(all@.subrange(0, p as int + 1)[m] == x);
                        }
                    }
                    if all@.subrange(0, p as int + 1).contains(x) {
                        let m = choose|m: int|
                            0 <= m <= p && (#[trigger] all@.subrange(0, p as int + 1)[m]) == x;
                        if m < p {
                            assert(all@.subrange(0, p as int)[m] == x);
                            assert(pre.contains(x));
                        }
                    }
                }
            }
            p = p + 1;
        }
        proof {
            assert(all@.subrange(0, total as int) =~= all@);
        }
        let k = if limit <= total {
            limit
        } else {
            total
        };
        let mut out: Vec<usize> = Vec::new();
        let mut q: usize = 0;
        while q < k
            invariant
                k <= total,
                total == sorted@.len(),
                0 <= q <= k,
                out@.len() == q,
                forall|m: int| 0 <= m < q ==> out@[m] == sorted@[m],
            decreases k - q,
        {
            out.push(sorted[q]);
            q = q + 1;
        }
        proof {
            assert forall|j: int|
                0 <= j < self.messages@.len() && page_hit(
                    #[trigger] self.messages@[j],
                    room_id@,
                    before,
                ) implies (out@.contains(j as usize) || (k == limit && (k == 0 || msg_before(
                self.messages@[j],
                self.messages@[out@[k - 1] as int],
            )))) by {
                assert(matching.contains(j));
                let m0 = choose|m0: int| 0 <= m0 < matching.len() && matching[m0] == j;
                assert(all@.map_values(|x: usize| x as int)[m0] == j);
                assert(all@[m0] == j as usize);
                assert(all@.contains(all@[m0]));
                assert(sorted@.contains(j as usize));
                let m = choose|m: int| 0 <= m < sorted@.len() && sorted@[m] == j as usize;
                if m < k {
                    assert(out@[m] == j as usize);
                } else {
                    assert(k < sorted@.len());
                    assert(k == limit);
                    if k > 0 {
                        assert(msg_before(
                            self.messages@[sorted@[m] as int],
                            self.messages@[sorted@[k - 1] as int],
                        ));
                        assert(out@[k - 1] == sorted@[k - 1]);
                    }
                }
            }
        }
        out
    }
}

/// The first invitation with this id.
pub open spec fn find_invitation_row(s: Seq<RoomInvitation>, id: i64) -> Option<RoomInvitation>
    decreases s.len(),
{
    if s.len() == 0 {
        None
    } else if s[0].id == id {
        Some(s[0])
    } else {
        find_invitation_row(s.drop_first(), id)
    }
}

/// How many active admins the room has.
pub open spec fn active_admin_count(s: Seq<RoomMember>, rid: Seq<char>) -> int
    decreases s.len(),
{
    if s.len() == 0 {
        0
    } else {
        active_admin_count(s.drop_last(), rid) + if s.last().room_id@ == rid && s.last().left_at
            is None && s.last().role is Admin {
            1int
        } else {
            0int
        }
    }
}

/// How many active members the room has.
pub open spec fn active_member_count(s: Seq<RoomMember>, rid: Seq<char>) -> int
    decreases s.len(),
{
    if s.len() == 0 {
        0
    } else {
        active_member_count(s.drop_last(), rid) + if s.last().room_id@ == rid && s.last().left_at
            is None {
            1int
        } else {
            0int
        }
    }
}

/// Whether the user is an active admin of the room.
pub open spec fn is_active_admin(s: Seq<RoomMember>, rid: Seq<char>, u: i64) -> bool {
    match find_member_row(s, rid, u) {
        Some(m) => m.left_at is None && m.role is Admin,
        None => false,
    }
}

/// The indices of the room's membership rows, in table order.
pub open spec fn member_indices(s: Seq<RoomMember>, rid: Seq<char>) -> Seq<int>
    decreases s.len(),
{
    if s.len() == 0 {
        Seq::empty()
    } else {
        let r = member_indices(s.drop_last(), rid);
        if s.last().room_id@ == rid {
            r.push(s.len() - 1)
        } else {
            r
        }
    }
}

/// The sort key of a room listing: latest activity, else creation.
pub open spec fn room_sort_key(r: Room) -> int {
    match r.last_message_at {
        Some(t) => t as int,
        None => r.created_at as int,
    }
}

impl ChatStore {
    /// The index of the room with this id.
    pub fn get_room(&self, room_id: &String) -> (r: Option<usize>)
        ensures
            r is None <==> find_room_row(self.rooms@, room_id@) is None,
            r matches Some(i) ==> i < self.rooms@.len() && find_room_row(self.rooms@, room_id@)
                == Some(self.rooms@[i as int]),
    {
        let n = self.rooms.len();
        let mut i: usize = 0;
        while i < n
            invariant
                n == self.rooms@.len(),
                0 <= i <= n,
                forall|k: int| 0 <= k < i ==> (#[trigger] self.rooms@[k]).id@ != room_id@,
            decreases n - i,
        {
            if str_eq(self.rooms[i].id.as_str(), room_id.as_str()) {
                proof {
                    lemma_find_room_row_at(self.rooms@, room_id@, i as int);
                }
                return Some(i);
            }
            i = i + 1;
        }
        proof {
            lemma_find_room_row_absent(self.rooms@, room_id@);
        }
        None
    }

    /// The indices of the room's membership rows, left members included.
    pub fn get_room_members(&self, room_id: &String) -> (r: Vec<usize>)
        ensures
            r@.map_values(|x: usize| x as int) == member_indices(self.members@, room_id@),
            forall|p: int| 0 <= p < r@.len() ==> (#[trigger] r@[p]) < self.members@.len(),
    {
        let n = self.members.len();
        let mut out: Vec<usize> = Vec::new();
        let mut i: usize = 0;
        while i < n
            invariant
                n == self.members@.len(),
                0 <= i <= n,
                out@.map_values(|x: usize| x as int) == member_indices(
                    self.members@.subrange(0, i as int),
                    room_id@,
                ),
                forall|p: int| 0 <= p < out@.len() ==> (#[trigger] out@[p]) < i,
            decreases n - i,
        {
            proof {
                assert(self.members@.subrange(0, i as int + 1).drop_last()
                    =~= self.members@.subrange(0, i as int));
                assert(self.members@.subrange(0, i as int + 1).last() == self.members@[i as int]);
            }
            if str_eq(self.members[i].room_id.as_str(), room_id.as_str()) {
                out.push(i);
                proof {
                    assert(out@.map_values(|x: usize| x as int) =~= member_indices(
                        self.members@.subrange(0, i as int + 1),
                        room_id@,
                    ));
                }
            }
            i = i + 1;
        }
        proof {
            assert(self.members@.subrange(0, n as int) =~= self.members@);
        }
        out
    }

    /// Count the room's active admins.
    pub fn count_active_admins(&self, room_id: &String) -> (r: usize)
        requires
            self.wf(),
        ensures
            r == active_admin_count(self.members@, room_id@),
    {
        let n = self.members.len();
        let mut count: usize = 0;
        let mut i: usize = 0;
        while i < n
            invariant
                n == self.members@.len(),
                n < MAX_ROWS,
                0 <= i <= n,
                0 <= count <= i,
                count == active_admin_count(self.members@.subrange(0, i as int), room_id@),
            decreases n - i,
        {
            proof {
                assert(self.members@.subrange(0, i as int + 1).drop_last()
                    =~= self.members@.subrange(0, i as int));
                assert(self.members@.subrange(0, i as int + 1).last() == self.members@[i as int]);
            }
            let is_admin = match self.members[i].role {
                MemberRole::Admin => true,
                MemberRole::Member => false,
            };
            if str_eq(self.members[i].room_id.as_str(), room_id.as_str())
                && self.members[i].left_at.is_none() && is_admin {
                count = count + 1;
            }
            i = i + 1;
        }
        proof {
            assert(self.members@.subrange(0, n as int) =~= self.members@);
        }
        count
    }

    /// Count the room's active members.
    pub fn count_active_members(&self, room_id: &String) -> (r: usize)
        requires
            self.wf(),
        ensures
            r == active_member_count(self.members@, room_id@),
    {
        let n = self.members.len();
        let mut count: usize = 0;
        let mut i: usize = 0;
        while i < n
            invariant
                n == self.members@.len(),
                n < MAX_ROWS,
                0 <= i <= n,
                0 <= count <= i,
                count == active_member_count(self.members@.subrange(0, i as int), room_id@),
            decreases n - i,
        {
            proof {
                assert(self.members@.subrange(0, i as int + 1).drop_last()
                    =~= self.members@.subrange(0, i as int));
                assert(self.members@.subrange(0, i as int + 1).last() == self.members@[i as int]);
            }
            if str_eq(self.members[i].room_id.as_str(), room_id.as_str())
                && self.members[i].left_at.is_none() {
                count = count + 1;
            }
            i = i + 1;
        }
        proof {
            assert(self.members@.subrange(0, n as int) =~= self.members@);
        }
        count
    }

    /// Whether the user is an active admin of the room.
    pub fn check_active_admin(&self, room_id: &String, user_id: i64) -> (r: bool)
        ensures
            r == is_active_admin(self.members@, room_id@, user_id),
    {
        let n = self.members.len();
        let mut i: usize = 0;
        while i < n
            invariant
                n == self.members@.len(),
                0 <= i <= n,
                forall|k: int|
                    0 <= k < i ==> !((#[trigger] self.members@[k]).room_id@ == room_id@
                        && self.members@[k].user_id == user_id),
            decreases n - i,
        {
            if str_eq(self.members[i].room_id.as_str(), room_id.as_str()) && self.members[i].user_id
                == user_id {
                proof {
                    lemma_find_member_at(self.members@, room_id@, user_id, i as int);
                }
                let is_admin = match self.members[i].role {
                    MemberRole::Admin => true,
                    MemberRole::Member => false,
                };
                return self.members[i].left_at.is_none() && is_admin;
            }
            i = i + 1;
        }
        proof {
            lemma_find_member_absent(self.members@, room_id@, user_id);
        }
        false
    }

    /// Insert a pending invitation with a fresh id, and hand the id back.
    pub fn create_invitation(&mut self, room_id: &String, user_id: i64, invited_by: i64, now: i64) -> (r:
        i64)
        requires
            old(self).wf(),
            old(self).invitations@.len() + 1 < MAX_ROWS,
            old(self).fresh_until(now),
            0 <= now,
            find_room_row(old(self).rooms@, room_id@) is Some,
        ensures
            final(self).wf(),
            final(self).fresh_until(now),
            r == old(self).next_invitation_id,
            final(self).invitations@ == old(self).invitations@.push(
                (RoomInvitation {
                    id: r,
                    room_id: final(self).invitations@.last().room_id,
                    user_id,
                    invited_by,
                    status: InviteStatus::Pending,
                    created_at: now,
                    updated_at: now,
                }),
            ),
            final(self).invitations@.last().room_id@ == room_id@,
            final(self).next_invitation_id == old(self).next_invitation_id + 1,
            *final(self) == (ChatStore {
                invitations: final(self).invitations,
                next_invitation_id: final(self).next_invitation_id,
                ..*old(self)
            }),
    {
        let id = self.next_invitation_id;
        let row = RoomInvitation {
            id,
            room_id: room_id.clone(),
            user_id,
            invited_by,
            status: InviteStatus::Pending,
            created_at: now,
            updated_at: now,
        };
        self.invitations.push(row);
        self.next_invitation_id = self.next_invitation_id + 1;
        id
    }

    /// The index of the invitation with this id.
    pub fn get_invitation(&self, invitation_id: i64) -> (r: Option<usize>)
        ensures
            r is None <==> find_invitation_row(self.invitations@, invitation_id) is None,
            r matches Some(i) ==> i < self.invitations@.len() && find_invitation_row(
                self.invitations@,
                invitation_id,
            ) == Some(self.invitations@[i as int]),
    {
        let n = self.invitations.len();
        let mut i: usize = 0;
        while i < n
            invariant
                n == self.invitations@.len(),
                0 <= i <= n,
                forall|k: int| 0 <= k < i ==> (#[trigger] self.invitations@[k]).id != invitation_id,
            decreases n - i,
        {
            if self.invitations[i].id == invitation_id {
                proof {
                    lemma_find_invitation_row_at(self.invitations@, invitation_id, i as int);
                }
                return Some(i);
            }
            i = i + 1;
        }
        proof {
            lemma_find_invitation_row_absent(self.invitations@, invitation_id);
        }
        None
    }

    /// Move an invitation to a terminal state; the update touches every
    /// row with the id — there is exactly one — and nothing else.
    pub fn update_invitation_status(&mut self, invitation_id: i64, status: InviteStatus, now: i64)
        requires
            old(self).wf(),
        ensures
            final(self).wf(),
            final(self).invitations@.len() == old(self).invitations@.len(),
            forall|i: int|
                0 <= i < old(self).invitations@.len() ==> #[trigger] final(self).invitations@[i]
                    == if old(self).invitations@[i].id == invitation_id {
                    (RoomInvitation {
                        status,
                        updated_at: now,
                        ..old(self).invitations@[i]
                    })
                } else {
                    old(self).invitations@[i]
                },
            *final(self) == (ChatStore { invitations: final(self).invitations, ..*old(self) }),
    {
        let ghost v0 = self.invitations@;
        let n = self.invitations.len();
        let mut i: usize = 0;
        while i < n
            invariant
                n == v0.len(),
                self.invitations@.len() == v0.len(),
                0 <= i <= n,
                v0 == old(self).invitations@,
                old(self).wf(),
                *self == (ChatStore { invitations: self.invitations, ..*old(self) }),
                forall|k: int| i <= k < n ==> self.invitations@[k] == v0[k],
                forall|k: int|
                    0 <= k < i ==> #[trigger] self.invitations@[k] == if v0[k].id == invitation_id {
                        (RoomInvitation { status, updated_at: now, ..v0[k] })
                    } else {
                        v0[k]
                    },
            decreases n - i,
        {
            if self.invitations[i].id == invitation_id {
                let entry = vstd::std_specs::vec::vec_index_mut(&mut self.invitations, i);
                entry.status = status;
                entry.updated_at = now;
            }
            i = i + 1;
        }
    }

    /// The indices of the user's invitations with the given status,
    /// newest first — invitation rows arrive in time order.
    pub fn get_user_invitations(&self, user_id: i64, status: InviteStatus) -> (r: Vec<usize>)
        ensures
            forall|p: int|
                0 <= p < r@.len() ==> 0 <= #[trigger] r@[p] < self.invitations@.len()
                    && self.invitations@[r@[p] as int].user_id == user_id
                    && self.invitations@[r@[p] as int].status == status,
            forall|i: int|
                0 <= i < self.invitations@.len() && (#[trigger] self.invitations@[i]).user_id
                    == user_id && self.invitations@[i].status == status ==> r@.contains(
                    i as usize,
                ),
            forall|p: int, q: int| 0 <= p < q < r@.len() ==> r@[p] > r@[q],
            self.wf() ==> forall|p: int, q: int|
                0 <= p < q < r@.len() ==> self.invitations@[r@[p] as int].created_at
                    >= self.invitations@[r@[q] as int].created_at,
    {
        let n = self.invitations.len();
        let mut out: Vec<usize> = Vec::new();
        let mut i: usize = n;
        while i > 0
            invariant
                n == self.invitations@.len(),
                0 <= i <= n,
                forall|p: int|
                    0 <= p < out@.len() ==> i <= #[trigger] out@[p] < n
                        && self.invitations@[out@[p] as int].user_id == user_id
                        && self.invitations@[out@[p] as int].status == status,
                forall|k: int|
                    i <= k < n && (#[trigger] self.invitations@[k]).user_id == user_id
                        && self.invitations@[k].status == status ==> out@.contains(k as usize),
                forall|p: int, q: int| 0 <= p < q < out@.len() ==> out@[p] > out@[q],
            decreases i,
        {
            i = i - 1;
            let matches_status = match (self.invitations[i].status, status) {
                (InviteStatus::Pending, InviteStatus::Pending) => true,
                (InviteStatus::Accepted, InviteStatus::Accepted) => true,
                (InviteStatus::Declined, InviteStatus::Declined) => true,
                _ => false,
            };
            if self.invitations[i].user_id == user_id && matches_status {
                let ghost pre = out@;
                out.push(i);
                proof {
                    assert forall|k: int|
                        i <= k < n && (#[trigger] self.invitations@[k]).user_id == user_id
                            && self.invitations@[k].status == status implies out@.contains(
                        k as usize,
                    ) by {
                        if k == i as int {
                            assert(out@[out@.len() - 1] == k as usize);
                        } else {
                            assert(pre.contains(k as usize));
                            let p = choose|p: int| 0 <= p < pre.len() && pre[p] == k as usize;
                            assert(out@[p] == k as usize);
                        }
                    }
                }
            }
        }
        out
    }

    /// The indices of the rooms the user sees in the listing: active and
    /// not hidden, ordered by latest activity, latest first.
    pub fn get_user_rooms(&self, user_id: i64) -> (r: Vec<usize>)
        requires
            self.wf(),
        ensures
            forall|p: int|
                0 <= p < r@.len() ==> 0 <= #[trigger] r@[p] < self.rooms@.len() && (
                find_member_row(self.members@, self.rooms@[r@[p] as int].id@, user_id)
                    matches Some(m) && m.visible()),
            forall|i: int|
                0 <= i < self.rooms@.len() && (find_member_row(
                    self.members@,
                    (#[trigger] self.rooms@[i]).id@,
                    user_id,
                ) matches Some(m) && m.visible()) ==> r@.contains(i as usize),
            forall|p: int, q: int| 0 <= p < q < r@.len() ==> r@[p] != r@[q],
            forall|p: int, q: int|
                0 <= p < q < r@.len() ==> room_sort_key(self.rooms@[r@[p] as int]) >= room_sort_key(
                    self.rooms@[r@[q] as int],
                ),
    {
        let n = self.rooms.len();
        let mut out: Vec<usize> = Vec::new();
        let mut i: usize = 0;
        while i < n
            invariant
                n == self.rooms@.len(),
                0 <= i <= n,
                self.wf(),
                forall|p: int|
                    0 <= p < out@.len() ==> 0 <= #[trigger] out@[p] < i && (find_member_row(
                        self.members@,
                        self.rooms@[out@[p] as int].id@,
                        user_id,
                    ) matches Some(m) && m.visible()),
                forall|k: int|
                    0 <= k < i && (find_member_row(
                        self.members@,
                        (#[trigger] self.rooms@[k]).id@,
                        user_id,
                    ) matches Some(m) && m.visible()) ==> out@.contains(k as usize),
                forall|p: int, q: int| 0 <= p < q < out@.len() ==> out@[p] != out@[q],
                forall|p: int, q: int|
                    0 <= p < q < out@.len() ==> room_sort_key(self.rooms@[out@[p] as int])
                        >= room_sort_key(self.rooms@[out@[q] as int]),
            decreases n - i,
        {
            let visible = self.member_visible(&self.rooms[i].id, user_id);
            if visible {
                let ghost pre = out@;
                insert_room_sorted(&mut out, &self.rooms, i);
                proof {
                    assert forall|p: int|
                        0 <= p < out@.len() implies 0 <= (#[trigger] out@[p]) < i + 1 && (
                    find_member_row(
                        self.members@,
                        self.rooms@[out@[p] as int].id@,
                        user_id,
                    ) matches Some(m) && m.visible()) by {
                        assert(out@.contains(out@[p]));
                        if out@[p] != i as usize {
                            assert(pre.contains(out@[p]));
                            let q = choose|q: int| 0 <= q < pre.len() && pre[q] == out@[p];
                        }
                    }
                    assert forall|k: int|
                        0 <= k < i + 1 && (find_member_row(
                            self.members@,
                            (#[trigger] self.rooms@[k]).id@,
                            user_id,
                        ) matches Some(m) && m.visible()) implies out@.contains(k as usize) by {
                        if k < i as int {
                            assert(pre.contains(k as usize));
                        }
                    }
                }
            }
            i = i + 1;
        }
        out
    }

    /// Whether the user's membership row in the room is active and not
    /// hidden.
    fn member_visible(&self, room_id: &String, user_id: i64) -> (r: bool)
        ensures
            r == (find_member_row(self.members@, room_id@, user_id) matches Some(m)
                && m.visible()),
    {
        let n = self.members.len();
        let mut i: usize = 0;
        while i < n
            invariant
                n == self.members@.len(),
                0 <= i <= n,
                forall|k: int|
                    0 <= k < i ==> !((#[trigger] self.members@[k]).room_id@ == room_id@
                        && self.members@[k].user_id == user_id),
            decreases n - i,
        {
            if str_eq(self.members[i].room_id.as_str(), room_id.as_str()) && self.members[i].user_id
                == user_id {
                proof {
                    lemma_find_member_at(self.members@, room_id@, user_id, i as int);
                }
                return self.members[i].left_at.is_none() && self.members[i].hidden_at.is_none();
            }
            i = i + 1;
        }
        proof {
            lemma_find_member_absent(self.members@, room_id@, user_id);
        }
        false
    }
}

/// Insert a room index into a listing kept sorted by activity, latest
/// first; ties go after their equals, keeping earlier entries first.
fn insert_room_sorted(out: &mut Vec<usize>, rooms: &Vec<Room>, idx: usize)
    requires
        idx < rooms@.len(),
        forall|p: int| 0 <= p < old(out)@.len() ==> (#[trigger] old(out)@[p]) < rooms@.len(),
        !old(out)@.contains(idx),
        forall|p: int, q: int| 0 <= p < q < old(out)@.len() ==> old(out)@[p] != old(out)@[q],
        forall|p: int, q: int|
            0 <= p < q < old(out)@.len() ==> room_sort_key(rooms@[old(out)@[p] as int])
                >= room_sort_key(rooms@[old(out)@[q] as int]),
    ensures
        final(out)@.len() == old(out)@.len() + 1,
        forall|x: usize|
            #[trigger] final(out)@.contains(x) <==> (old(out)@.contains(x) || x == idx),
        forall|p: int| 0 <= p < final(out)@.len() ==> (#[trigger] final(out)@[p]) < rooms@.len(),
        forall|p: int, q: int| 0 <= p < q < final(out)@.len() ==> final(out)@[p] != final(out)@[q],
        forall|p: int, q: int|
            0 <= p < q < final(out)@.len() ==> room_sort_key(rooms@[final(out)@[p] as int])
                >= room_sort_key(rooms@[final(out)@[q] as int]),
    {
    let o0 = out.len();
    let key_new = match rooms[idx].last_message_at {
        Some(t) => t,
        None => rooms[idx].created_at,
    };
    let mut pos: usize = 0;
    let mut found: bool = false;
    while pos < o0 && !found
        invariant
            o0 == out@.len(),
            out@ == old(out)@,
            0 <= pos <= o0,
            idx < rooms@.len(),
            forall|p: int| 0 <= p < out@.len() ==> (#[trigger] out@[p]) < rooms@.len(),
            key_new == room_sort_key(rooms@[idx as int]),
            forall|p: int|
                0 <= p < pos ==> room_sort_key(rooms@[(#[trigger] out@[p]) as int]) >= key_new,
            found ==> pos < o0 && room_sort_key(rooms@[out@[pos as int] as int]) < key_new,
        decreases o0 - pos + if found {
            0int
        } else {
            1int
        },
    {
        let key_here = match rooms[out[pos]].last_message_at {
            Some(t) => t,
            None => rooms[out[pos]].created_at,
        };
        if key_here < key_new {
            found = true;
        } else {
            pos = pos + 1;
        }
    }
    let ghost before = out@;
    out.insert(pos, idx);
    proof {
        assert forall|x: usize| #[trigger] out@.contains(x) implies (before.contains(x) || x
            == idx) by {
            let p = choose|p: int| 0 <= p < out@.len() && out@[p] == x;
            if p < pos {
                assert(before[p] == x);
            } else if p > pos {
                assert(before[p - 1] == x);
            }
        }
        assert forall|x: usize| (before.contains(x) || x == idx) implies #[trigger] out@.contains(
            x,
        ) by {
            if before.contains(x) {
                let p = choose|p: int| 0 <= p < before.len() && before[p] == x;
                if p < pos {
                    assert(out@[p] == x);
                } else {
                    assert(out@[p + 1] == x);
                }
            } else {
                assert(out@[pos as int] == x);
            }
        }
        assert forall|p: int, q: int| 0 <= p < q < out@.len() implies out@[p] != out@[q] by {
            let bp: int = if p < pos {
                p
            } else {
                p - 1
            };
            let bq: int = if q < pos {
                q
            } else {
                q - 1
            };
            if p == pos {
                assert(out@[q] == before[bq]);
                assert(before.contains(before[bq]));
            } else if q == pos {
                assert(out@[p] == before[bp]);
                assert(before.contains(before[bp]));
            } else {
                assert(out@[p] == before[bp] && out@[q] == before[bq]);
            }
        }
        assert forall|p: int, q: int|
            0 <= p < q < out@.len() implies room_sort_key(rooms@[out@[p] as int]) >= room_sort_key(
            rooms@[out@[q] as int],
        ) by {
            let bp: int = if p < pos {
                p
            } else {
                p - 1
            };
            let bq: int = if q < pos {
                q
            } else {
                q - 1
            };
            if p == pos {
                assert(out@[q] == before[bq]);
                assert(bq >= pos);
                if found {
                    if bq > pos {
                        assert(room_sort_key(rooms@[before[pos as int] as int]) >= room_sort_key(
                            rooms@[before[bq] as int],
                        ));
                    }
                    assert(room_sort_key(rooms@[before[pos as int] as int]) < key_new);
                }
            } else if q == pos {
                assert(out@[p] == before[bp]);
                assert(bp < pos);
            } else {
                assert(out@[p] == before[bp] && out@[q] == before[bq]);
            }
        }
    }
}

/// Scan lemmas for the invitation table.
pub proof fn lemma_find_invitation_row_at(s: Seq<RoomInvitation>, id: i64, i: int)
    requires
        0 <= i < s.len(),
        s[i].id == id,
        forall|k: int| 0 <= k < i ==> (#[trigger] s[k]).id != id,
    ensures
        find_invitation_row(s, id) == Some(s[i]),
    decreases s.len(),
{
    if i > 0 {
        lemma_find_invitation_row_at(s.drop_first(), id, i - 1);
    }
}

pub proof fn lemma_find_invitation_row_absent(s: Seq<RoomInvitation>, id: i64)
    requires
        forall|k: int| 0 <= k < s.len() ==> (#[trigger] s[k]).id != id,
    ensures
        find_invitation_row(s, id) is None,
    decreases s.len(),
{
    if s.len() > 0 {
        lemma_find_invitation_row_absent(s.drop_first(), id);
    }
}


/// Insert a window index into a listing kept in the room order, newest
/// first; everything already listed keeps its place.
fn insert_msg_sorted(
    out: &mut Vec<usize>,
    msgs: &Vec<Message>,
    idx: usize,
    room: Ghost<Seq<char>>,
    before: Ghost<Option<Seq<char>>>,
)
    requires
        idx < msgs@.len(),
        page_hit(msgs@[idx as int], room@, before@),
        forall|p: int| 0 <= p < old(out)@.len() ==> (#[trigger] old(out)@[p]) < msgs@.len(),
        forall|p: int|
            0 <= p < old(out)@.len() ==> page_hit(
                msgs@[(#[trigger] old(out)@[p]) as int],
                room@,
                before@,
            ),
        !old(out)@.contains(idx),
        forall|p: int|
            0 <= p < old(out)@.len() ==> msgs@[(#[trigger] old(out)@[p]) as int].id@
                != msgs@[idx as int].id@,
        forall|p: int, q: int| 0 <= p < q < old(out)@.len() ==> old(out)@[p] != old(out)@[q],
        forall|p: int, q: int|
            0 <= p < q < old(out)@.len() ==> msg_before(
                msgs@[old(out)@[q] as int],
                msgs@[old(out)@[p] as int],
            ),
    ensures
        final(out)@.len() == old(out)@.len() + 1,
        forall|x: usize|
            #[trigger] final(out)@.contains(x) <==> (old(out)@.contains(x) || x == idx),
        forall|p: int| 0 <= p < final(out)@.len() ==> (#[trigger] final(out)@[p]) < msgs@.len(),
        forall|p: int|
            0 <= p < final(out)@.len() ==> page_hit(
                msgs@[(#[trigger] final(out)@[p]) as int],
                room@,
                before@,
            ),
        forall|p: int, q: int| 0 <= p < q < final(out)@.len() ==> final(out)@[p] != final(out)@[q],
        forall|p: int, q: int|
            0 <= p < q < final(out)@.len() ==> msg_before(
                msgs@[final(out)@[q] as int],
                msgs@[final(out)@[p] as int],
            ),
{
    let o0 = out.len();
    let mut pos: usize = 0;
    let mut found: bool = false;
    while pos < o0 && !found
        invariant
            o0 == out@.len(),
            out@ == old(out)@,
            0 <= pos <= o0,
            idx < msgs@.len(),
            forall|p: int| 0 <= p < out@.len() ==> (#[trigger] out@[p]) < msgs@.len(),
            forall|p: int|
                0 <= p < pos ==> !msg_before(
                    msgs@[(#[trigger] out@[p]) as int],
                    msgs@[idx as int],
                ),
            found ==> pos < o0 && msg_before(msgs@[out@[pos as int] as int], msgs@[idx as int]),
        decreases o0 - pos + if found {
            0int
        } else {
            1int
        },
    {
        let here = out[pos];
        let lt = msgs[here].created_at < msgs[idx].created_at || (msgs[here].created_at
            == msgs[idx].created_at && crate::text::str_lt(
            msgs[here].id.as_str(),
            msgs[idx].id.as_str(),
        ));
        if lt {
            found = true;
        } else {
            pos = pos + 1;
        }
    }
    let ghost before_seq = out@;
    out.insert(pos, idx);
    proof {
        assert forall|x: usize| #[trigger] out@.contains(x) implies (before_seq.contains(x) || x
            == idx) by {
            let p = choose|p: int| 0 <= p < out@.len() && out@[p] == x;
            if p < pos {
                assert(before_seq[p] == x);
            } else if p > pos {
                assert(before_seq[p - 1] == x);
            }
        }
        assert forall|x: usize| (before_seq.contains(x) || x == idx) implies #[trigger] out@.contains(
            x,
        ) by {
            if before_seq.contains(x) {
                let p = choose|p: int| 0 <= p < before_seq.len() && before_seq[p] == x;
                if p < pos {
                    assert(out@[p] == x);
                } else {
                    assert(out@[p + 1] == x);
                }
            } else {
                assert(out@[pos as int] == x);
            }
        }
        assert forall|p: int, q: int| 0 <= p < q < out@.len() implies out@[p] != out@[q] by {
            let bp: int = if p < pos {
                p
            } else {
                p - 1
            };
            let bq: int = if q < pos {
                q
            } else {
                q - 1
            };
            if p == pos {
                assert(out@[q] == before_seq[bq]);
                assert(before_seq.contains(before_seq[bq]));
            } else if q == pos {
                assert(out@[p] == before_seq[bp]);
                assert(before_seq.contains(before_seq[bp]));
            } else {
                assert(out@[p] == before_seq[bp] && out@[q] == before_seq[bq]);
            }
        }
        assert forall|p: int, q: int|
            0 <= p < q < out@.len() implies msg_before(
            msgs@[out@[q] as int],
            msgs@[out@[p] as int],
        ) by {
            let bp: int = if p < pos {
                p
            } else {
                p - 1
            };
            let bq: int = if q < pos {
                q
            } else {
                q - 1
            };
            if p == pos {
                assert(out@[q] == before_seq[bq]);
                assert(bq >= pos);
                if found {
                    if bq > pos {
                        lemma_msg_order_trans(
                            msgs@[before_seq[bq] as int],
                            msgs@[before_seq[pos as int] as int],
                            msgs@[idx as int],
                        );
                    }
                }
            } else if q == pos {
                assert(out@[p] == before_seq[bp]);
                assert(bp < pos);
                assert(!msg_before(msgs@[before_seq[bp] as int], msgs@[idx as int]));
                lemma_msg_order_connected(msgs@[before_seq[bp] as int], msgs@[idx as int]);
            } else {
                assert(out@[p] == before_seq[bp] && out@[q] == before_seq[bq]);
            }
        }
    }
}

/// What the page window holds: valid indices of the room's qualifying
/// messages, in table order, and all of them.
pub proof fn lemma_page_matches_props(msgs: Seq<Message>, rid: Seq<char>, before: Option<Seq<char>>)
    ensures
        forall|p: int|
            0 <= p < page_matches(msgs, rid, before).len() ==> 0 <= #[trigger] page_matches(
                msgs,
                rid,
                before,
            )[p] < msgs.len() && page_hit(
                msgs[page_matches(msgs, rid, before)[p]],
                rid,
                before,
            ),
        forall|p: int, q: int|
            0 <= p < q < page_matches(msgs, rid, before).len() ==> page_matches(
                msgs,
                rid,
                before,
            )[p] < page_matches(msgs, rid, before)[q],
        forall|j: int|
            0 <= j < msgs.len() && page_hit(#[trigger] msgs[j], rid, before) ==> page_matches(
                msgs,
                rid,
                before,
            ).contains(j),
    decreases msgs.len(),
{
    if msgs.len() > 0 {
        lemma_page_matches_props(msgs.drop_last(), rid, before);
        let m0 = page_matches(msgs.drop_last(), rid, before);
        let m1 = page_matches(msgs, rid, before);
        assert forall|p: int|
            0 <= p < m0.len() implies msgs[#[trigger] m0[p]] == msgs.drop_last()[m0[p]] by {}
        assert forall|j: int|
            0 <= j < msgs.len() && page_hit(#[trigger] msgs[j], rid, before) implies m1.contains(
            j,
        ) by {
            if j < msgs.len() - 1 {
                assert(msgs.drop_last()[j] == msgs[j]);
                assert(m0.contains(j));
                let p = choose|p: int| 0 <= p < m0.len() && m0[p] == j;
                assert(m1[p] == j);
            } else {
                assert(msgs.last() == msgs[msgs.len() - 1]);
                assert(m1.last() == j);
            }
        }
    }
}

/// Scan lemmas for the message table.
pub proof fn lemma_find_message_row_at(s: Seq<Message>, mid: Seq<char>, i: int)
    requires
        0 <= i < s.len(),
        s[i].id@ == mid,
        forall|k: int| 0 <= k < i ==> (#[trigger] s[k]).id@ != mid,
    ensures
        find_message_row(s, mid) == Some(s[i]),
    decreases s.len(),
{
    if i > 0 {
        lemma_find_message_row_at(s.drop_first(), mid, i - 1);
    }
}

pub proof fn lemma_find_message_row_absent(s: Seq<Message>, mid: Seq<char>)
    requires
        forall|k: int| 0 <= k < s.len() ==> (#[trigger] s[k]).id@ != mid,
    ensures
        find_message_row(s, mid) is None,
    decreases s.len(),
{
    if s.len() > 0 {
        lemma_find_message_row_absent(s.drop_first(), mid);
    }
}


/// A failed message lookup means no row carries the id.
pub proof fn lemma_find_message_row_none_pointwise(s: Seq<Message>, mid: Seq<char>)
    requires
        find_message_row(s, mid) is None,
    ensures
        forall|k: int| 0 <= k < s.len() ==> (#[trigger] s[k]).id@ != mid,
    decreases s.len(),
{
    if s.len() > 0 {
        lemma_find_message_row_none_pointwise(s.drop_first(), mid);
        assert forall|k: int| 0 <= k < s.len() implies (#[trigger] s[k]).id@ != mid by {
            if k > 0 {
                assert(s.drop_first()[k - 1] == s[k]);
            }
        }
    }
}

/// A longer message log never counts fewer unread messages.
proof fn lemma_unread_from_extends(
    p: Seq<Message>,
    s: Seq<Message>,
    rid: Seq<char>,
    u: i64,
    marker: int,
)
    requires
        p.len() <= s.len(),
        forall|i: int| 0 <= i < p.len() ==> s[i] == p[i],
    ensures
        unread_from(s, rid, u, marker) >= unread_from(p, rid, u, marker),
        unread_from(p, rid, u, marker) >= 0,
    decreases s.len(),
{
    if s.len() == p.len() {
        assert(s =~= p);
        if p.len() > 0 {
            lemma_unread_from_extends(p.drop_last(), p.drop_last(), rid, u, marker);
        }
    } else {
        lemma_unread_from_extends(p, s.drop_last(), rid, u, marker);
    }
}

/// Unread monotonicity: between two reads of `get_unread_count` for a
/// fixed room and user, the count never decreases as long as the log
/// only grew and the user's read marker stood still — only
/// `mark_room_as_read` (or a membership change) moves the marker, and a
/// user's own messages never count.
pub proof fn lemma_unread_monotone(before: ChatStore, after: ChatStore, rid: Seq<char>, u: i64)
    requires
        before.messages@.len() <= after.messages@.len(),
        forall|i: int| 0 <= i < before.messages@.len() ==> after.messages@[i] == before.messages@[i],
        read_marker(after.members@, rid, u) == read_marker(before.members@, rid, u),
    ensures
        unread_spec(after, rid, u) >= unread_spec(before, rid, u),
{
    match read_marker(before.members@, rid, u) {
        Some(marker) => {
            lemma_unread_from_extends(before.messages@, after.messages@, rid, u, marker);
        },
        None => {
        },
    }
}

/// Direct-room idempotency: once a direct room for the unordered pair
/// exists and is the only one, the symmetric lookup returns it — so a
/// second find-or-create returns the same room id, in either order of
/// the pair.
pub proof fn lemma_direct_room_idempotent(s: ChatStore, a: i64, b: i64, room: Room)
    requires
        spec_find_direct(s.rooms@, s.members@, a, b) == Some(room),
    ensures
        spec_find_direct(s.rooms@, s.members@, b, a) == Some(room),
{
    lemma_spec_find_direct_symmetric(s.rooms@, s.members@, a, b);
}

/// The direct-room lookup is symmetric in the pair.
pub proof fn lemma_spec_find_direct_symmetric(
    rooms: Seq<Room>,
    members: Seq<RoomMember>,
    a: i64,
    b: i64,
)
    ensures
        spec_find_direct(rooms, members, a, b) == spec_find_direct(rooms, members, b, a),
    decreases rooms.len(),
{
    if rooms.len() > 0 {
        lemma_spec_find_direct_symmetric(rooms.drop_first(), members, a, b);
    }
}

/// Which flag a member-row update writes.
#[derive(Clone, Copy, Debug)]
enum MemberUpdate {
    MarkRead,
    Hide,
    Leave,
    Unhide,
}

/// The row as one update statement leaves it.
spec fn apply_member_update(m: RoomMember, upd: MemberUpdate, now: i64) -> RoomMember {
    match upd {
        MemberUpdate::MarkRead => RoomMember { last_read_at: Some(now), ..m },
        MemberUpdate::Hide => RoomMember { hidden_at: Some(now), ..m },
        MemberUpdate::Leave => RoomMember { left_at: Some(now), ..m },
        MemberUpdate::Unhide => RoomMember { hidden_at: None, ..m },
    }
}

/// Whether the update statement selects this row.
spec fn member_update_selects(
    m: RoomMember,
    rid: Seq<char>,
    user: Option<i64>,
    upd: MemberUpdate,
) -> bool {
    m.room_id@ == rid && (match user {
        Some(u) => m.user_id == u,
        None => true,
    }) && (upd matches MemberUpdate::Unhide ==> m.left_at is None)
}

/// Run one member UPDATE statement: rewrite every selected row.
fn update_member_rows(
    members: &mut Vec<RoomMember>,
    room_id: &String,
    user: Option<i64>,
    upd: MemberUpdate,
    now: i64,
)
    ensures
        final(members)@.len() == old(members)@.len(),
        forall|i: int|
            0 <= i < old(members)@.len() ==> #[trigger] final(members)@[i]
                == if member_update_selects(old(members)@[i], room_id@, user, upd) {
                apply_member_update(old(members)@[i], upd, now)
            } else {
                old(members)@[i]
            },
{
    let ghost m0 = old(members)@;
    let n = members.len();
    let mut i: usize = 0;
    while i < n
        invariant
            n == m0.len(),
            members@.len() == m0.len(),
            0 <= i <= n,
            forall|k: int| i <= k < n ==> members@[k] == m0[k],
            forall|k: int|
                0 <= k < i ==> #[trigger] members@[k] == if member_update_selects(
                    m0[k],
                    room_id@,
                    user,
                    upd,
                ) {
                    apply_member_update(m0[k], upd, now)
                } else {
                    m0[k]
                },
        decreases n - i,
    {
        let row_user = members[i].user_id;
        let user_hit = match user {
            Some(u) => row_user == u,
            None => true,
        };
        let room_hit = str_eq(members[i].room_id.as_str(), room_id.as_str());
        let left_ok = match upd {
            MemberUpdate::Unhide => members[i].left_at.is_none(),
            _ => true,
        };
        if room_hit && user_hit && left_ok {
            let entry = vstd::std_specs::vec::vec_index_mut(members, i);
            match upd {
                MemberUpdate::MarkRead => {
                    entry.last_read_at = Some(now);
                },
                MemberUpdate::Hide => {
                    entry.hidden_at = Some(now);
                },
                MemberUpdate::Leave => {
                    entry.left_at = Some(now);
                },
                MemberUpdate::Unhide => {
                    entry.hidden_at = None;
                },
            }
        }
        i = i + 1;
    }
}


/// Appending a room keeps every prior room lookup found.
pub proof fn lemma_find_room_row_append(s: Seq<Room>, room: Room, rid: Seq<char>)
    requires
        find_room_row(s, rid) is Some,
    ensures
        find_room_row(s.push(room), rid) is Some,
    decreases s.len(),
{
    if s.len() > 0 {
        assert(s.push(room).drop_first() =~= s.drop_first().push(room));
        if s[0].id@ != rid {
            lemma_find_room_row_append(s.drop_first(), room, rid);
        }
    }
}

/// A rewrite that keeps every room's id keeps lookups found.
pub proof fn lemma_find_room_same_ids(r0: Seq<Room>, r1: Seq<Room>, rid: Seq<char>)
    requires
        r0.len() == r1.len(),
        forall|i: int| 0 <= i < r0.len() ==> (#[trigger] r1[i]).id@ == r0[i].id@,
    ensures
        find_room_row(r1, rid) is Some <==> find_room_row(r0, rid) is Some,
    decreases r0.len(),
{
    if r0.len() > 0 {
        assert(r1[0].id@ == r0[0].id@);
        if r0[0].id@ != rid {
            assert forall|i: int|
                0 <= i < r0.drop_first().len() implies (#[trigger] r1.drop_first()[i]).id@
                == r0.drop_first()[i].id@ by {
                assert(r1.drop_first()[i] == r1[i + 1]);
                assert(r0.drop_first()[i] == r0[i + 1]);
            }
            lemma_find_room_same_ids(r0.drop_first(), r1.drop_first(), rid);
        }
    }
}

/// Scan lemmas for the room table.
pub proof fn lemma_find_room_row_at(s: Seq<Room>, rid: Seq<char>, i: int)
    requires
        0 <= i < s.len(),
        s[i].id@ == rid,
        forall|k: int| 0 <= k < i ==> (#[trigger] s[k]).id@ != rid,
    ensures
        find_room_row(s, rid) == Some(s[i]),
    decreases s.len(),
{
    if i > 0 {
        lemma_find_room_row_at(s.drop_first(), rid, i - 1);
    }
}

pub proof fn lemma_find_room_row_absent(s: Seq<Room>, rid: Seq<char>)
    requires
        forall|k: int| 0 <= k < s.len() ==> (#[trigger] s[k]).id@ != rid,
    ensures
        find_room_row(s, rid) is None,
    decreases s.len(),
{
    if s.len() > 0 {
        lemma_find_room_row_absent(s.drop_first(), rid);
    }
}

/// Scan lemmas for the membership table.
pub proof fn lemma_find_member_at(s: Seq<RoomMember>, rid: Seq<char>, u: i64, i: int)
    requires
        0 <= i < s.len(),
        s[i].room_id@ == rid,
        s[i].user_id == u,
        forall|k: int|
            0 <= k < i ==> !((#[trigger] s[k]).room_id@ == rid && s[k].user_id == u),
    ensures
        find_member_row(s, rid, u) == Some(s[i]),
    decreases s.len(),
{
    if i > 0 {
        lemma_find_member_at(s.drop_first(), rid, u, i - 1);
    }
}

pub proof fn lemma_find_member_absent(s: Seq<RoomMember>, rid: Seq<char>, u: i64)
    requires
        forall|k: int| 0 <= k < s.len() ==> !((#[trigger] s[k]).room_id@ == rid && s[k].user_id == u),
    ensures
        find_member_row(s, rid, u) is None,
    decreases s.len(),
{
    if s.len() > 0 {
        lemma_find_member_absent(s.drop_first(), rid, u);
    }
}

/// Scan lemmas for the direct-room lookup.
pub proof fn lemma_spec_find_direct_at(
    rooms: Seq<Room>,
    members: Seq<RoomMember>,
    a: i64,
    b: i64,
    i: int,
)
    requires
        0 <= i < rooms.len(),
        rooms[i].room_type is Direct,
        has_member_row(members, rooms[i].id@, a),
        has_member_row(members, rooms[i].id@, b),
        forall|k: int|
            0 <= k < i ==> !((#[trigger] rooms[k]).room_type is Direct && has_member_row(
                members,
                rooms[k].id@,
                a,
            ) && has_member_row(members, rooms[k].id@, b)),
    ensures
        spec_find_direct(rooms, members, a, b) == Some(rooms[i]),
    decreases rooms.len(),
{
    if i > 0 {
        lemma_spec_find_direct_at(rooms.drop_first(), members, a, b, i - 1);
    }
}

pub proof fn lemma_spec_find_direct_absent(
    rooms: Seq<Room>,
    members: Seq<RoomMember>,
    a: i64,
    b: i64,
)
    requires
        forall|k: int|
            0 <= k < rooms.len() ==> !((#[trigger] rooms[k]).room_type is Direct && has_member_row(
                members,
                rooms[k].id@,
                a,
            ) && has_member_row(members, rooms[k].id@, b)),
    ensures
        spec_find_direct(rooms, members, a, b) is None,
    decreases rooms.len(),
{
    if rooms.len() > 0 {
        lemma_spec_find_direct_absent(rooms.drop_first(), members, a, b);
    }
}

/// Appending a membership row keyed differently leaves a lookup as it
/// was; appending the first row of a key makes the lookup find it.
pub proof fn lemma_find_member_append(s: Seq<RoomMember>, row: RoomMember, rid: Seq<char>, u: i64)
    ensures
        !(row.room_id@ == rid && row.user_id == u) ==> find_member_row(s.push(row), rid, u)
            == find_member_row(s, rid, u),
        (row.room_id@ == rid && row.user_id == u && find_member_row(s, rid, u) is None)
            ==> find_member_row(s.push(row), rid, u) == Some(row),
    decreases s.len(),
{
    if s.len() == 0 {
        assert(s.push(row).drop_first() =~= Seq::<RoomMember>::empty());
    } else {
        assert(s.push(row).drop_first() =~= s.drop_first().push(row));
        lemma_find_member_append(s.drop_first(), row, rid, u);
    }
}

/// A failed room lookup means no row carries the id.
pub proof fn lemma_find_room_row_none_pointwise(s: Seq<Room>, rid: Seq<char>)
    requires
        find_room_row(s, rid) is None,
    ensures
        forall|k: int| 0 <= k < s.len() ==> (#[trigger] s[k]).id@ != rid,
    decreases s.len(),
{
    if s.len() > 0 {
        lemma_find_room_row_none_pointwise(s.drop_first(), rid);
        assert forall|k: int| 0 <= k < s.len() implies (#[trigger] s[k]).id@ != rid by {
            if k > 0 {
                assert(s.drop_first()[k - 1] == s[k]);
            }
        }
    }
}

/// A failed direct-room lookup means no room qualifies.
pub proof fn lemma_spec_find_direct_none_pointwise(
    rooms: Seq<Room>,
    members: Seq<RoomMember>,
    a: i64,
    b: i64,
)
    requires
        spec_find_direct(rooms, members, a, b) is None,
    ensures
        forall|k: int|
            0 <= k < rooms.len() ==> !((#[trigger] rooms[k]).room_type is Direct && has_member_row(
                members,
                rooms[k].id@,
                a,
            ) && has_member_row(members, rooms[k].id@, b)),
    decreases rooms.len(),
{
    if rooms.len() > 0 {
        lemma_spec_find_direct_none_pointwise(rooms.drop_first(), members, a, b);
        assert forall|k: int|
            0 <= k < rooms.len() implies !((#[trigger] rooms[k]).room_type is Direct
            && has_member_row(members, rooms[k].id@, a) && has_member_row(
            members,
            rooms[k].id@,
            b,
        )) by {
            if k > 0 {
                assert(rooms.drop_first()[k - 1] == rooms[k]);
            }
        }
    }
}

/// A status update keyed by id moves the found row with it.
pub proof fn lemma_find_invitation_update(
    v0: Seq<RoomInvitation>,
    v1: Seq<RoomInvitation>,
    id: i64,
    status: InviteStatus,
    now: i64,
)
    requires
        v0.len() == v1.len(),
        forall|i: int|
            0 <= i < v0.len() ==> #[trigger] v1[i] == if v0[i].id == id {
                (RoomInvitation { status, updated_at: now, ..v0[i] })
            } else {
                v0[i]
            },
    ensures
        find_invitation_row(v0, id) matches Some(x) ==> find_invitation_row(v1, id) == Some(
            (RoomInvitation { status, updated_at: now, ..x }),
        ),
    decreases v0.len(),
{
    if v0.len() > 0 {
        assert(v1[0] == if v0[0].id == id {
            (RoomInvitation { status, updated_at: now, ..v0[0] })
        } else {
            v0[0]
        });
        if v0[0].id != id {
            assert forall|i: int|
                0 <= i < v0.drop_first().len() implies #[trigger] v1.drop_first()[i] == if v0.drop_first()[i].id
                == id {
                (RoomInvitation { status, updated_at: now, ..v0.drop_first()[i] })
            } else {
                v0.drop_first()[i]
            } by {
                assert(v1.drop_first()[i] == v1[i + 1]);
                assert(v0.drop_first()[i] == v0[i + 1]);
            }
            lemma_find_invitation_update(v0.drop_first(), v1.drop_first(), id, status, now);
        }
    }
}

/// A rewrite that keeps every row's key keeps lookups found.
pub proof fn lemma_find_member_same_keys(
    m0: Seq<RoomMember>,
    m1: Seq<RoomMember>,
    rid: Seq<char>,
    u: i64,
)
    requires
        m0.len() == m1.len(),
        forall|i: int|
            0 <= i < m0.len() ==> (#[trigger] m1[i]).room_id@ == m0[i].room_id@ && m1[i].user_id
                == m0[i].user_id,
    ensures
        find_member_row(m1, rid, u) is Some <==> find_member_row(m0, rid, u) is Some,
    decreases m0.len(),
{
    if m0.len() > 0 {
        assert(m1[0].room_id@ == m0[0].room_id@ && m1[0].user_id == m0[0].user_id);
        if !(m0[0].room_id@ == rid && m0[0].user_id == u) {
            assert forall|i: int|
                0 <= i < m0.drop_first().len() implies (#[trigger] m1.drop_first()[i]).room_id@
                == m0.drop_first()[i].room_id@ && m1.drop_first()[i].user_id
                == m0.drop_first()[i].user_id by {
                assert(m1.drop_first()[i] == m1[i + 1]);
                assert(m0.drop_first()[i] == m0[i + 1]);
            }
            lemma_find_member_same_keys(m0.drop_first(), m1.drop_first(), rid, u);
        }
    }
}

/// What the room lookup finds carries the id it was asked for.
pub proof fn lemma_find_room_row_id(s: Seq<Room>, rid: Seq<char>)
    ensures
        find_room_row(s, rid) matches Some(x) ==> x.id@ == rid,
    decreases s.len(),
{
    if s.len() > 0 && s[0].id@ != rid {
        lemma_find_room_row_id(s.drop_first(), rid);
    }
}

} // verus!
