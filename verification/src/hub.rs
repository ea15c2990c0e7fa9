//! The in-process fan-out core: one hub per instance owns the session
//! table, local room subscriptions, typing state and the socket rate
//! limiter. Every operation mutates that state and returns the list of
//! side effects to perform — frames to push to locally connected users,
//! payloads to publish on the shared bus, and last-seen writes — so the
//! whole decision logic is checked here while the sockets, the bus and
//! the store stay outside.

use vstd::prelude::*;

verus! {

use vstd::string::StrSliceExecFns;
use crate::frames::WsResponse;
use crate::text::contains_view;
use crate::ratelimit::RateLimiter;

/// At most this many concurrent sessions per user; the oldest is evicted.
pub const MAX_SESSIONS_PER_USER: usize = 5;

/// A typing indicator goes stale after this many milliseconds.
pub const TYPING_TTL_MS: u64 = 3000;

/// One live socket of a user.
#[derive(Debug)]
pub struct SessionRec {
    pub session_id: String,
    pub connected_at: u64,
}

/// All live sockets of one user, oldest first.
#[derive(Debug)]
pub struct UserSessions {
    pub user_id: i64,
    pub sessions: Vec<SessionRec>,
}

/// The users locally subscribed to one room.
#[derive(Debug)]
pub struct RoomUsers {
    pub room_id: String,
    pub users: Vec<i64>,
}

/// The rooms one user is locally subscribed to.
#[derive(Debug)]
pub struct UserRooms {
    pub user_id: i64,
    pub rooms: Vec<String>,
}

/// When a user last typed in a room.
#[derive(Debug)]
pub struct TypingRec {
    pub user_id: i64,
    pub last_typed: u64,
}

/// The typing state of one room.
#[derive(Debug)]
pub struct RoomTyping {
    pub room_id: String,
    pub entries: Vec<TypingRec>,
}

/// A side effect requested by a hub operation.
#[derive(Debug)]
pub enum HubEffect {
    /// Push the frame to every local session of each listed user.
    Deliver { users: Vec<i64>, frame: WsResponse },
    /// Push the frame to one specific session of one user.
    DeliverSession { user_id: i64, session_id: String, frame: WsResponse },
    /// Publish the frame on a bus channel.
    Publish { channel: String, frame: WsResponse },
    /// Record `now` as the user's last-seen time, with a 30-day expiry.
    StoreLastSeen { user_id: i64 },
}

/// The per-instance presence state.
#[derive(Debug)]
pub struct Hub {
    pub sessions: Vec<UserSessions>,
    pub rooms: Vec<RoomUsers>,
    pub user_rooms: Vec<UserRooms>,
    pub typing: Vec<RoomTyping>,
    pub limiter: RateLimiter,
}

/// The first session entry of user `u`.
pub open spec fn find_sessions(s: Seq<UserSessions>, u: i64) -> Option<UserSessions>
    decreases s.len(),
{
    if s.len() == 0 {
        None
    } else if s[0].user_id == u {
        Some(s[0])
    } else {
        find_sessions(s.drop_first(), u)
    }
}

/// The sessions of user `u`, empty when the user is not connected.
pub open spec fn sessions_of(s: Seq<UserSessions>, u: i64) -> Seq<SessionRec> {
    match find_sessions(s, u) {
        Some(e) => e.sessions@,
        None => Seq::empty(),
    }
}

/// The first room entry whose id reads `r`.
pub open spec fn find_room(s: Seq<RoomUsers>, r: Seq<char>) -> Option<RoomUsers>
    decreases s.len(),
{
    if s.len() == 0 {
        None
    } else if s[0].room_id@ == r {
        Some(s[0])
    } else {
        find_room(s.drop_first(), r)
    }
}

/// The local members of room `r`, empty when nobody is subscribed.
pub open spec fn room_members(s: Seq<RoomUsers>, r: Seq<char>) -> Seq<i64> {
    match find_room(s, r) {
        Some(e) => e.users@,
        None => Seq::empty(),
    }
}

/// The first room-list entry of user `u`.
pub open spec fn find_user_rooms(s: Seq<UserRooms>, u: i64) -> Option<UserRooms>
    decreases s.len(),
{
    if s.len() == 0 {
        None
    } else if s[0].user_id == u {
        Some(s[0])
    } else {
        find_user_rooms(s.drop_first(), u)
    }
}

/// The first typing entry of room `r`.
pub open spec fn find_typing(s: Seq<RoomTyping>, r: Seq<char>) -> Option<RoomTyping>
    decreases s.len(),
{
    if s.len() == 0 {
        None
    } else if s[0].room_id@ == r {
        Some(s[0])
    } else {
        find_typing(s.drop_first(), r)
    }
}

/// Total number of open sessions.
pub open spec fn spec_connection_count(s: Seq<UserSessions>) -> int
    decreases s.len(),
{
    if s.len() == 0 {
        0
    } else {
        spec_connection_count(s.drop_last()) + s.last().sessions@.len()
    }
}

impl Hub {
    /// Well-formed presence state: every table is keyed uniquely, session
    /// lists are non-empty, hold at most five entries and are ordered by
    /// connection time, room subscriber lists are non-empty user sets.
    pub open spec fn wf(self) -> bool {
        &&& forall|i: int, j: int|
            0 <= i < j < self.sessions@.len() ==> self.sessions@[i].user_id
                != self.sessions@[j].user_id
        &&& forall|i: int|
            0 <= i < self.sessions@.len() ==> 1 <= (
            #[trigger] self.sessions@[i]).sessions@.len() <= MAX_SESSIONS_PER_USER
        &&& forall|i: int, a: int, b: int|
            0 <= i < self.sessions@.len() && 0 <= a < b < self.sessions@[i].sessions@.len()
                ==> #[trigger] self.sessions@[i].sessions@[a].connected_at
                <= #[trigger] self.sessions@[i].sessions@[b].connected_at
        &&& forall|i: int, j: int|
            0 <= i < j < self.rooms@.len() ==> self.rooms@[i].room_id@ != self.rooms@[j].room_id@
        &&& forall|i: int|
            0 <= i < self.rooms@.len() ==> (#[trigger] self.rooms@[i]).users@.len() >= 1
        &&& forall|i: int, a: int, b: int|
            0 <= i < self.rooms@.len() && 0 <= a < b < self.rooms@[i].users@.len()
                ==> #[trigger] self.rooms@[i].users@[a] != #[trigger] self.rooms@[i].users@[b]
        &&& forall|i: int, j: int|
            0 <= i < j < self.user_rooms@.len() ==> self.user_rooms@[i].user_id
                != self.user_rooms@[j].user_id
        &&& forall|i: int, a: int, b: int|
            0 <= i < self.user_rooms@.len() && 0 <= a < b < self.user_rooms@[i].rooms@.len()
                ==> (#[trigger] self.user_rooms@[i].rooms@[a])@ != (
            #[trigger] self.user_rooms@[i].rooms@[b])@
        &&& forall|i: int, j: int|
            0 <= i < j < self.typing@.len() ==> self.typing@[i].room_id@
                != self.typing@[j].room_id@
        &&& forall|i: int, a: int, b: int|
            0 <= i < self.typing@.len() && 0 <= a < b < self.typing@[i].entries@.len()
                ==> #[trigger] self.typing@[i].entries@[a].user_id
                != #[trigger] self.typing@[i].entries@[b].user_id
        &&& self.sessions@.len() <= 0x1000000000000
        &&& self.limiter.wf()
    }

    /// Nothing in the hub has seen a clock beyond `t`.
    pub open spec fn fresh_until(self, t: u64) -> bool {
        &&& forall|i: int, a: int|
            0 <= i < self.sessions@.len() && 0 <= a < self.sessions@[i].sessions@.len()
                ==> #[trigger] self.sessions@[i].sessions@[a].connected_at <= t
        &&& forall|i: int, a: int|
            0 <= i < self.typing@.len() && 0 <= a < self.typing@[i].entries@.len()
                ==> #[trigger] self.typing@[i].entries@[a].last_typed <= t
        &&& self.limiter.fresh_until(t)
    }

    /// An empty hub.
    pub fn new() -> (r: Hub)
        ensures
            r.wf(),
            r.sessions@.len() == 0,
            r.rooms@.len() == 0,
            r.user_rooms@.len() == 0,
            r.typing@.len() == 0,
            r.limiter.entries@.len() == 0,
            forall|t: u64| r.fresh_until(t),
    {
        Hub {
            sessions: Vec::new(),
            rooms: Vec::new(),
            user_rooms: Vec::new(),
            typing: Vec::new(),
            limiter: RateLimiter::new(),
        }
    }

    /// Attach a new session for a user. When the user already holds the
    /// maximum, the oldest session — the one with the least
    /// `connected_at` — is dropped first and told it was replaced.
    pub fn connect(&mut self, user_id: i64, session_id: String, now: u64) -> (effects: Vec<
        HubEffect,
    >)
        requires
            old(self).wf(),
            old(self).fresh_until(now),
            now <= crate::ratelimit::MAX_TIME,
            old(self).sessions@.len() < 0x1000000000000,
        ensures
            final(self).wf(),
            final(self).fresh_until(now),
            final(self).rooms@ == old(self).rooms@,
            final(self).typing@ == old(self).typing@,
            final(self).limiter == old(self).limiter,
            ({
                let before = sessions_of(old(self).sessions@, user_id);
                let after = sessions_of(final(self).sessions@, user_id);
                let rec = (SessionRec { session_id: session_id, connected_at: now });
                &&& after.len() <= MAX_SESSIONS_PER_USER
                &&& (before.len() < MAX_SESSIONS_PER_USER ==> after == before.push(rec)
                    && effects@.len() == 0)
                &&& (before.len() >= MAX_SESSIONS_PER_USER ==> {
                    &&& after == before.drop_first().push(rec)
                    &&& effects@.len() == 1
                    &&& (effects@[0] matches HubEffect::DeliverSession {
                        user_id: eu,
                        session_id: es,
                        frame: WsResponse::ConnectionReplaced { .. },
                    } && eu == user_id && es@ == before[0].session_id@)
                    &&& forall|k: int|
                        0 <= k < before.len() ==> before[0].connected_at
                            <= #[trigger] before[k].connected_at
                })
            }),
            forall|u2: i64|
                u2 != user_id ==> #[trigger] find_sessions(final(self).sessions@, u2)
                    == find_sessions(old(self).sessions@, u2),
            find_user_rooms(final(self).user_rooms@, user_id) is Some,
            find_user_rooms(old(self).user_rooms@, user_id) is Some ==> find_user_rooms(
                final(self).user_rooms@,
                user_id,
            ) == find_user_rooms(old(self).user_rooms@, user_id),
            find_user_rooms(old(self).user_rooms@, user_id) is None ==> find_user_rooms(
                final(self).user_rooms@,
                user_id,
            )->0.rooms@.len() == 0,
            forall|u2: i64|
                u2 != user_id ==> #[trigger] find_user_rooms(final(self).user_rooms@, u2)
                    == find_user_rooms(old(self).user_rooms@, u2),
    {
        let ghost s0 = self.sessions@;
        let mut effects: Vec<HubEffect> = Vec::new();
        let n = self.sessions.len();
        let mut i: usize = 0;
        let mut found: bool = false;
        while i < n && !found
            invariant
                n == self.sessions@.len(),
                0 <= i <= n,
                self.sessions@ == s0,
                found ==> i < n && s0[i as int].user_id == user_id,
                !found ==> forall|k: int| 0 <= k < i ==> (#[trigger] s0[k]).user_id != user_id,
            decreases n - i + if found {
                0int
            } else {
                1int
            },
        {
            if self.sessions[i].user_id == user_id {
                found = true;
            } else {
                i = i + 1;
            }
        }
        if found {
            proof {
                lemma_find_sessions_at(s0, user_id, i as int);
            }
            let entry = vstd::std_specs::vec::vec_index_mut(&mut self.sessions, i);
            if entry.sessions.len() >= MAX_SESSIONS_PER_USER {
                let oldest = entry.sessions.remove(0);
                effects.push(
                    HubEffect::DeliverSession {
                        user_id,
                        session_id: oldest.session_id,
                        frame: WsResponse::ConnectionReplaced {
                            message:
                                "Phiên của bạn đã bị thay thế bởi một đăng nhập mới. Vui lòng tải lại trang.".to_owned(),
                        },
                    },
                );
            }
            entry.sessions.push(SessionRec { session_id, connected_at: now });
            proof {
                let s1 = self.sessions@;
                assert(s1 == s0.update(i as int, s1[i as int]));
                lemma_find_sessions_at(s1, user_id, i as int);
                lemma_find_sessions_frame(s0, s1, i as int);
            }
        } else {
            let mut list: Vec<SessionRec> = Vec::new();
            list.push(SessionRec { session_id, connected_at: now });
            self.sessions.push(UserSessions { user_id, sessions: list });
            proof {
                let s1 = self.sessions@;
                lemma_find_sessions_absent(s0, user_id);
                lemma_find_sessions_at(s1, user_id, s0.len() as int);
                lemma_find_sessions_frame(s0, s1, s0.len() as int);
            }
        }
        self.ensure_user_rooms(user_id);
        effects
    }

    /// Make sure the user has a (possibly empty) room list.
    fn ensure_user_rooms(&mut self, user_id: i64)
        requires
            forall|i: int, j: int|
                0 <= i < j < old(self).user_rooms@.len() ==> old(self).user_rooms@[i].user_id
                    != old(self).user_rooms@[j].user_id,
            forall|i: int, a: int, b: int|
                0 <= i < old(self).user_rooms@.len() && 0 <= a < b
                    < old(self).user_rooms@[i].rooms@.len() ==> (#[trigger] old(self).user_rooms@[i].rooms@[a])@
                    != (#[trigger] old(self).user_rooms@[i].rooms@[b])@,
        ensures
            *final(self) == (Hub { user_rooms: final(self).user_rooms, ..*old(self) }),
            forall|i: int, j: int|
                0 <= i < j < final(self).user_rooms@.len() ==> final(self).user_rooms@[i].user_id
                    != final(self).user_rooms@[j].user_id,
            forall|i: int, a: int, b: int|
                0 <= i < final(self).user_rooms@.len() && 0 <= a < b
                    < final(self).user_rooms@[i].rooms@.len() ==> (#[trigger] final(self).user_rooms@[i].rooms@[a])@
                    != (#[trigger] final(self).user_rooms@[i].rooms@[b])@,
            find_user_rooms(final(self).user_rooms@, user_id) is Some,
            find_user_rooms(old(self).user_rooms@, user_id) is Some ==> final(self).user_rooms@
                == old(self).user_rooms@,
            find_user_rooms(old(self).user_rooms@, user_id) is None ==> find_user_rooms(
                final(self).user_rooms@,
                user_id,
            )->0.rooms@.len() == 0,
            forall|u2: i64|
                u2 != user_id ==> #[trigger] find_user_rooms(final(self).user_rooms@, u2)
                    == find_user_rooms(old(self).user_rooms@, u2),
    {
        let ghost s0 = self.user_rooms@;
        let n = self.user_rooms.len();
        let mut i: usize = 0;
        while i < n
            invariant
                n == self.user_rooms@.len(),
                0 <= i <= n,
                *self == *old(self),
                self.user_rooms@ == s0,
                forall|k: int, j: int|
                    0 <= k < j < s0.len() ==> s0[k].user_id != s0[j].user_id,
                forall|k: int, a: int, b: int|
                    0 <= k < s0.len() && 0 <= a < b < s0[k].rooms@.len() ==> (
                    #[trigger] s0[k].rooms@[a])@ != (#[trigger] s0[k].rooms@[b])@,
                forall|k: int| 0 <= k < i ==> (#[trigger] s0[k]).user_id != user_id,
            decreases n - i,
        {
            if self.user_rooms[i].user_id == user_id {
                proof {
                    lemma_find_user_rooms_at(s0, user_id, i as int);
                }
                return ;
            }
            i = i + 1;
        }
        self.user_rooms.push(UserRooms { user_id, rooms: Vec::new() });
        proof {
            let s1 = self.user_rooms@;
            lemma_find_user_rooms_absent(s0, user_id);
            lemma_find_user_rooms_at(s1, user_id, s0.len() as int);
            lemma_find_user_rooms_frame(s0, s1, s0.len() as int);
        }
    }

    /// The number of open sessions across all users.
    pub fn connection_count(&self) -> (r: u64)
        requires
            self.wf(),
        ensures
            r == spec_connection_count(self.sessions@),
    {
        let mut total: u64 = 0;
        let n = self.sessions.len();
        let mut i: usize = 0;
        while i < n
            invariant
                n == self.sessions@.len(),
                0 <= i <= n,
                self.wf(),
                total == spec_connection_count(self.sessions@.subrange(0, i as int)),
                total <= 5 * i,
            decreases n - i,
        {
            proof {
                assert(self.sessions@.subrange(0, i as int + 1).drop_last() =~= self.sessions@.subrange(
                    0,
                    i as int,
                ));
                assert(self.sessions@.subrange(0, i as int + 1).last() == self.sessions@[i as int]);
            }
            let len = self.sessions[i].sessions.len();
            total = total + (len as u64);
            i = i + 1;
        }
        proof {
            assert(self.sessions@.subrange(0, n as int) =~= self.sessions@);
        }
        total
    }

    /// Subscribe a user to a room locally, tell the joiner who is online
    /// there, tell the others the joiner came online, and confirm the join.
    /// Membership authorization was checked by the caller.
    pub fn join_room(&mut self, user_id: i64, room_id: &String) -> (effects: Vec<HubEffect>)
        requires
            old(self).wf(),
        ensures
            final(self).wf(),
            forall|t: u64| old(self).fresh_until(t) ==> final(self).fresh_until(t),
            final(self).sessions@ == old(self).sessions@,
            final(self).typing@ == old(self).typing@,
            final(self).limiter == old(self).limiter,
            ({
                let before = room_members(old(self).rooms@, room_id@);
                let after = room_members(final(self).rooms@, room_id@);
                &&& (before.contains(user_id) ==> after == before)
                &&& (!before.contains(user_id) ==> after == before.push(user_id))
            }),
            forall|r2: Seq<char>|
                r2 != room_id@ ==> #[trigger] find_room(final(self).rooms@, r2) == find_room(
                    old(self).rooms@,
                    r2,
                ),
            ({
                let before = rooms_of(old(self).user_rooms@, user_id);
                let after = rooms_of(final(self).user_rooms@, user_id);
                &&& (contains_view(before, room_id@) ==> after == before)
                &&& (!contains_view(before, room_id@) ==> after.len() == before.len() + 1
                    && after.drop_last() == before && after.last()@ == room_id@)
            }),
            forall|u2: i64|
                u2 != user_id ==> #[trigger] find_user_rooms(final(self).user_rooms@, u2)
                    == find_user_rooms(old(self).user_rooms@, u2),
            ({
                let members = room_members(final(self).rooms@, room_id@);
                let online = connected_subset(members, old(self).sessions@);
                &&& effects@.len() == 3
                &&& (effects@[0] matches HubEffect::Deliver {
                    users: u0,
                    frame: WsResponse::RoomPresence { room_id: r0, online_users: ou },
                } && u0@ == seq![user_id] && r0@ == room_id@ && ou@ == online)
                &&& (effects@[1] matches HubEffect::Deliver {
                    users: u1,
                    frame: WsResponse::UserOnline { user_id: ju, user_name: jn },
                } && u1@ == excluding(online, Some(user_id)) && ju == user_id && jn@ == "User "@
                    + crate::text::dec_int(user_id as int))
                &&& (effects@[2] matches HubEffect::Deliver {
                    users: u2,
                    frame: WsResponse::Joined { room_id: r2 },
                } && u2@ == seq![user_id] && r2@ == room_id@)
            }),
    {
        let ghost r0 = self.rooms@;
        let n = self.rooms.len();
        let mut i: usize = 0;
        let mut found: bool = false;
        while i < n && !found
            invariant
                n == self.rooms@.len(),
                0 <= i <= n,
                self.rooms@ == r0,
                found ==> i < n && r0[i as int].room_id@ == room_id@,
                !found ==> forall|k: int| 0 <= k < i ==> (#[trigger] r0[k]).room_id@ != room_id@,
            decreases n - i + if found {
                0int
            } else {
                1int
            },
        {
            if crate::text::str_eq(self.rooms[i].room_id.as_str(), room_id.as_str()) {
                found = true;
            } else {
                i = i + 1;
            }
        }
        if found {
            proof {
                lemma_find_room_at(r0, room_id@, i as int);
            }
            if !crate::ratelimit::contains_i64(&self.rooms[i].users, user_id) {
                let entry = vstd::std_specs::vec::vec_index_mut(&mut self.rooms, i);
                entry.users.push(user_id);
            }
            proof {
                let r1 = self.rooms@;
                assert(r1 == r0.update(i as int, r1[i as int]));
                lemma_find_room_at(r1, room_id@, i as int);
                lemma_find_room_frame(r0, r1, i as int);
            }
        } else {
            let mut users: Vec<i64> = Vec::new();
            users.push(user_id);
            self.rooms.push(RoomUsers { room_id: room_id.clone(), users });
            proof {
                let r1 = self.rooms@;
                lemma_find_room_absent(r0, room_id@);
                lemma_find_room_at(r1, room_id@, r0.len() as int);
                lemma_find_room_frame(r0, r1, r0.len() as int);
                assert(room_members(r1, room_id@) =~= room_members(r0, room_id@).push(user_id));
            }
        }
        self.track_user_room(user_id, room_id);
        let ghost members = room_members(self.rooms@, room_id@);
        let mi = if found {
            i
        } else {
            self.rooms.len() - 1
        };
        proof {
            lemma_find_room_at(self.rooms@, room_id@, mi as int);
        }
        let online = online_members(&self.rooms[mi].users, &self.sessions);
        let others = excluding_exec(&online, Some(user_id));
        let mut name = String::new();
        name.append("User ");
        crate::text::append_dec_i64(&mut name, user_id);
        let mut effects: Vec<HubEffect> = Vec::new();
        let mut to_joiner: Vec<i64> = Vec::new();
        to_joiner.push(user_id);
        effects.push(
            HubEffect::Deliver {
                users: to_joiner,
                frame: WsResponse::RoomPresence { room_id: room_id.clone(), online_users: online },
            },
        );
        effects.push(
            HubEffect::Deliver {
                users: others,
                frame: WsResponse::UserOnline { user_id, user_name: name },
            },
        );
        let mut to_joiner2: Vec<i64> = Vec::new();
        to_joiner2.push(user_id);
        effects.push(
            HubEffect::Deliver {
                users: to_joiner2,
                frame: WsResponse::Joined { room_id: room_id.clone() },
            },
        );
        proof {
            assert(effects@[0]->Deliver_users@ =~= seq![user_id]);
            assert(effects@[2]->Deliver_users@ =~= seq![user_id]);
        }
        effects
    }

    /// Record the room in the user's local room list.
    fn track_user_room(&mut self, user_id: i64, room_id: &String)
        requires
            old(self).wf(),
        ensures
            final(self).wf(),
            *final(self) == (Hub { user_rooms: final(self).user_rooms, ..*old(self) }),
            ({
                let before = rooms_of(old(self).user_rooms@, user_id);
                let after = rooms_of(final(self).user_rooms@, user_id);
                &&& (contains_view(before, room_id@) ==> after == before)
                &&& (!contains_view(before, room_id@) ==> after.len() == before.len() + 1
                    && after.drop_last() == before && after.last()@ == room_id@)
            }),
            forall|u2: i64|
                u2 != user_id ==> #[trigger] find_user_rooms(final(self).user_rooms@, u2)
                    == find_user_rooms(old(self).user_rooms@, u2),
    {
        let ghost s0 = self.user_rooms@;
        let n = self.user_rooms.len();
        let mut i: usize = 0;
        while i < n
            invariant
                n == self.user_rooms@.len(),
                0 <= i <= n,
                *self == *old(self),
                self.user_rooms@ == s0,
                old(self).wf(),
                forall|k: int| 0 <= k < i ==> (#[trigger] s0[k]).user_id != user_id,
            decreases n - i,
        {
            if self.user_rooms[i].user_id == user_id {
                proof {
                    lemma_find_user_rooms_at(s0, user_id, i as int);
                }
                if !contains_string(&self.user_rooms[i].rooms, room_id) {
                    let entry = vstd::std_specs::vec::vec_index_mut(&mut self.user_rooms, i);
                    entry.rooms.push(room_id.clone());
                }
                proof {
                    let s1 = self.user_rooms@;
                    assert(s1 == s0.update(i as int, s1[i as int]));
                    lemma_find_user_rooms_at(s1, user_id, i as int);
                    lemma_find_user_rooms_frame(s0, s1, i as int);
                }
                return ;
            }
            i = i + 1;
        }
        let mut rooms: Vec<String> = Vec::new();
        rooms.push(room_id.clone());
        self.user_rooms.push(UserRooms { user_id, rooms });
        proof {
            let s1 = self.user_rooms@;
            lemma_find_user_rooms_absent(s0, user_id);
            lemma_find_user_rooms_at(s1, user_id, s0.len() as int);
            lemma_find_user_rooms_frame(s0, s1, s0.len() as int);
        }
    }

    /// Unsubscribe a user from a room locally and confirm it — the full
    /// reverse of the join: the user leaves the room's subscriber set
    /// and the room leaves the user's tracked list. This is the
    /// presence-only counterpart of the persistent leave.
    pub fn leave_room(&mut self, user_id: i64, room_id: &String) -> (effects: Vec<HubEffect>)
        requires
            old(self).wf(),
        ensures
            final(self).wf(),
            forall|t: u64| old(self).fresh_until(t) ==> final(self).fresh_until(t),
            final(self).sessions@ == old(self).sessions@,
            final(self).typing@ == old(self).typing@,
            final(self).limiter == old(self).limiter,
            room_members(final(self).rooms@, room_id@) == excluding(
                room_members(old(self).rooms@, room_id@),
                Some(user_id),
            ),
            rooms_of(final(self).user_rooms@, user_id) == excluding_room(
                rooms_of(old(self).user_rooms@, user_id),
                room_id@,
            ),
            forall|u2: i64|
                u2 != user_id ==> #[trigger] find_user_rooms(final(self).user_rooms@, u2)
                    == find_user_rooms(old(self).user_rooms@, u2),
            forall|r2: Seq<char>|
                r2 != room_id@ ==> #[trigger] find_room(final(self).rooms@, r2) == find_room(
                    old(self).rooms@,
                    r2,
                ),
            effects@.len() == 1,
            (effects@[0] matches HubEffect::Deliver {
                users: u0,
                frame: WsResponse::Left { room_id: lr },
            } && u0@ == seq![user_id] && lr@ == room_id@),
    {
        let ghost r0 = self.rooms@;
        let n = self.rooms.len();
        let mut i: usize = 0;
        let mut found: bool = false;
        while i < n && !found
            invariant
                n == self.rooms@.len(),
                0 <= i <= n,
                self.rooms@ == r0,
                found ==> i < n && r0[i as int].room_id@ == room_id@,
                !found ==> forall|k: int| 0 <= k < i ==> (#[trigger] r0[k]).room_id@ != room_id@,
            decreases n - i + if found {
                0int
            } else {
                1int
            },
        {
            if crate::text::str_eq(self.rooms[i].room_id.as_str(), room_id.as_str()) {
                found = true;
            } else {
                i = i + 1;
            }
        }
        if found {
            proof {
                lemma_find_room_at(r0, room_id@, i as int);
            }
            let ghost users0 = r0[i as int].users@;
            let m = self.rooms[i].users.len();
            let mut j: usize = 0;
            let mut ufound: bool = false;
            while j < m && !ufound
                invariant
                    self.rooms@ == r0,
                    0 <= i < r0.len(),
                    m == r0[i as int].users@.len(),
                    users0 == r0[i as int].users@,
                    0 <= j <= m,
                    ufound ==> j < m && users0[j as int] == user_id,
                    !ufound ==> forall|k: int| 0 <= k < j ==> users0[k] != user_id,
                decreases m - j + if ufound {
                    0int
                } else {
                    1int
                },
            {
                if self.rooms[i].users[j] == user_id {
                    ufound = true;
                } else {
                    j = j + 1;
                }
            }
            if ufound {
                proof {
                    lemma_excluding_remove(users0, j as int);
                }
                if m == 1 {
                    self.rooms.remove(i);
                    proof {
                        lemma_find_room_frame_remove(r0, i as int);
                        lemma_find_room_absent_after_remove(r0, i as int);
                        assert(excluding(users0, Some(user_id)) =~= users0.remove(j as int));
                        assert(room_members(self.rooms@, room_id@) =~= excluding(
                            users0,
                            Some(user_id),
                        ));
                    }
                } else {
                    let entry = vstd::std_specs::vec::vec_index_mut(&mut self.rooms, i);
                    entry.users.remove(j);
                    proof {
                        let r1 = self.rooms@;
                        assert(r1 == r0.update(i as int, r1[i as int]));
                        lemma_find_room_at(r1, room_id@, i as int);
                        lemma_find_room_frame(r0, r1, i as int);
                    }
                }
            } else {
                proof {
                    assert(!users0.contains(user_id)) by {
                        if users0.contains(user_id) {
                            let k = choose|k: int| 0 <= k < users0.len() && users0[k] == user_id;
                            assert(false);
                        }
                    }
                    lemma_excluding_none(users0, Some(user_id));
                }
            }
        } else {
            proof {
                lemma_find_room_absent(r0, room_id@);
                assert(excluding(Seq::<i64>::empty(), Some(user_id)) =~= Seq::<i64>::empty());
            }
        }
        self.untrack_user_room(user_id, room_id);
        let mut to_user: Vec<i64> = Vec::new();
        to_user.push(user_id);
        let mut effects: Vec<HubEffect> = Vec::new();
        effects.push(
            HubEffect::Deliver {
                users: to_user,
                frame: WsResponse::Left { room_id: room_id.clone() },
            },
        );
        proof {
            assert(effects@[0]->Deliver_users@ =~= seq![user_id]);
        }
        effects
    }

    /// Drop the room from the user's local room list, the reverse of
    /// what joining recorded; the (possibly empty) list entry stays.
    fn untrack_user_room(&mut self, user_id: i64, room_id: &String)
        requires
            old(self).wf(),
        ensures
            final(self).wf(),
            *final(self) == (Hub { user_rooms: final(self).user_rooms, ..*old(self) }),
            rooms_of(final(self).user_rooms@, user_id) == excluding_room(
                rooms_of(old(self).user_rooms@, user_id),
                room_id@,
            ),
            forall|u2: i64|
                u2 != user_id ==> #[trigger] find_user_rooms(final(self).user_rooms@, u2)
                    == find_user_rooms(old(self).user_rooms@, u2),
    {
        let ghost s0 = self.user_rooms@;
        let n = self.user_rooms.len();
        let mut i: usize = 0;
        while i < n
            invariant
                n == self.user_rooms@.len(),
                0 <= i <= n,
                *self == *old(self),
                self.user_rooms@ == s0,
                old(self).wf(),
                forall|k: int| 0 <= k < i ==> (#[trigger] s0[k]).user_id != user_id,
            decreases n - i,
        {
            if self.user_rooms[i].user_id == user_id {
                proof {
                    lemma_find_user_rooms_at(s0, user_id, i as int);
                }
                let ghost list0 = s0[i as int].rooms@;
                let m = self.user_rooms[i].rooms.len();
                let mut j: usize = 0;
                let mut jfound: bool = false;
                while j < m && !jfound
                    invariant
                        self.user_rooms@ == s0,
                        0 <= i < s0.len(),
                        m == list0.len(),
                        list0 == s0[i as int].rooms@,
                        0 <= j <= m,
                        jfound ==> j < m && list0[j as int]@ == room_id@,
                        !jfound ==> forall|k: int|
                            0 <= k < j ==> (#[trigger] list0[k])@ != room_id@,
                    decreases m - j + if jfound {
                        0int
                    } else {
                        1int
                    },
                {
                    if crate::text::str_eq(self.user_rooms[i].rooms[j].as_str(), room_id.as_str())
                    {
                        jfound = true;
                    } else {
                        j = j + 1;
                    }
                }
                if jfound {
                    proof {
                        assert(forall|a: int, b: int|
                            0 <= a < b < list0.len() ==> (#[trigger] list0[a])@ != (
                            #[trigger] list0[b])@);
                        lemma_excluding_room_remove(list0, j as int);
                    }
                    let entry = vstd::std_specs::vec::vec_index_mut(&mut self.user_rooms, i);
                    entry.rooms.remove(j);
                    proof {
                        let s1 = self.user_rooms@;
                        assert(s1 == s0.update(i as int, s1[i as int]));
                        lemma_find_user_rooms_at(s1, user_id, i as int);
                        lemma_find_user_rooms_frame(s0, s1, i as int);
                        let l1 = s1[i as int].rooms@;
                        assert(l1 == list0.remove(j as int));
                        assert forall|a: int, b: int|
                            0 <= a < b < l1.len() implies (#[trigger] l1[a])@ != (
                        #[trigger] l1[b])@ by {
                            let a0: int = if a < j as int {
                                a
                            } else {
                                a + 1
                            };
                            let b0: int = if b < j as int {
                                b
                            } else {
                                b + 1
                            };
                            assert(l1[a] == list0[a0] && l1[b] == list0[b0]);
                        }
                    }
                } else {
                    proof {
                        lemma_excluding_room_none(list0, room_id@);
                    }
                }
                return ;
            }
            i = i + 1;
        }
        proof {
            lemma_find_user_rooms_absent(s0, user_id);
            assert(excluding_room(Seq::<String>::empty(), room_id@) =~= Seq::<String>::empty());
        }
    }

    /// Detach one session of a user. When it was the user's last: write
    /// the last-seen mark, tell the remaining locally-online members of
    /// every room the user tracked that the user went offline, and drop
    /// the user from the room, room-list and typing tables.
    pub fn disconnect(&mut self, user_id: i64, session_id: &String) -> (effects: Vec<HubEffect>)
        requires
            old(self).wf(),
        ensures
            final(self).wf(),
            forall|t: u64| old(self).fresh_until(t) ==> final(self).fresh_until(t),
            final(self).limiter == old(self).limiter,
            find_sessions(old(self).sessions@, user_id) is None ==> *final(self) == *old(self)
                && effects@.len() == 0,
            ({
                let before = sessions_of(old(self).sessions@, user_id);
                let kept = sessions_without(before, session_id@);
                &&& (find_sessions(old(self).sessions@, user_id) is Some && kept.len() > 0 ==> {
                    &&& sessions_of(final(self).sessions@, user_id) == kept
                    &&& (forall|u2: i64|
                        u2 != user_id ==> #[trigger] find_sessions(final(self).sessions@, u2)
                            == find_sessions(old(self).sessions@, u2))
                    &&& final(self).rooms@ == old(self).rooms@
                    &&& final(self).user_rooms@ == old(self).user_rooms@
                    &&& final(self).typing@ == old(self).typing@
                    &&& effects@.len() == 0
                })
                &&& (find_sessions(old(self).sessions@, user_id) is Some && kept.len() == 0 ==> {
                    let roomlist = rooms_of(old(self).user_rooms@, user_id);
                    &&& find_sessions(final(self).sessions@, user_id) is None
                    &&& (forall|u2: i64|
                        u2 != user_id ==> #[trigger] find_sessions(final(self).sessions@, u2)
                            == find_sessions(old(self).sessions@, u2))
                    &&& find_user_rooms(final(self).user_rooms@, user_id) is None
                    &&& (forall|u2: i64|
                        u2 != user_id ==> #[trigger] find_user_rooms(final(self).user_rooms@, u2)
                            == find_user_rooms(old(self).user_rooms@, u2))
                    &&& (forall|r: Seq<char>|
                        contains_view(roomlist, r) ==> #[trigger] room_members(
                            final(self).rooms@,
                            r,
                        ) == excluding(room_members(old(self).rooms@, r), Some(user_id)))
                    &&& (forall|r: Seq<char>|
                        !contains_view(roomlist, r) ==> #[trigger] find_room(final(self).rooms@, r)
                            == find_room(old(self).rooms@, r))
                    &&& final(self).typing@.len() == old(self).typing@.len()
                    &&& (forall|m: int|
                        0 <= m < old(self).typing@.len() ==> (
                        #[trigger] final(self).typing@[m]).room_id == old(self).typing@[m].room_id
                            && final(self).typing@[m].entries@ == entries_without_user(
                            old(self).typing@[m].entries@,
                            user_id,
                        ))
                    &&& effects@.len() == 1 + roomlist.len()
                    &&& effects@[0] == (HubEffect::StoreLastSeen { user_id })
                    &&& (forall|m: int|
                        0 <= m < roomlist.len() ==> ((#[trigger] effects@[m + 1])
                            matches HubEffect::Deliver {
                            users,
                            frame: WsResponse::UserOffline { user_id: fu },
                        } && fu == user_id && users@ == connected_subset(
                            excluding(
                                room_members(old(self).rooms@, roomlist[m]@),
                                Some(user_id),
                            ),
                            final(self).sessions@,
                        )))
                })
            }),
    {
        let ghost s0 = self.sessions@;
        let mut effects: Vec<HubEffect> = Vec::new();
        let n = self.sessions.len();
        let mut ui: usize = 0;
        let mut found: bool = false;
        while ui < n && !found
            invariant
                n == self.sessions@.len(),
                0 <= ui <= n,
                self.sessions@ == s0,
                found ==> ui < n && s0[ui as int].user_id == user_id,
                !found ==> forall|k: int| 0 <= k < ui ==> (#[trigger] s0[k]).user_id != user_id,
            decreases n - ui + if found {
                0int
            } else {
                1int
            },
        {
            if self.sessions[ui].user_id == user_id {
                found = true;
            } else {
                ui = ui + 1;
            }
        }
        if !found {
            proof {
                lemma_find_sessions_absent(s0, user_id);
            }
            return effects;
        }
        proof {
            lemma_find_sessions_at(s0, user_id, ui as int);
        }
        let ghost before = s0[ui as int].sessions@;
        let entry = vstd::std_specs::vec::vec_index_mut(&mut self.sessions, ui);
        filter_sessions(&mut entry.sessions, session_id);
        if self.sessions[ui].sessions.len() > 0 {
            proof {
                lemma_sessions_without_props(before, session_id@);
                let s1 = self.sessions@;
                assert(s1 == s0.update(ui as int, s1[ui as int]));
                lemma_find_sessions_at(s1, user_id, ui as int);
                lemma_find_sessions_frame(s0, s1, ui as int);
                assert forall|t: u64| old(self).fresh_until(t) implies self.fresh_until(t) by {
                    assert forall|i: int, a: int|
                        0 <= i < s1.len() && 0 <= a < s1[i].sessions@.len() implies (
                    #[trigger] s1[i].sessions@[a]).connected_at <= t by {
                        if i == ui as int {
                            assert(s1[i].sessions@.contains(s1[i].sessions@[a]));
                            assert(before.contains(s1[i].sessions@[a]));
                            let m = choose|m: int|
                                0 <= m < before.len() && before[m] == s1[i].sessions@[a];
                            assert(s0[ui as int].sessions@[m].connected_at <= t);
                        } else {
                            assert(s1[i] == s0[i]);
                        }
                    }
                }
            }
            return effects;
        }
        proof {
            let s1 = self.sessions@;
            assert(s1 == s0.update(ui as int, s1[ui as int]));
            lemma_find_sessions_frame(s0, s1, ui as int);
        }
        let ghost s1 = self.sessions@;
        self.sessions.remove(ui);
        proof {
            lemma_find_sessions_frame_remove(s1, ui as int);
            lemma_find_sessions_absent_after_remove(s1, ui as int);
            assert forall|i: int|
                0 <= i < self.sessions@.len() implies (#[trigger] self.sessions@[i]) == if i
                < ui as int {
                s0[i]
            } else {
                s0[i + 1]
            } by {
                if i < ui as int {
                    assert(self.sessions@[i] == s1[i]);
                } else {
                    assert(self.sessions@[i] == s1[i + 1]);
                }
            }
        }
        let ghost mid = self.sessions@;
        effects.push(HubEffect::StoreLastSeen { user_id });
        let ghost ur0 = self.user_rooms@;
        let un = self.user_rooms.len();
        let mut uri: usize = 0;
        let mut ufound: bool = false;
        while uri < un && !ufound
            invariant
                un == self.user_rooms@.len(),
                0 <= uri <= un,
                self.user_rooms@ == ur0,
                ufound ==> uri < un && ur0[uri as int].user_id == user_id,
                !ufound ==> forall|k: int| 0 <= k < uri ==> (#[trigger] ur0[k]).user_id != user_id,
            decreases un - uri + if ufound {
                0int
            } else {
                1int
            },
        {
            if self.user_rooms[uri].user_id == user_id {
                ufound = true;
            } else {
                uri = uri + 1;
            }
        }
        let ghost roomlist: Seq<String>;
        let list: Vec<String>;
        if ufound {
            proof {
                lemma_find_user_rooms_at(ur0, user_id, uri as int);
                lemma_find_user_rooms_frame_remove(ur0, uri as int);
                lemma_find_user_rooms_absent_after_remove(ur0, uri as int);
            }
            let entry = self.user_rooms.remove(uri);
            list = entry.rooms;
            proof {
                roomlist = list@;
            }
        } else {
            proof {
                lemma_find_user_rooms_absent(ur0, user_id);
            }
            list = Vec::new();
            proof {
                roomlist = list@;
                assert(roomlist =~= Seq::<String>::empty());
            }
        }
        proof {
            assert(self.wf()) by {
                assert(forall|i: int, j: int|
                    0 <= i < j < self.sessions@.len() ==> self.sessions@[i].user_id
                        != self.sessions@[j].user_id);
            }
        }
        let ghost ur_mid = self.user_rooms@;
        let ghost rooms0 = self.rooms@;
        let ln = list.len();
        let mut k: usize = 0;
        while k < ln
            invariant
                ln == list@.len(),
                0 <= k <= ln,
                self.wf(),
                self.sessions@ == mid,
                self.typing@ == old(self).typing@,
                self.user_rooms@ == ur_mid,
                self.limiter == old(self).limiter,
                list@ == roomlist,
                forall|a: int, b: int| 0 <= a < b < ln ==> (#[trigger] list@[a])@ != (
                #[trigger] list@[b])@,
                effects@.len() == 1 + k,
                effects@[0] == (HubEffect::StoreLastSeen { user_id }),
                forall|m: int|
                    0 <= m < k ==> ((#[trigger] effects@[m + 1]) matches HubEffect::Deliver {
                        users,
                        frame: WsResponse::UserOffline { user_id: fu },
                    } && fu == user_id && users@ == connected_subset(
                        excluding(room_members(rooms0, list@[m]@), Some(user_id)),
                        mid,
                    )),
                forall|r: Seq<char>|
                    contains_view(list@.subrange(0, k as int), r) ==> #[trigger] room_members(
                        self.rooms@,
                        r,
                    ) == excluding(room_members(rooms0, r), Some(user_id)),
                forall|r: Seq<char>|
                    !contains_view(list@.subrange(0, k as int), r) ==> #[trigger] find_room(
                        self.rooms@,
                        r,
                    ) == find_room(rooms0, r),
            decreases ln - k,
        {
            let room: &String = &list[k];
            proof {
                if contains_view(list@.subrange(0, k as int), room@) {
                    let m = choose|m: int|
                        0 <= m < k && (#[trigger] list@.subrange(0, k as int)[m])@ == room@;
                    assert((list@[m])@ == (list@[k as int])@);
                    assert(false);
                }
            }
            let ghost rcur = self.rooms@;
            let rn = self.rooms.len();
            let mut ri: usize = 0;
            let mut rfound: bool = false;
            while ri < rn && !rfound
                invariant
                    rn == self.rooms@.len(),
                    0 <= ri <= rn,
                    self.rooms@ == rcur,
                    rfound ==> ri < rn && rcur[ri as int].room_id@ == room@,
                    !rfound ==> forall|m: int|
                        0 <= m < ri ==> (#[trigger] rcur[m]).room_id@ != room@,
                decreases rn - ri + if rfound {
                    0int
                } else {
                    1int
                },
            {
                if crate::text::str_eq(self.rooms[ri].room_id.as_str(), room.as_str()) {
                    rfound = true;
                } else {
                    ri = ri + 1;
                }
            }
            if rfound {
                proof {
                    lemma_find_room_at(rcur, room@, ri as int);
                }
                let ghost users0 = rcur[ri as int].users@;
                let ex = excluding_exec(&self.rooms[ri].users, Some(user_id));
                let recips = online_members(&ex, &self.sessions);
                effects.push(
                    HubEffect::Deliver { users: recips, frame: WsResponse::UserOffline { user_id } },
                );
                let m = self.rooms[ri].users.len();
                let mut j: usize = 0;
                let mut jfound: bool = false;
                while j < m && !jfound
                    invariant
                        self.rooms@ == rcur,
                        0 <= ri < rcur.len(),
                        m == rcur[ri as int].users@.len(),
                        users0 == rcur[ri as int].users@,
                        0 <= j <= m,
                        jfound ==> j < m && users0[j as int] == user_id,
                        !jfound ==> forall|p: int| 0 <= p < j ==> users0[p] != user_id,
                    decreases m - j + if jfound {
                        0int
                    } else {
                        1int
                    },
                {
                    if self.rooms[ri].users[j] == user_id {
                        jfound = true;
                    } else {
                        j = j + 1;
                    }
                }
                if jfound {
                    proof {
                        lemma_excluding_remove(users0, j as int);
                    }
                    if m == 1 {
                        self.rooms.remove(ri);
                        proof {
                            lemma_find_room_frame_remove(rcur, ri as int);
                            lemma_find_room_absent_after_remove(rcur, ri as int);
                            assert(excluding(users0, Some(user_id)) =~= users0.remove(j as int));
                            assert(room_members(self.rooms@, room@) =~= excluding(
                                users0,
                                Some(user_id),
                            ));
                        }
                    } else {
                        let entry = vstd::std_specs::vec::vec_index_mut(&mut self.rooms, ri);
                        entry.users.remove(j);
                        proof {
                            let r1 = self.rooms@;
                            assert(r1 == rcur.update(ri as int, r1[ri as int]));
                            lemma_find_room_at(r1, room@, ri as int);
                            lemma_find_room_frame(rcur, r1, ri as int);
                        }
                    }
                } else {
                    proof {
                        assert(!users0.contains(user_id)) by {
                            if users0.contains(user_id) {
                                let p = choose|p: int|
                                    0 <= p < users0.len() && users0[p] == user_id;
                                assert(false);
                            }
                        }
                        lemma_excluding_none(users0, Some(user_id));
                    }
                }
            } else {
                proof {
                    lemma_find_room_absent(rcur, room@);
                    assert(excluding(Seq::<i64>::empty(), Some(user_id))
                        =~= Seq::<i64>::empty());
                    assert(connected_subset(Seq::<i64>::empty(), mid) =~= Seq::<i64>::empty());
                }
                effects.push(
                    HubEffect::Deliver {
                        users: Vec::new(),
                        frame: WsResponse::UserOffline { user_id },
                    },
                );
            }
            proof {
                let rk = list@[k as int]@;
                assert(find_room(rcur, rk) == find_room(rooms0, rk));
                assert(room_members(self.rooms@, rk) == excluding(
                    room_members(rooms0, rk),
                    Some(user_id),
                ));
                assert forall|r: Seq<char>| r != rk implies #[trigger] find_room(self.rooms@, r)
                    == find_room(rcur, r) by {}
                assert forall|r: Seq<char>|
                    contains_view(list@.subrange(0, k as int + 1), r) implies (contains_view(
                    list@.subrange(0, k as int),
                    r,
                ) || r == list@[k as int]@) by {
                    let m = choose|m: int|
                        0 <= m < k + 1 && (#[trigger] list@.subrange(0, k as int + 1)[m])@ == r;
                    if m < k {
                        assert(list@.subrange(0, k as int)[m]@ == r);
                    }
                }
                assert forall|r: Seq<char>|
                    (contains_view(list@.subrange(0, k as int), r) || r == list@[k as int]@) implies
                    contains_view(list@.subrange(0, k as int + 1), r) by {
                    if contains_view(list@.subrange(0, k as int), r) {
                        let m = choose|m: int|
                            0 <= m < k && (#[trigger] list@.subrange(0, k as int)[m])@ == r;
                        assert(list@.subrange(0, k as int + 1)[m]@ == r);
                    } else {
                        assert(list@.subrange(0, k as int + 1)[k as int]@ == r);
                    }
                }
                assert forall|r: Seq<char>|
                    contains_view(list@.subrange(0, k as int + 1), r) implies #[trigger] room_members(
                    self.rooms@,
                    r,
                ) == excluding(room_members(rooms0, r), Some(user_id)) by {
                    if r != rk {
                        assert(contains_view(list@.subrange(0, k as int), r));
                        assert(room_members(rcur, r) == excluding(
                            room_members(rooms0, r),
                            Some(user_id),
                        ));
                        assert(find_room(self.rooms@, r) == find_room(rcur, r));
                    }
                }
                assert forall|r: Seq<char>|
                    !contains_view(list@.subrange(0, k as int + 1), r) implies #[trigger] find_room(
                    self.rooms@,
                    r,
                ) == find_room(rooms0, r) by {
                    assert(r != rk) by {
                        if r == rk {
                            assert(contains_view(list@.subrange(0, k as int + 1), r));
                        }
                    }
                    assert(!contains_view(list@.subrange(0, k as int), r));
                    assert(find_room(rcur, r) == find_room(rooms0, r));
                    assert(find_room(self.rooms@, r) == find_room(rcur, r));
                }
            }
            k = k + 1;
        }
        proof {
            assert(list@.subrange(0, ln as int) =~= list@);
        }
        let ghost t0 = self.typing@;
        let ghost rooms_done = self.rooms@;
        let ghost effects_done = effects@;
        let tn = self.typing.len();
        let mut ti: usize = 0;
        while ti < tn
            invariant
                tn == self.typing@.len(),
                t0.len() == tn,
                0 <= ti <= tn,
                self.wf(),
                forall|m: int| ti <= m < tn ==> self.typing@[m] == t0[m],
                forall|m: int|
                    0 <= m < ti ==> (#[trigger] self.typing@[m]).room_id == t0[m].room_id
                        && self.typing@[m].entries@ == entries_without_user(
                        t0[m].entries@,
                        user_id,
                    ),
                self.sessions@ == mid,
                self.rooms@ == rooms_done,
                self.user_rooms@ == ur_mid,
                self.limiter == old(self).limiter,
                effects@ == effects_done,
            decreases tn - ti,
        {
            proof {
                lemma_entries_without_user_props(t0[ti as int].entries@, user_id);
            }
            let entry = vstd::std_specs::vec::vec_index_mut(&mut self.typing, ti);
            filter_typing(&mut entry.entries, user_id);
            ti = ti + 1;
        }
        proof {
            assert forall|t: u64| old(self).fresh_until(t) implies self.fresh_until(t) by {
                assert forall|i: int, a: int|
                    0 <= i < self.sessions@.len() && 0 <= a < self.sessions@[i].sessions@.len()
                        implies (#[trigger] self.sessions@[i].sessions@[a]).connected_at <= t by {
                    if i < ui as int {
                        assert(self.sessions@[i] == s0[i]);
                    } else {
                        assert(self.sessions@[i] == s0[i + 1]);
                    }
                }
                assert forall|i: int, a: int|
                    0 <= i < self.typing@.len() && 0 <= a < self.typing@[i].entries@.len() implies (
                #[trigger] self.typing@[i].entries@[a]).last_typed <= t by {
                    lemma_entries_without_user_props(t0[i].entries@, user_id);
                    assert(self.typing@[i].entries@.contains(self.typing@[i].entries@[a]));
                    assert(t0[i].entries@.contains(self.typing@[i].entries@[a]));
                    let m = choose|m: int|
                        0 <= m < t0[i].entries@.len() && t0[i].entries@[m]
                            == self.typing@[i].entries@[a];
                    assert(old(self).typing@[i].entries@[m].last_typed <= t);
                }
            }
        }
        effects
    }

    /// Room broadcast, publish-only: the frame goes out on the room's bus
    /// channel and nothing is delivered locally — the bus loops it back to
    /// every instance, this one included, and `broadcast_to_room_local` is
    /// the single local fan-out point. The exclusion is not carried over
    /// the bus; it applies only where the payload itself names the sender.
    pub fn broadcast_to_room(
        &self,
        room_id: &String,
        frame: WsResponse,
        _exclude_user: Option<i64>,
    ) -> (effects: Vec<HubEffect>)
        ensures
            effects@.len() == 1,
            (effects@[0] matches HubEffect::Publish { channel, frame: f } && channel@
                == "chat:room:"@ + room_id@ && f == frame),
            forall|u: i64| deliver_count(effects@, u) == 0,
    {
        let channel = crate::text::room_channel(room_id.as_str());
        let mut effects: Vec<HubEffect> = Vec::new();
        effects.push(HubEffect::Publish { channel, frame });
        proof {
            assert forall|u: i64| deliver_count(effects@, u) == 0 by {
                assert(effects@.drop_last() =~= Seq::<HubEffect>::empty());
                assert(deliver_count(Seq::<HubEffect>::empty(), u) == 0);
            }
        }
        effects
    }

    /// Local-only room fan-out, invoked exclusively for frames arriving
    /// from the bus: deliver to every locally subscribed member except the
    /// excluded one — each exactly once.
    pub fn broadcast_to_room_local(
        &self,
        room_id: &String,
        frame: WsResponse,
        exclude_user: Option<i64>,
    ) -> (effects: Vec<HubEffect>)
        requires
            self.wf(),
        ensures
            find_room(self.rooms@, room_id@) is None ==> effects@.len() == 0,
            find_room(self.rooms@, room_id@) is Some ==> effects@.len() == 1 && (effects@[0]
                matches HubEffect::Deliver { users, frame: f } && users@ == excluding(
                room_members(self.rooms@, room_id@),
                exclude_user,
            ) && f == frame),
            forall|u: i64|
                #[trigger] deliver_count(effects@, u) == if room_members(
                    self.rooms@,
                    room_id@,
                ).contains(u) && exclude_user != Some(u) {
                    1int
                } else {
                    0int
                },
    {
        let ghost r0 = self.rooms@;
        let n = self.rooms.len();
        let mut i: usize = 0;
        while i < n
            invariant
                n == self.rooms@.len(),
                0 <= i <= n,
                self.rooms@ == r0,
                self.wf(),
                forall|k: int| 0 <= k < i ==> (#[trigger] r0[k]).room_id@ != room_id@,
            decreases n - i,
        {
            if crate::text::str_eq(self.rooms[i].room_id.as_str(), room_id.as_str()) {
                proof {
                    lemma_find_room_at(r0, room_id@, i as int);
                }
                let recipients = excluding_exec(&self.rooms[i].users, exclude_user);
                let mut effects: Vec<HubEffect> = Vec::new();
                effects.push(HubEffect::Deliver { users: recipients, frame });
                proof {
                    let members = room_members(r0, room_id@);
                    assert(members == r0[i as int].users@);
                    assert(forall|a: int, b: int|
                        0 <= a < b < members.len() ==> members[a] != members[b]);
                    assert forall|u: i64|
                        #[trigger] deliver_count(effects@, u) == if members.contains(u)
                            && exclude_user != Some(u) {
                            1int
                        } else {
                            0int
                        } by {
                        assert(effects@.drop_last() =~= Seq::<HubEffect>::empty());
                        assert(deliver_count(Seq::<HubEffect>::empty(), u) == 0);
                        lemma_count_excluding(members, exclude_user, u);
                    }
                }
                return effects;
            }
            i = i + 1;
        }
        proof {
            lemma_find_room_absent(r0, room_id@);
        }
        Vec::new()
    }

    /// Deliver a frame to the listed users that are connected here;
    /// absent users are silently skipped — the publisher also pushes to
    /// their user channels for cross-instance reach.
    pub fn broadcast_to_users(&self, user_ids: Vec<i64>, frame: WsResponse) -> (effects: Vec<
        HubEffect,
    >)
        ensures
            effects@.len() == 1,
            (effects@[0] matches HubEffect::Deliver { users, frame: f } && users@
                == connected_subset(user_ids@, self.sessions@) && f == frame),
    {
        let present = online_members(&user_ids, &self.sessions);
        let mut effects: Vec<HubEffect> = Vec::new();
        effects.push(HubEffect::Deliver { users: present, frame });
        effects
    }

    /// Record that a user is typing in a room right now.
    pub fn user_typing(&mut self, user_id: i64, room_id: &String, now: u64)
        requires
            old(self).wf(),
            old(self).fresh_until(now),
        ensures
            final(self).wf(),
            final(self).fresh_until(now),
            final(self).sessions@ == old(self).sessions@,
            final(self).rooms@ == old(self).rooms@,
            final(self).user_rooms@ == old(self).user_rooms@,
            final(self).limiter == old(self).limiter,
            ({
                let after = find_typing(final(self).typing@, room_id@);
                &&& after is Some
                &&& typing_last(after->0.entries@, user_id) == Some(now)
                &&& forall|u2: i64|
                    u2 != user_id ==> #[trigger] typing_last(after->0.entries@, u2) == typing_last(
                        match find_typing(old(self).typing@, room_id@) {
                            Some(e) => e.entries@,
                            None => Seq::empty(),
                        },
                        u2,
                    )
            }),
            forall|r2: Seq<char>|
                r2 != room_id@ ==> #[trigger] find_typing(final(self).typing@, r2) == find_typing(
                    old(self).typing@,
                    r2,
                ),
    {
        let ghost t0 = self.typing@;
        let n = self.typing.len();
        let mut i: usize = 0;
        while i < n
            invariant
                n == self.typing@.len(),
                0 <= i <= n,
                *self == *old(self),
                self.typing@ == t0,
                old(self).wf(),
                old(self).fresh_until(now),
                forall|k: int| 0 <= k < i ==> (#[trigger] t0[k]).room_id@ != room_id@,
            decreases n - i,
        {
            if crate::text::str_eq(self.typing[i].room_id.as_str(), room_id.as_str()) {
                proof {
                    lemma_find_typing_at(t0, room_id@, i as int);
                }
                let ghost e0 = t0[i as int].entries@;
                let m = self.typing[i].entries.len();
                let mut j: usize = 0;
                while j < m
                    invariant
                        self.typing@ == t0,
                        *self == *old(self),
                        old(self).wf(),
                        old(self).fresh_until(now),
                        0 <= i < t0.len(),
                        t0[i as int].room_id@ == room_id@,
                        forall|k: int| 0 <= k < i ==> (#[trigger] t0[k]).room_id@ != room_id@,
                        m == e0.len(),
                        e0 == t0[i as int].entries@,
                        0 <= j <= m,
                        forall|k: int| 0 <= k < j ==> (#[trigger] e0[k]).user_id != user_id,
                    decreases m - j,
                {
                    if self.typing[i].entries[j].user_id == user_id {
                        proof {
                            lemma_find_typing_at(t0, room_id@, i as int);
                            lemma_typing_last_at(e0, user_id, j as int);
                        }
                        let entry = vstd::std_specs::vec::vec_index_mut(&mut self.typing, i);
                        entry.entries.set(j, TypingRec { user_id, last_typed: now });
                        proof {
                            let t1 = self.typing@;
                            let e1 = t1[i as int].entries@;
                            assert(t1 == t0.update(i as int, t1[i as int]));
                            lemma_find_typing_at(t1, room_id@, i as int);
                            lemma_find_typing_frame(t0, t1, i as int);
                            lemma_typing_last_at(e1, user_id, j as int);
                            lemma_typing_last_frame(e0, e1, j as int);
                        }
                        return ;
                    }
                    j = j + 1;
                }
                proof {
                    lemma_typing_last_absent(e0, user_id);
                }
                let entry = vstd::std_specs::vec::vec_index_mut(&mut self.typing, i);
                entry.entries.push(TypingRec { user_id, last_typed: now });
                proof {
                    let t1 = self.typing@;
                    let e1 = t1[i as int].entries@;
                    assert(t1 == t0.update(i as int, t1[i as int]));
                    lemma_find_typing_at(t1, room_id@, i as int);
                    lemma_find_typing_frame(t0, t1, i as int);
                    lemma_typing_last_at(e1, user_id, e0.len() as int);
                    lemma_typing_last_frame(e0, e1, e0.len() as int);
                }
                return ;
            }
            i = i + 1;
        }
        let mut entries: Vec<TypingRec> = Vec::new();
        entries.push(TypingRec { user_id, last_typed: now });
        self.typing.push(RoomTyping { room_id: room_id.clone(), entries });
        proof {
            let t1 = self.typing@;
            let e1 = t1[t0.len() as int].entries@;
            lemma_find_typing_absent(t0, room_id@);
            lemma_find_typing_at(t1, room_id@, t0.len() as int);
            lemma_find_typing_frame(t0, t1, t0.len() as int);
            lemma_typing_last_at(e1, user_id, 0);
            assert forall|u2: i64| u2 != user_id implies #[trigger] typing_last(e1, u2)
                == typing_last(Seq::<TypingRec>::empty(), u2) by {
                lemma_typing_last_absent(e1, u2);
            }
        }
    }

    /// The periodic typing sweep: drop every typing record older than the
    /// TTL and, for each dropped (room, user) pair, fan an
    /// `is_typing: false` frame out to the other local members of that
    /// room. A pair whose record went stale is thus announced within one
    /// sweep period of its expiry.
    pub fn sweep_typing(&mut self, now: u64) -> (effects: Vec<HubEffect>)
        requires
            old(self).wf(),
            old(self).fresh_until(now),
        ensures
            final(self).wf(),
            final(self).fresh_until(now),
            final(self).sessions@ == old(self).sessions@,
            final(self).rooms@ == old(self).rooms@,
            final(self).user_rooms@ == old(self).user_rooms@,
            final(self).limiter == old(self).limiter,
            final(self).typing@.len() == old(self).typing@.len(),
            forall|i: int|
                0 <= i < old(self).typing@.len() ==> (#[trigger] final(self).typing@[i]).room_id
                    == old(self).typing@[i].room_id && final(self).typing@[i].entries@
                    == fresh_entries(old(self).typing@[i].entries@, now as int),
            forall|i: int, a: int|
                0 <= i < final(self).typing@.len() && 0 <= a
                    < final(self).typing@[i].entries@.len() ==> (
                #[trigger] final(self).typing@[i].entries@[a]).last_typed + TYPING_TTL_MS >= now,
            ({
                let pairs = stale_pairs(old(self).typing@, now as int);
                &&& effects@.len() == pairs.len()
                &&& forall|m: int|
                    0 <= m < pairs.len() ==> typing_off_effect(
                        #[trigger] effects@[m],
                        pairs[m].0,
                        pairs[m].1,
                        old(self).rooms@,
                    )
            }),
    {
        let ghost t0 = self.typing@;
        let ghost rooms0 = self.rooms@;
        let mut effects: Vec<HubEffect> = Vec::new();
        let tn = self.typing.len();
        let mut i: usize = 0;
        while i < tn
            invariant
                tn == self.typing@.len(),
                t0.len() == tn,
                0 <= i <= tn,
                old(self).wf(),
                old(self).fresh_until(now),
                self.wf(),
                self.fresh_until(now),
                self.sessions@ == old(self).sessions@,
                self.rooms@ == rooms0,
                rooms0 == old(self).rooms@,
                self.user_rooms@ == old(self).user_rooms@,
                self.limiter == old(self).limiter,
                t0 == old(self).typing@,
                forall|m: int| i <= m < tn ==> self.typing@[m] == t0[m],
                forall|m: int|
                    0 <= m < i ==> (#[trigger] self.typing@[m]).room_id == t0[m].room_id
                        && self.typing@[m].entries@ == fresh_entries(t0[m].entries@, now as int),
                effects@.len() == stale_pairs(t0.subrange(0, i as int), now as int).len(),
                forall|m: int|
                    0 <= m < effects@.len() ==> typing_off_effect(
                        #[trigger] effects@[m],
                        stale_pairs(t0.subrange(0, i as int), now as int)[m].0,
                        stale_pairs(t0.subrange(0, i as int), now as int)[m].1,
                        rooms0,
                    ),
            decreases tn - i,
        {
            let ghost e0 = t0[i as int].entries@;
            proof {
                lemma_fresh_entries_props(e0, now as int);
                assert(forall|a: int| 0 <= a < e0.len() ==> (#[trigger] e0[a]).last_typed <= now);
            }
            let entry = vstd::std_specs::vec::vec_index_mut(&mut self.typing, i);
            let stale = sweep_entries(&mut entry.entries, now);
            let ghost base = stale_pairs(t0.subrange(0, i as int), now as int);
            let rid_snapshot = self.typing[i].room_id.clone();
            let sn = stale.len();
            let mut m: usize = 0;
            while m < sn
                invariant
                    sn == stale@.len(),
                    0 <= m <= sn,
                    stale@ == stale_users(e0, now as int),
                    rid_snapshot@ == t0[i as int].room_id@,
                    0 <= i < t0.len(),
                    self.wf(),
                    self.rooms@ == rooms0,
                    effects@.len() == base.len() + m,
                    forall|p: int|
                        0 <= p < base.len() ==> typing_off_effect(
                            #[trigger] effects@[p],
                            base[p].0,
                            base[p].1,
                            rooms0,
                        ),
                    forall|p: int|
                        0 <= p < m ==> typing_off_effect(
                            #[trigger] effects@[base.len() + p],
                            t0[i as int].room_id@,
                            stale@[p],
                            rooms0,
                        ),
                decreases sn - m,
            {
                let uid = stale[m];
                let recips = self.recipients_for_typing_off(&rid_snapshot, uid);
                effects.push(
                    HubEffect::Deliver {
                        users: recips,
                        frame: WsResponse::Typing {
                            room_id: rid_snapshot.clone(),
                            user_id: uid,
                            user_name: None,
                            is_typing: false,
                        },
                    },
                );
                m = m + 1;
            }
            proof {
                let pre = t0.subrange(0, i as int + 1);
                assert(pre.drop_last() =~= t0.subrange(0, i as int));
                assert(pre.last() == t0[i as int]);
                let roomp = stale_users(e0, now as int).map_values(
                    |u: i64| (t0[i as int].room_id@, u),
                );
                assert(stale_pairs(pre, now as int) == base + roomp);
                assert(effects@.len() == stale_pairs(pre, now as int).len());
                assert forall|p: int| 0 <= p < effects@.len() implies typing_off_effect(
                    #[trigger] effects@[p],
                    stale_pairs(pre, now as int)[p].0,
                    stale_pairs(pre, now as int)[p].1,
                    rooms0,
                ) by {
                    if p >= base.len() {
                        let p2 = p - base.len();
                        assert(typing_off_effect(
                            effects@[base.len() + p2],
                            t0[i as int].room_id@,
                            stale@[p2],
                            rooms0,
                        ));
                        assert(stale_pairs(pre, now as int)[p] == roomp[p2]);
                        assert(roomp[p2] == (t0[i as int].room_id@, stale_users(e0, now as int)[p2]));
                    }
                }
                assert forall|q: int, a: int|
                    0 <= q < self.typing@.len() && 0 <= a < self.typing@[q].entries@.len() implies (
                #[trigger] self.typing@[q].entries@[a]).last_typed <= now by {
                    if q <= i as int {
                        lemma_fresh_entries_props(t0[q].entries@, now as int);
                        assert(self.typing@[q].entries@ == fresh_entries(
                            t0[q].entries@,
                            now as int,
                        ));
                        assert(self.typing@[q].entries@.contains(self.typing@[q].entries@[a]));
                        assert(t0[q].entries@.contains(self.typing@[q].entries@[a]));
                        let w = choose|w: int|
                            0 <= w < t0[q].entries@.len() && t0[q].entries@[w]
                                == self.typing@[q].entries@[a];
                        assert(old(self).typing@[q].entries@[w].last_typed <= now);
                    } else {
                        assert(self.typing@[q] == t0[q]);
                        assert(old(self).typing@[q].entries@[a].last_typed <= now);
                    }
                }
            }
            i = i + 1;
        }
        proof {
            assert(t0.subrange(0, tn as int) =~= t0);
            assert forall|q: int, a: int|
                0 <= q < self.typing@.len() && 0 <= a < self.typing@[q].entries@.len() implies (
            #[trigger] self.typing@[q].entries@[a]).last_typed + TYPING_TTL_MS >= now by {
                lemma_fresh_entries_props(t0[q].entries@, now as int);
            }
        }
        effects
    }

    /// The recipients of a stopped-typing frame: the room's local members
    /// other than the typist.
    fn recipients_for_typing_off(&self, room_id: &String, user_id: i64) -> (r: Vec<i64>)
        requires
            self.wf(),
        ensures
            r@ == excluding(room_members(self.rooms@, room_id@), Some(user_id)),
    {
        let ghost r0 = self.rooms@;
        let n = self.rooms.len();
        let mut i: usize = 0;
        while i < n
            invariant
                n == self.rooms@.len(),
                0 <= i <= n,
                self.rooms@ == r0,
                forall|k: int| 0 <= k < i ==> (#[trigger] r0[k]).room_id@ != room_id@,
            decreases n - i,
        {
            if crate::text::str_eq(self.rooms[i].room_id.as_str(), room_id.as_str()) {
                proof {
                    lemma_find_room_at(r0, room_id@, i as int);
                }
                return excluding_exec(&self.rooms[i].users, Some(user_id));
            }
            i = i + 1;
        }
        proof {
            lemma_find_room_absent(r0, room_id@);
            assert(excluding(Seq::<i64>::empty(), Some(user_id)) =~= Seq::<i64>::empty());
        }
        Vec::new()
    }

    /// Consult the in-process limiter for one socket event of a user.
    pub fn check_rate_limit(
        &mut self,
        user_id: i64,
        event: crate::ratelimit::EventType,
        now: u64,
    ) -> (r: Result<(), u64>)
        requires
            old(self).wf(),
            old(self).fresh_until(now),
            now <= crate::ratelimit::MAX_TIME,
        ensures
            final(self).wf(),
            final(self).fresh_until(now),
            final(self).sessions@ == old(self).sessions@,
            final(self).rooms@ == old(self).rooms@,
            final(self).user_rooms@ == old(self).user_rooms@,
            final(self).typing@ == old(self).typing@,
            crate::ratelimit::check_result_spec(
                old(self).limiter,
                final(self).limiter,
                user_id,
                event,
                now,
                r,
            ),
    {
        self.limiter.check_rate_limit(user_id, event, now)
    }

    /// Consult the limiter for an event named on the wire; an unknown
    /// name is allowed through and consumes nothing.
    pub fn check_rate_limit_named(&mut self, user_id: i64, event_type: &str, now: u64) -> (r:
        Result<(), u64>)
        requires
            old(self).wf(),
            old(self).fresh_until(now),
            now <= crate::ratelimit::MAX_TIME,
        ensures
            final(self).wf(),
            final(self).fresh_until(now),
            final(self).sessions@ == old(self).sessions@,
            final(self).rooms@ == old(self).rooms@,
            final(self).user_rooms@ == old(self).user_rooms@,
            final(self).typing@ == old(self).typing@,
            event_of_name(event_type@) matches Some(e) ==> crate::ratelimit::check_result_spec(
                old(self).limiter,
                final(self).limiter,
                user_id,
                e,
                now,
                r,
            ),
            event_of_name(event_type@) is None ==> r is Ok && final(self).limiter == old(
                self,
            ).limiter,
    {
        if crate::text::str_eq(event_type, "message") {
            self.limiter.check_rate_limit(user_id, crate::ratelimit::EventType::Message, now)
        } else if crate::text::str_eq(event_type, "typing") {
            self.limiter.check_rate_limit(user_id, crate::ratelimit::EventType::Typing, now)
        } else if crate::text::str_eq(event_type, "room_action") {
            self.limiter.check_rate_limit(user_id, crate::ratelimit::EventType::RoomAction, now)
        } else {
            Ok(())
        }
    }

    /// Drop limiter state for users that no longer hold any session.
    pub fn cleanup_rate_limiter(&mut self)
        requires
            old(self).wf(),
        ensures
            final(self).wf(),
            forall|t: u64| old(self).fresh_until(t) ==> final(self).fresh_until(t),
            final(self).sessions@ == old(self).sessions@,
            final(self).rooms@ == old(self).rooms@,
            final(self).user_rooms@ == old(self).user_rooms@,
            final(self).typing@ == old(self).typing@,
            forall|en: crate::ratelimit::LimiterEntry|
                #[trigger] final(self).limiter.entries@.contains(en) <==> (old(
                    self,
                ).limiter.entries@.contains(en) && find_sessions(old(self).sessions@, en.user_id)
                    is Some),
    {
        let mut active: Vec<i64> = Vec::new();
        let n = self.sessions.len();
        let mut i: usize = 0;
        while i < n
            invariant
                n == self.sessions@.len(),
                0 <= i <= n,
                *self == *old(self),
                old(self).wf(),
                active@.len() == i,
                forall|k: int| 0 <= k < i ==> active@[k] == self.sessions@[k].user_id,
            decreases n - i,
        {
            active.push(self.sessions[i].user_id);
            i = i + 1;
        }
        proof {
            assert forall|u: i64|
                active@.contains(u) == (find_sessions(self.sessions@, u) is Some) by {
                if active@.contains(u) {
                    let k = choose|k: int| 0 <= k < active@.len() && active@[k] == u;
                    lemma_find_sessions_contains(self.sessions@, u, k);
                } else {
                    assert forall|k: int| 0 <= k < self.sessions@.len() implies (
                    #[trigger] self.sessions@[k]).user_id != u by {
                        if self.sessions@[k].user_id == u {
                            assert(active@[k] == u);
                        }
                    }
                    lemma_find_sessions_absent(self.sessions@, u);
                }
            }
        }
        self.limiter.cleanup_old_users(&active);
    }
}

/// Drop, in place, the sessions of the list that bear the given id.
fn filter_sessions(list: &mut Vec<SessionRec>, session_id: &String)
    ensures
        final(list)@ == sessions_without(old(list)@, session_id@),
{
    let ghost l0 = old(list)@;
    let initial_len = list.len();
    let mut i: usize = 0;
    let mut g: usize = 0;
    while i < list.len()
        invariant
            l0.len() == initial_len,
            0 <= g <= l0.len(),
            i == sessions_without(l0.subrange(0, g as int), session_id@).len(),
            list@ == sessions_without(l0.subrange(0, g as int), session_id@) + l0.subrange(
                g as int,
                l0.len() as int,
            ),
            i <= list@.len(),
        decreases l0.len() - g,
    {
        proof {
            assert(g < l0.len());
            assert(list@[i as int] == l0[g as int]);
            assert(l0.subrange(0, g as int + 1).drop_last() =~= l0.subrange(0, g as int));
            assert(l0.subrange(0, g as int + 1).last() == l0[g as int]);
        }
        if crate::text::str_eq(list[i].session_id.as_str(), session_id.as_str()) {
            list.remove(i);
            proof {
                assert(list@ =~= sessions_without(l0.subrange(0, g as int + 1), session_id@)
                    + l0.subrange(g as int + 1, l0.len() as int));
            }
        } else {
            i = i + 1;
            proof {
                assert(list@ =~= sessions_without(l0.subrange(0, g as int + 1), session_id@)
                    + l0.subrange(g as int + 1, l0.len() as int));
            }
        }
        g = g + 1;
    }
    proof {
        assert(g == l0.len());
        assert(l0.subrange(0, l0.len() as int) =~= l0);
        assert(l0.subrange(l0.len() as int, l0.len() as int) =~= Seq::<SessionRec>::empty());
        assert(list@ =~= sessions_without(l0, session_id@));
    }
}

/// Drop, in place, the typing records of the given user.
fn filter_typing(list: &mut Vec<TypingRec>, user_id: i64)
    ensures
        final(list)@ == entries_without_user(old(list)@, user_id),
{
    let ghost l0 = old(list)@;
    let initial_len = list.len();
    let mut i: usize = 0;
    let mut g: usize = 0;
    while i < list.len()
        invariant
            l0.len() == initial_len,
            0 <= g <= l0.len(),
            i == entries_without_user(l0.subrange(0, g as int), user_id).len(),
            list@ == entries_without_user(l0.subrange(0, g as int), user_id) + l0.subrange(
                g as int,
                l0.len() as int,
            ),
            i <= list@.len(),
        decreases l0.len() - g,
    {
        proof {
            assert(g < l0.len());
            assert(list@[i as int] == l0[g as int]);
            assert(l0.subrange(0, g as int + 1).drop_last() =~= l0.subrange(0, g as int));
            assert(l0.subrange(0, g as int + 1).last() == l0[g as int]);
        }
        if list[i].user_id == user_id {
            list.remove(i);
            proof {
                assert(list@ =~= entries_without_user(l0.subrange(0, g as int + 1), user_id)
                    + l0.subrange(g as int + 1, l0.len() as int));
            }
        } else {
            i = i + 1;
            proof {
                assert(list@ =~= entries_without_user(l0.subrange(0, g as int + 1), user_id)
                    + l0.subrange(g as int + 1, l0.len() as int));
            }
        }
        g = g + 1;
    }
    proof {
        assert(g == l0.len());
        assert(l0.subrange(0, l0.len() as int) =~= l0);
        assert(l0.subrange(l0.len() as int, l0.len() as int) =~= Seq::<TypingRec>::empty());
        assert(list@ =~= entries_without_user(l0, user_id));
    }
}

/// Drop, in place, the records older than the TTL and hand back the
/// users they belonged to, in list order.
fn sweep_entries(list: &mut Vec<TypingRec>, now: u64) -> (stale: Vec<i64>)
    requires
        forall|a: int| 0 <= a < old(list)@.len() ==> (#[trigger] old(list)@[a]).last_typed <= now,
    ensures
        final(list)@ == fresh_entries(old(list)@, now as int),
        stale@ == stale_users(old(list)@, now as int),
{
    let ghost l0 = old(list)@;
    let initial_len = list.len();
    let mut out: Vec<i64> = Vec::new();
    let mut i: usize = 0;
    let mut g: usize = 0;
    while i < list.len()
        invariant
            l0.len() == initial_len,
            0 <= g <= l0.len(),
            i == fresh_entries(l0.subrange(0, g as int), now as int).len(),
            list@ == fresh_entries(l0.subrange(0, g as int), now as int) + l0.subrange(
                g as int,
                l0.len() as int,
            ),
            out@ == stale_users(l0.subrange(0, g as int), now as int),
            i <= list@.len(),
            forall|a: int| 0 <= a < l0.len() ==> (#[trigger] l0[a]).last_typed <= now,
        decreases l0.len() - g,
    {
        proof {
            assert(g < l0.len());
            assert(list@[i as int] == l0[g as int]);
            assert(l0.subrange(0, g as int + 1).drop_last() =~= l0.subrange(0, g as int));
            assert(l0.subrange(0, g as int + 1).last() == l0[g as int]);
        }
        if now - list[i].last_typed > TYPING_TTL_MS {
            out.push(list[i].user_id);
            list.remove(i);
            proof {
                assert(list@ =~= fresh_entries(l0.subrange(0, g as int + 1), now as int)
                    + l0.subrange(g as int + 1, l0.len() as int));
            }
        } else {
            i = i + 1;
            proof {
                assert(list@ =~= fresh_entries(l0.subrange(0, g as int + 1), now as int)
                    + l0.subrange(g as int + 1, l0.len() as int));
            }
        }
        g = g + 1;
    }
    proof {
        assert(g == l0.len());
        assert(l0.subrange(0, l0.len() as int) =~= l0);
        assert(list@ =~= fresh_entries(l0, now as int));
        assert(out@ =~= stale_users(l0, now as int));
    }
    out
}

/// If some position holds user `u`, the scan finds an entry.
pub proof fn lemma_find_sessions_contains(s: Seq<UserSessions>, u: i64, k: int)
    requires
        0 <= k < s.len(),
        s[k].user_id == u,
    ensures
        find_sessions(s, u) is Some,
    decreases s.len(),
{
    if s[0].user_id != u {
        lemma_find_sessions_contains(s.drop_first(), u, k - 1);
    }
}

/// The session list without the sessions bearing `sid`.
pub open spec fn sessions_without(s: Seq<SessionRec>, sid: Seq<char>) -> Seq<SessionRec>
    decreases s.len(),
{
    if s.len() == 0 {
        Seq::empty()
    } else {
        let r = sessions_without(s.drop_last(), sid);
        if s.last().session_id@ == sid {
            r
        } else {
            r.push(s.last())
        }
    }
}

/// Dropping sessions keeps length bounds, provenance and time order.
pub proof fn lemma_sessions_without_props(s: Seq<SessionRec>, sid: Seq<char>)
    ensures
        sessions_without(s, sid).len() <= s.len(),
        forall|x: SessionRec| #[trigger] sessions_without(s, sid).contains(x) ==> s.contains(x),
        (forall|a: int, b: int|
            0 <= a < b < s.len() ==> s[a].connected_at <= s[b].connected_at) ==> (forall|
            a: int,
            b: int,
        |
            0 <= a < b < sessions_without(s, sid).len() ==> sessions_without(
                s,
                sid,
            )[a].connected_at <= sessions_without(s, sid)[b].connected_at),
    decreases s.len(),
{
    if s.len() > 0 {
        let s1 = s.drop_last();
        lemma_sessions_without_props(s1, sid);
        let r1 = sessions_without(s1, sid);
        assert forall|x: SessionRec| #[trigger] s1.contains(x) implies s.contains(x) by {
            let k = choose|k: int| 0 <= k < s1.len() && s1[k] == x;
            assert(s[k] == x);
        }
        assert(s.contains(s.last())) by {
            assert(s[s.len() - 1] == s.last());
        }
        if s.last().session_id@ != sid {
            let r = r1.push(s.last());
            assert forall|x: SessionRec| #[trigger] r.contains(x) implies s.contains(x) by {
                let k = choose|k: int| 0 <= k < r.len() && r[k] == x;
                if k < r.len() - 1 {
                    assert(r1[k] == x);
                    assert(r1.contains(x));
                }
            }
            if forall|a: int, b: int| 0 <= a < b < s.len() ==> s[a].connected_at
                <= s[b].connected_at {
                assert(forall|a: int, b: int|
                    0 <= a < b < s1.len() ==> s1[a].connected_at <= s1[b].connected_at);
                assert forall|a: int, b: int| 0 <= a < b < r.len() implies r[a].connected_at
                    <= r[b].connected_at by {
                    if b == r.len() - 1 {
                        assert(r[a] == r1[a]);
                        assert(r1.contains(r1[a]));
                        assert(s1.contains(r[a]));
                        let m = choose|m: int| 0 <= m < s1.len() && s1[m] == r[a];
                        assert(s[m] == r[a]);
                        assert(s[m].connected_at <= s[s.len() - 1].connected_at);
                    } else {
                        assert(r[a] == r1[a] && r[b] == r1[b]);
                    }
                }
            }
        }
    }
}

/// Removing a whole user entry leaves the scan of other users unchanged.
pub proof fn lemma_find_sessions_frame_remove(s0: Seq<UserSessions>, i: int)
    requires
        0 <= i < s0.len(),
    ensures
        forall|u2: i64|
            u2 != s0[i].user_id ==> #[trigger] find_sessions(s0.remove(i), u2) == find_sessions(
                s0,
                u2,
            ),
{
    assert forall|u2: i64| u2 != s0[i].user_id implies #[trigger] find_sessions(s0.remove(i), u2)
        == find_sessions(s0, u2) by {
        lemma_find_sessions_frame_remove_one(s0, i, u2);
    }
}

pub proof fn lemma_find_sessions_frame_remove_one(s0: Seq<UserSessions>, i: int, u2: i64)
    requires
        0 <= i < s0.len(),
        u2 != s0[i].user_id,
    ensures
        find_sessions(s0.remove(i), u2) == find_sessions(s0, u2),
    decreases s0.len(),
{
    let s1 = s0.remove(i);
    if i == 0 {
        assert(s1 =~= s0.drop_first());
    } else {
        assert(s1[0] == s0[0]);
        if s0[0].user_id != u2 {
            assert(s1.drop_first() =~= s0.drop_first().remove(i - 1));
            lemma_find_sessions_frame_remove_one(s0.drop_first(), i - 1, u2);
        }
    }
}

/// After removing the only entry of a user, the scan finds nothing.
pub proof fn lemma_find_sessions_absent_after_remove(s0: Seq<UserSessions>, i: int)
    requires
        0 <= i < s0.len(),
        forall|a: int, b: int| 0 <= a < b < s0.len() ==> s0[a].user_id != s0[b].user_id,
    ensures
        find_sessions(s0.remove(i), s0[i].user_id) is None,
{
    let s1 = s0.remove(i);
    assert forall|k: int| 0 <= k < s1.len() implies (#[trigger] s1[k]).user_id
        != s0[i].user_id by {
        if k < i {
            assert(s1[k] == s0[k]);
        } else {
            assert(s1[k] == s0[k + 1]);
        }
    }
    lemma_find_sessions_absent(s1, s0[i].user_id);
}

/// The same removal lemmas for per-user room lists.
pub proof fn lemma_find_user_rooms_frame_remove(s0: Seq<UserRooms>, i: int)
    requires
        0 <= i < s0.len(),
    ensures
        forall|u2: i64|
            u2 != s0[i].user_id ==> #[trigger] find_user_rooms(s0.remove(i), u2)
                == find_user_rooms(s0, u2),
{
    assert forall|u2: i64| u2 != s0[i].user_id implies #[trigger] find_user_rooms(s0.remove(i), u2)
        == find_user_rooms(s0, u2) by {
        lemma_find_user_rooms_frame_remove_one(s0, i, u2);
    }
}

pub proof fn lemma_find_user_rooms_frame_remove_one(s0: Seq<UserRooms>, i: int, u2: i64)
    requires
        0 <= i < s0.len(),
        u2 != s0[i].user_id,
    ensures
        find_user_rooms(s0.remove(i), u2) == find_user_rooms(s0, u2),
    decreases s0.len(),
{
    let s1 = s0.remove(i);
    if i == 0 {
        assert(s1 =~= s0.drop_first());
    } else {
        assert(s1[0] == s0[0]);
        if s0[0].user_id != u2 {
            assert(s1.drop_first() =~= s0.drop_first().remove(i - 1));
            lemma_find_user_rooms_frame_remove_one(s0.drop_first(), i - 1, u2);
        }
    }
}

pub proof fn lemma_find_user_rooms_absent_after_remove(s0: Seq<UserRooms>, i: int)
    requires
        0 <= i < s0.len(),
        forall|a: int, b: int| 0 <= a < b < s0.len() ==> s0[a].user_id != s0[b].user_id,
    ensures
        find_user_rooms(s0.remove(i), s0[i].user_id) is None,
{
    let s1 = s0.remove(i);
    assert forall|k: int| 0 <= k < s1.len() implies (#[trigger] s1[k]).user_id
        != s0[i].user_id by {
        if k < i {
            assert(s1[k] == s0[k]);
        } else {
            assert(s1[k] == s0[k + 1]);
        }
    }
    lemma_find_user_rooms_absent(s1, s0[i].user_id);
}

/// The typing entries without one user's record.
pub open spec fn entries_without_user(s: Seq<TypingRec>, u: i64) -> Seq<TypingRec>
    decreases s.len(),
{
    if s.len() == 0 {
        Seq::empty()
    } else {
        let r = entries_without_user(s.drop_last(), u);
        if s.last().user_id == u {
            r
        } else {
            r.push(s.last())
        }
    }
}

/// Dropping one user's typing record keeps provenance, key uniqueness,
/// and leaves no record of that user.
pub proof fn lemma_entries_without_user_props(s: Seq<TypingRec>, u: i64)
    ensures
        forall|x: TypingRec| #[trigger] entries_without_user(s, u).contains(x) ==> s.contains(x),
        forall|k: int|
            0 <= k < entries_without_user(s, u).len() ==> (#[trigger] entries_without_user(
                s,
                u,
            )[k]).user_id != u,
        (forall|a: int, b: int| 0 <= a < b < s.len() ==> s[a].user_id != s[b].user_id) ==> (forall|
            a: int,
            b: int,
        |
            0 <= a < b < entries_without_user(s, u).len() ==> entries_without_user(s, u)[a].user_id
                != entries_without_user(s, u)[b].user_id),
    decreases s.len(),
{
    if s.len() > 0 {
        let s1 = s.drop_last();
        lemma_entries_without_user_props(s1, u);
        let r1 = entries_without_user(s1, u);
        assert forall|x: TypingRec| #[trigger] s1.contains(x) implies s.contains(x) by {
            let k = choose|k: int| 0 <= k < s1.len() && s1[k] == x;
            assert(s[k] == x);
        }
        assert(s.contains(s.last())) by {
            assert(s[s.len() - 1] == s.last());
        }
        if s.last().user_id != u {
            let r = r1.push(s.last());
            assert forall|x: TypingRec| #[trigger] r.contains(x) implies s.contains(x) by {
                let k = choose|k: int| 0 <= k < r.len() && r[k] == x;
                if k < r.len() - 1 {
                    assert(r1[k] == x);
                    assert(r1.contains(x));
                }
            }
            assert(forall|k: int| 0 <= k < r.len() - 1 ==> r[k] == r1[k]);
            if forall|a: int, b: int| 0 <= a < b < s.len() ==> s[a].user_id != s[b].user_id {
                assert(forall|a: int, b: int|
                    0 <= a < b < s1.len() ==> s1[a].user_id != s1[b].user_id);
                assert forall|a: int, b: int| 0 <= a < b < r.len() implies r[a].user_id
                    != r[b].user_id by {
                    if b == r.len() - 1 {
                        assert(r[a] == r1[a]);
                        assert(r1.contains(r1[a]));
                        assert(s1.contains(r[a]));
                        let m = choose|m: int| 0 <= m < s1.len() && s1[m] == r[a];
                        assert(s[m] == r[a]);
                        assert(s[m].user_id != s[s.len() - 1].user_id);
                    } else {
                        assert(r[a] == r1[a] && r[b] == r1[b]);
                    }
                }
            }
        }
    }
}

/// The typing records still fresh at `now`: last typed within the TTL.
pub open spec fn fresh_entries(s: Seq<TypingRec>, now: int) -> Seq<TypingRec>
    decreases s.len(),
{
    if s.len() == 0 {
        Seq::empty()
    } else {
        let r = fresh_entries(s.drop_last(), now);
        if s.last().last_typed + TYPING_TTL_MS >= now {
            r.push(s.last())
        } else {
            r
        }
    }
}

/// The users whose typing records went stale at `now`, in list order.
pub open spec fn stale_users(s: Seq<TypingRec>, now: int) -> Seq<i64>
    decreases s.len(),
{
    if s.len() == 0 {
        Seq::empty()
    } else {
        let r = stale_users(s.drop_last(), now);
        if s.last().last_typed + TYPING_TTL_MS >= now {
            r
        } else {
            r.push(s.last().user_id)
        }
    }
}

/// All (room, user) pairs whose typing went stale at `now`, room by room.
pub open spec fn stale_pairs(t: Seq<RoomTyping>, now: int) -> Seq<(Seq<char>, i64)>
    decreases t.len(),
{
    if t.len() == 0 {
        Seq::empty()
    } else {
        stale_pairs(t.drop_last(), now) + stale_users(t.last().entries@, now).map_values(
            |u: i64| (t.last().room_id@, u),
        )
    }
}

/// What one stopped-typing notification must look like: an
/// `is_typing: false` frame for the pair, delivered to the other local
/// members of the room.
pub open spec fn typing_off_effect(
    e: HubEffect,
    rid: Seq<char>,
    u: i64,
    rooms: Seq<RoomUsers>,
) -> bool {
    e matches HubEffect::Deliver {
        users,
        frame: WsResponse::Typing { room_id, user_id, user_name, is_typing },
    } && room_id@ == rid && user_id == u && user_name is None && is_typing == false && users@
        == excluding(room_members(rooms, rid), Some(u))
}

/// Keeping only fresh records keeps provenance and key uniqueness.
pub proof fn lemma_fresh_entries_props(s: Seq<TypingRec>, now: int)
    ensures
        forall|x: TypingRec| #[trigger] fresh_entries(s, now).contains(x) ==> s.contains(x),
        forall|k: int|
            0 <= k < fresh_entries(s, now).len() ==> (#[trigger] fresh_entries(
                s,
                now,
            )[k]).last_typed + TYPING_TTL_MS >= now,
        (forall|a: int, b: int| 0 <= a < b < s.len() ==> s[a].user_id != s[b].user_id) ==> (forall|
            a: int,
            b: int,
        |
            0 <= a < b < fresh_entries(s, now).len() ==> fresh_entries(s, now)[a].user_id
                != fresh_entries(s, now)[b].user_id),
    decreases s.len(),
{
    if s.len() > 0 {
        let s1 = s.drop_last();
        lemma_fresh_entries_props(s1, now);
        let r1 = fresh_entries(s1, now);
        assert forall|x: TypingRec| #[trigger] s1.contains(x) implies s.contains(x) by {
            let k = choose|k: int| 0 <= k < s1.len() && s1[k] == x;
            assert(s[k] == x);
        }
        assert(s.contains(s.last())) by {
            assert(s[s.len() - 1] == s.last());
        }
        if s.last().last_typed + TYPING_TTL_MS >= now {
            let r = r1.push(s.last());
            assert forall|x: TypingRec| #[trigger] r.contains(x) implies s.contains(x) by {
                let k = choose|k: int| 0 <= k < r.len() && r[k] == x;
                if k < r.len() - 1 {
                    assert(r1[k] == x);
                    assert(r1.contains(x));
                }
            }
            assert(forall|k: int| 0 <= k < r.len() - 1 ==> r[k] == r1[k]);
            if forall|a: int, b: int| 0 <= a < b < s.len() ==> s[a].user_id != s[b].user_id {
                assert(forall|a: int, b: int|
                    0 <= a < b < s1.len() ==> s1[a].user_id != s1[b].user_id);
                assert forall|a: int, b: int| 0 <= a < b < r.len() implies r[a].user_id
                    != r[b].user_id by {
                    if b == r.len() - 1 {
                        assert(r[a] == r1[a]);
                        assert(r1.contains(r1[a]));
                        assert(s1.contains(r[a]));
                        let m = choose|m: int| 0 <= m < s1.len() && s1[m] == r[a];
                        assert(s[m] == r[a]);
                        assert(s[m].user_id != s[s.len() - 1].user_id);
                    } else {
                        assert(r[a] == r1[a] && r[b] == r1[b]);
                    }
                }
            }
        }
    }
}

/// The event class a wire name denotes, if any.
pub open spec fn event_of_name(name: Seq<char>) -> Option<crate::ratelimit::EventType> {
    if name == "message"@ {
        Some(crate::ratelimit::EventType::Message)
    } else if name == "typing"@ {
        Some(crate::ratelimit::EventType::Typing)
    } else if name == "room_action"@ {
        Some(crate::ratelimit::EventType::RoomAction)
    } else {
        None
    }
}


/// The room list without the entries reading `r`.
pub open spec fn excluding_room(s: Seq<String>, r: Seq<char>) -> Seq<String>
    decreases s.len(),
{
    if s.len() == 0 {
        Seq::empty()
    } else {
        let rest = excluding_room(s.drop_last(), r);
        if s.last()@ == r {
            rest
        } else {
            rest.push(s.last())
        }
    }
}

/// Excluding a room that does not occur changes nothing.
pub proof fn lemma_excluding_room_none(s: Seq<String>, r: Seq<char>)
    requires
        forall|k: int| 0 <= k < s.len() ==> (#[trigger] s[k])@ != r,
    ensures
        excluding_room(s, r) == s,
    decreases s.len(),
{
    if s.len() > 0 {
        assert(forall|k: int| 0 <= k < s.drop_last().len() ==> (#[trigger] s.drop_last()[k])@ != r);
        assert(s.last() == s[s.len() - 1]);
        lemma_excluding_room_none(s.drop_last(), r);
        assert(excluding_room(s, r) =~= s);
    }
}

/// In a list of pairwise-distinct room ids, excluding a present one is
/// removing it.
pub proof fn lemma_excluding_room_remove(s: Seq<String>, k: int)
    requires
        forall|a: int, b: int| 0 <= a < b < s.len() ==> (#[trigger] s[a])@ != (#[trigger] s[b])@,
        0 <= k < s.len(),
    ensures
        excluding_room(s, s[k]@) == s.remove(k),
    decreases s.len(),
{
    let r = s[k]@;
    if k == s.len() - 1 {
        assert(forall|m: int| 0 <= m < s.drop_last().len() ==> (#[trigger] s.drop_last()[m])@ != r);
        lemma_excluding_room_none(s.drop_last(), r);
        assert(excluding_room(s, r) =~= s.remove(k));
    } else {
        let s1 = s.drop_last();
        assert(forall|a: int, b: int|
            0 <= a < b < s1.len() ==> (#[trigger] s1[a])@ != (#[trigger] s1[b])@);
        assert(s1[k] == s[k]);
        lemma_excluding_room_remove(s1, k);
        assert(s.last()@ != r);
        assert(excluding_room(s, r) == excluding_room(s1, r).push(s.last()));
        assert(excluding_room(s, r) =~= s.remove(k));
    }
}

/// The rooms of one user, empty when the user has none tracked.
pub open spec fn rooms_of(s: Seq<UserRooms>, u: i64) -> Seq<String> {
    match find_user_rooms(s, u) {
        Some(e) => e.rooms@,
        None => Seq::empty(),
    }
}

/// After removing the only entry of a room, the room scan finds nothing.
pub proof fn lemma_find_room_absent_after_remove(s0: Seq<RoomUsers>, i: int)
    requires
        0 <= i < s0.len(),
        forall|a: int, b: int| 0 <= a < b < s0.len() ==> s0[a].room_id@ != s0[b].room_id@,
    ensures
        find_room(s0.remove(i), s0[i].room_id@) is None,
{
    let s1 = s0.remove(i);
    assert forall|k: int| 0 <= k < s1.len() implies (#[trigger] s1[k]).room_id@
        != s0[i].room_id@ by {
        if k < i {
            assert(s1[k] == s0[k]);
        } else {
            assert(s1[k] == s0[k + 1]);
        }
    }
    lemma_find_room_absent(s1, s0[i].room_id@);
}

/// The users of `users` that are locally connected, in list order.
pub open spec fn connected_subset(users: Seq<i64>, sessions: Seq<UserSessions>) -> Seq<i64>
    decreases users.len(),
{
    if users.len() == 0 {
        Seq::empty()
    } else {
        let r = connected_subset(users.drop_last(), sessions);
        if find_sessions(sessions, users.last()) is Some {
            r.push(users.last())
        } else {
            r
        }
    }
}

/// Whether the user has at least one local session.
pub fn is_connected(sessions: &Vec<UserSessions>, u: i64) -> (r: bool)
    ensures
        r == (find_sessions(sessions@, u) is Some),
{
    let n = sessions.len();
    let mut i: usize = 0;
    while i < n
        invariant
            n == sessions@.len(),
            0 <= i <= n,
            forall|k: int| 0 <= k < i ==> (#[trigger] sessions@[k]).user_id != u,
        decreases n - i,
    {
        if sessions[i].user_id == u {
            proof {
                lemma_find_sessions_at(sessions@, u, i as int);
            }
            return true;
        }
        i = i + 1;
    }
    proof {
        lemma_find_sessions_absent(sessions@, u);
    }
    false
}

/// The locally connected users among `users`.
pub fn online_members(users: &Vec<i64>, sessions: &Vec<UserSessions>) -> (r: Vec<i64>)
    ensures
        r@ == connected_subset(users@, sessions@),
{
    let mut out: Vec<i64> = Vec::new();
    let n = users.len();
    let mut i: usize = 0;
    while i < n
        invariant
            n == users@.len(),
            0 <= i <= n,
            out@ == connected_subset(users@.subrange(0, i as int), sessions@),
        decreases n - i,
    {
        proof {
            assert(users@.subrange(0, i as int + 1).drop_last() =~= users@.subrange(0, i as int));
            assert(users@.subrange(0, i as int + 1).last() == users@[i as int]);
        }
        if is_connected(sessions, users[i]) {
            out.push(users[i]);
        }
        i = i + 1;
    }
    proof {
        assert(users@.subrange(0, n as int) =~= users@);
    }
    out
}

/// The recipients of `users` other than the excluded one.
pub fn excluding_exec(users: &Vec<i64>, skip: Option<i64>) -> (r: Vec<i64>)
    ensures
        r@ == excluding(users@, skip),
{
    let mut out: Vec<i64> = Vec::new();
    let n = users.len();
    let mut i: usize = 0;
    while i < n
        invariant
            n == users@.len(),
            0 <= i <= n,
            out@ == excluding(users@.subrange(0, i as int), skip),
        decreases n - i,
    {
        proof {
            assert(users@.subrange(0, i as int + 1).drop_last() =~= users@.subrange(0, i as int));
            assert(users@.subrange(0, i as int + 1).last() == users@[i as int]);
        }
        let u = users[i];
        let skipped = match skip {
            Some(x) => x == u,
            None => false,
        };
        if !skipped {
            out.push(u);
        }
        i = i + 1;
    }
    proof {
        assert(users@.subrange(0, n as int) =~= users@);
    }
    out
}

/// Whether the list holds a string reading like `x`.
pub fn contains_string(v: &Vec<String>, x: &String) -> (r: bool)
    ensures
        r == contains_view(v@, x@),
{
    let n = v.len();
    let mut i: usize = 0;
    while i < n
        invariant
            n == v@.len(),
            0 <= i <= n,
            forall|k: int| 0 <= k < i ==> (#[trigger] v@[k])@ != x@,
        decreases n - i,
    {
        if crate::text::str_eq(v[i].as_str(), x.as_str()) {
            return true;
        }
        i = i + 1;
    }
    false
}

/// Excluding a user that does not occur changes nothing.
pub proof fn lemma_excluding_none(s: Seq<i64>, skip: Option<i64>)
    requires
        skip matches Some(u) ==> !s.contains(u),
    ensures
        excluding(s, skip) == s,
    decreases s.len(),
{
    if s.len() > 0 {
        assert(s.contains(s.last())) by {
            assert(s[s.len() - 1] == s.last());
        }
        assert forall|x: i64| s.drop_last().contains(x) implies s.contains(x) by {
            let k = choose|k: int| 0 <= k < s.drop_last().len() && s.drop_last()[k] == x;
            assert(s[k] == x);
        }
        lemma_excluding_none(s.drop_last(), skip);
        assert(excluding(s, skip) =~= s);
    }
}

/// In a duplicate-free list, excluding a present user is removing it.
pub proof fn lemma_excluding_remove(s: Seq<i64>, k: int)
    requires
        forall|a: int, b: int| 0 <= a < b < s.len() ==> s[a] != s[b],
        0 <= k < s.len(),
    ensures
        excluding(s, Some(s[k])) == s.remove(k),
    decreases s.len(),
{
    let u = s[k];
    if k == s.len() - 1 {
        assert(!s.drop_last().contains(u)) by {
            if s.drop_last().contains(u) {
                let m = choose|m: int| 0 <= m < s.drop_last().len() && s.drop_last()[m] == u;
                assert(s[m] == s[k]);
            }
        }
        lemma_excluding_none(s.drop_last(), Some(u));
        assert(excluding(s, Some(u)) =~= s.remove(k));
    } else {
        let s1 = s.drop_last();
        assert(forall|a: int, b: int| 0 <= a < b < s1.len() ==> s1[a] != s1[b]);
        lemma_excluding_remove(s1, k);
        assert(s.last() != u);
        assert(excluding(s, Some(u)) == excluding(s1, Some(u)).push(s.last()));
        assert(excluding(s, Some(u)) =~= s.remove(k));
    }
}

/// If position `i` is the first entry of user `u`, the scan finds it.
pub proof fn lemma_find_sessions_at(s: Seq<UserSessions>, u: i64, i: int)
    requires
        0 <= i < s.len(),
        s[i].user_id == u,
        forall|k: int| 0 <= k < i ==> (#[trigger] s[k]).user_id != u,
    ensures
        find_sessions(s, u) == Some(s[i]),
    decreases s.len(),
{
    if i > 0 {
        lemma_find_sessions_at(s.drop_first(), u, i - 1);
    }
}

/// If no entry is keyed `u`, the scan finds nothing.
pub proof fn lemma_find_sessions_absent(s: Seq<UserSessions>, u: i64)
    requires
        forall|k: int| 0 <= k < s.len() ==> (#[trigger] s[k]).user_id != u,
    ensures
        find_sessions(s, u) is None,
    decreases s.len(),
{
    if s.len() > 0 {
        lemma_find_sessions_absent(s.drop_first(), u);
    }
}

/// Updating or appending at an index keyed `s1[i].user_id` leaves the scan
/// result of every other user unchanged.
pub proof fn lemma_find_sessions_frame(s0: Seq<UserSessions>, s1: Seq<UserSessions>, i: int)
    requires
        0 <= i < s1.len(),
        s0.len() == s1.len() || (s0.len() + 1 == s1.len() && i == s0.len()),
        forall|k: int| 0 <= k < s1.len() && k != i && k < s0.len() ==> s0[k] == s1[k],
        i < s0.len() ==> s0[i].user_id == s1[i].user_id,
    ensures
        forall|u2: i64|
            u2 != s1[i].user_id ==> #[trigger] find_sessions(s1, u2) == find_sessions(s0, u2),
    decreases s1.len(),
{
    assert forall|u2: i64| u2 != s1[i].user_id implies #[trigger] find_sessions(s1, u2)
        == find_sessions(s0, u2) by {
        lemma_find_sessions_frame_one(s0, s1, i, u2);
    }
}

pub proof fn lemma_find_sessions_frame_one(
    s0: Seq<UserSessions>,
    s1: Seq<UserSessions>,
    i: int,
    u2: i64,
)
    requires
        0 <= i < s1.len(),
        s0.len() == s1.len() || (s0.len() + 1 == s1.len() && i == s0.len()),
        forall|k: int| 0 <= k < s1.len() && k != i && k < s0.len() ==> s0[k] == s1[k],
        i < s0.len() ==> s0[i].user_id == s1[i].user_id,
        u2 != s1[i].user_id,
    ensures
        find_sessions(s1, u2) == find_sessions(s0, u2),
    decreases s1.len(),
{
    if s0.len() == 0 {
        lemma_find_sessions_absent(s1, u2);
    } else if i == 0 {
        assert(s0.drop_first() =~= s1.drop_first());
    } else {
        assert(s0[0] == s1[0]);
        if s0[0].user_id != u2 {
            lemma_find_sessions_frame_one(s0.drop_first(), s1.drop_first(), i - 1, u2);
        }
    }
}

/// The same three lemmas for the per-user room lists.
pub proof fn lemma_find_user_rooms_at(s: Seq<UserRooms>, u: i64, i: int)
    requires
        0 <= i < s.len(),
        s[i].user_id == u,
        forall|k: int| 0 <= k < i ==> (#[trigger] s[k]).user_id != u,
    ensures
        find_user_rooms(s, u) == Some(s[i]),
    decreases s.len(),
{
    if i > 0 {
        lemma_find_user_rooms_at(s.drop_first(), u, i - 1);
    }
}

pub proof fn lemma_find_user_rooms_absent(s: Seq<UserRooms>, u: i64)
    requires
        forall|k: int| 0 <= k < s.len() ==> (#[trigger] s[k]).user_id != u,
    ensures
        find_user_rooms(s, u) is None,
    decreases s.len(),
{
    if s.len() > 0 {
        lemma_find_user_rooms_absent(s.drop_first(), u);
    }
}

pub proof fn lemma_find_user_rooms_frame(s0: Seq<UserRooms>, s1: Seq<UserRooms>, i: int)
    requires
        0 <= i < s1.len(),
        s0.len() == s1.len() || (s0.len() + 1 == s1.len() && i == s0.len()),
        forall|k: int| 0 <= k < s1.len() && k != i && k < s0.len() ==> s0[k] == s1[k],
        i < s0.len() ==> s0[i].user_id == s1[i].user_id,
    ensures
        forall|u2: i64|
            u2 != s1[i].user_id ==> #[trigger] find_user_rooms(s1, u2) == find_user_rooms(s0, u2),
    decreases s1.len(),
{
    assert forall|u2: i64| u2 != s1[i].user_id implies #[trigger] find_user_rooms(s1, u2)
        == find_user_rooms(s0, u2) by {
        lemma_find_user_rooms_frame_one(s0, s1, i, u2);
    }
}

pub proof fn lemma_find_user_rooms_frame_one(
    s0: Seq<UserRooms>,
    s1: Seq<UserRooms>,
    i: int,
    u2: i64,
)
    requires
        0 <= i < s1.len(),
        s0.len() == s1.len() || (s0.len() + 1 == s1.len() && i == s0.len()),
        forall|k: int| 0 <= k < s1.len() && k != i && k < s0.len() ==> s0[k] == s1[k],
        i < s0.len() ==> s0[i].user_id == s1[i].user_id,
        u2 != s1[i].user_id,
    ensures
        find_user_rooms(s1, u2) == find_user_rooms(s0, u2),
    decreases s1.len(),
{
    if s0.len() == 0 {
        lemma_find_user_rooms_absent(s1, u2);
    } else if i == 0 {
        assert(s0.drop_first() =~= s1.drop_first());
    } else {
        assert(s0[0] == s1[0]);
        if s0[0].user_id != u2 {
            lemma_find_user_rooms_frame_one(s0.drop_first(), s1.drop_first(), i - 1, u2);
        }
    }
}

/// The recipients left after skipping the excluded user, in list order.
pub open spec fn excluding(s: Seq<i64>, skip: Option<i64>) -> Seq<i64>
    decreases s.len(),
{
    if s.len() == 0 {
        Seq::empty()
    } else {
        let r = excluding(s.drop_last(), skip);
        if skip == Some(s.last()) {
            r
        } else {
            r.push(s.last())
        }
    }
}

/// How often `u` occurs in a recipient list.
pub open spec fn count_of(users: Seq<i64>, u: i64) -> int
    decreases users.len(),
{
    if users.len() == 0 {
        0
    } else {
        count_of(users.drop_last(), u) + if users.last() == u {
            1int
        } else {
            0int
        }
    }
}

/// How many times the effects deliver a frame to user `u`, counting both
/// whole-user and single-session deliveries.
pub open spec fn deliver_count(effects: Seq<HubEffect>, u: i64) -> int
    decreases effects.len(),
{
    if effects.len() == 0 {
        0
    } else {
        deliver_count(effects.drop_last(), u) + match effects.last() {
            HubEffect::Deliver { users, .. } => count_of(users@, u),
            HubEffect::DeliverSession { user_id, .. } => if user_id == u {
                1int
            } else {
                0int
            },
            _ => 0,
        }
    }
}

/// Counting distributes over concatenation of effect lists.
pub proof fn lemma_deliver_count_concat(e1: Seq<HubEffect>, e2: Seq<HubEffect>, u: i64)
    ensures
        deliver_count(e1 + e2, u) == deliver_count(e1, u) + deliver_count(e2, u),
    decreases e2.len(),
{
    if e2.len() == 0 {
        assert(e1 + e2 =~= e1);
    } else {
        lemma_deliver_count_concat(e1, e2.drop_last(), u);
        assert((e1 + e2).drop_last() =~= e1 + e2.drop_last());
        assert((e1 + e2).last() == e2.last());
    }
}

/// In a duplicate-free recipient list, exclusion leaves exactly one
/// occurrence for every other member and none for the excluded one.
pub proof fn lemma_count_excluding(users: Seq<i64>, skip: Option<i64>, u: i64)
    requires
        forall|a: int, b: int| 0 <= a < b < users.len() ==> users[a] != users[b],
    ensures
        count_of(excluding(users, skip), u) == if users.contains(u) && skip != Some(u) {
            1int
        } else {
            0int
        },
    decreases users.len(),
{
    if users.len() > 0 {
        let s1 = users.drop_last();
        assert(forall|a: int, b: int| 0 <= a < b < s1.len() ==> s1[a] != s1[b]);
        lemma_count_excluding(s1, skip, u);
        assert(users.contains(u) <==> (s1.contains(u) || users.last() == u)) by {
            if users.contains(u) {
                let k = choose|k: int| 0 <= k < users.len() && users[k] == u;
                if k < users.len() - 1 {
                    assert(s1[k] == u);
                }
            }
            if s1.contains(u) {
                let k = choose|k: int| 0 <= k < s1.len() && s1[k] == u;
                assert(users[k] == u);
            }
            assert(users.last() == users[users.len() - 1]);
        }
        if s1.contains(u) && users.last() == u {
            let k = choose|k: int| 0 <= k < s1.len() && s1[k] == u;
            assert(users[k] == users[users.len() - 1]);
            assert(false);
        }
        let ex1 = excluding(s1, skip);
        if skip != Some(users.last()) {
            assert(ex1.push(users.last()).drop_last() =~= ex1);
            assert(ex1.push(users.last()).last() == users.last());
        }
    }
}

/// The same find lemmas for room subscriber entries.
pub proof fn lemma_find_room_at(s: Seq<RoomUsers>, r: Seq<char>, i: int)
    requires
        0 <= i < s.len(),
        s[i].room_id@ == r,
        forall|k: int| 0 <= k < i ==> (#[trigger] s[k]).room_id@ != r,
    ensures
        find_room(s, r) == Some(s[i]),
    decreases s.len(),
{
    if i > 0 {
        lemma_find_room_at(s.drop_first(), r, i - 1);
    }
}

pub proof fn lemma_find_room_absent(s: Seq<RoomUsers>, r: Seq<char>)
    requires
        forall|k: int| 0 <= k < s.len() ==> (#[trigger] s[k]).room_id@ != r,
    ensures
        find_room(s, r) is None,
    decreases s.len(),
{
    if s.len() > 0 {
        lemma_find_room_absent(s.drop_first(), r);
    }
}

pub proof fn lemma_find_room_frame(s0: Seq<RoomUsers>, s1: Seq<RoomUsers>, i: int)
    requires
        0 <= i < s1.len(),
        s0.len() == s1.len() || (s0.len() + 1 == s1.len() && i == s0.len()),
        forall|k: int| 0 <= k < s1.len() && k != i && k < s0.len() ==> s0[k] == s1[k],
        i < s0.len() ==> s0[i].room_id@ == s1[i].room_id@,
    ensures
        forall|r2: Seq<char>|
            r2 != s1[i].room_id@ ==> #[trigger] find_room(s1, r2) == find_room(s0, r2),
{
    assert forall|r2: Seq<char>| r2 != s1[i].room_id@ implies #[trigger] find_room(s1, r2)
        == find_room(s0, r2) by {
        lemma_find_room_frame_one(s0, s1, i, r2);
    }
}

pub proof fn lemma_find_room_frame_one(s0: Seq<RoomUsers>, s1: Seq<RoomUsers>, i: int, r2: Seq<char>)
    requires
        0 <= i < s1.len(),
        s0.len() == s1.len() || (s0.len() + 1 == s1.len() && i == s0.len()),
        forall|k: int| 0 <= k < s1.len() && k != i && k < s0.len() ==> s0[k] == s1[k],
        i < s0.len() ==> s0[i].room_id@ == s1[i].room_id@,
        r2 != s1[i].room_id@,
    ensures
        find_room(s1, r2) == find_room(s0, r2),
    decreases s1.len(),
{
    if s0.len() == 0 {
        lemma_find_room_absent(s1, r2);
    } else if i == 0 {
        assert(s0.drop_first() =~= s1.drop_first());
    } else {
        assert(s0[0] == s1[0]);
        if s0[0].room_id@ != r2 {
            lemma_find_room_frame_one(s0.drop_first(), s1.drop_first(), i - 1, r2);
        }
    }
}

/// Removing the entry at `i` leaves the scan result of every other room
/// unchanged.
pub proof fn lemma_find_room_frame_remove(s0: Seq<RoomUsers>, i: int)
    requires
        0 <= i < s0.len(),
    ensures
        forall|r2: Seq<char>|
            r2 != s0[i].room_id@ ==> #[trigger] find_room(s0.remove(i), r2) == find_room(s0, r2),
{
    assert forall|r2: Seq<char>| r2 != s0[i].room_id@ implies #[trigger] find_room(s0.remove(i), r2)
        == find_room(s0, r2) by {
        lemma_find_room_frame_remove_one(s0, i, r2);
    }
}

pub proof fn lemma_find_room_frame_remove_one(s0: Seq<RoomUsers>, i: int, r2: Seq<char>)
    requires
        0 <= i < s0.len(),
        r2 != s0[i].room_id@,
    ensures
        find_room(s0.remove(i), r2) == find_room(s0, r2),
    decreases s0.len(),
{
    let s1 = s0.remove(i);
    if i == 0 {
        assert(s1 =~= s0.drop_first());
    } else {
        assert(s1[0] == s0[0]);
        if s0[0].room_id@ != r2 {
            assert(s1.drop_first() =~= s0.drop_first().remove(i - 1));
            lemma_find_room_frame_remove_one(s0.drop_first(), i - 1, r2);
        }
    }
}

/// The same find lemmas for typing entries.
pub proof fn lemma_find_typing_at(s: Seq<RoomTyping>, r: Seq<char>, i: int)
    requires
        0 <= i < s.len(),
        s[i].room_id@ == r,
        forall|k: int| 0 <= k < i ==> (#[trigger] s[k]).room_id@ != r,
    ensures
        find_typing(s, r) == Some(s[i]),
    decreases s.len(),
{
    if i > 0 {
        lemma_find_typing_at(s.drop_first(), r, i - 1);
    }
}

pub proof fn lemma_find_typing_absent(s: Seq<RoomTyping>, r: Seq<char>)
    requires
        forall|k: int| 0 <= k < s.len() ==> (#[trigger] s[k]).room_id@ != r,
    ensures
        find_typing(s, r) is None,
    decreases s.len(),
{
    if s.len() > 0 {
        lemma_find_typing_absent(s.drop_first(), r);
    }
}

pub proof fn lemma_find_typing_frame(s0: Seq<RoomTyping>, s1: Seq<RoomTyping>, i: int)
    requires
        0 <= i < s1.len(),
        s0.len() == s1.len() || (s0.len() + 1 == s1.len() && i == s0.len()),
        forall|k: int| 0 <= k < s1.len() && k != i && k < s0.len() ==> s0[k] == s1[k],
        i < s0.len() ==> s0[i].room_id@ == s1[i].room_id@,
    ensures
        forall|r2: Seq<char>|
            r2 != s1[i].room_id@ ==> #[trigger] find_typing(s1, r2) == find_typing(s0, r2),
{
    assert forall|r2: Seq<char>| r2 != s1[i].room_id@ implies #[trigger] find_typing(s1, r2)
        == find_typing(s0, r2) by {
        lemma_find_typing_frame_one(s0, s1, i, r2);
    }
}

pub proof fn lemma_find_typing_frame_one(
    s0: Seq<RoomTyping>,
    s1: Seq<RoomTyping>,
    i: int,
    r2: Seq<char>,
)
    requires
        0 <= i < s1.len(),
        s0.len() == s1.len() || (s0.len() + 1 == s1.len() && i == s0.len()),
        forall|k: int| 0 <= k < s1.len() && k != i && k < s0.len() ==> s0[k] == s1[k],
        i < s0.len() ==> s0[i].room_id@ == s1[i].room_id@,
        r2 != s1[i].room_id@,
    ensures
        find_typing(s1, r2) == find_typing(s0, r2),
    decreases s1.len(),
{
    if s0.len() == 0 {
        lemma_find_typing_absent(s1, r2);
    } else if i == 0 {
        assert(s0.drop_first() =~= s1.drop_first());
    } else {
        assert(s0[0] == s1[0]);
        if s0[0].room_id@ != r2 {
            lemma_find_typing_frame_one(s0.drop_first(), s1.drop_first(), i - 1, r2);
        }
    }
}

/// The last-typed time of one user in a typing entry list.
pub open spec fn typing_last(s: Seq<TypingRec>, u: i64) -> Option<u64>
    decreases s.len(),
{
    if s.len() == 0 {
        None
    } else if s[0].user_id == u {
        Some(s[0].last_typed)
    } else {
        typing_last(s.drop_first(), u)
    }
}

pub proof fn lemma_typing_last_at(s: Seq<TypingRec>, u: i64, i: int)
    requires
        0 <= i < s.len(),
        s[i].user_id == u,
        forall|k: int| 0 <= k < i ==> (#[trigger] s[k]).user_id != u,
    ensures
        typing_last(s, u) == Some(s[i].last_typed),
    decreases s.len(),
{
    if i > 0 {
        lemma_typing_last_at(s.drop_first(), u, i - 1);
    }
}

pub proof fn lemma_typing_last_absent(s: Seq<TypingRec>, u: i64)
    requires
        forall|k: int| 0 <= k < s.len() ==> (#[trigger] s[k]).user_id != u,
    ensures
        typing_last(s, u) is None,
    decreases s.len(),
{
    if s.len() > 0 {
        lemma_typing_last_absent(s.drop_first(), u);
    }
}

pub proof fn lemma_typing_last_frame(s0: Seq<TypingRec>, s1: Seq<TypingRec>, i: int)
    requires
        0 <= i < s1.len(),
        s0.len() == s1.len() || (s0.len() + 1 == s1.len() && i == s0.len()),
        forall|k: int| 0 <= k < s1.len() && k != i && k < s0.len() ==> s0[k] == s1[k],
        i < s0.len() ==> s0[i].user_id == s1[i].user_id,
    ensures
        forall|u2: i64|
            u2 != s1[i].user_id ==> #[trigger] typing_last(s1, u2) == typing_last(s0, u2),
{
    assert forall|u2: i64| u2 != s1[i].user_id implies #[trigger] typing_last(s1, u2)
        == typing_last(s0, u2) by {
        lemma_typing_last_frame_one(s0, s1, i, u2);
    }
}

pub proof fn lemma_typing_last_frame_one(s0: Seq<TypingRec>, s1: Seq<TypingRec>, i: int, u2: i64)
    requires
        0 <= i < s1.len(),
        s0.len() == s1.len() || (s0.len() + 1 == s1.len() && i == s0.len()),
        forall|k: int| 0 <= k < s1.len() && k != i && k < s0.len() ==> s0[k] == s1[k],
        i < s0.len() ==> s0[i].user_id == s1[i].user_id,
        u2 != s1[i].user_id,
    ensures
        typing_last(s1, u2) == typing_last(s0, u2),
    decreases s1.len(),
{
    if s0.len() == 0 {
        lemma_typing_last_absent(s1, u2);
    } else if i == 0 {
        assert(s0.drop_first() =~= s1.drop_first());
    } else {
        assert(s0[0] == s1[0]);
        if s0[0].user_id != u2 {
            lemma_typing_last_frame_one(s0.drop_first(), s1.drop_first(), i - 1, u2);
        }
    }
}

/// No self-echo on the publish-only path: with one instance running, a
/// room broadcast delivers nothing locally at the publish step, the bus
/// loops the payload back, and the bridge's local fan-out delivers it
/// exactly once to each local subscriber — so the whole path delivers
/// exactly once, never zero or twice.
pub proof fn lemma_no_self_echo(
    publish_effects: Seq<HubEffect>,
    local_effects: Seq<HubEffect>,
    u: i64,
)
    requires
        deliver_count(publish_effects, u) == 0,
        deliver_count(local_effects, u) == 1,
    ensures
        deliver_count(publish_effects + local_effects, u) == 1,
{
    lemma_deliver_count_concat(publish_effects, local_effects, u);
}

/// Exclusion never lengthens a recipient list.
pub proof fn lemma_excluding_len(s: Seq<i64>, skip: Option<i64>)
    ensures
        excluding(s, skip).len() <= s.len(),
    decreases s.len(),
{
    if s.len() > 0 {
        lemma_excluding_len(s.drop_last(), skip);
    }
}

/// The entry the session scan finds is one of the table's entries.
pub proof fn lemma_find_sessions_in(s: Seq<UserSessions>, u: i64)
    ensures
        find_sessions(s, u) matches Some(en) ==> s.contains(en) && en.user_id == u,
    decreases s.len(),
{
    if s.len() > 0 {
        assert(s.contains(s[0])) by {
            assert(s[0] == s[0]);
        }
        if s[0].user_id != u {
            lemma_find_sessions_in(s.drop_first(), u);
            match find_sessions(s.drop_first(), u) {
                Some(en) => {
                    let k = choose|k: int|
                        0 <= k < s.drop_first().len() && s.drop_first()[k] == en;
                    assert(s[k + 1] == en);
                },
                None => {},
            }
        }
    }
}

/// The session cap: in a well-formed hub, no user ever holds more than
/// the maximum number of concurrent sessions — `connect` enforces it by
/// evicting the oldest session first, and every operation keeps it.
pub proof fn lemma_session_cap(h: Hub, u: i64)
    requires
        h.wf(),
    ensures
        sessions_of(h.sessions@, u).len() <= MAX_SESSIONS_PER_USER,
{
    lemma_find_sessions_in(h.sessions@, u);
    match find_sessions(h.sessions@, u) {
        Some(en) => {
            let k = choose|k: int| 0 <= k < h.sessions@.len() && h.sessions@[k] == en;
            assert(1 <= h.sessions@[k].sessions@.len() <= MAX_SESSIONS_PER_USER);
        },
        None => {},
    }
}

} // verus!
