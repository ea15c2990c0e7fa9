//! The control-plane operations behind the REST endpoints: every guard,
//! rejection and state change of the room, message and invitation
//! endpoints, with the exact condition for each error. The HTTP layer
//! only decodes the request, calls one of these, and encodes the result
//! and the returned notifications.

use vstd::prelude::*;

verus! {

use vstd::string::StringExecFns;
use crate::frames::WsResponse;
use crate::hub::HubEffect;
use crate::hub::excluding;
use crate::hub::lemma_excluding_len;
use crate::store::ChatStore;
use crate::store::InviteStatus;
use crate::store::Message;
use crate::store::MemberRole;
use crate::store::Room;
use crate::store::RoomInvitation;
use crate::store::RoomMember;
use crate::store::RoomType;
use crate::store::UserRec;
use crate::store::room_sort_key;
use crate::store::unread_spec;
use crate::store::MAX_ROWS;
use crate::store::active_admin_count;
use crate::store::active_member_count;
use crate::store::find_invitation_row;
use crate::store::find_member_row;
use crate::store::find_room_row;
use crate::store::has_member_row;
use crate::store::is_active_admin;
use crate::store::lemma_find_invitation_update;
use crate::store::lemma_find_member_absent;
use crate::store::lemma_find_member_append;
use crate::store::lemma_find_member_at;
use crate::store::lemma_find_member_same_keys;
use crate::store::lemma_find_room_row_at;
use crate::store::lemma_find_room_row_id;
use crate::store::lemma_find_room_row_none_pointwise;
use crate::store::lemma_spec_find_direct_at;
use crate::store::lemma_spec_find_direct_none_pointwise;
use crate::store::msg_before;
use crate::store::page_hit;
use crate::store::page_matches;
use crate::store::spec_find_direct;
use crate::text::str_eq;
use crate::text::user_channel;
use crate::text::room_channel;
use crate::text::dec_int;

/// Why an endpoint refused a request; each maps to one status code and
/// one error body.
#[derive(Debug)]
pub enum ApiError {
    InvalidRoomType,
    DirectRoomNeedsOneMember,
    SelfDirectRoom,
    NotMember,
    RoomNotFound,
    InvitationNotFound,
    NotYourInvitation,
    InvitationAlready(InviteStatus),
    CannotLeaveDirect,
    LastAdmin,
    Internal,
}

impl ApiError {
    /// The HTTP status the error travels under.
    pub fn status(&self) -> (r: u16)
        ensures
            r == self.spec_status(),
    {
        match self {
            ApiError::InvalidRoomType => 400,
            ApiError::DirectRoomNeedsOneMember => 400,
            ApiError::SelfDirectRoom => 400,
            ApiError::NotMember => 403,
            ApiError::RoomNotFound => 404,
            ApiError::InvitationNotFound => 404,
            ApiError::NotYourInvitation => 403,
            ApiError::InvitationAlready(_) => 400,
            ApiError::CannotLeaveDirect => 400,
            ApiError::LastAdmin => 400,
            ApiError::Internal => 500,
        }
    }

    pub open spec fn spec_status(self) -> u16 {
        match self {
            ApiError::InvalidRoomType => 400u16,
            ApiError::DirectRoomNeedsOneMember => 400u16,
            ApiError::SelfDirectRoom => 400u16,
            ApiError::NotMember => 403u16,
            ApiError::RoomNotFound => 404u16,
            ApiError::InvitationNotFound => 404u16,
            ApiError::NotYourInvitation => 403u16,
            ApiError::InvitationAlready(_) => 400u16,
            ApiError::CannotLeaveDirect => 400u16,
            ApiError::LastAdmin => 400u16,
            ApiError::Internal => 500u16,
        }
    }

    /// The human-readable error body.
    pub fn message(&self) -> (r: String)
        ensures
            self is InvalidRoomType ==> r@ == "Invalid room type. Must be 'direct' or 'group'"@,
            self is DirectRoomNeedsOneMember ==> r@
                == "Direct rooms must have exactly one other member"@,
            self is SelfDirectRoom ==> r@ == "Cannot create a direct room with yourself"@,
            self is NotMember ==> r@ == "Not a member of this room"@,
            self is RoomNotFound ==> r@ == "Room not found"@,
            self is InvitationNotFound ==> r@ == "Invitation not found"@,
            self is NotYourInvitation ==> r@ == "Not your invitation"@,
            self matches ApiError::InvitationAlready(st) ==> (st is Pending ==> r@ == "Invitation already pending"@)
                && (st is Accepted ==> r@ == "Invitation already accepted"@) && (st is Declined
                ==> r@ == "Invitation already declined"@),
            self is CannotLeaveDirect ==> r@ == "Cannot leave direct chat"@,
            self is LastAdmin ==> r@
                == "Cannot leave: you are the last admin. Transfer admin role first."@,
            self is Internal ==> r@ == "Internal server error"@,
    {
        match self {
            ApiError::InvalidRoomType => {
                let r = "Invalid room type. Must be 'direct' or 'group'".to_owned();
                r
            },
            ApiError::DirectRoomNeedsOneMember => {
                "Direct rooms must have exactly one other member".to_owned()
            },
            ApiError::SelfDirectRoom => "Cannot create a direct room with yourself".to_owned(),
            ApiError::NotMember => "Not a member of this room".to_owned(),
            ApiError::RoomNotFound => "Room not found".to_owned(),
            ApiError::InvitationNotFound => "Invitation not found".to_owned(),
            ApiError::NotYourInvitation => "Not your invitation".to_owned(),
            ApiError::InvitationAlready(st) => {
                let mut s = "Invitation already ".to_owned();
                s.append(st.as_str());
                proof {
                    reveal_strlit("Invitation already ");
                    reveal_strlit("pending");
                    reveal_strlit("accepted");
                    reveal_strlit("declined");
                    reveal_strlit("Invitation already pending");
                    reveal_strlit("Invitation already accepted");
                    reveal_strlit("Invitation already declined");
                    assert(st is Pending ==> s@ =~= "Invitation already pending"@);
                    assert(st is Accepted ==> s@ =~= "Invitation already accepted"@);
                    assert(st is Declined ==> s@ =~= "Invitation already declined"@);
                }
                s
            },
            ApiError::CannotLeaveDirect => "Cannot leave direct chat".to_owned(),
            ApiError::LastAdmin => {
                "Cannot leave: you are the last admin. Transfer admin role first.".to_owned()
            },
            ApiError::Internal => "Internal server error".to_owned(),
        }
    }
}

/// The active members of the room other than `me`, in table order.
pub open spec fn active_others(members: Seq<RoomMember>, rid: Seq<char>, me: i64) -> Seq<i64>
    decreases members.len(),
{
    if members.len() == 0 {
        Seq::empty()
    } else {
        let r = active_others(members.drop_last(), rid, me);
        if members.last().room_id@ == rid && members.last().left_at is None
            && members.last().user_id != me {
            r.push(members.last().user_id)
        } else {
            r
        }
    }
}

/// Collect the active members of the room other than `me`.
pub fn collect_active_others(store: &ChatStore, room_id: &String, me: i64) -> (r: Vec<i64>)
    ensures
        r@ == active_others(store.members@, room_id@, me),
{
    let n = store.members.len();
    let mut out: Vec<i64> = Vec::new();
    let mut i: usize = 0;
    while i < n
        invariant
            n == store.members@.len(),
            0 <= i <= n,
            out@ == active_others(store.members@.subrange(0, i as int), room_id@, me),
        decreases n - i,
    {
        proof {
            assert(store.members@.subrange(0, i as int + 1).drop_last() =~= store.members@.subrange(
                0,
                i as int,
            ));
            assert(store.members@.subrange(0, i as int + 1).last() == store.members@[i as int]);
        }
        if str_eq(store.members[i].room_id.as_str(), room_id.as_str())
            && store.members[i].left_at.is_none() && store.members[i].user_id != me {
            out.push(store.members[i].user_id);
        }
        i = i + 1;
    }
    proof {
        assert(store.members@.subrange(0, n as int) =~= store.members@);
    }
    out
}

/// All members of the room other than `me`, left ones included — who the
/// member-joined notice goes to.
pub open spec fn all_others(members: Seq<RoomMember>, rid: Seq<char>, me: i64) -> Seq<i64>
    decreases members.len(),
{
    if members.len() == 0 {
        Seq::empty()
    } else {
        let r = all_others(members.drop_last(), rid, me);
        if members.last().room_id@ == rid && members.last().user_id != me {
            r.push(members.last().user_id)
        } else {
            r
        }
    }
}

/// Collect all members of the room other than `me`.
pub fn collect_all_others(store: &ChatStore, room_id: &String, me: i64) -> (r: Vec<i64>)
    ensures
        r@ == all_others(store.members@, room_id@, me),
{
    let n = store.members.len();
    let mut out: Vec<i64> = Vec::new();
    let mut i: usize = 0;
    while i < n
        invariant
            n == store.members@.len(),
            0 <= i <= n,
            out@ == all_others(store.members@.subrange(0, i as int), room_id@, me),
        decreases n - i,
    {
        proof {
            assert(store.members@.subrange(0, i as int + 1).drop_last() =~= store.members@.subrange(
                0,
                i as int,
            ));
            assert(store.members@.subrange(0, i as int + 1).last() == store.members@[i as int]);
        }
        if str_eq(store.members[i].room_id.as_str(), room_id.as_str()) && store.members[i].user_id
            != me {
            out.push(store.members[i].user_id);
        }
        i = i + 1;
    }
    proof {
        assert(store.members@.subrange(0, n as int) =~= store.members@);
    }
    out
}

/// Soft-leave a group room. The request is rejected with `LastAdmin`
/// exactly when the caller is the only active admin and at least one
/// other active member remains; the membership row is flagged, never
/// deleted, and the remaining active members are notified.
pub fn leave_room(store: &mut ChatStore, user_id: i64, room_id: &String, now: i64) -> (r: Result<
    Vec<HubEffect>,
    ApiError,
>)
    requires
        old(store).wf(),
    ensures
        final(store).wf(),
        (r matches Err(e) && e is RoomNotFound) <==> find_room_row(old(store).rooms@, room_id@)
            is None,
        (r matches Err(e) && e is CannotLeaveDirect) <==> (find_room_row(
            old(store).rooms@,
            room_id@,
        ) matches Some(room) && !(room.room_type is Group)),
        (r matches Err(e) && e is NotMember) <==> (find_room_row(old(store).rooms@, room_id@)
            matches Some(room) && room.room_type is Group && !has_member_row(
            old(store).members@,
            room_id@,
            user_id,
        )),
        r matches Err(e) ==> (e is RoomNotFound || e is CannotLeaveDirect || e is NotMember
            || e is LastAdmin),
        (r matches Err(e) && e is LastAdmin) <==> {
            &&& find_room_row(old(store).rooms@, room_id@) matches Some(room)
            &&& room.room_type is Group
            &&& has_member_row(old(store).members@, room_id@, user_id)
            &&& active_admin_count(old(store).members@, room_id@) == 1
            &&& is_active_admin(old(store).members@, room_id@, user_id)
            &&& active_member_count(old(store).members@, room_id@) > 1
        },
        r is Err ==> *final(store) == *old(store),
        r matches Ok(effects) ==> {
            &&& final(store).members@.len() == old(store).members@.len()
            &&& (forall|i: int|
                0 <= i < old(store).members@.len() ==> #[trigger] final(store).members@[i]
                    == if old(store).members@[i].room_id@ == room_id@
                        && old(store).members@[i].user_id == user_id {
                    (RoomMember { left_at: Some(now), ..old(store).members@[i] })
                } else {
                    old(store).members@[i]
                })
            &&& *final(store) == (ChatStore { members: final(store).members, ..*old(store) })
            &&& effects@.len() == 1
            &&& (effects@[0] matches HubEffect::Deliver {
                users,
                frame: WsResponse::MemberLeft { room_id: rid, user_id: uid, .. },
            } && users@ == active_others(old(store).members@, room_id@, user_id) && rid@
                == room_id@ && uid == user_id)
        },
{
    let room_idx = match store.get_room(room_id) {
        Some(i) => i,
        None => {
            return Err(ApiError::RoomNotFound);
        },
    };
    let is_group = match store.rooms[room_idx].room_type {
        RoomType::Group => true,
        RoomType::Direct => false,
    };
    if !is_group {
        return Err(ApiError::CannotLeaveDirect);
    }
    if !store.is_member(room_id, user_id) {
        return Err(ApiError::NotMember);
    }
    let admins = store.count_active_admins(room_id);
    let actives = store.count_active_members(room_id);
    if admins == 1 && store.check_active_admin(room_id, user_id) && actives > 1 {
        return Err(ApiError::LastAdmin);
    }
    let others = collect_active_others(store, room_id, user_id);
    store.leave_room(room_id, user_id, now);
    let user_name = match store.get_user_name(user_id) {
        Some(n) => n,
        None => "Unknown".to_owned(),
    };
    let mut effects: Vec<HubEffect> = Vec::new();
    effects.push(
        HubEffect::Deliver {
            users: others,
            frame: WsResponse::MemberLeft { room_id: room_id.clone(), user_id, user_name },
        },
    );
    Ok(effects)
}

/// Soft-hide the conversation for the caller; a later message unhides it.
pub fn hide_room(store: &mut ChatStore, user_id: i64, room_id: &String, now: i64) -> (r: Result<
    (),
    ApiError,
>)
    requires
        old(store).wf(),
    ensures
        final(store).wf(),
        r is Ok <==> has_member_row(old(store).members@, room_id@, user_id),
        r matches Err(e) ==> e is NotMember,
        (r matches Err(e) && e is NotMember) <==> !has_member_row(
            old(store).members@,
            room_id@,
            user_id,
        ),
        r is Err ==> *final(store) == *old(store),
        r is Ok ==> {
            &&& final(store).members@.len() == old(store).members@.len()
            &&& (forall|i: int|
                0 <= i < old(store).members@.len() ==> #[trigger] final(store).members@[i]
                    == if old(store).members@[i].room_id@ == room_id@
                        && old(store).members@[i].user_id == user_id {
                    (RoomMember { hidden_at: Some(now), ..old(store).members@[i] })
                } else {
                    old(store).members@[i]
                })
            &&& *final(store) == (ChatStore { members: final(store).members, ..*old(store) })
        },
{
    if !store.is_member(room_id, user_id) {
        return Err(ApiError::NotMember);
    }
    store.hide_room(room_id, user_id, now);
    Ok(())
}

/// Set the caller's read marker of the room to now.
pub fn mark_room_as_read(store: &mut ChatStore, user_id: i64, room_id: &String, now: i64) -> (r:
    Result<(), ApiError>)
    requires
        old(store).wf(),
    ensures
        final(store).wf(),
        r is Ok <==> has_member_row(old(store).members@, room_id@, user_id),
        r matches Err(e) ==> e is NotMember,
        (r matches Err(e) && e is NotMember) <==> !has_member_row(
            old(store).members@,
            room_id@,
            user_id,
        ),
        r is Err ==> *final(store) == *old(store),
        r is Ok ==> {
            &&& final(store).members@.len() == old(store).members@.len()
            &&& (forall|i: int|
                0 <= i < old(store).members@.len() ==> #[trigger] final(store).members@[i]
                    == if old(store).members@[i].room_id@ == room_id@
                        && old(store).members@[i].user_id == user_id {
                    (RoomMember { last_read_at: Some(now), ..old(store).members@[i] })
                } else {
                    old(store).members@[i]
                })
            &&& *final(store) == (ChatStore { members: final(store).members, ..*old(store) })
        },
{
    if !store.is_member(room_id, user_id) {
        return Err(ApiError::NotMember);
    }
    store.mark_room_as_read(room_id, user_id, now);
    Ok(())
}

/// Room detail: membership is checked before existence, so an outsider
/// learns nothing about which rooms exist.
pub fn get_room(store: &ChatStore, user_id: i64, room_id: &String) -> (r: Result<usize, ApiError>)
    requires
        store.wf(),
    ensures
        r is Ok <==> (has_member_row(store.members@, room_id@, user_id) && find_room_row(
            store.rooms@,
            room_id@,
        ) is Some),
        (r matches Err(e) && e is NotMember) <==> !has_member_row(
            store.members@,
            room_id@,
            user_id,
        ),
        (r matches Err(e) && e is RoomNotFound) <==> (has_member_row(
            store.members@,
            room_id@,
            user_id,
        ) && find_room_row(store.rooms@, room_id@) is None),
        r matches Ok(i) ==> i < store.rooms@.len() && find_room_row(store.rooms@, room_id@)
            == Some(store.rooms@[i as int]),
{
    if !store.is_member(room_id, user_id) {
        return Err(ApiError::NotMember);
    }
    match store.get_room(room_id) {
        Some(i) => Ok(i),
        None => Err(ApiError::RoomNotFound),
    }
}

/// Message history of a room, newest first: membership guard, then the
/// page window with the default and the cap applied to the limit.
pub fn get_room_messages(
    store: &ChatStore,
    user_id: i64,
    room_id: &String,
    limit: Option<usize>,
    before_id: Option<&String>,
) -> (r: Result<Vec<usize>, ApiError>)
    requires
        store.wf(),
    ensures
        r is Err <==> !has_member_row(store.members@, room_id@, user_id),
        r matches Err(e) ==> e is NotMember,
        r matches Ok(page) ==> ({
            let eff_limit: int = match limit {
                Some(l) => if l <= 100 {
                    l as int
                } else {
                    100
                },
                None => 50,
            };
            let before = match before_id {
                Some(b) => Some(b@),
                None => None,
            };
            let matching = page_matches(store.messages@, room_id@, before);
            let k = if eff_limit <= matching.len() {
                eff_limit
            } else {
                matching.len() as int
            };
            &&& page@.len() == k
            &&& (forall|p: int|
                0 <= p < k ==> 0 <= #[trigger] page@[p] < store.messages@.len() && page_hit(
                    store.messages@[page@[p] as int],
                    room_id@,
                    before,
                ))
            &&& (forall|p: int, q: int| 0 <= p < q < k ==> page@[p] != page@[q])
            &&& (forall|p: int, q: int|
                0 <= p < q < k ==> msg_before(
                    store.messages@[page@[q] as int],
                    store.messages@[page@[p] as int],
                ))
            &&& (forall|j: int|
                0 <= j < store.messages@.len() && page_hit(
                    #[trigger] store.messages@[j],
                    room_id@,
                    before,
                ) ==> (page@.contains(j as usize) || (k == eff_limit && (k == 0 || msg_before(
                    store.messages@[j],
                    store.messages@[page@[k - 1] as int],
                )))))
        }),
{
    if !store.is_member(room_id, user_id) {
        return Err(ApiError::NotMember);
    }
    let eff_limit: usize = match limit {
        Some(l) => if l <= 100 {
            l
        } else {
            100
        },
        None => 50,
    };
    Ok(store.get_room_messages(room_id, eff_limit, before_id))
}

/// Accept a pending invitation: the invitation must be the caller's and
/// still pending; the caller joins the room, a system join message is
/// posted, and the room is told about both.
pub fn accept_invitation(store: &mut ChatStore, user_id: i64, invitation_id: i64, now: i64) -> (r:
    Result<(usize, Vec<HubEffect>), ApiError>)
    requires
        old(store).wf(),
        old(store).fresh_until(now),
        0 <= now <= 0x4000000000000,
        old(store).members@.len() + 1 < MAX_ROWS,
        old(store).messages@.len() + 1 < MAX_ROWS,
    ensures
        final(store).wf(),
        (r matches Err(e) && e is InvitationNotFound) <==> find_invitation_row(
            old(store).invitations@,
            invitation_id,
        ) is None,
        (r matches Err(e) && e is NotYourInvitation) <==> (find_invitation_row(
            old(store).invitations@,
            invitation_id,
        ) matches Some(inv) && inv.user_id != user_id),
        (r matches Err(e) && e matches ApiError::InvitationAlready(_)) <==> (find_invitation_row(
            old(store).invitations@,
            invitation_id,
        ) matches Some(inv) && inv.user_id == user_id && !(inv.status is Pending)),
        (r matches Err(e) && (e is InvitationNotFound || e is NotYourInvitation || e matches
            ApiError::InvitationAlready(_))) ==> *final(store) == *old(store),
        (r matches Err(e) && (e is RoomNotFound || e is Internal)) ==> ({
            let inv = find_invitation_row(old(store).invitations@, invitation_id)->0;
            &&& find_invitation_row(old(store).invitations@, invitation_id) is Some
            &&& inv.user_id == user_id
            &&& inv.status is Pending
            &&& (find_invitation_row(final(store).invitations@, invitation_id) matches Some(inv2)
                && inv2.status is Accepted)
            &&& has_member_row(final(store).members@, inv.room_id@, user_id)
            &&& final(store).messages@ == old(store).messages@
            &&& final(store).rooms@ == old(store).rooms@
            &&& final(store).users@ == old(store).users@
        }),
        r matches Ok((room_idx, effects)) ==> ({
            let inv = find_invitation_row(old(store).invitations@, invitation_id)->0;
            &&& find_invitation_row(old(store).invitations@, invitation_id) is Some
            &&& inv.user_id == user_id
            &&& inv.status is Pending
            &&& find_invitation_row(final(store).invitations@, invitation_id) matches Some(inv2)
                && inv2.status is Accepted
            &&& find_member_row(final(store).members@, inv.room_id@, user_id) is Some
            &&& room_idx < final(store).rooms@.len() && final(store).rooms@[room_idx as int].id@
                == inv.room_id@
            &&& final(store).messages@.len() == old(store).messages@.len() + 1
            &&& final(store).messages@.last().room_id@ == inv.room_id@
            &&& final(store).messages@.last().sender_id == user_id
            &&& final(store).messages@.last().message_type@ == "system"@
            &&& effects@.len() == 2
            &&& (effects@[0] matches HubEffect::Publish { channel, frame: WsResponse::Message { .. } }
                && channel@ == "chat:room:"@ + inv.room_id@)
            &&& (effects@[1] matches HubEffect::Deliver {
                users,
                frame: WsResponse::MemberJoined { room_id: mr, user_id: mu, .. },
            } && users@ == all_others(final(store).members@, inv.room_id@, user_id) && mr@
                == inv.room_id@ && mu == user_id)
        }),
{
    let inv_idx = match store.get_invitation(invitation_id) {
        Some(i) => i,
        None => {
            return Err(ApiError::InvitationNotFound);
        },
    };
    if store.invitations[inv_idx].user_id != user_id {
        return Err(ApiError::NotYourInvitation);
    }
    let pending = match store.invitations[inv_idx].status {
        InviteStatus::Pending => true,
        _ => false,
    };
    if !pending {
        return Err(ApiError::InvitationAlready(store.invitations[inv_idx].status));
    }
    let room_id = store.invitations[inv_idx].room_id.clone();
    let ghost inv_before = store.invitations@;
    store.update_invitation_status(invitation_id, InviteStatus::Accepted, now);
    proof {
        lemma_find_invitation_update(
            inv_before,
            store.invitations@,
            invitation_id,
            InviteStatus::Accepted,
            now,
        );
    }
    let ghost members_pre = store.members@;
    proof {
        assert(find_room_row(store.rooms@, store.invitations@[inv_idx as int].room_id@) is Some);
        assert(store.invitations@[inv_idx as int].room_id@ == room_id@);
    }
    store.add_member(&room_id, user_id, MemberRole::Member, now);
    proof {
        if find_member_row(members_pre, room_id@, user_id) is None {
            lemma_find_member_append(members_pre, store.members@.last(), room_id@, user_id);
        }
    }
    let ghost members_added = store.members@;
    let room_idx = match store.get_room(&room_id) {
        Some(i) => i,
        None => {
            return Err(ApiError::RoomNotFound);
        },
    };
    proof {
        lemma_find_room_row_id(store.rooms@, room_id@);
    }
    let user_name = match store.get_user_name(user_id) {
        Some(n) => n,
        None => "Unknown".to_owned(),
    };
    let mut content = user_name.clone();
    content.append(" đã tham gia nhóm");
    let msg_id = crate::ident::new_uuid();
    let msg = Message {
        id: msg_id,
        room_id: room_id.clone(),
        sender_id: user_id,
        content: content.clone(),
        message_type: "system".to_owned(),
        metadata: None,
        created_at: now,
        updated_at: now,
    };
    let created_at_str = crate::clock::format_rfc3339_millis(now);
    let frame_id = msg.id.clone();
    if store.post_message(msg).is_err() {
        return Err(ApiError::Internal);
    }
    proof {
        lemma_find_member_same_keys(members_added, store.members@, room_id@, user_id);
    }
    let others = collect_all_others(store, &room_id, user_id);
    let mut effects: Vec<HubEffect> = Vec::new();
    effects.push(
        HubEffect::Publish {
            channel: room_channel(room_id.as_str()),
            frame: WsResponse::Message {
                id: frame_id,
                room_id: room_id.clone(),
                sender_id: user_id,
                sender_name: Some("System".to_owned()),
                content,
                message_type: "system".to_owned(),
                metadata: None,
                created_at: created_at_str,
            },
        },
    );
    effects.push(
        HubEffect::Deliver {
            users: others,
            frame: WsResponse::MemberJoined { room_id: room_id.clone(), user_id, user_name },
        },
    );
    Ok((room_idx, effects))
}

/// Decline a pending invitation: same guards, one terminal state change.
pub fn decline_invitation(store: &mut ChatStore, user_id: i64, invitation_id: i64, now: i64) -> (r:
    Result<(), ApiError>)
    requires
        old(store).wf(),
    ensures
        final(store).wf(),
        (r matches Err(e) && e is InvitationNotFound) <==> find_invitation_row(
            old(store).invitations@,
            invitation_id,
        ) is None,
        (r matches Err(e) && e is NotYourInvitation) <==> (find_invitation_row(
            old(store).invitations@,
            invitation_id,
        ) matches Some(inv) && inv.user_id != user_id),
        (r matches Err(e) && e matches ApiError::InvitationAlready(_)) <==> (find_invitation_row(
            old(store).invitations@,
            invitation_id,
        ) matches Some(inv) && inv.user_id == user_id && !(inv.status is Pending)),
        r is Ok <==> (find_invitation_row(old(store).invitations@, invitation_id) matches Some(
            inv,
        ) && inv.user_id == user_id && inv.status is Pending),
        r is Err ==> *final(store) == *old(store),
        r is Ok ==> {
            &&& final(store).invitations@.len() == old(store).invitations@.len()
            &&& (forall|i: int|
                0 <= i < old(store).invitations@.len() ==> #[trigger] final(store).invitations@[i]
                    == if old(store).invitations@[i].id == invitation_id {
                    (RoomInvitation {
                        status: InviteStatus::Declined,
                        updated_at: now,
                        ..old(store).invitations@[i]
                    })
                } else {
                    old(store).invitations@[i]
                })
            &&& *final(store) == (ChatStore {
                invitations: final(store).invitations,
                ..*old(store)
            })
        },
{
    let inv_idx = match store.get_invitation(invitation_id) {
        Some(i) => i,
        None => {
            return Err(ApiError::InvitationNotFound);
        },
    };
    if store.invitations[inv_idx].user_id != user_id {
        return Err(ApiError::NotYourInvitation);
    }
    let pending = match store.invitations[inv_idx].status {
        InviteStatus::Pending => true,
        _ => false,
    };
    if !pending {
        return Err(ApiError::InvitationAlready(store.invitations[inv_idx].status));
    }
    store.update_invitation_status(invitation_id, InviteStatus::Declined, now);
    Ok(())
}

/// Whether the store's user table gives this display name for the user,
/// falling back to the stand-in name when the user is unknown.
pub open spec fn name_of_user(users: Seq<UserRec>, user_id: i64, name: Seq<char>) -> bool {
    ||| exists|j: int|
        0 <= j < users.len() && (#[trigger] users[j]).id == user_id && users[j].name@ == name
    ||| ((forall|j: int| 0 <= j < users.len() ==> (#[trigger] users[j]).id != user_id) && name
        == "Unknown"@)
}

/// Create a room. A direct room with an existing counterpart is reused;
/// a fresh direct room takes the other user in directly; a group room
/// invites everyone else instead, and each invitee is told both locally
/// and through the bus.
#[verifier::rlimit(60)]
pub fn create_room(
    store: &mut ChatStore,
    user_id: i64,
    name: Option<String>,
    room_type: &str,
    member_ids: &Vec<i64>,
    now: i64,
) -> (r: Result<(usize, Vec<HubEffect>), ApiError>)
    requires
        old(store).wf(),
        old(store).fresh_until(now),
        0 <= now <= 0x4000000000000,
        old(store).rooms@.len() + 1 < MAX_ROWS,
        old(store).members@.len() + 2 < MAX_ROWS,
        old(store).invitations@.len() + member_ids@.len() + 1 < MAX_ROWS,
    ensures
        final(store).wf(),
        (r matches Err(e) && e is InvalidRoomType) <==> (room_type@ != "direct"@ && room_type@
            != "group"@),
        (r matches Err(e) && e is DirectRoomNeedsOneMember) <==> (room_type@ == "direct"@
            && member_ids@.len() != 1),
        (r matches Err(e) && e is SelfDirectRoom) <==> (room_type@ == "direct"@
            && member_ids@.len() == 1 && member_ids@[0] == user_id),
        r is Err ==> *final(store) == *old(store),
        (room_type@ == "direct"@ && member_ids@.len() == 1 && member_ids@[0] != user_id
            && spec_find_direct(
            old(store).rooms@,
            old(store).members@,
            user_id,
            member_ids@[0],
        ) is Some) ==> (r matches Ok((idx, effects)) && *final(store) == *old(store)
            && idx < final(store).rooms@.len() && spec_find_direct(
            old(store).rooms@,
            old(store).members@,
            user_id,
            member_ids@[0],
        ) == Some(final(store).rooms@[idx as int]) && effects@.len() == 0),
        (room_type@ == "direct"@ && member_ids@.len() == 1 && member_ids@[0] != user_id
            && spec_find_direct(
            old(store).rooms@,
            old(store).members@,
            user_id,
            member_ids@[0],
        ) is None) ==> (r matches Ok((idx, effects)) ==> {
            &&& idx == old(store).rooms@.len()
            &&& final(store).rooms@.len() == old(store).rooms@.len() + 1
            &&& final(store).rooms@.last().room_type is Direct
            &&& final(store).rooms@.last().created_by == user_id
            &&& final(store).rooms@.last().created_at == now
            &&& final(store).members@.len() == old(store).members@.len() + 2
            &&& (find_member_row(final(store).members@, final(store).rooms@.last().id@, user_id)
                matches Some(m) && m.role is Admin && m.left_at is None && m.hidden_at is None)
            &&& (find_member_row(
                final(store).members@,
                final(store).rooms@.last().id@,
                member_ids@[0],
            ) matches Some(m) && m.role is Member && m.left_at is None && m.hidden_at is None)
            &&& effects@.len() == 1
            &&& (effects@[0] matches HubEffect::Deliver {
                users,
                frame: WsResponse::RoomCreated { room_id: cr, room_type: ct, .. },
            } && users@ == all_others(
                final(store).members@,
                final(store).rooms@.last().id@,
                user_id,
            ) && cr@ == final(store).rooms@.last().id@ && ct@ == "direct"@)
        }),
        room_type@ == "group"@ ==> (r matches Ok((idx, effects)) ==> ({
            let invited = excluding(member_ids@, Some(user_id));
            &&& idx == old(store).rooms@.len()
            &&& final(store).rooms@.len() == old(store).rooms@.len() + 1
            &&& final(store).rooms@.last().room_type is Group
            &&& final(store).rooms@.last().created_by == user_id
            &&& final(store).rooms@.last().created_at == now
            &&& (find_member_row(final(store).members@, final(store).rooms@.last().id@, user_id)
                matches Some(m) && m.role is Admin && m.left_at is None && m.hidden_at is None)
            &&& final(store).invitations@.len() == old(store).invitations@.len() + invited.len()
            &&& (forall|k: int|
                0 <= k < invited.len() ==> {
                    let inv = #[trigger] final(store).invitations@[old(store).invitations@.len()
                        + k];
                    &&& inv.room_id@ == final(store).rooms@.last().id@
                    &&& inv.user_id == invited[k]
                    &&& inv.invited_by == user_id
                    &&& inv.status is Pending
                    &&& inv.created_at == now
                })
            &&& effects@.len() == 2 * invited.len()
            &&& (forall|k: int|
                0 <= k < invited.len() ==> ((#[trigger] effects@[2 * k])
                    matches HubEffect::Deliver {
                    users,
                    frame: WsResponse::InvitationReceived {
                        invitation_id,
                        room_id: ir,
                        invited_by,
                        invited_by_name,
                        ..
                    },
                } && users@ == seq![invited[k]] && invitation_id == final(store).invitations@[old(
                    store,
                ).invitations@.len() + k].id && ir@ == final(store).rooms@.last().id@ && invited_by
                    == user_id && name_of_user(old(store).users@, user_id, invited_by_name@)))
            &&& (forall|k: int|
                0 <= k < invited.len() ==> ((#[trigger] effects@[2 * k + 1])
                    matches HubEffect::Publish {
                    channel,
                    frame: WsResponse::InvitationReceived { invitation_id, room_id: ir, .. },
                } && channel@ == "chat:user:"@ + dec_int(invited[k] as int) && invitation_id
                    == final(store).invitations@[old(store).invitations@.len() + k].id && ir@
                    == final(store).rooms@.last().id@))
        })),
    {
    proof {
        reveal_strlit("direct");
        reveal_strlit("group");
        assert("direct"@.len() == 6);
        assert("group"@.len() == 5);
    }
    let is_direct = str_eq(room_type, "direct");
    let is_group = str_eq(room_type, "group");
    if !is_direct && !is_group {
        return Err(ApiError::InvalidRoomType);
    }
    if is_direct && member_ids.len() != 1 {
        return Err(ApiError::DirectRoomNeedsOneMember);
    }
    if is_direct {
        let other = member_ids[0];
        if other == user_id {
            return Err(ApiError::SelfDirectRoom);
        }
        if let Some(idx) = store.find_direct_room(user_id, other) {
            return Ok((idx, Vec::new()));
        }
        let room_id = crate::ident::new_uuid();
        let room = Room {
            id: room_id.clone(),
            name,
            room_type: RoomType::Direct,
            created_by: user_id,
            created_at: now,
            updated_at: now,
            last_message_at: None,
        };
        let idx = store.rooms.len();
        let ghost rooms0 = store.rooms@;
        let ghost members0 = store.members@;
        if store.create_room(room).is_err() {
            return Err(ApiError::Internal);
        }
        proof {
            lemma_find_room_row_none_pointwise(rooms0, room_id@);
            lemma_find_room_row_at(store.rooms@, room_id@, rooms0.len() as int);
            assert forall|k: int|
                0 <= k < members0.len() implies (#[trigger] members0[k]).room_id@ != room_id@ by {
                if members0[k].room_id@ == room_id@ {
                    assert(find_room_row(rooms0, room_id@) is Some);
                }
            }
            lemma_find_member_absent(members0, room_id@, user_id);
            lemma_find_member_absent(members0, room_id@, other);
        }
        let ghost members_a = store.members@;
        store.add_member(&room_id, user_id, MemberRole::Admin, now);
        let ghost members_b = store.members@;
        store.add_member(&room_id, other, MemberRole::Member, now);
        proof {
            let members2 = store.members@;
            assert(members_b == members0.push(members_b.last()));
            lemma_find_member_append(members_b.drop_last(), members_b.last(), room_id@, other);
            assert(members_b.drop_last() =~= members0);
            assert(find_member_row(members_b, room_id@, other) is None);
            assert(members2 == members_b.push(members2.last()));
            lemma_find_member_at(members2, room_id@, user_id, members0.len() as int);
            lemma_find_member_at(members2, room_id@, other, members0.len() as int + 1);
        }
        let others = collect_all_others(store, &room_id, user_id);
        let mut effects: Vec<HubEffect> = Vec::new();
        effects.push(
            HubEffect::Deliver {
                users: others,
                frame: WsResponse::RoomCreated {
                    room_id: room_id.clone(),
                    room_name: match &store.rooms[idx].name {
                        Some(n) => Some(n.clone()),
                        None => None,
                    },
                    room_type: "direct".to_owned(),
                },
            },
        );
        return Ok((idx, effects));
    }
    let room_id = crate::ident::new_uuid();
    let room = Room {
        id: room_id.clone(),
        name,
        room_type: RoomType::Group,
        created_by: user_id,
        created_at: now,
        updated_at: now,
        last_message_at: None,
    };
    let idx = store.rooms.len();
    let ghost rooms_g0 = store.rooms@;
    if store.create_room(room).is_err() {
        return Err(ApiError::Internal);
    }
    proof {
        lemma_find_room_row_none_pointwise(rooms_g0, room_id@);
        lemma_find_room_row_at(store.rooms@, room_id@, rooms_g0.len() as int);
    }
    let ghost members_a = store.members@;
    proof {
        assert forall|k: int|
            0 <= k < members_a.len() implies (#[trigger] members_a[k]).room_id@ != room_id@ by {
            if members_a[k].room_id@ == room_id@ {
                assert(find_room_row(rooms_g0, room_id@) is Some);
            }
        }
        lemma_find_member_absent(members_a, room_id@, user_id);
    }
    store.add_member(&room_id, user_id, MemberRole::Admin, now);
    proof {
        lemma_find_member_at(store.members@, room_id@, user_id, members_a.len() as int);
    }
    let found_name = store.get_user_name(user_id);
    proof {
        assert(store.users@ == old(store).users@);
    }
    let inviter_name = match found_name {
        Some(n) => n,
        None => "Unknown".to_owned(),
    };
    proof {
        assert(name_of_user(old(store).users@, user_id, inviter_name@));
    }
    let invited = crate::hub::excluding_exec(member_ids, Some(user_id));
    proof {
        lemma_excluding_len(member_ids@, Some(user_id));
    }
    let ghost inv0 = store.invitations@;
    let ghost next0 = store.next_invitation_id;
    let ghost members_done = store.members@;
    let ghost rooms_done = store.rooms@;
    let mut effects: Vec<HubEffect> = Vec::new();
    let mut k: usize = 0;
    let kn = invited.len();
    while k < kn
        invariant
            kn == invited@.len(),
            0 <= k <= kn,
            store.wf(),
            store.fresh_until(now),
            0 <= now <= 0x4000000000000,
            store.rooms@ == rooms_done,
            store.members@ == members_done,
            store.users@ == old(store).users@,
            store.messages@ == old(store).messages@,
            inv0.len() + kn < MAX_ROWS,
            store.invitations@.len() == inv0.len() + k,
            store.next_invitation_id == next0 + k,
            forall|m: int| 0 <= m < inv0.len() ==> store.invitations@[m] == inv0[m],
            rooms_done.len() > 0,
            rooms_done.last().id@ == room_id@,
            idx + 1 == rooms_done.len(),
            find_room_row(rooms_done, room_id@) is Some,
            name_of_user(old(store).users@, user_id, inviter_name@),
            forall|m: int|
                0 <= m < k ==> {
                    let inv = #[trigger] store.invitations@[inv0.len() + m];
                    &&& inv.room_id@ == room_id@
                    &&& inv.user_id == invited@[m]
                    &&& inv.invited_by == user_id
                    &&& inv.status is Pending
                    &&& inv.created_at == now
                    &&& inv.id == next0 + m
                },
            effects@.len() == 2 * k,
            forall|m: int|
                0 <= m < k ==> ((#[trigger] effects@[2 * m]) matches HubEffect::Deliver {
                    users,
                    frame: WsResponse::InvitationReceived {
                        invitation_id,
                        room_id: ir,
                        invited_by,
                        invited_by_name,
                        ..
                    },
                } && users@ == seq![invited@[m]] && invitation_id == next0 + m && ir@ == room_id@
                    && invited_by == user_id && name_of_user(
                    old(store).users@,
                    user_id,
                    invited_by_name@,
                )),
            forall|m: int|
                0 <= m < k ==> ((#[trigger] effects@[2 * m + 1]) matches HubEffect::Publish {
                    channel,
                    frame: WsResponse::InvitationReceived { invitation_id, room_id: ir, .. },
                } && channel@ == "chat:user:"@ + dec_int(invited@[m] as int) && invitation_id
                    == next0 + m && ir@ == room_id@),
        decreases kn - k,
    {
        let member = invited[k];
        let invitation_id = store.create_invitation(&room_id, member, user_id, now);
        let mut to_member: Vec<i64> = Vec::new();
        to_member.push(member);
        effects.push(
            HubEffect::Deliver {
                users: to_member,
                frame: WsResponse::InvitationReceived {
                    invitation_id,
                    room_id: room_id.clone(),
                    room_name: match &store.rooms[idx].name {
                        Some(n) => Some(n.clone()),
                        None => None,
                    },
                    invited_by: user_id,
                    invited_by_name: inviter_name.clone(),
                },
            },
        );
        effects.push(
            HubEffect::Publish {
                channel: user_channel(member),
                frame: WsResponse::InvitationReceived {
                    invitation_id,
                    room_id: room_id.clone(),
                    room_name: match &store.rooms[idx].name {
                        Some(n) => Some(n.clone()),
                        None => None,
                    },
                    invited_by: user_id,
                    invited_by_name: inviter_name.clone(),
                },
            },
        );
        proof {
            assert(effects@[2 * k as int]->Deliver_users@ =~= seq![invited@[k as int]]);
        }
        k = k + 1;
    }
    Ok((idx, effects))
}

/// The caller's pending invitations, newest first.
pub fn get_invitations(store: &ChatStore, user_id: i64) -> (r: Vec<usize>)
    ensures
        forall|p: int|
            0 <= p < r@.len() ==> 0 <= #[trigger] r@[p] < store.invitations@.len()
                && store.invitations@[r@[p] as int].user_id == user_id
                && store.invitations@[r@[p] as int].status is Pending,
        forall|i: int|
            0 <= i < store.invitations@.len() && (#[trigger] store.invitations@[i]).user_id
                == user_id && store.invitations@[i].status is Pending ==> r@.contains(i as usize),
        forall|p: int, q: int| 0 <= p < q < r@.len() ==> r@[p] > r@[q],
{
    store.get_user_invitations(user_id, InviteStatus::Pending)
}

/// The caller's visible rooms, latest activity first, each with its
/// unread count.
pub fn get_user_rooms(store: &ChatStore, user_id: i64) -> (r: Vec<(usize, i64)>)
    requires
        store.wf(),
    ensures
        forall|p: int|
            0 <= p < r@.len() ==> 0 <= (#[trigger] r@[p]).0 < store.rooms@.len() && (
            find_member_row(store.members@, store.rooms@[r@[p].0 as int].id@, user_id)
                matches Some(m) && m.visible()) && r@[p].1 == unread_spec(
                *store,
                store.rooms@[r@[p].0 as int].id@,
                user_id,
            ),
        forall|i: int|
            0 <= i < store.rooms@.len() && (find_member_row(
                store.members@,
                (#[trigger] store.rooms@[i]).id@,
                user_id,
            ) matches Some(m) && m.visible()) ==> exists|p: int|
                0 <= p < r@.len() && (#[trigger] r@[p]).0 == i as usize,
        forall|p: int, q: int|
            0 <= p < q < r@.len() ==> room_sort_key(store.rooms@[r@[p].0 as int]) >= room_sort_key(
                store.rooms@[r@[q].0 as int],
            ),
{
    let idxs = store.get_user_rooms(user_id);
    let n = idxs.len();
    let mut out: Vec<(usize, i64)> = Vec::new();
    let mut p: usize = 0;
    while p < n
        invariant
            n == idxs@.len(),
            0 <= p <= n,
            store.wf(),
            out@.len() == p,
            forall|q: int|
                0 <= q < n ==> 0 <= #[trigger] idxs@[q] < store.rooms@.len() && (find_member_row(
                    store.members@,
                    store.rooms@[idxs@[q] as int].id@,
                    user_id,
                ) matches Some(m) && m.visible()),
            forall|q1: int, q2: int|
                0 <= q1 < q2 < n ==> room_sort_key(store.rooms@[idxs@[q1] as int])
                    >= room_sort_key(store.rooms@[idxs@[q2] as int]),
            forall|q: int| 0 <= q < p ==> (#[trigger] out@[q]).0 == idxs@[q],
            forall|q: int|
                0 <= q < p ==> (#[trigger] out@[q]).1 == unread_spec(
                    *store,
                    store.rooms@[idxs@[q] as int].id@,
                    user_id,
                ),
        decreases n - p,
    {
        let idx = idxs[p];
        let count = store.get_unread_count(&store.rooms[idx].id, user_id);
        out.push((idx, count));
        p = p + 1;
    }
    proof {
        assert forall|i: int|
            0 <= i < store.rooms@.len() && (find_member_row(
                store.members@,
                (#[trigger] store.rooms@[i]).id@,
                user_id,
            ) matches Some(m) && m.visible()) implies exists|p2: int|
            0 <= p2 < out@.len() && (#[trigger] out@[p2]).0 == i as usize by {
            assert(idxs@.contains(i as usize));
            let q = choose|q: int| 0 <= q < idxs@.len() && idxs@[q] == i as usize;
            assert(out@[q].0 == i as usize);
        }
    }
    out
}

/// Find or create the direct room between the caller and the other
/// user: when one already exists it is returned unchanged, which makes
/// the endpoint idempotent; otherwise a fresh room is created with the
/// caller as admin and the other user as member.
pub fn create_direct_room(store: &mut ChatStore, user_id: i64, other_user_id: i64, now: i64) -> (r:
    Result<(usize, bool), ApiError>)
    requires
        old(store).wf(),
        old(store).fresh_until(now),
        0 <= now,
        old(store).rooms@.len() + 1 < MAX_ROWS,
        old(store).members@.len() + 2 < MAX_ROWS,
    ensures
        final(store).wf(),
        (r matches Err(e) && e is SelfDirectRoom) <==> user_id == other_user_id,
        user_id != other_user_id ==> (spec_find_direct(
            old(store).rooms@,
            old(store).members@,
            user_id,
            other_user_id,
        ) matches Some(room) ==> (r matches Ok((idx, created)) && !created
            && idx < final(store).rooms@.len() && final(store).rooms@[idx as int] == room
            && *final(store) == *old(store))),
        (user_id != other_user_id && spec_find_direct(
            old(store).rooms@,
            old(store).members@,
            user_id,
            other_user_id,
        ) is None) ==> (r matches Ok((idx, created)) ==> {
            &&& created
            &&& idx == old(store).rooms@.len()
            &&& final(store).rooms@.len() == old(store).rooms@.len() + 1
            &&& final(store).rooms@.last().room_type is Direct
            &&& final(store).rooms@.last().created_by == user_id
            &&& final(store).rooms@.last().name is None
            &&& final(store).rooms@.last().created_at == now
            &&& final(store).members@.len() == old(store).members@.len() + 2
            &&& (forall|i: int|
                0 <= i < old(store).members@.len() ==> #[trigger] final(store).members@[i] == old(
                    store,
                ).members@[i])
            &&& (find_member_row(final(store).members@, final(store).rooms@.last().id@, user_id)
                matches Some(m) && m.role is Admin && m.left_at is None && m.hidden_at is None
                && m.joined_at == now)
            &&& (find_member_row(
                final(store).members@,
                final(store).rooms@.last().id@,
                other_user_id,
            ) matches Some(m) && m.role is Member && m.left_at is None && m.hidden_at is None
                && m.joined_at == now)
            &&& spec_find_direct(final(store).rooms@, final(store).members@, user_id, other_user_id)
                == Some(final(store).rooms@.last())
        }),
        r is Err ==> *final(store) == *old(store),
{
    if user_id == other_user_id {
        return Err(ApiError::SelfDirectRoom);
    }
    if let Some(idx) = store.find_direct_room(user_id, other_user_id) {
        return Ok((idx, false));
    }
    let room_id = crate::ident::new_uuid();
    let room = Room {
        id: room_id.clone(),
        name: None,
        room_type: RoomType::Direct,
        created_by: user_id,
        created_at: now,
        updated_at: now,
        last_message_at: None,
    };
    let idx = store.rooms.len();
    let ghost rooms0 = store.rooms@;
    let ghost members0 = store.members@;
    if store.create_room(room).is_err() {
        return Err(ApiError::Internal);
    }
    proof {
        lemma_find_room_row_none_pointwise(rooms0, room_id@);
        lemma_find_room_row_at(store.rooms@, room_id@, rooms0.len() as int);
        assert forall|k: int|
            0 <= k < members0.len() implies (#[trigger] members0[k]).room_id@ != room_id@ by {
            if members0[k].room_id@ == room_id@ {
                assert(find_room_row(rooms0, room_id@) is Some);
            }
        }
        lemma_find_member_absent(members0, room_id@, user_id);
        lemma_find_member_absent(members0, room_id@, other_user_id);
    }
    let ghost members_a = store.members@;
    store.add_member(&room_id, user_id, MemberRole::Admin, now);
    let ghost members_b = store.members@;
    store.add_member(&room_id, other_user_id, MemberRole::Member, now);
    proof {
        let members2 = store.members@;
        assert(members_b == members0.push(members_b.last()));
        lemma_find_member_append(members_b.drop_last(), members_b.last(), room_id@,
            other_user_id);
        assert(members_b.drop_last() =~= members0);
        assert(find_member_row(members_b, room_id@, other_user_id) is None);
        assert(members2 == members_b.push(members2.last()));
        lemma_find_member_at(members2, room_id@, user_id, members0.len() as int);
        lemma_find_member_at(members2, room_id@, other_user_id, members0.len() as int + 1);
        assert forall|rid2: Seq<char>, u2: i64|
            rid2 != room_id@ implies #[trigger] find_member_row(members2, rid2, u2)
            == find_member_row(members0, rid2, u2) by {
            if members_b != members_a {
                assert(members_b == members_a.push(members_b.last()));
                assert(members_b.last().room_id@ == room_id@);
                lemma_find_member_append(members_a, members_b.last(), rid2, u2);
            }
            if members2 != members_b {
                assert(members2 == members_b.push(members2.last()));
                assert(members2.last().room_id@ == room_id@);
                lemma_find_member_append(members_b, members2.last(), rid2, u2);
            }
        }
        assert(has_member_row(store.members@, room_id@, user_id)) by {
            if find_member_row(members_a, room_id@, user_id) is Some {
                if members_b != members_a {
                    lemma_find_member_append(members_a, members_b.last(), room_id@, user_id);
                }
            } else {
                assert(members_b == members_a.push(members_b.last()));
                lemma_find_member_append(members_a, members_b.last(), room_id@, user_id);
            }
            if members2 != members_b {
                if !(members2.last().room_id@ == room_id@ && members2.last().user_id == user_id) {
                    lemma_find_member_append(members_b, members2.last(), room_id@, user_id);
                }
            }
        }
        assert(has_member_row(store.members@, room_id@, other_user_id)) by {
            if find_member_row(members_b, room_id@, other_user_id) is Some {
                if members2 != members_b {
                    if !(members2.last().room_id@ == room_id@ && members2.last().user_id
                        == other_user_id) {
                        lemma_find_member_append(members_b, members2.last(), room_id@,
                            other_user_id);
                    }
                }
            } else {
                assert(members2 == members_b.push(members2.last()));
                lemma_find_member_append(members_b, members2.last(), room_id@, other_user_id);
            }
        }
        lemma_spec_find_direct_none_pointwise(rooms0, members0, user_id, other_user_id);
        assert forall|k: int| 0 <= k < rooms0.len() implies !((#[trigger] store.rooms@[k]).room_type
            is Direct && has_member_row(store.members@, store.rooms@[k].id@, user_id)
            && has_member_row(store.members@, store.rooms@[k].id@, other_user_id)) by {
            assert(store.rooms@[k] == rooms0[k]);
            assert(rooms0[k].id@ != room_id@);
            assert(find_member_row(store.members@, rooms0[k].id@, user_id) == find_member_row(
                members0,
                rooms0[k].id@,
                user_id,
            ));
            assert(find_member_row(store.members@, rooms0[k].id@, other_user_id)
                == find_member_row(members0, rooms0[k].id@, other_user_id));
        }
        lemma_spec_find_direct_at(
            store.rooms@,
            store.members@,
            user_id,
            other_user_id,
            store.rooms@.len() - 1,
        );
    }
    Ok((idx, true))
}

} // verus!
