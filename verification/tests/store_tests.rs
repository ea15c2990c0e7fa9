//! The durable model: direct-room idempotency, soft leave, hide and
//! unhide, unread counting and message paging.

use chat_core::handlers;
use chat_core::handlers::ApiError;
use chat_core::store::ChatStore;
use chat_core::store::InviteStatus;
use chat_core::store::MemberRole;

fn store_with_users() -> ChatStore {
    let mut store = ChatStore::new();
    store.add_user(1, "Alice".to_string(), "alice@example.com".to_string());
    store.add_user(2, "Binh".to_string(), "binh@example.com".to_string());
    store.add_user(3, "Chi".to_string(), "chi@example.com".to_string());
    store
}

#[test]
fn test_direct_room_idempotent() {
    // A second find-or-create returns the same room, in either order of
    // the pair, and creates nothing new.
    let mut store = store_with_users();
    let (idx1, created1) = handlers::create_direct_room(&mut store, 1, 2, 10).unwrap();
    assert!(created1);
    let (idx2, created2) = handlers::create_direct_room(&mut store, 1, 2, 20).unwrap();
    assert!(!created2);
    assert_eq!(idx1, idx2);
    let (idx3, created3) = handlers::create_direct_room(&mut store, 2, 1, 30).unwrap();
    assert!(!created3);
    assert_eq!(idx1, idx3);
    assert_eq!(store.rooms.len(), 1);
}

#[test]
fn test_leave_last_admin() {
    // The leave endpoint rejects exactly the only active admin while
    // another active member remains.
    let mut store = store_with_users();
    let (idx, effects) = handlers::create_room(
        &mut store,
        1,
        Some("team".to_string()),
        "group",
        &vec![2],
        10,
    )
    .unwrap();
    assert_eq!(effects.len(), 2);
    let room_id = store.rooms[idx].id.clone();
    // the invitee accepts and becomes an active member
    let inv_id = store.invitations[0].id;
    handlers::accept_invitation(&mut store, 2, inv_id, 20).unwrap();

    let err = handlers::leave_room(&mut store, 1, &room_id, 30).unwrap_err();
    assert!(matches!(err, ApiError::LastAdmin));
    assert_eq!(err.status(), 400);
    assert_eq!(
        err.message(),
        "Cannot leave: you are the last admin. Transfer admin role first."
    );

    // after promoting the other member (a fixture change), the same
    // call passes and flags the row
    for m in store.members.iter_mut() {
        if m.user_id == 2 {
            m.role = MemberRole::Admin;
        }
    }
    handlers::leave_room(&mut store, 1, &room_id, 40).unwrap();
    assert!(store
        .members
        .iter()
        .any(|m| m.user_id == 1 && m.left_at == Some(40)));
}

#[test]
fn test_leave_guards() {
    let mut store = store_with_users();
    let missing = "nowhere".to_string();
    assert!(matches!(
        handlers::leave_room(&mut store, 1, &missing, 5).unwrap_err(),
        ApiError::RoomNotFound
    ));
    let (idx, _) = handlers::create_direct_room(&mut store, 1, 2, 10).unwrap();
    let direct_id = store.rooms[idx].id.clone();
    assert!(matches!(
        handlers::leave_room(&mut store, 1, &direct_id, 20).unwrap_err(),
        ApiError::CannotLeaveDirect
    ));
    let (gidx, _) = handlers::create_room(&mut store, 1, None, "group", &vec![2], 30).unwrap();
    let group_id = store.rooms[gidx].id.clone();
    assert!(matches!(
        handlers::leave_room(&mut store, 3, &group_id, 40).unwrap_err(),
        ApiError::NotMember
    ));
}

#[test]
fn test_unhide_on_activity() {
    // Hiding removes the room from the listing; any new message reveals
    // it again for every active member, with a positive unread count.
    let mut store = store_with_users();
    let (idx, _) = handlers::create_direct_room(&mut store, 1, 2, 10).unwrap();
    let room_id = store.rooms[idx].id.clone();

    handlers::hide_room(&mut store, 1, &room_id, 20).unwrap();
    let listing = handlers::get_user_rooms(&store, 1);
    assert_eq!(listing.len(), 0);

    let msg = chat_core::store::Message {
        id: "m-1".to_string(),
        room_id: room_id.clone(),
        sender_id: 2,
        content: "hi".to_string(),
        message_type: "text".to_string(),
        metadata: None,
        created_at: 30,
        updated_at: 30,
    };
    store.post_message(msg).unwrap();
    for m in store.members.iter() {
        if m.left_at.is_none() {
            assert!(m.hidden_at.is_none());
        }
    }
    let listing = handlers::get_user_rooms(&store, 1);
    assert_eq!(listing.len(), 1);
    assert_eq!(listing[0].0, idx);
    assert!(listing[0].1 >= 1);
}

#[test]
fn test_unread_counting() {
    // Counts rise with others' messages, ignore one's own, and reset on
    // mark-read; they never fall between reads otherwise.
    let mut store = store_with_users();
    let (idx, _) = handlers::create_direct_room(&mut store, 1, 2, 10).unwrap();
    let room_id = store.rooms[idx].id.clone();

    let mk = |id: &str, sender: i64, at: i64| chat_core::store::Message {
        id: id.to_string(),
        room_id: room_id.clone(),
        sender_id: sender,
        content: "x".to_string(),
        message_type: "text".to_string(),
        metadata: None,
        created_at: at,
        updated_at: at,
    };
    store.post_message(mk("m-1", 2, 20)).unwrap();
    assert_eq!(store.get_unread_count(&room_id, 1), 1);
    store.post_message(mk("m-2", 2, 30)).unwrap();
    assert_eq!(store.get_unread_count(&room_id, 1), 2);
    store.post_message(mk("m-3", 1, 40)).unwrap();
    assert_eq!(store.get_unread_count(&room_id, 1), 2);
    handlers::mark_room_as_read(&mut store, 1, &room_id, 50).unwrap();
    assert_eq!(store.get_unread_count(&room_id, 1), 0);
}

#[test]
fn test_message_paging() {
    let mut store = store_with_users();
    let (idx, _) = handlers::create_direct_room(&mut store, 1, 2, 10).unwrap();
    let room_id = store.rooms[idx].id.clone();
    let mk = |id: &str, at: i64| chat_core::store::Message {
        id: id.to_string(),
        room_id: room_id.clone(),
        sender_id: 1,
        content: "x".to_string(),
        message_type: "text".to_string(),
        metadata: None,
        created_at: at,
        updated_at: at,
    };
    store.post_message(mk("m-a", 20)).unwrap();
    store.post_message(mk("m-b", 30)).unwrap();
    store.post_message(mk("m-c", 40)).unwrap();

    let page = handlers::get_room_messages(&store, 1, &room_id, Some(2), None).unwrap();
    assert_eq!(page.len(), 2);
    assert_eq!(store.messages[page[0]].id, "m-c");
    assert_eq!(store.messages[page[1]].id, "m-b");

    let before = "m-c".to_string();
    let older = handlers::get_room_messages(&store, 1, &room_id, None, Some(&before)).unwrap();
    assert_eq!(older.len(), 2);
    assert_eq!(store.messages[older[0]].id, "m-b");
    assert_eq!(store.messages[older[1]].id, "m-a");

    assert!(matches!(
        handlers::get_room_messages(&store, 3, &room_id, None, None).unwrap_err(),
        ApiError::NotMember
    ));
}

#[test]
fn test_invitation_flow() {
    // Group creation invites the others; accepting adds the member,
    // posts a system join message and notifies the room.
    let mut store = store_with_users();
    let (idx, effects) = handlers::create_room(
        &mut store,
        1,
        Some("crew".to_string()),
        "group",
        &vec![2, 3],
        10,
    )
    .unwrap();
    let room_id = store.rooms[idx].id.clone();
    assert_eq!(effects.len(), 4);
    assert_eq!(store.invitations.len(), 2);
    assert!(matches!(store.invitations[0].status, InviteStatus::Pending));

    let pending = handlers::get_invitations(&store, 2);
    assert_eq!(pending.len(), 1);
    let inv_id = store.invitations[pending[0]].id;

    // the wrong user cannot take it
    assert!(matches!(
        handlers::accept_invitation(&mut store, 3, inv_id, 20).unwrap_err(),
        ApiError::NotYourInvitation
    ));

    let (ridx, accept_effects) = handlers::accept_invitation(&mut store, 2, inv_id, 30).unwrap();
    assert_eq!(ridx, idx);
    assert!(store.is_member(&room_id, 2));
    assert!(matches!(store.invitations[pending[0]].status, InviteStatus::Accepted));
    let last = &store.messages[store.messages.len() - 1];
    assert_eq!(last.message_type, "system");
    assert!(last.content.contains("Binh"));
    assert_eq!(accept_effects.len(), 2);

    // terminal states are final
    assert!(matches!(
        handlers::accept_invitation(&mut store, 2, inv_id, 40).unwrap_err(),
        ApiError::InvitationAlready(InviteStatus::Accepted)
    ));
    assert!(matches!(
        handlers::decline_invitation(&mut store, 2, inv_id, 50).unwrap_err(),
        ApiError::InvitationAlready(InviteStatus::Accepted)
    ));

    // the other invitee declines
    let pending3 = handlers::get_invitations(&store, 3);
    let inv3 = store.invitations[pending3[0]].id;
    handlers::decline_invitation(&mut store, 3, inv3, 60).unwrap();
    assert!(matches!(store.invitations[pending3[0]].status, InviteStatus::Declined));
    assert!(!store.is_member(&room_id, 3));
}

#[test]
fn test_create_room_validation() {
    let mut store = store_with_users();
    let err = handlers::create_room(&mut store, 1, None, "banter", &vec![2], 10).unwrap_err();
    assert!(matches!(err, ApiError::InvalidRoomType));
    assert_eq!(err.status(), 400);
    assert_eq!(err.message(), "Invalid room type. Must be 'direct' or 'group'");

    let err = handlers::create_room(&mut store, 1, None, "direct", &vec![2, 3], 10).unwrap_err();
    assert!(matches!(err, ApiError::DirectRoomNeedsOneMember));
    assert_eq!(err.message(), "Direct rooms must have exactly one other member");
}

#[test]
fn test_room_listing_order() {
    // Rooms are listed by latest activity, newest first.
    let mut store = store_with_users();
    let (i1, _) = handlers::create_direct_room(&mut store, 1, 2, 10).unwrap();
    let (i2, _) = handlers::create_direct_room(&mut store, 1, 3, 20).unwrap();
    let listing = handlers::get_user_rooms(&store, 1);
    assert_eq!(listing[0].0, i2);
    assert_eq!(listing[1].0, i1);

    // a message in the older room moves it to the front
    let rid = store.rooms[i1].id.clone();
    let msg = chat_core::store::Message {
        id: "m-1".to_string(),
        room_id: rid,
        sender_id: 2,
        content: "hi".to_string(),
        message_type: "text".to_string(),
        metadata: None,
        created_at: 30,
        updated_at: 30,
    };
    store.post_message(msg).unwrap();
    let listing = handlers::get_user_rooms(&store, 1);
    assert_eq!(listing[0].0, i1);
    assert_eq!(listing[1].0, i2);
}

#[test]
fn test_self_direct_room_rejected() {
    // A direct room needs two distinct people.
    let mut store = store_with_users();
    let err = handlers::create_direct_room(&mut store, 1, 1, 10).unwrap_err();
    assert!(matches!(err, ApiError::SelfDirectRoom));
    assert_eq!(err.status(), 400);
    let err = handlers::create_room(&mut store, 1, None, "direct", &vec![1], 10).unwrap_err();
    assert!(matches!(err, ApiError::SelfDirectRoom));
    assert_eq!(store.rooms.len(), 0);
}

#[test]
fn test_direct_room_roles() {
    // Creating a direct room establishes the invariant: exactly two
    // rows, caller admin, other member, none left or hidden.
    let mut store = store_with_users();
    let (idx, created) = handlers::create_direct_room(&mut store, 1, 2, 10).unwrap();
    assert!(created);
    let room_id = store.rooms[idx].id.clone();
    assert_eq!(store.members.len(), 2);
    for m in store.members.iter() {
        assert_eq!(m.room_id, room_id);
        assert!(m.left_at.is_none());
        assert!(m.hidden_at.is_none());
        if m.user_id == 1 {
            assert!(matches!(m.role, MemberRole::Admin));
        } else {
            assert_eq!(m.user_id, 2);
            assert!(matches!(m.role, MemberRole::Member));
        }
    }
}

#[test]
fn test_message_paging_id_tiebreak() {
    // Messages created in the same millisecond are ordered by id; the
    // limit cut follows that order, not arrival order.
    let mut store = store_with_users();
    let (idx, _) = handlers::create_direct_room(&mut store, 1, 2, 10).unwrap();
    let room_id = store.rooms[idx].id.clone();
    let mk = |id: &str, at: i64| chat_core::store::Message {
        id: id.to_string(),
        room_id: room_id.clone(),
        sender_id: 1,
        content: "x".to_string(),
        message_type: "text".to_string(),
        metadata: None,
        created_at: at,
        updated_at: at,
    };
    // arrival order deliberately disagrees with id order at the tie
    store.post_message(mk("m-b", 20)).unwrap();
    store.post_message(mk("m-c", 20)).unwrap();
    store.post_message(mk("m-a", 20)).unwrap();

    let page = handlers::get_room_messages(&store, 1, &room_id, Some(2), None).unwrap();
    assert_eq!(page.len(), 2);
    assert_eq!(store.messages[page[0]].id, "m-c");
    assert_eq!(store.messages[page[1]].id, "m-b");
}
