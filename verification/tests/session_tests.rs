//! The socket dispatch: rate limiting at the frame level, membership
//! checks, the persisted message with its fan-out, and the heartbeat.

use chat_core::frames::WsMessage;
use chat_core::frames::WsResponse;
use chat_core::handlers;
use chat_core::hub::Hub;
use chat_core::hub::HubEffect;
use chat_core::session;
use chat_core::session::SessionCtl;
use chat_core::store::ChatStore;

fn setup() -> (Hub, ChatStore, String) {
    let mut hub = Hub::new();
    let mut store = ChatStore::new();
    store.add_user(1, "Alice".to_string(), "alice@example.com".to_string());
    store.add_user(2, "Binh".to_string(), "binh@example.com".to_string());
    let (idx, _) = handlers::create_direct_room(&mut store, 1, 2, 10).unwrap();
    let room_id = store.rooms[idx].id.clone();
    hub.connect(1, "s1".to_string(), 0);
    hub.connect(2, "s2".to_string(), 0);
    hub.join_room(1, &room_id);
    hub.join_room(2, &room_id);
    (hub, store, room_id)
}

#[test]
fn test_session_heartbeat() {
    let mut ctl = SessionCtl::new(1, 100);
    assert_eq!(ctl.user_id, 1);
    assert_eq!(ctl.session_id.len(), 36);
    assert!(!ctl.heartbeat_expired(100 + session::CLIENT_TIMEOUT_MS));
    assert!(ctl.heartbeat_expired(101 + session::CLIENT_TIMEOUT_MS));
    ctl.record_activity(200);
    assert!(!ctl.heartbeat_expired(200));
}

#[test]
fn test_frame_ping() {
    let (mut hub, mut store, _room) = setup();
    let (effects, replies) = session::handle_frame(&mut hub, &mut store, 1, WsMessage::Ping, 100);
    assert_eq!(effects.len(), 0);
    assert_eq!(replies.len(), 1);
    assert!(matches!(replies[0], WsResponse::Pong));
}

#[test]
fn test_frame_message_fanout() {
    // A posted message is persisted, published to the room channel with
    // a room-updated notice, and each other active member gets an
    // unread notice on their user channel.
    let (mut hub, mut store, room_id) = setup();
    let msg = WsMessage::Message {
        room_id: room_id.clone(),
        content: "hi".to_string(),
        message_type: "text".to_string(),
        metadata: None,
    };
    let (effects, replies) = session::handle_frame(&mut hub, &mut store, 1, msg, 1000);
    assert_eq!(replies.len(), 0);
    assert_eq!(effects.len(), 3);
    match &effects[0] {
        HubEffect::Publish { channel, frame: WsResponse::Message { room_id: fr, sender_id, content, sender_name, created_at, .. } } => {
            assert_eq!(channel.as_str(), format!("chat:room:{}", room_id));
            assert_eq!(fr, &room_id);
            assert_eq!(*sender_id, 1);
            assert_eq!(content, "hi");
            assert_eq!(sender_name.as_deref(), Some("Alice"));
            assert_eq!(created_at, "1970-01-01T00:00:01+00:00");
        },
        _ => panic!("expected the message publish first"),
    }
    assert!(matches!(
        &effects[1],
        HubEffect::Publish { frame: WsResponse::RoomUpdated { .. }, .. }
    ));
    match &effects[2] {
        HubEffect::Publish { channel, frame: WsResponse::UnreadUpdated { unread_count, .. } } => {
            assert_eq!(channel.as_str(), "chat:user:2");
            assert_eq!(*unread_count, 1);
        },
        _ => panic!("expected an unread notice for the other member"),
    }
    assert_eq!(store.messages.len(), 1);
    assert_eq!(store.rooms[0].last_message_at, Some(1000));
}

#[test]
fn test_frame_message_rate_limited() {
    // The eleventh message in one burst is refused with a retry time;
    // nothing is persisted for it.
    let (mut hub, mut store, room_id) = setup();
    for k in 0..10 {
        let msg = WsMessage::Message {
            room_id: room_id.clone(),
            content: format!("m{}", k),
            message_type: "text".to_string(),
            metadata: None,
        };
        let (_, replies) = session::handle_frame(&mut hub, &mut store, 1, msg, 100);
        assert_eq!(replies.len(), 0);
    }
    let msg = WsMessage::Message {
        room_id: room_id.clone(),
        content: "one too many".to_string(),
        message_type: "text".to_string(),
        metadata: None,
    };
    let (effects, replies) = session::handle_frame(&mut hub, &mut store, 1, msg, 100);
    assert_eq!(effects.len(), 0);
    assert_eq!(replies.len(), 1);
    match &replies[0] {
        WsResponse::RateLimitExceeded { event_type, retry_after_ms, .. } => {
            assert_eq!(event_type, "message");
            assert_eq!(*retry_after_ms, 1000);
        },
        _ => panic!("expected a rate-limit refusal"),
    }
    assert_eq!(store.messages.len(), 10);
}

#[test]
fn test_frame_message_not_member() {
    let (mut hub, mut store, room_id) = setup();
    store.add_user(9, "Eve".to_string(), "eve@example.com".to_string());
    let msg = WsMessage::Message {
        room_id: room_id.clone(),
        content: "let me in".to_string(),
        message_type: "text".to_string(),
        metadata: None,
    };
    let (effects, replies) = session::handle_frame(&mut hub, &mut store, 9, msg, 100);
    assert_eq!(effects.len(), 0);
    assert_eq!(replies.len(), 1);
    assert!(matches!(
        &replies[0],
        WsResponse::Error { message } if message == "Not a member of this room"
    ));
    assert_eq!(store.messages.len(), 0);
}

#[test]
fn test_frame_typing_silent_drop() {
    // Typing is throttled silently: past the burst, nothing is sent and
    // nothing comes back.
    let (mut hub, mut store, room_id) = setup();
    for _ in 0..5 {
        let (effects, replies) = session::handle_frame(
            &mut hub,
            &mut store,
            1,
            WsMessage::Typing { room_id: room_id.clone(), is_typing: true },
            100,
        );
        assert_eq!(effects.len(), 1);
        assert_eq!(replies.len(), 0);
    }
    let (effects, replies) = session::handle_frame(
        &mut hub,
        &mut store,
        1,
        WsMessage::Typing { room_id: room_id.clone(), is_typing: true },
        100,
    );
    assert_eq!(effects.len(), 0);
    assert_eq!(replies.len(), 0);
}

#[test]
fn test_frame_join_and_leave() {
    let (mut hub, mut store, room_id) = setup();
    store.add_user(9, "Eve".to_string(), "eve@example.com".to_string());
    // an outsider may not join over the socket
    let (effects, replies) = session::handle_frame(
        &mut hub,
        &mut store,
        9,
        WsMessage::JoinRoom { room_id: room_id.clone() },
        100,
    );
    assert_eq!(effects.len(), 0);
    assert!(matches!(
        &replies[0],
        WsResponse::Error { message } if message == "Not a member of this room"
    ));
    // presence-only leave
    let (effects, replies) = session::handle_frame(
        &mut hub,
        &mut store,
        1,
        WsMessage::LeaveRoom { room_id: room_id.clone() },
        100,
    );
    assert_eq!(replies.len(), 0);
    assert_eq!(effects.len(), 1);
    assert!(matches!(
        &effects[0],
        HubEffect::Deliver { frame: WsResponse::Left { .. }, .. }
    ));
    // the membership row is untouched by a presence leave
    assert!(store.is_member(&room_id, 1));
}

#[test]
fn test_invalid_frame_reply() {
    let reply = session::invalid_frame_reply();
    assert!(matches!(
        &reply,
        WsResponse::Error { message } if message == "Invalid message format"
    ));
}
