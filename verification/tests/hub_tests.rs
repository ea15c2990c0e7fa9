//! Presence and fan-out: the session cap, the publish-only broadcast
//! path, the typing sweep, and disconnect housekeeping.

use chat_core::bridge::BusRoute;
use chat_core::bridge::route_channel;
use chat_core::frames::WsResponse;
use chat_core::hub::Hub;
use chat_core::hub::HubEffect;

fn connect_n(hub: &mut Hub, user: i64, n: usize) -> Vec<Vec<HubEffect>> {
    let mut out = Vec::new();
    let mut k: usize = 0;
    while k < n {
        let sid = format!("session-{}", k);
        out.push(hub.connect(user, sid, k as u64));
        k += 1;
    }
    out
}

#[test]
fn test_session_cap_eviction() {
    // A sixth socket evicts exactly the oldest one, which is told it was
    // replaced; the newer five stay.
    let mut hub = Hub::new();
    let effects = connect_n(&mut hub, 1, 6);
    for k in 0..5 {
        assert_eq!(effects[k].len(), 0);
    }
    assert_eq!(effects[5].len(), 1);
    match &effects[5][0] {
        HubEffect::DeliverSession { user_id, session_id, frame } => {
            assert_eq!(*user_id, 1);
            assert_eq!(session_id.as_str(), "session-0");
            assert!(matches!(frame, WsResponse::ConnectionReplaced { .. }));
        },
        _ => panic!("expected a single-session delivery"),
    }
    assert_eq!(hub.connection_count(), 5);
}

#[test]
fn test_join_room_presence() {
    let mut hub = Hub::new();
    hub.connect(1, "s1".to_string(), 0);
    hub.connect(2, "s2".to_string(), 1);
    hub.join_room(1, &"room-a".to_string());
    let effects = hub.join_room(2, &"room-a".to_string());
    assert_eq!(effects.len(), 3);
    match &effects[0] {
        HubEffect::Deliver { users, frame: WsResponse::RoomPresence { room_id, online_users } } => {
            assert_eq!(users.as_slice(), &[2i64]);
            assert_eq!(room_id.as_str(), "room-a");
            assert_eq!(online_users.as_slice(), &[1i64, 2i64]);
        },
        _ => panic!("expected room presence for the joiner"),
    }
    match &effects[1] {
        HubEffect::Deliver { users, frame: WsResponse::UserOnline { user_id, user_name } } => {
            assert_eq!(users.as_slice(), &[1i64]);
            assert_eq!(*user_id, 2);
            assert_eq!(user_name.as_str(), "User 2");
        },
        _ => panic!("expected an online notice to the others"),
    }
    match &effects[2] {
        HubEffect::Deliver { users, frame: WsResponse::Joined { room_id } } => {
            assert_eq!(users.as_slice(), &[2i64]);
            assert_eq!(room_id.as_str(), "room-a");
        },
        _ => panic!("expected a join confirmation"),
    }
}

fn count_deliveries_to(effects: &Vec<HubEffect>, user: i64) -> usize {
    let mut n = 0;
    for e in effects.iter() {
        match e {
            HubEffect::Deliver { users, .. } => {
                for u in users.iter() {
                    if *u == user {
                        n += 1;
                    }
                }
            },
            HubEffect::DeliverSession { user_id, .. } => {
                if *user_id == user {
                    n += 1;
                }
            },
            _ => {},
        }
    }
    n
}

#[test]
fn test_publish_only_no_self_echo() {
    // With one instance, a room broadcast delivers nothing at the
    // publish step; the bus loops it back and the bridge's local fan-out
    // delivers exactly once.
    let mut hub = Hub::new();
    hub.connect(1, "s1".to_string(), 0);
    hub.join_room(1, &"room-a".to_string());

    let frame = WsResponse::Pong;
    let publish_effects = hub.broadcast_to_room(&"room-a".to_string(), frame, None);
    assert_eq!(count_deliveries_to(&publish_effects, 1), 0);
    assert_eq!(publish_effects.len(), 1);
    let channel = match &publish_effects[0] {
        HubEffect::Publish { channel, .. } => channel.clone(),
        _ => panic!("the broadcast must only publish"),
    };
    assert_eq!(channel.as_str(), "chat:room:room-a");

    // the loop-back through the bridge
    let local_effects = match route_channel(channel.as_str()) {
        BusRoute::Room { room_id } => hub.broadcast_to_room_local(&room_id, WsResponse::Pong, None),
        _ => panic!("a room channel must route to the local fan-out"),
    };
    assert_eq!(count_deliveries_to(&local_effects, 1), 1);
    assert_eq!(
        count_deliveries_to(&publish_effects, 1) + count_deliveries_to(&local_effects, 1),
        1
    );
}

#[test]
fn test_two_instance_fanout() {
    // Two instances share the bus: each delivers the looped-back payload
    // to its own subscribers exactly once.
    let mut hub_x = Hub::new();
    let mut hub_y = Hub::new();
    hub_x.connect(1, "sx".to_string(), 0);
    hub_y.connect(2, "sy".to_string(), 0);
    hub_x.join_room(1, &"room-r".to_string());
    hub_y.join_room(2, &"room-r".to_string());

    let publish = hub_x.broadcast_to_room(&"room-r".to_string(), WsResponse::Pong, None);
    let channel = match &publish[0] {
        HubEffect::Publish { channel, .. } => channel.clone(),
        _ => panic!("publish expected"),
    };
    let on_x = match route_channel(channel.as_str()) {
        BusRoute::Room { room_id } => {
            hub_x.broadcast_to_room_local(&room_id, WsResponse::Pong, None)
        },
        _ => panic!("room route expected"),
    };
    let on_y = match route_channel(channel.as_str()) {
        BusRoute::Room { room_id } => {
            hub_y.broadcast_to_room_local(&room_id, WsResponse::Pong, None)
        },
        _ => panic!("room route expected"),
    };
    assert_eq!(count_deliveries_to(&publish, 1) + count_deliveries_to(&on_x, 1), 1);
    assert_eq!(count_deliveries_to(&on_y, 2), 1);
    assert_eq!(count_deliveries_to(&on_y, 1), 0);
}

#[test]
fn test_typing_sweep() {
    // A typing record older than three seconds is dropped and the other
    // members are told the user stopped typing.
    let mut hub = Hub::new();
    hub.connect(1, "s1".to_string(), 0);
    hub.connect(2, "s2".to_string(), 0);
    hub.join_room(1, &"room-a".to_string());
    hub.join_room(2, &"room-a".to_string());
    hub.user_typing(1, &"room-a".to_string(), 1000);

    let quiet = hub.sweep_typing(3000);
    assert_eq!(quiet.len(), 0);

    let effects = hub.sweep_typing(4001);
    assert_eq!(effects.len(), 1);
    match &effects[0] {
        HubEffect::Deliver { users, frame: WsResponse::Typing { room_id, user_id, is_typing, .. } } => {
            assert_eq!(users.as_slice(), &[2i64]);
            assert_eq!(room_id.as_str(), "room-a");
            assert_eq!(*user_id, 1);
            assert_eq!(*is_typing, false);
        },
        _ => panic!("expected a stopped-typing notice"),
    }
    assert_eq!(hub.sweep_typing(4002).len(), 0);
}

#[test]
fn test_disconnect_last_session() {
    let mut hub = Hub::new();
    hub.connect(1, "s1".to_string(), 0);
    hub.connect(2, "s2".to_string(), 0);
    hub.join_room(1, &"room-a".to_string());
    hub.join_room(2, &"room-a".to_string());

    let effects = hub.disconnect(1, &"s1".to_string());
    assert!(matches!(effects[0], HubEffect::StoreLastSeen { user_id: 1 }));
    assert_eq!(effects.len(), 2);
    match &effects[1] {
        HubEffect::Deliver { users, frame: WsResponse::UserOffline { user_id } } => {
            assert_eq!(users.as_slice(), &[2i64]);
            assert_eq!(*user_id, 1);
        },
        _ => panic!("expected an offline notice"),
    }
    assert_eq!(hub.connection_count(), 1);
}

#[test]
fn test_route_channel() {
    assert!(matches!(
        route_channel("chat:room:abc"),
        BusRoute::Room { room_id } if room_id.as_str() == "abc"
    ));
    assert!(matches!(route_channel("chat:user:42"), BusRoute::User { user_id: 42 }));
    assert!(matches!(route_channel("chat:user:-7"), BusRoute::User { user_id: -7 }));
    assert!(matches!(route_channel("chat:user:nope"), BusRoute::Other));
    assert!(matches!(route_channel("payments:events"), BusRoute::Other));
}

#[test]
fn test_rate_limit_named_events() {
    // The wire names map to the event classes; an unknown name passes
    // without consuming anything.
    let mut hub = Hub::new();
    for _ in 0..5 {
        assert!(hub.check_rate_limit_named(1, "typing", 0).is_ok());
    }
    assert!(hub.check_rate_limit_named(1, "typing", 0).is_err());
    assert!(hub.check_rate_limit_named(1, "message", 0).is_ok());
    for _ in 0..100 {
        assert!(hub.check_rate_limit_named(1, "unknown_event", 0).is_ok());
    }
}

#[test]
fn test_limiter_cleanup_on_disconnect() {
    // The housekeeping drop keeps only connected users' buckets.
    let mut hub = Hub::new();
    hub.connect(1, "s1".to_string(), 0);
    hub.connect(2, "s2".to_string(), 0);
    for _ in 0..10 {
        hub.check_rate_limit(2, chat_core::ratelimit::EventType::Message, 0).unwrap();
    }
    hub.disconnect(2, &"s2".to_string());
    hub.cleanup_rate_limiter();
    // user 2 reconnects with a fresh bucket
    hub.connect(2, "s3".to_string(), 1);
    for _ in 0..10 {
        assert!(hub.check_rate_limit(2, chat_core::ratelimit::EventType::Message, 1).is_ok());
    }
}

#[test]
fn test_broadcast_to_users_skips_absent() {
    let mut hub = Hub::new();
    hub.connect(1, "s1".to_string(), 0);
    let effects = hub.broadcast_to_users(vec![1, 99], WsResponse::Pong);
    assert_eq!(effects.len(), 1);
    match &effects[0] {
        HubEffect::Deliver { users, .. } => assert_eq!(users.as_slice(), &[1i64]),
        _ => panic!("expected one delivery"),
    }
}

#[test]
fn test_presence_leave_untracks_room() {
    // The presence leave is the full reverse of the join: the user
    // leaves the room's subscriber set and the room leaves the user's
    // list, so a later disconnect no longer reports the room.
    let mut hub = Hub::new();
    hub.connect(1, "s1".to_string(), 0);
    hub.connect(2, "s2".to_string(), 0);
    hub.join_room(1, &"room-a".to_string());
    hub.join_room(2, &"room-a".to_string());
    hub.leave_room(1, &"room-a".to_string());

    let effects = hub.disconnect(1, &"s1".to_string());
    // only the last-seen write: no room is tracked for the user any more
    assert_eq!(effects.len(), 1);
    assert!(matches!(effects[0], HubEffect::StoreLastSeen { user_id: 1 }));
}
