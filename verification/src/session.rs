//! The per-connection session logic: heartbeat bookkeeping and the
//! dispatch of one inbound frame against the hub and the store. The
//! socket itself lives outside; it parses frames, calls `handle_frame`,
//! pushes the returned replies down its own socket, and performs the
//! returned hub effects.

use vstd::prelude::*;

verus! {

use crate::frames::WsMessage;
use crate::frames::WsResponse;
use crate::hub::Hub;
use crate::hub::HubEffect;
use crate::hub::room_members;
use crate::hub::rooms_of;
use crate::hub::find_typing;
use crate::hub::typing_last;
use crate::hub::excluding;
use crate::handlers::active_others;
use crate::handlers::collect_active_others;
use crate::ratelimit::EventType;
use crate::ratelimit::MAX_TIME;
use crate::ratelimit::check_result_spec;
use crate::ratelimit::check_spec_result;
use crate::ratelimit::lemma_check_result_deterministic;
use crate::store::ChatStore;
use crate::store::MAX_ROWS;
use crate::store::Message;
use crate::store::has_member_row;
use crate::store::unread_spec;
use crate::clock::rfc3339_of;
use crate::text::dec_int;

/// A ping goes out this often.
pub const HEARTBEAT_INTERVAL_MS: u64 = 5000;

/// A peer silent for longer than this is force-closed.
pub const CLIENT_TIMEOUT_MS: u64 = 10000;

/// The connection-local state of one socket.
#[derive(Debug)]
pub struct SessionCtl {
    pub id: i64,
    pub user_id: i64,
    pub session_id: String,
    pub last_inbound: u64,
}

impl SessionCtl {
    /// A fresh session for a user, stamped with a random tag and a new
    /// session id.
    pub fn new(user_id: i64, now: u64) -> (r: SessionCtl)
        ensures
            r.user_id == user_id,
            r.last_inbound == now,
            r.session_id@.len() == 36,
    {
        SessionCtl {
            id: rand::random::<i64>(),
            user_id,
            session_id: crate::ident::new_uuid(),
            last_inbound: now,
        }
    }

    /// Note an inbound frame: text, ping or pong all reset the timer.
    pub fn record_activity(&mut self, now: u64)
        ensures
            *final(self) == (SessionCtl { last_inbound: now, ..*old(self) }),
    {
        self.last_inbound = now;
    }

    /// Whether the heartbeat check must force-close the connection.
    pub fn heartbeat_expired(&self, now: u64) -> (r: bool)
        requires
            self.last_inbound <= now,
        ensures
            r == (now - self.last_inbound > CLIENT_TIMEOUT_MS),
    {
        now - self.last_inbound > CLIENT_TIMEOUT_MS
    }
}

/// The reply to a frame the codec could not parse.
pub fn invalid_frame_reply() -> (r: WsResponse)
    ensures
        (r matches WsResponse::Error { message } && message@ == "Invalid message format"@),
{
    WsResponse::Error { message: "Invalid message format".to_owned() }
}

/// Dispatch one inbound frame for a connected user: rate limiting,
/// membership checks, persistence and fan-out, yielding the effects to
/// perform and the replies to push down this socket alone.
pub fn handle_frame(hub: &mut Hub, store: &mut ChatStore, user_id: i64, msg: WsMessage, now: u64) -> (out: (
    Vec<HubEffect>,
    Vec<WsResponse>,
))
    requires
        old(hub).wf(),
        old(hub).fresh_until(now),
        now <= MAX_TIME,
        old(store).wf(),
        old(store).fresh_until(now as i64),
        old(store).messages@.len() + 1 < MAX_ROWS,
    ensures
        final(hub).wf(),
        final(hub).fresh_until(now),
        final(store).wf(),
        final(store).fresh_until(now as i64),
        final(hub).sessions@ == old(hub).sessions@,
        (msg matches WsMessage::Message { room_id, content, message_type, metadata } ==> ({
            let res = check_spec_result(old(hub).limiter, user_id, EventType::Message, now);
            &&& check_result_spec(
                old(hub).limiter,
                final(hub).limiter,
                user_id,
                EventType::Message,
                now,
                res,
            )
            &&& final(hub).rooms@ == old(hub).rooms@
            &&& final(hub).user_rooms@ == old(hub).user_rooms@
            &&& final(hub).typing@ == old(hub).typing@
            &&& (res matches Err(w) ==> (*final(store) == *old(store) && out.0@.len() == 0
                && out.1@.len() == 1 && (out.1@[0] matches WsResponse::RateLimitExceeded {
                event_type: et,
                retry_after_ms: ra,
                ..
            } && et@ == "message"@ && ra == w)))
            &&& ((res is Ok && !has_member_row(old(store).members@, room_id@, user_id)) ==> (
            *final(store) == *old(store) && out.0@.len() == 0 && out.1@.len() == 1 && (out.1@[0]
                matches WsResponse::Error { message } && message@
                == "Not a member of this room"@)))
            &&& ((res is Ok && has_member_row(old(store).members@, room_id@, user_id)) ==> ({
                ||| (*final(store) == *old(store) && out.0@.len() == 0 && out.1@.len() == 1 && (
                out.1@[0] matches WsResponse::Error { message } && message@
                    == "Failed to save message"@))
                ||| ({
                    let m = final(store).messages@.last();
                    let targets = active_others(final(store).members@, room_id@, user_id);
                    &&& final(store).messages@.len() == old(store).messages@.len() + 1
                    &&& final(store).rooms@.len() == old(store).rooms@.len()
                    &&& (forall|i: int|
                        0 <= i < old(store).rooms@.len() ==> #[trigger] final(store).rooms@[i]
                            == if old(store).rooms@[i].id@ == room_id@ {
                            (crate::store::Room {
                                last_message_at: Some(now as i64),
                                ..old(store).rooms@[i]
                            })
                        } else {
                            old(store).rooms@[i]
                        })
                    &&& m.room_id@ == room_id@
                    &&& m.sender_id == user_id
                    &&& m.content@ == content@
                    &&& m.message_type@ == message_type@
                    &&& m.created_at == now
                    &&& (m.metadata is Some <==> metadata is Some)
                    &&& (metadata matches Some(md) ==> m.metadata->0@ == md@)
                    &&& (forall|i: int|
                        0 <= i < final(store).members@.len() && (
                        #[trigger] final(store).members@[i]).room_id@ == room_id@
                            && final(store).members@[i].left_at is None
                            ==> final(store).members@[i].hidden_at is None)
                    &&& out.1@.len() == 0
                    &&& out.0@.len() == 2 + targets.len()
                    &&& (out.0@[0] matches HubEffect::Publish {
                        channel,
                        frame: WsResponse::Message {
                            id,
                            room_id: fr,
                            sender_id,
                            sender_name: sn,
                            content: fc,
                            message_type: fm,
                            created_at,
                            ..
                        },
                    } && channel@ == "chat:room:"@ + room_id@ && id@ == m.id@ && fr@ == room_id@
                        && sender_id == user_id && fc@ == content@ && fm@ == message_type@
                        && created_at@ == rfc3339_of(now as int) && (sn is Some <==> exists|j: int|
                        0 <= j < old(store).users@.len() && (#[trigger] old(store).users@[j]).id
                            == user_id) && (sn matches Some(nm) ==> exists|j: int|
                        0 <= j < old(store).users@.len() && (#[trigger] old(store).users@[j]).id
                            == user_id && old(store).users@[j].name@ == nm@))
                    &&& (out.0@[1] matches HubEffect::Publish {
                        channel,
                        frame: WsResponse::RoomUpdated { room_id: ur, last_message_at },
                    } && channel@ == "chat:room:"@ + room_id@ && ur@ == room_id@
                        && last_message_at@ == rfc3339_of(now as int))
                    &&& (forall|k: int|
                        0 <= k < targets.len() ==> ((#[trigger] out.0@[2 + k])
                            matches HubEffect::Publish {
                            channel,
                            frame: WsResponse::UnreadUpdated { room_id: rr, unread_count },
                        } && channel@ == "chat:user:"@ + dec_int(targets[k] as int) && rr@
                            == room_id@ && unread_count == unread_spec(
                            *final(store),
                            room_id@,
                            targets[k],
                        )))
                })
            }))
        })),
        (msg matches WsMessage::JoinRoom { room_id } ==> ({
            let res = check_spec_result(old(hub).limiter, user_id, EventType::RoomAction, now);
            &&& check_result_spec(
                old(hub).limiter,
                final(hub).limiter,
                user_id,
                EventType::RoomAction,
                now,
                res,
            )
            &&& *final(store) == *old(store)
            &&& final(hub).typing@ == old(hub).typing@
            &&& (res matches Err(w) ==> (final(hub).rooms@ == old(hub).rooms@
                && final(hub).user_rooms@ == old(hub).user_rooms@ && out.0@.len() == 0
                && out.1@.len() == 1 && (out.1@[0] matches WsResponse::RateLimitExceeded {
                event_type: et,
                retry_after_ms: ra,
                ..
            } && et@ == "room_action"@ && ra == w)))
            &&& ((res is Ok && !has_member_row(old(store).members@, room_id@, user_id)) ==> (
            final(hub).rooms@ == old(hub).rooms@ && final(hub).user_rooms@ == old(hub).user_rooms@
                && out.0@.len() == 0 && out.1@.len() == 1 && (out.1@[0]
                matches WsResponse::Error { message } && message@
                == "Not a member of this room"@)))
            &&& ((res is Ok && has_member_row(old(store).members@, room_id@, user_id)) ==> ({
                let before = room_members(old(hub).rooms@, room_id@);
                let after = room_members(final(hub).rooms@, room_id@);
                &&& (before.contains(user_id) ==> after == before)
                &&& (!before.contains(user_id) ==> after == before.push(user_id))
                &&& out.1@.len() == 0
                &&& out.0@.len() == 3
            }))
        })),
        (msg matches WsMessage::LeaveRoom { room_id } ==> ({
            &&& *final(store) == *old(store)
            &&& final(hub).limiter == old(hub).limiter
            &&& final(hub).typing@ == old(hub).typing@
            &&& room_members(final(hub).rooms@, room_id@) == excluding(
                room_members(old(hub).rooms@, room_id@),
                Some(user_id),
            )
            &&& rooms_of(final(hub).user_rooms@, user_id) == crate::hub::excluding_room(
                rooms_of(old(hub).user_rooms@, user_id),
                room_id@,
            )
            &&& out.1@.len() == 0
            &&& out.0@.len() == 1
            &&& (out.0@[0] matches HubEffect::Deliver {
                users,
                frame: WsResponse::Left { room_id: lr },
            } && users@ == seq![user_id] && lr@ == room_id@)
        })),
        (msg matches WsMessage::Typing { room_id, is_typing } ==> ({
            let res = check_spec_result(old(hub).limiter, user_id, EventType::Typing, now);
            &&& check_result_spec(
                old(hub).limiter,
                final(hub).limiter,
                user_id,
                EventType::Typing,
                now,
                res,
            )
            &&& *final(store) == *old(store)
            &&& final(hub).rooms@ == old(hub).rooms@
            &&& final(hub).user_rooms@ == old(hub).user_rooms@
            &&& (res is Err ==> (final(hub).typing@ == old(hub).typing@ && out.0@.len() == 0
                && out.1@.len() == 0))
            &&& (res is Ok ==> {
                &&& (is_typing ==> (find_typing(final(hub).typing@, room_id@) matches Some(e)
                    && typing_last(e.entries@, user_id) == Some(now)))
                &&& (!is_typing ==> final(hub).typing@ == old(hub).typing@)
                &&& out.1@.len() == 0
                &&& out.0@.len() == 1
                &&& (out.0@[0] matches HubEffect::Publish {
                    channel,
                    frame: WsResponse::Typing { room_id: tr, user_id: tu, is_typing: ti, .. },
                } && channel@ == "chat:room:"@ + room_id@ && tr@ == room_id@ && tu == user_id && ti
                    == is_typing)
            })
        })),
        (msg is Ping ==> (*final(store) == *old(store) && *final(hub) == *old(hub) && out.0@.len()
            == 0 && out.1@.len() == 1 && out.1@[0] is Pong)),
{
    let mut effects: Vec<HubEffect> = Vec::new();
    let mut replies: Vec<WsResponse> = Vec::new();
    match msg {
        WsMessage::Message { room_id, content, message_type, metadata } => {
            let rc = hub.check_rate_limit(user_id, EventType::Message, now);
            proof {
                lemma_check_result_deterministic(
                    old(hub).limiter,
                    hub.limiter,
                    user_id,
                    EventType::Message,
                    now,
                    rc,
                );
            }
            match rc {
                Err(w) => {
                    replies.push(
                        WsResponse::RateLimitExceeded {
                            event_type: "message".to_owned(),
                            retry_after_ms: w,
                            message: "Bạn đang gửi tin nhắn quá nhanh. Vui lòng đợi giây lát.".to_owned(),
                        },
                    );
                },
                Ok(_) => {
                    if !store.is_member(&room_id, user_id) {
                        replies.push(
                            WsResponse::Error {
                                message: "Not a member of this room".to_owned(),
                            },
                        );
                    } else {
                        let msg_id = crate::ident::new_uuid();
                        let frame_id = msg_id.clone();
                        let rec = Message {
                            id: msg_id,
                            room_id: room_id.clone(),
                            sender_id: user_id,
                            content: content.clone(),
                            message_type: message_type.clone(),
                            metadata: match &metadata {
                                Some(md) => Some(md.clone()),
                                None => None,
                            },
                            created_at: now as i64,
                            updated_at: now as i64,
                        };
                        if store.post_message(rec).is_err() {
                            replies.push(
                                WsResponse::Error {
                                    message: "Failed to save message".to_owned(),
                                },
                            );
                        } else {
                            let sender_name = store.get_user_name(user_id);
                            let ms: i64 = now as i64;
                            proof {
                                assert(ms as int == now as int);
                            }
                            let created_str = crate::clock::format_rfc3339_millis(ms);
                            let updated_str = crate::clock::format_rfc3339_millis(ms);
                            effects.push(
                                HubEffect::Publish {
                                    channel: crate::text::room_channel(room_id.as_str()),
                                    frame: WsResponse::Message {
                                        id: frame_id,
                                        room_id: room_id.clone(),
                                        sender_id: user_id,
                                        sender_name,
                                        content,
                                        message_type,
                                        metadata,
                                        created_at: created_str,
                                    },
                                },
                            );
                            effects.push(
                                HubEffect::Publish {
                                    channel: crate::text::room_channel(room_id.as_str()),
                                    frame: WsResponse::RoomUpdated {
                                        room_id: room_id.clone(),
                                        last_message_at: updated_str,
                                    },
                                },
                            );
                            let targets = collect_active_others(store, &room_id, user_id);
                            let ghost store_after = *store;
                            let ghost base = effects@;
                            let tn = targets.len();
                            let mut k: usize = 0;
                            while k < tn
                                invariant
                                    tn == targets@.len(),
                                    0 <= k <= tn,
                                    store.wf(),
                                    *store == store_after,
                                    base.len() == 2,
                                    effects@.len() == 2 + k,
                                    effects@[0] == base[0],
                                    effects@[1] == base[1],
                                    targets@ == active_others(store.members@, room_id@, user_id),
                                    forall|m: int|
                                        0 <= m < k ==> ((#[trigger] effects@[2 + m])
                                            matches HubEffect::Publish {
                                            channel,
                                            frame: WsResponse::UnreadUpdated {
                                                room_id: rr,
                                                unread_count,
                                            },
                                        } && channel@ == "chat:user:"@ + dec_int(
                                            targets@[m] as int,
                                        ) && rr@ == room_id@ && unread_count == unread_spec(
                                            *store,
                                            room_id@,
                                            targets@[m],
                                        )),
                                decreases tn - k,
                            {
                                let target = targets[k];
                                let count = store.get_unread_count(&room_id, target);
                                proof {
                                    assert(unread_spec(*store, room_id@, target) == unread_spec(
                                        store_after,
                                        room_id@,
                                        target,
                                    ));
                                }
                                effects.push(
                                    HubEffect::Publish {
                                        channel: crate::text::user_channel(target),
                                        frame: WsResponse::UnreadUpdated {
                                            room_id: room_id.clone(),
                                            unread_count: count,
                                        },
                                    },
                                );
                                k = k + 1;
                            }
                        }
                    }
                },
            }
        },
        WsMessage::JoinRoom { room_id } => {
            let rc = hub.check_rate_limit(user_id, EventType::RoomAction, now);
            proof {
                lemma_check_result_deterministic(
                    old(hub).limiter,
                    hub.limiter,
                    user_id,
                    EventType::RoomAction,
                    now,
                    rc,
                );
            }
            match rc {
                Err(w) => {
                    replies.push(
                        WsResponse::RateLimitExceeded {
                            event_type: "room_action".to_owned(),
                            retry_after_ms: w,
                            message: "Bạn đang thực hiện hành động quá nhanh. Vui lòng đợi giây lát.".to_owned(),
                        },
                    );
                },
                Ok(_) => {
                    if !store.is_member(&room_id, user_id) {
                        replies.push(
                            WsResponse::Error {
                                message: "Not a member of this room".to_owned(),
                            },
                        );
                    } else {
                        effects = hub.join_room(user_id, &room_id);
                    }
                },
            }
        },
        WsMessage::LeaveRoom { room_id } => {
            effects = hub.leave_room(user_id, &room_id);
        },
        WsMessage::Typing { room_id, is_typing } => {
            let rc = hub.check_rate_limit(user_id, EventType::Typing, now);
            proof {
                lemma_check_result_deterministic(
                    old(hub).limiter,
                    hub.limiter,
                    user_id,
                    EventType::Typing,
                    now,
                    rc,
                );
            }
            if rc.is_ok() {
                if is_typing {
                    hub.user_typing(user_id, &room_id, now);
                }
                effects = hub.broadcast_to_room(
                    &room_id,
                    WsResponse::Typing {
                        room_id: room_id.clone(),
                        user_id,
                        user_name: None,
                        is_typing,
                    },
                    Some(user_id),
                );
            }
        },
        WsMessage::Ping => {
            replies.push(WsResponse::Pong);
        },
    }
    (effects, replies)
}

} // verus!
