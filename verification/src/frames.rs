//! The WebSocket frame vocabulary: client-to-server messages and
//! server-to-client responses. Every frame travels as a JSON object with a
//! `type` discriminator; the JSON encoding and decoding live outside the
//! library, which works on these typed values. Timestamps travel as
//! RFC 3339 strings and metadata as raw JSON text.

use vstd::prelude::*;

verus! {

/// A frame sent by the client over the socket.
#[derive(Debug)]
pub enum WsMessage {
    Message { room_id: String, content: String, message_type: String, metadata: Option<String> },
    JoinRoom { room_id: String },
    LeaveRoom { room_id: String },
    Typing { room_id: String, is_typing: bool },
    Ping,
}

/// A frame pushed to the client over the socket.
#[derive(Debug)]
#[allow(inconsistent_fields)]
pub enum WsResponse {
    Message {
        id: String,
        room_id: String,
        sender_id: i64,
        sender_name: Option<String>,
        content: String,
        message_type: String,
        metadata: Option<String>,
        created_at: String,
    },
    Typing { room_id: String, user_id: i64, user_name: Option<String>, is_typing: bool },
    Joined { room_id: String },
    Left { room_id: String },
    RoomCreated { room_id: String, room_name: Option<String>, room_type: String },
    InvitationReceived {
        invitation_id: i64,
        room_id: String,
        room_name: Option<String>,
        invited_by: i64,
        invited_by_name: String,
    },
    MemberJoined { room_id: String, user_id: i64, user_name: String },
    MemberLeft { room_id: String, user_id: i64, user_name: String },
    RoomUpdated { room_id: String, last_message_at: String },
    UnreadUpdated { room_id: String, unread_count: i64 },
    UserOnline { user_id: i64, user_name: String },
    UserOffline { user_id: i64 },
    RoomPresence { room_id: String, online_users: Vec<i64> },
    ConnectionReplaced { message: String },
    RateLimitExceeded { event_type: String, retry_after_ms: u64, message: String },
    Error { message: String },
    Pong,
}

} // verus!
