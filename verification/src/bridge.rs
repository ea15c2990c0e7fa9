//! The pub/sub bridge's routing decision: which hub operation an inbound
//! bus message maps to. Messages on a room channel re-enter through the
//! local-only fan-out — the single local delivery point — and messages
//! on a user channel go to that user's local sessions.

use vstd::prelude::*;

verus! {

use vstd::string::StrSliceExecFns;
use crate::text::parse_i64_ok;
use crate::text::parse_i64_val;
use crate::text::parse_i64_decimal;

/// Where one bus message is dispatched.
#[derive(Debug)]
pub enum BusRoute {
    /// Fan out locally to the subscribers of the room.
    Room { room_id: String },
    /// Deliver to the user's local sessions.
    User { user_id: i64 },
    /// Not a chat channel; ignored.
    Other,
}

/// Route one inbound channel name: `chat:room:{id}` fans out to the
/// room, `chat:user:{id}` with a numeric suffix goes to the user, and
/// everything else is ignored.
pub fn route_channel(channel: &str) -> (r: BusRoute)
    ensures
        ({
            let c = channel@;
            let is_room = c.len() >= 10 && c.subrange(0, 10) == "chat:room:"@;
            let is_user = c.len() >= 10 && c.subrange(0, 10) == "chat:user:"@;
            let suffix = c.subrange(10, c.len() as int);
            &&& (is_room ==> (r matches BusRoute::Room { room_id } && room_id@ == suffix))
            &&& (!is_room && is_user && parse_i64_ok(suffix) ==> (r matches BusRoute::User {
                user_id,
            } && user_id == parse_i64_val(suffix)))
            &&& (!is_room && is_user && !parse_i64_ok(suffix) ==> r is Other)
            &&& (!is_room && !is_user ==> r is Other)
        }),
{
    proof {
        reveal_strlit("chat:room:");
        reveal_strlit("chat:user:");
    }
    if crate::text::str_has_prefix(channel, "chat:room:") {
        let n = channel.unicode_len();
        let room_id = channel.substring_char(10, n).to_owned();
        proof {
            assert(room_id@ =~= channel@.subrange(10, channel@.len() as int));
        }
        BusRoute::Room { room_id }
    } else if crate::text::str_has_prefix(channel, "chat:user:") {
        let n = channel.unicode_len();
        let suffix = channel.substring_char(10, n);
        proof {
            assert(suffix@ =~= channel@.subrange(10, channel@.len() as int));
        }
        match parse_i64_decimal(suffix) {
            Some(user_id) => BusRoute::User { user_id },
            None => BusRoute::Other,
        }
    } else {
        BusRoute::Other
    }
}

} // verus!
