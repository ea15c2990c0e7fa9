//! The chat core: a verified model of the real-time chat service — the
//! presence hub and its fan-out, the socket and HTTP rate limiters, the
//! room, message and invitation store with its soft-state rules, the
//! session dispatch, the pub/sub bridge routing, and the bearer-token
//! and API-key gates. The processes around it — sockets, the bus, the
//! database — hand plain values in and perform the returned effects.

pub mod auth;
pub mod bridge;
pub mod clock;
pub mod frames;
pub mod handlers;
pub mod hub;
pub mod ident;
pub mod ratelimit;
pub mod session;
pub mod store;
pub mod text;
pub mod types;
