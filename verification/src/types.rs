//! The value types shared across the services: configuration, the
//! common error taxonomy, user records and request/response bodies, and
//! the payment-gateway data the edge services exchange. Timestamps are
//! unix milliseconds; the HTTP layer renders them.

use vstd::prelude::*;

verus! {

use vstd::string::StringExecFns;
use crate::text::str_eq;
use crate::text::dec_digits;

/// Service configuration, read from the environment at boot. A missing
/// shared secret is a fatal configuration error at boot, never a
/// silent fallback.
#[derive(Debug)]
pub struct AppConfig {
    pub service_name: String,
    pub server_host: String,
    pub server_port: u16,
    pub database_url: String,
    pub log_level: String,
}

impl AppConfig {
    /// The `host:port` address the server binds.
    pub fn server_address(&self) -> (r: String)
        ensures
            r@ == self.server_host@ + ":"@ + dec_digits(self.server_port as int),
    {
        let mut s = self.server_host.clone();
        s.append(":");
        crate::text::append_dec_u64(&mut s, self.server_port as u64);
        proof {
            assert(s@ =~= self.server_host@ + ":"@ + dec_digits(self.server_port as int));
        }
        s
    }
}

/// The common error taxonomy of the services.
#[derive(Debug)]
pub enum AppError {
    Database(String),
    NotFound(String),
    Validation(String),
    Unauthorized,
    Internal,
}

impl AppError {
    /// The error text, as the services log and return it.
    pub fn describe(&self) -> (r: String)
        ensures
            self matches AppError::Database(d) ==> r@ == "Database error: "@ + d@,
            self matches AppError::NotFound(d) ==> r@ == "Not found: "@ + d@,
            self matches AppError::Validation(d) ==> r@ == "Validation error: "@ + d@,
            self is Unauthorized ==> r@ == "Unauthorized"@,
            self is Internal ==> r@ == "Internal server error"@,
    {
        match self {
            AppError::Database(d) => {
                let mut s = "Database error: ".to_owned();
                s.append(d.as_str());
                proof {
                    assert(s@ =~= "Database error: "@ + d@);
                }
                s
            },
            AppError::NotFound(d) => {
                let mut s = "Not found: ".to_owned();
                s.append(d.as_str());
                proof {
                    assert(s@ =~= "Not found: "@ + d@);
                }
                s
            },
            AppError::Validation(d) => {
                let mut s = "Validation error: ".to_owned();
                s.append(d.as_str());
                proof {
                    assert(s@ =~= "Validation error: "@ + d@);
                }
                s
            },
            AppError::Unauthorized => "Unauthorized".to_owned(),
            AppError::Internal => "Internal server error".to_owned(),
        }
    }
}

/// A user as the user service hands it out.
#[derive(Debug)]
pub struct UserDto {
    pub id: i32,
    pub name: String,
    pub email: String,
}

/// Body of a user-creation request.
#[derive(Debug)]
pub struct CreateUserRequest {
    pub name: String,
    pub email: String,
}

/// Envelope of a single-user response.
#[derive(Debug)]
pub struct UserResponse {
    pub user: UserDto,
}

/// Body of an account registration.
#[derive(Debug)]
pub struct RegisterRequest {
    pub name: String,
    pub email: String,
    pub password: String,
}

/// Body of a login.
#[derive(Debug)]
pub struct LoginRequest {
    pub email: String,
    pub password: String,
}

/// A stored account row; the password field holds the hash.
#[derive(Debug)]
pub struct User {
    pub id: i32,
    pub name: String,
    pub email: String,
    pub password: String,
}

/// The public face of an account: everything but the password hash.
#[derive(Debug)]
pub struct UserPublic {
    pub id: i32,
    pub name: String,
    pub email: String,
}

impl From<User> for UserPublic {
    /// Drop the password hash, keep the identity.
    fn from(user: User) -> (r: UserPublic) {
        UserPublic { id: user.id, name: user.name, email: user.email }
    }
}

impl vstd::std_specs::convert::FromSpecImpl<User> for UserPublic {
    open spec fn obeys_from_spec() -> bool {
        true
    }

    open spec fn from_spec(user: User) -> UserPublic {
        UserPublic { id: user.id, name: user.name, email: user.email }
    }
}

/// What a successful registration or login returns.
#[derive(Debug)]
pub struct AuthResponse {
    pub token: String,
    pub user: UserPublic,
}

/// The liveness report of the chat service.
#[derive(Debug)]
pub struct HealthResponse {
    pub status: String,
    pub service: String,
    pub instance: String,
    pub version: String,
    pub database: String,
    pub redis: String,
    pub websocket_connections: u64,
}

/// Assemble the liveness report from what the probes saw.
pub fn health_response(db_ok: bool, ws_count: u64, instance: String, version: String) -> (r:
    HealthResponse)
    ensures
        db_ok ==> r.status@ == "healthy"@ && r.database@ == "healthy"@,
        !db_ok ==> r.status@ == "degraded"@ && r.database@ == "unhealthy"@,
        r.service@ == "chat-service"@,
        r.redis@ == "not-checked"@,
        r.websocket_connections == ws_count,
        r.instance@ == instance@,
        r.version@ == version@,
{
    HealthResponse {
        status: if db_ok {
            "healthy".to_owned()
        } else {
            "degraded".to_owned()
        },
        service: "chat-service".to_owned(),
        instance,
        version,
        database: if db_ok {
            "healthy".to_owned()
        } else {
            "unhealthy".to_owned()
        },
        redis: "not-checked".to_owned(),
        websocket_connections: ws_count,
    }
}

/// Query parameters of the message-history endpoint.
#[derive(Debug)]
pub struct GetMessagesQuery {
    pub limit: Option<i64>,
    pub before_id: Option<String>,
}

/// Body of a room creation.
#[derive(Debug)]
pub struct CreateRoomRequest {
    pub name: Option<String>,
    pub room_type: String,
    pub member_ids: Vec<i64>,
}

/// Body of a find-or-create direct room request.
#[derive(Debug)]
pub struct CreateDirectRoomRequest {
    pub other_user_id: i64,
}

/// One member in a room response.
#[derive(Debug)]
pub struct RoomMemberResponse {
    pub user_id: i64,
    pub role: String,
    pub joined_at: i64,
    pub user_name: Option<String>,
    pub user_email: Option<String>,
}

/// A room as the control plane returns it.
#[derive(Debug)]
pub struct RoomResponse {
    pub id: String,
    pub name: Option<String>,
    pub room_type: String,
    pub created_by: i64,
    pub members: Vec<RoomMemberResponse>,
    pub created_at: i64,
    pub last_message_at: Option<i64>,
    pub unread_count: Option<i64>,
}

/// Envelope of a successful invitation acceptance.
#[derive(Debug)]
pub struct AcceptInvitationResponse {
    pub room: RoomResponse,
}

/// The lifecycle of a payment.
#[derive(Clone, Copy, Debug, PartialEq, Eq, Structural)]
pub enum PaymentStatus {
    Pending,
    Succeeded,
    Failed,
    Canceled,
}

impl PaymentStatus {
    /// The wire name of the status.
    pub fn as_str(&self) -> (r: &'static str)
        ensures
            self is Pending ==> r@ == "pending"@,
            self is Succeeded ==> r@ == "succeeded"@,
            self is Failed ==> r@ == "failed"@,
            self is Canceled ==> r@ == "canceled"@,
    {
        match self {
            PaymentStatus::Pending => "pending",
            PaymentStatus::Succeeded => "succeeded",
            PaymentStatus::Failed => "failed",
            PaymentStatus::Canceled => "canceled",
        }
    }
}

impl From<String> for PaymentStatus {
    /// Parse a stored status; anything unrecognized reads as pending.
    fn from(s: String) -> (r: PaymentStatus) {
        if str_eq(s.as_str(), "succeeded") {
            PaymentStatus::Succeeded
        } else if str_eq(s.as_str(), "failed") {
            PaymentStatus::Failed
        } else if str_eq(s.as_str(), "canceled") {
            PaymentStatus::Canceled
        } else {
            PaymentStatus::Pending
        }
    }
}

impl vstd::std_specs::convert::FromSpecImpl<String> for PaymentStatus {
    open spec fn obeys_from_spec() -> bool {
        true
    }

    open spec fn from_spec(s: String) -> PaymentStatus {
        if s@ == "succeeded"@ {
            PaymentStatus::Succeeded
        } else if s@ == "failed"@ {
            PaymentStatus::Failed
        } else if s@ == "canceled"@ {
            PaymentStatus::Canceled
        } else {
            PaymentStatus::Pending
        }
    }
}

/// Body of a payment-intent creation at the gateway's client.
#[derive(Debug)]
pub struct CreatePaymentIntentRequest {
    pub amount: i64,
    pub currency: String,
}

/// A payment intent as the processor describes it.
#[derive(Debug)]
pub struct PaymentIntent {
    pub id: String,
    pub client_secret: String,
    pub amount: i64,
    pub currency: String,
    pub status: String,
}

} // verus!
