//! Text rendering and parsing, the key and channel builders, timestamp
//! rendering, the bearer-token and API-key gates.

use chat_core::auth::ApiKeyAuth;
use chat_core::auth::AuthError;
use chat_core::auth::AuthMiddleware;
use chat_core::auth::JwtValidator;
use chat_core::auth::RatePrincipal;
use chat_core::auth::rate_principal;
use chat_core::clock;
use chat_core::text;
use chat_core::types;
use chat_core::types::PaymentStatus;

#[test]
fn test_decimal_rendering() {
    assert_eq!(text::u64_to_string(0), "0");
    assert_eq!(text::u64_to_string(907), "907");
    assert_eq!(text::i64_to_string(-123), "-123");
    assert_eq!(text::i64_to_string(i64::MIN), "-9223372036854775808");
}

#[test]
fn test_decimal_parsing() {
    assert_eq!(text::parse_u64_decimal("907", u64::MAX), Some(907));
    assert_eq!(text::parse_u64_decimal("", u64::MAX), None);
    assert_eq!(text::parse_u64_decimal("12x", u64::MAX), None);
    assert_eq!(text::parse_u64_decimal("300", 299), None);
    assert_eq!(text::parse_i64_decimal("-42"), Some(-42));
    assert_eq!(text::parse_i64_decimal("-"), None);
    assert_eq!(text::parse_i64_decimal("9223372036854775807"), Some(i64::MAX));
    assert_eq!(text::parse_i64_decimal("-9223372036854775808"), Some(i64::MIN));
    assert_eq!(text::parse_i64_decimal("9223372036854775808"), None);
}

#[test]
fn test_string_order_and_prefix() {
    assert!(text::str_lt("abc", "abd"));
    assert!(text::str_lt("ab", "abc"));
    assert!(!text::str_lt("abc", "abc"));
    assert!(!text::str_lt("b", "abc"));
    assert!(text::str_has_prefix("token=xyz", "token="));
    assert!(!text::str_has_prefix("toke", "token="));
}

#[test]
fn test_keys_and_channels() {
    assert_eq!(text::payment_cache_key("p-1"), "payment:p-1");
    assert_eq!(text::user_cache_key(7), "user:7");
    assert_eq!(text::rate_limit_key(7, "login"), "rate_limit:7:login");
    assert_eq!(text::last_seen_key(7), "user:7:last_seen");
    assert_eq!(text::room_channel("r-1"), "chat:room:r-1");
    assert_eq!(text::user_channel(42), "chat:user:42");
    assert_eq!(text::http_bucket_key(7, "/api/pay"), "rate_limit:token_bucket:7:/api/pay");
}

#[test]
fn test_split_and_query_token() {
    let segs = text::split_on("a=1&token=abc&b=2", '&');
    assert_eq!(segs, vec!["a=1", "token=abc", "b=2"]);
    assert_eq!(text::find_query_token(&segs), Some("abc".to_string()));
    let none = text::split_on("a=1&b=2", '&');
    assert_eq!(text::find_query_token(&none), None);
    assert_eq!(text::split_on("", ','), vec![""]);
    assert_eq!(text::split_on("k1,k2", ','), vec!["k1", "k2"]);
}

#[test]
fn test_rfc3339_rendering() {
    assert_eq!(clock::format_rfc3339_millis(0), "1970-01-01T00:00:00+00:00");
    assert_eq!(clock::format_rfc3339_millis(1500), "1970-01-01T00:00:01.500+00:00");
}

fn make_token(secret: &str, sub: &str, user_id: i64, exp: i64) -> String {
    let mut claims = serde_json::Map::new();
    claims.insert("sub".to_string(), serde_json::Value::String(sub.to_string()));
    claims.insert("user_id".to_string(), serde_json::Value::from(user_id));
    claims.insert("exp".to_string(), serde_json::Value::from(exp));
    jsonwebtoken::encode(
        &jsonwebtoken::Header::default(),
        &serde_json::Value::Object(claims),
        &jsonwebtoken::EncodingKey::from_secret(secret.as_bytes()),
    )
    .unwrap()
}

#[test]
fn test_jwt_verify_roundtrip() {
    let secret = "test-secret";
    let far_future = 4102444800; // seconds
    let token = make_token(secret, "alice@example.com", 7, far_future);
    let validator = JwtValidator::new(secret.to_string());
    let claims = validator.verify_token(&token).unwrap();
    assert_eq!(claims.sub, "alice@example.com");
    assert_eq!(claims.user_id, 7);
    assert_eq!(claims.exp, far_future);

    // wrong secret, tampered token, expired token: all refused
    assert!(validator.verify_token("junk.junk.junk").is_err());
    let other = JwtValidator::new("other-secret".to_string());
    assert!(other.verify_token(&token).is_err());
    let expired = make_token(secret, "alice@example.com", 7, 1000);
    assert!(validator.verify_token(&expired).is_err());
}

#[test]
fn test_auth_middleware_header_parsing() {
    let mw = AuthMiddleware::new("test-secret".to_string());
    assert_eq!(mw.authorize(None).unwrap_err(), AuthError::MissingHeader);
    assert_eq!(mw.authorize(Some("Token abc")).unwrap_err(), AuthError::InvalidFormat);
    assert_eq!(mw.authorize(Some("Bearer junk")).unwrap_err(), AuthError::InvalidToken);
    let token = make_token("test-secret", "a@b.c", 3, 4102444800);
    let header = format!("Bearer {}", token);
    let claims = mw.authorize(Some(header.as_str())).unwrap();
    assert_eq!(claims.user_id, 3);
}

#[test]
fn test_api_key_gate() {
    let keys = text::split_on("k1,k2", ',');
    let gate = ApiKeyAuth::new(keys);
    assert!(gate.check("/health", None));
    assert!(gate.check("/api/users", Some("k1")));
    assert!(gate.check("/api/users", Some("k2")));
    assert!(!gate.check("/api/users", Some("k3")));
    assert!(!gate.check("/api/users", None));
}

#[test]
fn test_server_address_and_health() {
    let cfg = types::AppConfig {
        service_name: "chat".to_string(),
        server_host: "0.0.0.0".to_string(),
        server_port: 8084,
        database_url: "mysql://localhost/chat".to_string(),
        log_level: "info".to_string(),
    };
    assert_eq!(cfg.server_address(), "0.0.0.0:8084");

    let health = types::health_response(true, 3, "chat-1".to_string(), "0.1.0".to_string());
    assert_eq!(health.status, "healthy");
    assert_eq!(health.database, "healthy");
    assert_eq!(health.service, "chat-service");
    assert_eq!(health.websocket_connections, 3);
    let sick = types::health_response(false, 0, "chat-1".to_string(), "0.1.0".to_string());
    assert_eq!(sick.status, "degraded");
    assert_eq!(sick.database, "unhealthy");
}

#[test]
fn test_payment_status_and_errors() {
    assert_eq!(PaymentStatus::Succeeded.as_str(), "succeeded");
    assert_eq!(PaymentStatus::from("succeeded".to_string()), PaymentStatus::Succeeded);
    assert_eq!(PaymentStatus::from("failed".to_string()), PaymentStatus::Failed);
    assert_eq!(PaymentStatus::from("canceled".to_string()), PaymentStatus::Canceled);
    assert_eq!(PaymentStatus::from("whatever".to_string()), PaymentStatus::Pending);

    let e = types::AppError::Database("timeout".to_string());
    assert_eq!(e.describe(), "Database error: timeout");
    assert_eq!(types::AppError::Unauthorized.describe(), "Unauthorized");

    let u = types::User {
        id: 5,
        name: "Alice".to_string(),
        email: "a@b.c".to_string(),
        password: "hash".to_string(),
    };
    let p = types::UserPublic::from(u);
    assert_eq!(p.id, 5);
    assert_eq!(p.name, "Alice");
}

#[test]
fn test_rate_principal_selection() {
    assert!(matches!(
        rate_principal(Some(7), Some("1.2.3.4"), None, None),
        RatePrincipal::User(7)
    ));
    assert!(matches!(
        rate_principal(None, Some("1.2.3.4"), Some("9.9.9.9, 8.8.8.8"), None),
        RatePrincipal::Ip(ip) if ip == "1.2.3.4"
    ));
    assert!(matches!(
        rate_principal(None, None, Some("9.9.9.9,8.8.8.8"), Some("127.0.0.1")),
        RatePrincipal::Ip(ip) if ip == "9.9.9.9"
    ));
    assert!(matches!(
        rate_principal(None, None, None, Some("127.0.0.1:9000")),
        RatePrincipal::Ip(ip) if ip == "127.0.0.1:9000"
    ));
    assert!(matches!(rate_principal(None, None, None, None), RatePrincipal::User(0)));
}

#[test]
fn test_jwt_missing_claims_rejected() {
    // A correctly signed token missing a claim is refused, never
    // defaulted to user zero.
    let secret = "test-secret";
    let mut claims = serde_json::Map::new();
    claims.insert("sub".to_string(), serde_json::Value::String("a@b.c".to_string()));
    claims.insert("exp".to_string(), serde_json::Value::from(4102444800i64));
    // no user_id claim
    let token = jsonwebtoken::encode(
        &jsonwebtoken::Header::default(),
        &serde_json::Value::Object(claims),
        &jsonwebtoken::EncodingKey::from_secret(secret.as_bytes()),
    )
    .unwrap();
    let validator = JwtValidator::new(secret.to_string());
    assert_eq!(validator.verify_token(&token).unwrap_err(), AuthError::InvalidToken);
}

#[test]
fn test_upgrade_claims_precedence() {
    // Header-attached claims win; else the query token is verified;
    // with neither the upgrade is refused.
    let validator = JwtValidator::new("test-secret".to_string());
    let attached = chat_core::auth::Claims { sub: "x@y.z".to_string(), user_id: 9, exp: 1 };
    let from_header =
        chat_core::auth::upgrade_claims(&validator, Some(attached), "token=ignored").unwrap();
    assert_eq!(from_header.user_id, 9);

    let token = make_token("test-secret", "a@b.c", 4, 4102444800);
    let query = format!("a=1&token={}", token);
    let from_query = chat_core::auth::upgrade_claims(&validator, None, &query).unwrap();
    assert_eq!(from_query.user_id, 4);

    assert_eq!(
        chat_core::auth::upgrade_claims(&validator, None, "a=1&b=2").unwrap_err(),
        AuthError::MissingToken
    );
}
