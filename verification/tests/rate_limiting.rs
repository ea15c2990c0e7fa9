//! Token-bucket behaviour: bursts, refills, per-user and per-event
//! isolation, and the retry-after promise at the socket.

use chat_core::ratelimit::EventType;
use chat_core::ratelimit::RateLimiter;
use chat_core::ratelimit::TokenBucket;

#[test]
fn test_token_bucket_burst() {
    let mut bucket = TokenBucket::new(10000, 1000, 0);

    for _ in 0..10 {
        assert!(bucket.try_consume(1000, 0).is_ok());
    }

    assert!(bucket.try_consume(1000, 0).is_err());
}

#[test]
fn test_token_bucket_refill() {
    let mut bucket = TokenBucket::new(10000, 1000, 0);

    for _ in 0..10 {
        bucket.try_consume(1000, 0).unwrap();
    }

    // 2100 ms later the bucket holds ~2 tokens again.
    assert!(bucket.try_consume(1000, 2100).is_ok());
    assert!(bucket.try_consume(1000, 2100).is_ok());
    assert!(bucket.try_consume(1000, 2100).is_err());
}

#[test]
fn test_rate_limiter_per_user() {
    let mut limiter = RateLimiter::new();

    for _ in 0..10 {
        assert!(limiter.check_rate_limit(1, EventType::Message, 0).is_ok());
    }
    assert!(limiter.check_rate_limit(1, EventType::Message, 0).is_err());

    for _ in 0..10 {
        assert!(limiter.check_rate_limit(2, EventType::Message, 0).is_ok());
    }
}

#[test]
fn test_rate_limiter_per_event_type() {
    let mut limiter = RateLimiter::new();

    for _ in 0..10 {
        assert!(limiter.check_rate_limit(1, EventType::Message, 0).is_ok());
    }
    assert!(limiter.check_rate_limit(1, EventType::Message, 0).is_err());

    for _ in 0..5 {
        assert!(limiter.check_rate_limit(1, EventType::Typing, 0).is_ok());
    }
}

#[test]
fn test_rate_limit_retry_after() {
    // Ten messages in one burst pass, the eleventh is refused with a
    // one-second wait, and a message sent exactly that much later passes.
    let mut limiter = RateLimiter::new();
    for _ in 0..10 {
        assert!(limiter.check_rate_limit(7, EventType::Message, 50).is_ok());
    }
    let wait = match limiter.check_rate_limit(7, EventType::Message, 100) {
        Err(w) => w,
        Ok(()) => panic!("eleventh burst message must be refused"),
    };
    // 50 ms already elapsed since the burst, so 950 ms remain
    assert_eq!(wait, 950);
    assert!(limiter.check_rate_limit(7, EventType::Message, 100 + wait).is_ok());
}

#[test]
fn test_cleanup_old_users() {
    let mut limiter = RateLimiter::new();
    limiter.check_rate_limit(1, EventType::Message, 0).unwrap();
    limiter.check_rate_limit(2, EventType::Message, 0).unwrap();
    let active = vec![2i64];
    limiter.cleanup_old_users(&active);
    // user 1's bucket is gone: a fresh full bucket lets a burst through
    for _ in 0..10 {
        assert!(limiter.check_rate_limit(1, EventType::Message, 1).is_ok());
    }
    // user 2's bucket survived: only nine tokens are left
    for _ in 0..9 {
        assert!(limiter.check_rate_limit(2, EventType::Message, 1).is_ok());
    }
    assert!(limiter.check_rate_limit(2, EventType::Message, 1).is_err());
}

#[test]
fn test_http_rate_check() {
    // The shared-store limiter consumes from the stored state and
    // reports what to write back.
    let (b1, r1) = chat_core::ratelimit::http_rate_check(None, 2000, 1000, 0);
    assert!(r1.is_ok());
    let (b2, r2) = chat_core::ratelimit::http_rate_check(Some(b1), 2000, 1000, 0);
    assert!(r2.is_ok());
    let (b3, r3) = chat_core::ratelimit::http_rate_check(Some(b2), 2000, 1000, 0);
    assert_eq!(r3, Err(1000));
    let (_b4, r4) = chat_core::ratelimit::http_rate_check(Some(b3), 2000, 1000, 1000);
    assert!(r4.is_ok());
}

#[test]
fn test_http_rate_verdict_fail_open() {
    // A store failure must not black-hole requests: the verdict is
    // allow, and nothing is written back.
    let (write_back, verdict) = chat_core::ratelimit::http_rate_verdict(Err(()), 2000, 1000, 0);
    assert!(write_back.is_none());
    assert!(verdict.is_ok());

    let (b1, r1) = chat_core::ratelimit::http_rate_verdict(Ok(None), 2000, 1000, 0);
    assert!(r1.is_ok());
    let (b2, r2) = chat_core::ratelimit::http_rate_verdict(Ok(Some(b1.unwrap())), 2000, 1000, 0);
    assert!(r2.is_ok());
    let (_b3, r3) = chat_core::ratelimit::http_rate_verdict(Ok(Some(b2.unwrap())), 2000, 1000, 0);
    assert_eq!(r3, Err(1000));
}
