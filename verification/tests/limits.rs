use hls_vod::limits::{ClientAddr, ConnectionLimiter, RateLimitConfig, RateLimiter, TokenBucket};

fn addr(d: u8) -> ClientAddr {
    ClientAddr::v4(127, 0, 0, d, 8080)
}

#[test]
fn test_token_bucket() {
    let mut bucket = TokenBucket::new(10, 5);
    for _ in 0..10 {
        assert!(bucket.try_consume());
    }
    assert!(!bucket.try_consume());
}

#[test]
fn test_rate_limiter() {
    let mut limiter = RateLimiter::new(RateLimitConfig { requests_per_second: 10, burst_size: 5 });
    let ip = addr(1);
    for _ in 0..5 {
        assert!(limiter.is_allowed(ip));
    }
    assert!(!limiter.is_allowed(ip));
}

#[test]
fn test_connection_limiter() {
    let mut limiter = ConnectionLimiter::new(5, 10);
    let ip = addr(1);
    for _ in 0..5 {
        assert!(limiter.try_acquire(ip));
    }
    assert!(!limiter.try_acquire(ip));
    limiter.release(ip);
    assert!(limiter.try_acquire(ip));
}

#[test]
fn test_connection_limiter_total() {
    let mut limiter = ConnectionLimiter::new(5, 3);
    assert!(limiter.try_acquire(addr(1)));
    assert!(limiter.try_acquire(addr(2)));
    assert!(limiter.try_acquire(addr(3)));
    assert!(!limiter.try_acquire(addr(4)));
}

#[test]
fn refill_adds_earned_tokens_up_to_size() {
    let mut bucket = TokenBucket::new(10, 5);
    bucket.tokens = 0;
    bucket.refill_by(1_000_000_000);
    assert_eq!(bucket.tokens, 5);
    bucket.refill_by(400_000_000);
    assert_eq!(bucket.tokens, 7);
    bucket.refill_by(10_000_000_000);
    assert_eq!(bucket.tokens, 10);
}

#[test]
fn refill_keeps_fractions_of_tokens() {
    let mut bucket = TokenBucket::new(10, 5);
    bucket.tokens = 0;
    let mut passed = 0;
    for _ in 0..20 {
        if bucket.try_consume_after(100_000_000) {
            passed += 1;
        }
    }
    assert_eq!(passed, 10);
    bucket.refill_by(300_000_000);
    assert_eq!((bucket.tokens, bucket.fraction), (1, 500_000_000));
    bucket.refill_by(300_000_000);
    assert_eq!((bucket.tokens, bucket.fraction), (3, 0));
    bucket.refill_by(100_000_000_000);
    assert_eq!((bucket.tokens, bucket.fraction), (10, 0));
}

#[test]
fn consume_after_time() {
    let mut bucket = TokenBucket::new(2, 1);
    assert!(bucket.try_consume_after(0));
    assert!(bucket.try_consume_after(0));
    assert!(!bucket.try_consume_after(0));
    assert!(bucket.try_consume_after(1_000_000_000));
    assert_eq!(bucket.tokens, 0);
}

#[test]
fn release_undoes_acquire() {
    let mut limiter = ConnectionLimiter::new(2, 4);
    assert!(limiter.try_acquire(addr(1)));
    assert_eq!(limiter.connection_count(), 1);
    limiter.release(addr(1));
    assert_eq!(limiter.connection_count(), 0);
    assert!(limiter.connections.is_empty());
    limiter.release(addr(9));
    assert_eq!(limiter.connection_count(), 0);
}

#[test]
fn zero_per_client_limit_refuses() {
    let mut limiter = ConnectionLimiter::new(0, 4);
    assert!(!limiter.try_acquire(addr(1)));
    assert_eq!(limiter.connection_count(), 0);
}

#[test]
fn clients_have_separate_buckets() {
    let mut limiter = RateLimiter::new(RateLimitConfig { requests_per_second: 1, burst_size: 1 });
    assert!(limiter.is_allowed(addr(1)));
    assert!(!limiter.is_allowed(addr(1)));
    assert!(limiter.is_allowed(addr(2)));
    assert_eq!(limiter.limiters.len(), 2);
    limiter.cleanup(std::time::Duration::from_secs(3600));
    assert_eq!(limiter.limiters.len(), 2);
    limiter.cleanup(std::time::Duration::from_secs(0));
    assert_eq!(limiter.limiters.len(), 0);
}

#[test]
fn default_rate_limits() {
    let c = RateLimitConfig::default();
    assert_eq!((c.requests_per_second, c.burst_size), (100, 50));
}

#[test]
fn takes_through_the_clock_keep_the_bucket_sane() {
    let mut bucket = TokenBucket::new(3, 1);
    assert!(bucket.try_consume());
    assert!(bucket.try_consume());
    assert!(bucket.try_consume());
    assert!(!bucket.try_consume());
    assert!(bucket.nanos_since_refill() < 1_000_000_000);
}
