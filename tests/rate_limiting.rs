use tmdb2seer::RateLimiter;

#[test]
fn burst_then_refill_at_rate() {
    let mut limiter = RateLimiter::new(10, 20);
    for _ in 0..20 {
        assert!(limiter.is_allowed("10.0.0.1".to_string(), 0));
    }
    assert!(!limiter.is_allowed("10.0.0.1".to_string(), 0));
    let mut admitted = 0;
    for _ in 0..15 {
        if limiter.is_allowed("10.0.0.1".to_string(), 1000) {
            admitted += 1;
        }
    }
    assert_eq!(admitted, 10);
}

#[test]
fn clients_have_separate_buckets() {
    let mut limiter = RateLimiter::new(1, 2);
    assert!(limiter.is_allowed("a".to_string(), 0));
    assert!(limiter.is_allowed("a".to_string(), 0));
    assert!(!limiter.is_allowed("a".to_string(), 0));
    assert!(limiter.is_allowed("b".to_string(), 0));
    assert!(limiter.is_allowed("unknown".to_string(), 0));
}

#[test]
fn refill_is_continuous_and_capped() {
    let mut limiter = RateLimiter::new(2, 3);
    for _ in 0..3 {
        assert!(limiter.is_allowed("c".to_string(), 0));
    }
    assert!(!limiter.is_allowed("c".to_string(), 0));
    // half a second at two per second: one token
    assert!(limiter.is_allowed("c".to_string(), 500));
    assert!(!limiter.is_allowed("c".to_string(), 500));
    // a long wait fills the bucket only up to the burst size
    for _ in 0..3 {
        assert!(limiter.is_allowed("c".to_string(), 1_000_000));
    }
    assert!(!limiter.is_allowed("c".to_string(), 1_000_000));
}

#[test]
fn zero_burst_admits_nothing() {
    let mut limiter = RateLimiter::new(100, 0);
    assert!(!limiter.is_allowed("d".to_string(), 0));
    assert!(!limiter.is_allowed("d".to_string(), 10_000));
}
