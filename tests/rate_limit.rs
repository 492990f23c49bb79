use gh_proxy::rate_limit::RateLimiter;

#[test]
fn quota_holds_within_one_window() {
    let mut l = RateLimiter::new(true, 3);
    assert!(l.is_allowed_at("k", 100));
    assert!(l.is_allowed_at("k", 110));
    assert!(l.is_allowed_at("k", 159));
    assert!(!l.is_allowed_at("k", 159));
    assert!(l.is_allowed_at("other", 159));
    assert!(l.is_allowed_at("k", 160));
    assert!(l.is_allowed_at("k", 161));
}

#[test]
fn disabled_limiter_allows_everything() {
    let mut l = RateLimiter::new(false, 0);
    for _ in 0..100 {
        assert!(l.is_allowed_at("k", 5));
    }
    assert!(l.is_allowed("k"));
}

#[test]
fn first_request_is_allowed_even_with_zero_quota() {
    let mut l = RateLimiter::new(true, 0);
    assert!(l.is_allowed_at("k", 5));
    assert!(!l.is_allowed_at("k", 6));
}

#[test]
fn sweep_forgets_only_closed_windows() {
    let mut l = RateLimiter::new(true, 1);
    assert!(l.is_allowed_at("old", 0));
    assert!(l.is_allowed_at("new", 50));
    assert!(!l.is_allowed_at("new", 55));
    assert_eq!(l.sweep_at(60), 1);
    assert_eq!(l.limits.len(), 1);
    assert!(!l.is_allowed_at("new", 100));
    assert!(l.is_allowed_at("old", 100));
}
