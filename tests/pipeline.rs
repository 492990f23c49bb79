use gh_proxy::cache::AppCache;
use gh_proxy::config::Config;
use gh_proxy::error::AppError;
use gh_proxy::pipeline::{
    begin_request, client_key, finish_request, redirect_location, request_path, upstream_url, Step,
};
use gh_proxy::rate_limit::RateLimiter;

#[test]
fn blob_request_is_proxied_then_served_from_cache() {
    let config = Config::default();
    let mut cache = AppCache::with_memory_limit(true, 100, 1000, 3600);
    let mut limiter = RateLimiter::new(true, 60);
    let path = request_path("/github.com/a/b/blob/main/file.txt");
    let step = begin_request(&mut cache, &mut limiter, &config, true, false, &path, "1.2.3.4", 10);
    let key = match step {
        Step::Proxy { target, cache_key } => {
            assert_eq!(target, "github.com/a/b/raw/main/file.txt");
            cache_key
        }
        other => panic!("unexpected step {:?}", other),
    };
    assert_eq!(key.as_deref(), Some("github.com/a/b/blob/main/file.txt"));
    assert!(finish_request(&mut cache, key, true, b"hello".to_vec(), 11));
    assert_eq!(cache.get_entry_count(), 1);
    let again = begin_request(&mut cache, &mut limiter, &config, true, false, &path, "1.2.3.4", 12);
    assert_eq!(again, Step::CacheHit(b"hello".to_vec()));
}

#[test]
fn sixty_first_request_is_rejected() {
    let config = Config::default();
    let mut cache = AppCache::with_memory_limit(true, 100, 1000, 3600);
    let mut limiter = RateLimiter::new(true, 60);
    for i in 0..60u64 {
        let step = begin_request(&mut cache, &mut limiter, &config, true, false, "example.com/x", "c", 100 + i / 2);
        assert_eq!(step, Step::Unsupported);
    }
    let step = begin_request(&mut cache, &mut limiter, &config, true, false, "example.com/x", "c", 159);
    assert_eq!(step, Step::Rejected);
    let err = AppError::RateLimitError("Rate limit exceeded".to_string());
    assert_eq!(err.status(), 429);
    assert_eq!(err.category(), "Rate limit exceeded");
    assert_eq!(err.message(), "Rate limit error: Rate limit exceeded");
}

#[test]
fn query_redirect_ignores_the_limiter_and_the_cache() {
    let config = Config::default();
    let mut cache = AppCache::with_memory_limit(true, 100, 1000, 3600);
    let mut limiter = RateLimiter::new(true, 1);
    let first = begin_request(&mut cache, &mut limiter, &config, true, false, "q=abc", "c", 1);
    assert_eq!(first, Step::Redirect("/abc".to_string()));
    let second = begin_request(&mut cache, &mut limiter, &config, true, false, "q=abc", "c", 2);
    assert_eq!(second, Step::Redirect("/abc".to_string()));
    let third = begin_request(&mut cache, &mut limiter, &config, true, false, "github.com/a/b/tags", "c", 3);
    assert_eq!(third, Step::Rejected);
    assert_eq!(cache.get_entry_count(), 0);
}

#[test]
fn preflight_short_circuits() {
    let config = Config::default();
    let mut cache = AppCache::with_memory_limit(true, 100, 1000, 3600);
    let mut limiter = RateLimiter::new(true, 0);
    let step = begin_request(&mut cache, &mut limiter, &config, false, true, "github.com/a/b/tags", "c", 3);
    assert_eq!(step, Step::Preflight);
}

#[test]
fn non_get_requests_bypass_the_cache() {
    let config = Config::default();
    let mut cache = AppCache::with_memory_limit(true, 100, 1000, 3600);
    let mut limiter = RateLimiter::new(false, 0);
    let step = begin_request(&mut cache, &mut limiter, &config, false, false, "github.com/a/b/info/refs", "c", 3);
    assert_eq!(
        step,
        Step::Proxy { target: "github.com/a/b/info/refs".to_string(), cache_key: None }
    );
    assert!(!finish_request(&mut cache, None, true, vec![1], 4));
    assert!(!finish_request(&mut cache, Some("k".to_string()), false, vec![1], 4));
    assert_eq!(cache.get_entry_count(), 0);
}

#[test]
fn mirror_redirect_keeps_absolute_location() {
    let mut config = Config::default();
    config.jsdelivr.enabled = true;
    let mut cache = AppCache::with_memory_limit(true, 100, 1000, 3600);
    let mut limiter = RateLimiter::new(true, 60);
    let step = begin_request(&mut cache, &mut limiter, &config, true, false, "github.com/a/b/blob/main/f", "c", 3);
    assert_eq!(step, Step::Redirect("https://gcore.jsdelivr.net/gh/a/b@main/f".to_string()));
    assert_eq!(redirect_location("x/y"), "/x/y");
}

#[test]
fn client_key_prefers_forwarded_address() {
    assert_eq!(client_key(Some("1.1.1.1"), Some("2.2.2.2")), "1.1.1.1");
    assert_eq!(client_key(None, Some("2.2.2.2")), "2.2.2.2");
    assert_eq!(client_key(None, None), "unknown");
    assert_eq!(request_path("a/b"), "a/b");
}

#[test]
fn error_kinds_map_to_statuses() {
    assert_eq!(AppError::ReqwestError("x".to_string()).status(), 503);
    assert_eq!(AppError::InvalidRequest("x".to_string()).status(), 400);
    assert_eq!(AppError::CacheError("x".to_string()).status(), 500);
    assert_eq!(AppError::UriError("x".to_string()).category(), "Invalid URI");
}

#[test]
fn upstream_url_adds_a_scheme_when_missing() {
    assert_eq!(upstream_url("github.com/a/b/raw/x"), "https://github.com/a/b/raw/x");
    assert_eq!(upstream_url("http://github.com/a"), "http://github.com/a");
}
