use gh_proxy::config::{
    default_cache_max_memory, default_rate_limit_requests_per_minute, Config, ListenIp,
};

#[test]
fn defaults_match_the_documented_values() {
    let c = Config::default();
    assert!(c.cache.enabled);
    assert_eq!(c.cache.max_capacity, 1000);
    assert_eq!(c.cache.time_to_live, 3600);
    assert_eq!(c.cache.max_memory, 104857600);
    assert_eq!(default_cache_max_memory(), 100 * 1024 * 1024);
    assert!(c.rate_limit.enabled);
    assert_eq!(default_rate_limit_requests_per_minute(), 60);
    assert!(!c.jsdelivr.enabled);
    assert!(!c.git_services.gitlab_enabled && !c.git_services.bitbucket_enabled);
    assert_eq!(c.server.ip, ListenIp::V4([127, 0, 0, 1]));
    assert_eq!(c.proxy.timeout_secs, 60);
    assert_eq!(c.server.port, 4000);
}
