use vstd::prelude::*;

verus! {

/// An IP address the server can listen on.
#[derive(Clone, Copy, Debug, PartialEq, Eq)]
pub enum ListenIp {
    /// Four octets.
    V4([u8; 4]),
    /// Eight sixteen-bit segments.
    V6([u16; 8]),
}

/// Address the server listens on.
#[derive(Clone, Copy, Debug, PartialEq, Eq)]
pub struct ServerConfig {
    pub ip: ListenIp,
    pub port: u16,
}

/// Bound on each outbound fetch; a fetch that runs longer fails as the
/// upstream being unavailable.
#[derive(Clone, Copy, Debug, PartialEq, Eq)]
pub struct ProxyConfig {
    pub timeout_secs: u64,
}

/// Whether GitHub blob requests are redirected to the jsDelivr mirror.
#[derive(Clone, Copy, Debug, PartialEq, Eq)]
pub struct JsDelivrConfig {
    pub enabled: bool,
}

/// Bounds of the response cache.
#[derive(Clone, Copy, Debug, PartialEq, Eq)]
pub struct CacheConfig {
    pub enabled: bool,
    pub max_capacity: usize,
    pub time_to_live: u64,
    pub max_memory: usize,
}

/// Per-client request ceiling.
#[derive(Clone, Copy, Debug, PartialEq, Eq)]
pub struct RateLimitConfig {
    pub enabled: bool,
    pub requests_per_minute: u32,
}

/// Which providers besides GitHub are served.
#[derive(Clone, Copy, Debug, PartialEq, Eq)]
pub struct GitServicesConfig {
    pub gitlab_enabled: bool,
    pub bitbucket_enabled: bool,
}

/// The whole service configuration.
#[derive(Clone, Copy, Debug, PartialEq, Eq)]
pub struct Config {
    pub server: ServerConfig,
    pub proxy: ProxyConfig,
    pub jsdelivr: JsDelivrConfig,
    pub cache: CacheConfig,
    pub rate_limit: RateLimitConfig,
    pub git_services: GitServicesConfig,
}

pub const DEFAULT_PORT: u16 = 4000;

pub const DEFAULT_MAX_CAPACITY: usize = 1000;

pub const DEFAULT_TIME_TO_LIVE: u64 = 3600;

/// One hundred mebibytes.
pub const DEFAULT_MAX_MEMORY: usize = 104857600;

pub const DEFAULT_REQUESTS_PER_MINUTE: u32 = 60;

pub const DEFAULT_UPSTREAM_TIMEOUT: u64 = 60;

/// The loopback address on the default port.
pub fn default_server() -> (r: ServerConfig)
    ensures
        r.ip == ListenIp::V4([127u8, 0u8, 0u8, 1u8]),
        r.port == DEFAULT_PORT,
{
    ServerConfig { ip: ListenIp::V4([127u8, 0u8, 0u8, 1u8]), port: DEFAULT_PORT }
}

pub fn default_upstream_timeout() -> (r: u64)
    ensures
        r == DEFAULT_UPSTREAM_TIMEOUT,
{
    DEFAULT_UPSTREAM_TIMEOUT
}

pub fn default_cache_enabled() -> (r: bool)
    ensures
        r,
{
    true
}

pub fn default_cache_max_capacity() -> (r: usize)
    ensures
        r == DEFAULT_MAX_CAPACITY,
{
    DEFAULT_MAX_CAPACITY
}

pub fn default_cache_time_to_live() -> (r: u64)
    ensures
        r == DEFAULT_TIME_TO_LIVE,
{
    DEFAULT_TIME_TO_LIVE
}

pub fn default_cache_max_memory() -> (r: usize)
    ensures
        r == 100 * 1024 * 1024,
{
    DEFAULT_MAX_MEMORY
}

pub fn default_rate_limit_enabled() -> (r: bool)
    ensures
        r,
{
    true
}

pub fn default_rate_limit_requests_per_minute() -> (r: u32)
    ensures
        r == DEFAULT_REQUESTS_PER_MINUTE,
{
    DEFAULT_REQUESTS_PER_MINUTE
}

impl Config {
    /// Every field at its documented default: loopback on port 4000, a
    /// one-minute upstream timeout, cache and rate limiting on,
    /// jsDelivr, GitLab and Bitbucket off.
    pub open spec fn is_default(self) -> bool {
        &&& self.server.ip == ListenIp::V4([127u8, 0u8, 0u8, 1u8])
        &&& self.server.port == DEFAULT_PORT
        &&& self.proxy.timeout_secs == DEFAULT_UPSTREAM_TIMEOUT
        &&& !self.jsdelivr.enabled
        &&& self.cache.enabled
        &&& self.cache.max_capacity == DEFAULT_MAX_CAPACITY
        &&& self.cache.time_to_live == DEFAULT_TIME_TO_LIVE
        &&& self.cache.max_memory == DEFAULT_MAX_MEMORY
        &&& self.rate_limit.enabled
        &&& self.rate_limit.requests_per_minute == DEFAULT_REQUESTS_PER_MINUTE
        &&& !self.git_services.gitlab_enabled
        &&& !self.git_services.bitbucket_enabled
    }
}

impl Default for Config {
    fn default() -> (r: Config)
        ensures
            r.is_default(),
    {
        Config {
            server: default_server(),
            proxy: ProxyConfig { timeout_secs: default_upstream_timeout() },
            jsdelivr: JsDelivrConfig { enabled: false },
            cache: CacheConfig {
                enabled: default_cache_enabled(),
                max_capacity: default_cache_max_capacity(),
                time_to_live: default_cache_time_to_live(),
                max_memory: default_cache_max_memory(),
            },
            rate_limit: RateLimitConfig {
                enabled: default_rate_limit_enabled(),
                requests_per_minute: default_rate_limit_requests_per_minute(),
            },
            git_services: GitServicesConfig { gitlab_enabled: false, bitbucket_enabled: false },
        }
    }
}

} // verus!
