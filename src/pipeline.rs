use vstd::prelude::*;
use crate::cache::{after_lookup, cached, is_fresh, law_set_then_get, stored, AppCache, Slot};
use crate::config::Config;
use crate::rate_limit::{next_window, window_of, RateLimiter};
use crate::route::{classify, decide, Decision, RoutingDecision};
use crate::text::{chars_of, occurs_at, occurs_at_exec};

verus! {

/// What the server does next with a request.
#[derive(Clone, Debug, PartialEq, Eq)]
pub enum Step {
    /// Answer the CORS preflight with the fixed no-content response.
    Preflight,
    /// Answer 429: the client is over its quota.
    Rejected,
    /// Answer 302 with this location.
    Redirect(String),
    /// Answer 200 with these cached bytes.
    CacheHit(Vec<u8>),
    /// Answer 200 with the placeholder body.
    Unsupported,
    /// Fetch `target` upstream and relay the answer; when `cache_key` is
    /// present, a fully successful body is then stored under it.
    Proxy { target: String, cache_key: Option<String> },
}

/// The abstract form of a `Step`.
pub enum Plan {
    Preflight,
    Rejected,
    Redirect(Seq<char>),
    CacheHit(Seq<u8>),
    Unsupported,
    Proxy(Seq<char>, Option<Seq<char>>),
}

impl Step {
    pub open spec fn view(&self) -> Plan {
        match self {
            Step::Preflight => Plan::Preflight,
            Step::Rejected => Plan::Rejected,
            Step::Redirect(l) => Plan::Redirect(l@),
            Step::CacheHit(b) => Plan::CacheHit(b@),
            Step::Unsupported => Plan::Unsupported,
            Step::Proxy { target, cache_key } => Plan::Proxy(
                target@,
                match cache_key {
                    Some(k) => Some(k@),
                    None => None,
                },
            ),
        }
    }
}

/// The `Location` of a redirect: absolute URLs as they are, anything else
/// as a path on this server.
pub open spec fn location_of(target: Seq<char>) -> Seq<char> {
    if occurs_at(target, "https://"@, 0) || occurs_at(target, "http://"@, 0) {
        target
    } else {
        "/"@ + target
    }
}

/// The URL fetched for a proxy target: targets named without a scheme are
/// fetched over HTTPS.
pub open spec fn upstream_of(target: Seq<char>) -> Seq<char> {
    if occurs_at(target, "https://"@, 0) || occurs_at(target, "http://"@, 0) {
        target
    } else {
        "https://"@ + target
    }
}

/// The request path as classified and used as cache key: the target without
/// its leading slash.
pub open spec fn path_of(target: Seq<char>) -> Seq<char> {
    if occurs_at(target, "/"@, 0) {
        target.skip(1)
    } else {
        target
    }
}

/// The key under which a client is rate limited: the forwarded-for address,
/// else the real-IP address, else `unknown` shared by all.
pub open spec fn client_key_of(forwarded: Option<Seq<char>>, real_ip: Option<Seq<char>>) -> Seq<
    char,
> {
    match forwarded {
        Some(f) => f,
        None => match real_ip {
            Some(r) => r,
            None => "unknown"@,
        },
    }
}

/// The step for a request that passed preflight detection, given whether the
/// limiter allowed it and what the cache serves for its path.
pub open spec fn planned(
    is_get: bool,
    path: Seq<char>,
    config: Config,
    allowed: bool,
    hit: Option<Seq<u8>>,
) -> Plan {
    if occurs_at(path, "q="@, 0) {
        Plan::Redirect(location_of(path.skip("q="@.len() as int)))
    } else if !allowed {
        Plan::Rejected
    } else if is_get && hit is Some {
        Plan::CacheHit(hit.unwrap())
    } else {
        match decide(path, config) {
            Decision::Redirect(t) => Plan::Redirect(location_of(t)),
            Decision::Unsupported => Plan::Unsupported,
            Decision::Proxy(t) => Plan::Proxy(
                t,
                if is_get {
                    Some(path)
                } else {
                    None
                },
            ),
        }
    }
}

/// The `Location` header for a redirect to `target`.
pub fn redirect_location(target: &str) -> (r: String)
    ensures
        r@ == location_of(target@),
{
    let v = chars_of(target);
    if occurs_at_exec(&v, "https://", 0) || occurs_at_exec(&v, "http://", 0) {
        target.to_owned()
    } else {
        let mut r = "/".to_owned();
        r.append(target);
        r
    }
}

/// The absolute URL to fetch for a proxy target.
pub fn upstream_url(target: &str) -> (r: String)
    ensures
        r@ == upstream_of(target@),
{
    let v = chars_of(target);
    if occurs_at_exec(&v, "https://", 0) || occurs_at_exec(&v, "http://", 0) {
        target.to_owned()
    } else {
        let mut r = "https://".to_owned();
        r.append(target);
        r
    }
}

/// The request path for a request target (path and query).
pub fn request_path(target: &str) -> (r: String)
    ensures
        r@ == path_of(target@),
{
    let v = chars_of(target);
    if occurs_at_exec(&v, "/", 0) {
        proof {
            reveal_strlit("/");
        }
        let rest = target.substring_char(1, v.len());
        assert(rest@ =~= target@.skip(1));
        rest.to_owned()
    } else {
        target.to_owned()
    }
}

/// The rate-limit key from the two forwarded-address headers.
pub fn client_key(forwarded: Option<&str>, real_ip: Option<&str>) -> (r: String)
    ensures
        r@ == client_key_of(
            match forwarded {
                Some(f) => Some(f@),
                None => None,
            },
            match real_ip {
                Some(x) => Some(x@),
                None => None,
            },
        ),
{
    match forwarded {
        Some(f) => f.to_owned(),
        None => match real_ip {
            Some(x) => x.to_owned(),
            None => "unknown".to_owned(),
        },
    }
}

/// Whether the limiter lets a request from `client` through at `now`.
pub open spec fn limiter_allows(limiter: RateLimiter, client: Seq<char>, now: u64) -> bool {
    !limiter.enabled || next_window(window_of(limiter@, client), now, limiter.requests_per_minute).0
}

/// Whether a request consults the cache: a GET that is no `q=` redirect and
/// that the limiter let through.
pub open spec fn consults_cache(is_get: bool, path: Seq<char>, allowed: bool) -> bool {
    is_get && allowed && !occurs_at(path, "q="@, 0)
}

/// A GET for a path whose response was stored and is still fresh, once the
/// limiter lets it through, is answered with the stored bytes, and the
/// lookup leaves the cache as it was: nothing is fetched upstream.
pub proof fn law_repeat_served_from_cache(
    s: Seq<Slot>,
    path: Seq<char>,
    body: Seq<u8>,
    stored_at: u64,
    now: u64,
    cap: nat,
    max: nat,
    ttl: u64,
    config: Config,
)
    requires
        !occurs_at(path, "q="@, 0),
        is_fresh(stored_at, now, ttl),
    ensures
        planned(
            true,
            path,
            config,
            true,
            cached(stored(s, path, body, stored_at, cap, max), path, now, ttl),
        ) == Plan::CacheHit(body),
        after_lookup(stored(s, path, body, stored_at, cap, max), path, now, ttl) == stored(
            s,
            path,
            body,
            stored_at,
            cap,
            max,
        ),
{
    law_set_then_get(s, path, body, stored_at, now, cap, max, ttl);
}

/// Runs a request through preflight detection, the rate limiter, the cache
/// and the classifier, and says how to answer it. Every request but a
/// preflight is counted by the limiter, `q=` redirects included; those are
/// answered whatever the limiter says and never touch the cache.
pub fn begin_request(
    cache: &mut AppCache,
    limiter: &mut RateLimiter,
    config: &Config,
    is_get: bool,
    is_preflight: bool,
    path: &str,
    client: &str,
    now: u64,
) -> (r: Step)
    requires
        old(cache).wf(),
        old(limiter).wf(),
    ensures
        final(cache).wf(),
        final(cache).same_settings(old(cache)),
        final(limiter).wf(),
        final(limiter).enabled == old(limiter).enabled,
        final(limiter).requests_per_minute == old(limiter).requests_per_minute,
        is_preflight ==> {
            &&& r@ == Plan::Preflight
            &&& final(cache)@ == old(cache)@
            &&& final(limiter)@ == old(limiter)@
        },
        !is_preflight ==> {
            let allowed = limiter_allows(*old(limiter), client@, now);
            let consult = consults_cache(is_get, path@, allowed) && old(cache).enabled;
            let hit = if consult {
                cached(old(cache)@, path@, now, old(cache).time_to_live)
            } else {
                None
            };
            &&& r@ == planned(is_get, path@, *config, allowed, hit)
            &&& old(limiter).enabled ==> window_of(final(limiter)@, client@) == Some(
                next_window(
                    window_of(old(limiter)@, client@),
                    now,
                    old(limiter).requests_per_minute,
                ).1,
            )
            &&& !old(limiter).enabled ==> final(limiter)@ == old(limiter)@
            &&& forall|other: Seq<char>|
                other != client@ ==> window_of(final(limiter)@, other) == window_of(
                    old(limiter)@,
                    other,
                )
            &&& final(cache)@ == if consult {
                after_lookup(old(cache)@, path@, now, old(cache).time_to_live)
            } else {
                old(cache)@
            }
        },
{
    if is_preflight {
        return Step::Preflight;
    }
    let allowed = limiter.is_allowed_at(client, now);
    let v = chars_of(path);
    if occurs_at_exec(&v, "q=", 0) {
        return match classify(path, config) {
            RoutingDecision::Redirect(t) => Step::Redirect(redirect_location(t.as_str())),
            _ => Step::Unsupported,
        };
    }
    if !allowed {
        return Step::Rejected;
    }
    if is_get {
        if let Some(bytes) = cache.get_at(path, now) {
            return Step::CacheHit(bytes);
        }
    }
    match classify(path, config) {
        RoutingDecision::Redirect(t) => Step::Redirect(redirect_location(t.as_str())),
        RoutingDecision::Unsupported => Step::Unsupported,
        RoutingDecision::Proxy(t) => Step::Proxy {
            target: t,
            cache_key: if is_get {
                Some(path.to_owned())
            } else {
                None
            },
        },
    }
}

/// After a proxied response has been relayed in full: stores its body under
/// the request's cache key when there is one and the upstream answered with
/// success. True when the body was stored.
pub fn finish_request(
    cache: &mut AppCache,
    cache_key: Option<String>,
    success: bool,
    body: Vec<u8>,
    now: u64,
) -> (r: bool)
    requires
        old(cache).wf(),
    ensures
        final(cache).wf(),
        final(cache).same_settings(old(cache)),
        r == (cache_key is Some && success && old(cache).accepts(body@.len())),
        r ==> final(cache)@ == old(cache).after_set(cache_key.unwrap()@, body@, now),
        !r ==> final(cache)@ == old(cache)@,
{
    match cache_key {
        Some(key) => if success {
            cache.set_at(key, body, now)
        } else {
            false
        },
        None => false,
    }
}

} // verus!
