use vstd::prelude::*;
use crate::config::Config;
use crate::text::{
    chars_of, find_from, find_from_exec, lemma_find_from_first, lemma_find_from_reaches, occurs_at,
    occurs_at_exec, replace_all, replace_all_str, replace_at, suffix_of,
};

verus! {

/// What must follow `owner/repo/` for a rule to match.
#[derive(Clone, Copy, Debug)]
pub enum TailShape {
    /// The rest starts with one of two literals.
    Either(&'static str, &'static str),
    /// The rest is not empty.
    NonEmpty,
    /// The rest is two non-empty segments joined by a slash.
    TwoSegments,
}

/// How a request path is served.
#[derive(Clone, Debug, PartialEq, Eq)]
pub enum RoutingDecision {
    /// Answer with a redirect to the target.
    Redirect(String),
    /// Fetch the target upstream and relay the response.
    Proxy(String),
    /// No rule matched.
    Unsupported,
}

/// The abstract form of a `RoutingDecision`.
pub enum Decision {
    Redirect(Seq<char>),
    Proxy(Seq<char>),
    Unsupported,
}

impl RoutingDecision {
    pub open spec fn view(&self) -> Decision {
        match self {
            RoutingDecision::Redirect(t) => Decision::Redirect(t@),
            RoutingDecision::Proxy(t) => Decision::Proxy(t@),
            RoutingDecision::Unsupported => Decision::Unsupported,
        }
    }
}

/// `s` without a leading `https://` or `http://`.
pub open spec fn strip_scheme(s: Seq<char>) -> Seq<char> {
    if occurs_at(s, "https://"@, 0) {
        s.skip("https://"@.len() as int)
    } else if occurs_at(s, "http://"@, 0) {
        s.skip("http://"@.len() as int)
    } else {
        s
    }
}

/// `a` is two non-empty parts joined by a slash.
pub open spec fn two_segments(a: Seq<char>) -> bool {
    exists|q: int| 0 < q < a.len() - 1 && #[trigger] a[q] == '/'
}

pub open spec fn tail_ok(t: Seq<char>, shape: TailShape) -> bool {
    match shape {
        TailShape::Either(a, b) => occurs_at(t, a@, 0) || occurs_at(t, b@, 0),
        TailShape::NonEmpty => t.len() > 0,
        TailShape::TwoSegments => two_segments(t),
    }
}

/// `rest` is `owner/repo/` (both non-empty) followed by text of `shape`.
pub open spec fn repo_then(rest: Seq<char>, shape: TailShape) -> bool {
    exists|q: int|
        0 <= q < rest.len() && #[trigger] rest[q] == '/' && two_segments(rest.take(q)) && tail_ok(
            rest.skip(q + 1),
            shape,
        )
}

/// `path` is `[scheme]host` followed by `owner/repo/` and text of `shape`;
/// `host` ends with the slash that follows it.
pub open spec fn rule_matches(path: Seq<char>, host: Seq<char>, shape: TailShape) -> bool {
    occurs_at(strip_scheme(path), host, 0) && repo_then(
        strip_scheme(path).skip(host.len() as int),
        shape,
    )
}

pub open spec fn github_releases(p: Seq<char>) -> bool {
    rule_matches(p, "github.com/"@, TailShape::Either("releases/", "archive/"))
}

pub open spec fn github_blob_raw(p: Seq<char>) -> bool {
    rule_matches(p, "github.com/"@, TailShape::Either("blob/", "raw/"))
}

pub open spec fn github_git_info(p: Seq<char>) -> bool {
    rule_matches(p, "github.com/"@, TailShape::Either("info", "git-"))
}

pub open spec fn github_raw(p: Seq<char>) -> bool {
    rule_matches(p, "raw.githubusercontent.com/"@, TailShape::TwoSegments) || rule_matches(
        p,
        "raw.github.com/"@,
        TailShape::TwoSegments,
    )
}

pub open spec fn github_gist(p: Seq<char>) -> bool {
    rule_matches(p, "gist.githubusercontent.com/"@, TailShape::NonEmpty) || rule_matches(
        p,
        "gist.github.com/"@,
        TailShape::NonEmpty,
    )
}

pub open spec fn github_tags(p: Seq<char>) -> bool {
    rule_matches(p, "github.com/"@, TailShape::Either("tags", "tags"))
}

pub open spec fn gitlab_projects(p: Seq<char>) -> bool {
    rule_matches(p, "gitlab.com/"@, TailShape::Either("-/", "repository/archive.tar.gz"))
}

pub open spec fn gitlab_raw(p: Seq<char>) -> bool {
    rule_matches(p, "gitlab.com/"@, TailShape::Either("-/raw/", "raw/"))
}

pub open spec fn gitlab_blobs(p: Seq<char>) -> bool {
    rule_matches(p, "gitlab.com/"@, TailShape::Either("-/blob/", "blob/"))
}

pub open spec fn bitbucket_repo(p: Seq<char>) -> bool {
    rule_matches(p, "bitbucket.org/"@, TailShape::Either("get", "downloads"))
}

pub open spec fn bitbucket_raw(p: Seq<char>) -> bool {
    rule_matches(p, "bitbucket.org/"@, TailShape::Either("raw/", "src/"))
}

pub open spec fn github_url(p: Seq<char>) -> bool {
    github_releases(p) || github_gist(p) || github_tags(p) || github_git_info(p) || github_raw(p)
        || github_blob_raw(p)
}

pub open spec fn gitlab_url(p: Seq<char>, config: Config) -> bool {
    config.git_services.gitlab_enabled && (gitlab_projects(p) || gitlab_raw(p) || gitlab_blobs(p))
}

pub open spec fn bitbucket_url(p: Seq<char>, config: Config) -> bool {
    config.git_services.bitbucket_enabled && (bitbucket_repo(p) || bitbucket_raw(p))
}

pub open spec fn supported_url(p: Seq<char>, config: Config) -> bool {
    github_url(p) || gitlab_url(p, config) || bitbucket_url(p, config)
}

/// The upstream target for a supported path: GitHub blob pages become raw
/// downloads, and so do GitLab blob pages when GitLab is enabled.
pub open spec fn rewritten(p: Seq<char>, config: Config) -> Seq<char> {
    if github_blob_raw(p) {
        github_raw_target(p)
    } else if config.git_services.gitlab_enabled && gitlab_blobs(p) {
        replace_all(replace_all(p, "/-/blob/"@, "/-/raw/"@), "/blob/"@, "/raw/"@)
    } else {
        p
    }
}

/// The text of a GitHub path after `[scheme]github.com/`.
pub open spec fn github_rest(p: Seq<char>) -> Seq<char> {
    strip_scheme(p).skip("github.com/"@.len() as int)
}

/// Where in `rest` the `/blob/` segment that follows `owner/repo` stands:
/// the first `/blob/` preceded by two non-empty segments.
pub open spec fn blob_segment(rest: Seq<char>) -> Option<int> {
    match find_from(rest, "/"@, 1) {
        Some(f) => find_from(rest, "/blob/"@, f + 2),
        None => None,
    }
}

/// A GitHub blob or raw path with its blob segment turned into `/raw/`.
pub open spec fn github_raw_target(p: Seq<char>) -> Seq<char> {
    let rest = github_rest(p);
    match blob_segment(rest) {
        Some(i) => replace_at(p, p.len() - rest.len() + i, "/blob/"@.len() as int, "/raw/"@),
        None => p,
    }
}

/// The jsDelivr address of a GitHub blob path: the scheme and host give way
/// to the mirror host, and the blob segment to `@`.
pub open spec fn mirrored(p: Seq<char>) -> Seq<char> {
    let rest = github_rest(p);
    "https://gcore.jsdelivr.net/gh/"@ + match blob_segment(rest) {
        Some(i) => replace_at(rest, i, "/blob/"@.len() as int, "@"@),
        None => rest,
    }
}

/// A GitHub path whose `owner/repo/` is followed by `blob/`.
pub open spec fn github_blob(p: Seq<char>) -> bool {
    rule_matches(p, "github.com/"@, TailShape::Either("blob/", "blob/"))
}

proof fn lemma_two_segments_after(rest: Seq<char>, f: int, q: int)
    requires
        1 <= f < rest.len(),
        forall|j: int| 1 <= j < f ==> rest[j] != '/',
        0 <= q <= rest.len(),
        two_segments(rest.take(q)),
    ensures
        q >= f + 2,
{
    let k = choose|k: int| 0 < k < rest.take(q).len() - 1 && #[trigger] rest.take(q)[k] == '/';
    assert(rest[k] == '/');
}

proof fn lemma_two_segments_none(rest: Seq<char>, q: int)
    requires
        forall|j: int| 1 <= j < rest.len() ==> rest[j] != '/',
        0 <= q <= rest.len(),
    ensures
        !two_segments(rest.take(q)),
{
    if two_segments(rest.take(q)) {
        let k = choose|k: int|
            0 < k < rest.take(q).len() - 1 && #[trigger] rest.take(q)[k] == '/';
        assert(rest[k] == '/');
    }
}

/// Length of the leading `https://` or `http://` of `v`, zero if none.
fn scheme_len(v: &Vec<char>) -> (r: usize)
    ensures
        r <= v@.len(),
        strip_scheme(v@) == v@.skip(r as int),
{
    if occurs_at_exec(v, "https://", 0) {
        "https://".unicode_len()
    } else if occurs_at_exec(v, "http://", 0) {
        "http://".unicode_len()
    } else {
        assert(v@.skip(0) =~= v@);
        0
    }
}

/// The first slash of `rest` after its first character.
fn first_inner_slash(rest: &Vec<char>) -> (r: Option<usize>)
    ensures
        match r {
            Some(f) => {
                &&& 1 <= f < rest@.len()
                &&& rest@[f as int] == '/'
                &&& forall|j: int| 1 <= j < f ==> rest@[j] != '/'
            },
            None => forall|j: int| 1 <= j < rest@.len() ==> rest@[j] != '/',
        },
{
    let mut i: usize = 1;
    while i < rest.len()
        invariant
            1 <= i,
            forall|j: int| 1 <= j < i && j < rest@.len() ==> rest@[j] != '/',
        decreases rest@.len() - i,
    {
        if rest[i] == '/' {
            return Some(i);
        }
        i = i + 1;
    }
    None
}

fn two_segments_exec(a: &Vec<char>) -> (r: bool)
    ensures
        r == two_segments(a@),
{
    let mut q: usize = 1;
    while q < a.len() && a.len() - q > 1
        invariant
            1 <= q,
            forall|j: int| 0 < j < q && j < a@.len() - 1 ==> a@[j] != '/',
        decreases a@.len() - q,
    {
        if a[q] == '/' {
            return true;
        }
        q = q + 1;
    }
    false
}

fn tail_ok_exec(rest: &Vec<char>, start: usize, shape: TailShape) -> (r: bool)
    requires
        start <= rest@.len(),
    ensures
        r == tail_ok(rest@.skip(start as int), shape),
{
    let ghost t = rest@.skip(start as int);
    match shape {
        TailShape::Either(a, b) => {
            proof {
                if start + a@.len() <= rest@.len() {
                    assert(t.subrange(0, a@.len() as int) =~= rest@.subrange(
                        start as int,
                        start + a@.len(),
                    ));
                }
                if start + b@.len() <= rest@.len() {
                    assert(t.subrange(0, b@.len() as int) =~= rest@.subrange(
                        start as int,
                        start + b@.len(),
                    ));
                }
            }
            occurs_at_exec(rest, a, start) || occurs_at_exec(rest, b, start)
        },
        TailShape::NonEmpty => start < rest.len(),
        TailShape::TwoSegments => {
            let t = suffix_of(rest, start);
            two_segments_exec(&t)
        },
    }
}

fn repo_then_exec(rest: &Vec<char>, shape: TailShape) -> (r: bool)
    ensures
        r == repo_then(rest@, shape),
{
    match first_inner_slash(rest) {
        None => {
            assert forall|q: int| 0 <= q < rest@.len() implies !two_segments(rest@.take(q)) by {
                lemma_two_segments_none(rest@, q);
            }
            false
        },
        Some(f) => {
            let len = rest.len();
            let mut q: usize = f + 1;
            assert forall|p: int| 0 <= p < q implies !two_segments(rest@.take(p)) by {
                if two_segments(rest@.take(p)) {
                    lemma_two_segments_after(rest@, f as int, p);
                }
            }
            while q < len
                invariant
                    len == rest@.len(),
                    f + 1 <= q <= len,
                    1 <= f < len,
                    rest@[f as int] == '/',
                    forall|j: int| 1 <= j < f ==> rest@[j] != '/',
                    forall|p: int|
                        0 <= p < q ==> !(#[trigger] rest@[p] == '/' && two_segments(rest@.take(p))
                            && tail_ok(rest@.skip(p + 1), shape)),
                decreases len - q,
            {
                if rest[q] == '/' && q >= f + 2 && tail_ok_exec(rest, q + 1, shape) {
                    assert(rest@.take(q as int)[f as int] == '/');
                    return true;
                }
                proof {
                    if q < f + 2 && two_segments(rest@.take(q as int)) {
                        lemma_two_segments_after(rest@, f as int, q as int);
                    }
                }
                q = q + 1;
            }
            false
        },
    }
}

fn rule_matches_exec(v: &Vec<char>, host: &str, shape: TailShape) -> (r: bool)
    ensures
        r == rule_matches(v@, host@, shape),
{
    let k = scheme_len(v);
    let t = suffix_of(v, k);
    if !occurs_at_exec(&t, host, 0) {
        return false;
    }
    let rest = suffix_of(&t, host.unicode_len());
    repo_then_exec(&rest, shape)
}

/// The decision for a request path (leading slash removed): a `q=` prefix
/// echoes the rest as a redirect; otherwise the first enabled provider rule
/// that matches decides, and nothing matching is `Unsupported`.
pub open spec fn decide(p: Seq<char>, config: Config) -> Decision {
    if occurs_at(p, "q="@, 0) {
        Decision::Redirect(p.skip("q="@.len() as int))
    } else if !supported_url(p, config) {
        Decision::Unsupported
    } else if github_blob_raw(p) && config.jsdelivr.enabled {
        Decision::Redirect(mirrored(p))
    } else {
        Decision::Proxy(rewritten(p, config))
    }
}

fn github_blob_raw_exec(v: &Vec<char>) -> (r: bool)
    ensures
        r == github_blob_raw(v@),
{
    rule_matches_exec(v, "github.com/", TailShape::Either("blob/", "raw/"))
}

fn gitlab_blobs_exec(v: &Vec<char>) -> (r: bool)
    ensures
        r == gitlab_blobs(v@),
{
    rule_matches_exec(v, "gitlab.com/", TailShape::Either("-/blob/", "blob/"))
}

fn github_exec(v: &Vec<char>) -> (r: bool)
    ensures
        r == github_url(v@),
{
    rule_matches_exec(v, "github.com/", TailShape::Either("releases/", "archive/"))
        || rule_matches_exec(v, "gist.githubusercontent.com/", TailShape::NonEmpty)
        || rule_matches_exec(v, "gist.github.com/", TailShape::NonEmpty) || rule_matches_exec(
        v,
        "github.com/",
        TailShape::Either("tags", "tags"),
    ) || rule_matches_exec(v, "github.com/", TailShape::Either("info", "git-"))
        || rule_matches_exec(v, "raw.githubusercontent.com/", TailShape::TwoSegments)
        || rule_matches_exec(v, "raw.github.com/", TailShape::TwoSegments) || github_blob_raw_exec(v)
}

fn gitlab_exec(v: &Vec<char>, config: &Config) -> (r: bool)
    ensures
        r == gitlab_url(v@, *config),
{
    config.git_services.gitlab_enabled && (rule_matches_exec(
        v,
        "gitlab.com/",
        TailShape::Either("-/", "repository/archive.tar.gz"),
    ) || rule_matches_exec(v, "gitlab.com/", TailShape::Either("-/raw/", "raw/"))
        || gitlab_blobs_exec(v))
}

fn bitbucket_exec(v: &Vec<char>, config: &Config) -> (r: bool)
    ensures
        r == bitbucket_url(v@, *config),
{
    config.git_services.bitbucket_enabled && (rule_matches_exec(
        v,
        "bitbucket.org/",
        TailShape::Either("get", "downloads"),
    ) || rule_matches_exec(v, "bitbucket.org/", TailShape::Either("raw/", "src/")))
}

/// Whether `path` is a GitHub release, gist, tag, git-protocol, raw-content
/// or blob path.
pub fn is_github_url(path: &str) -> (r: bool)
    ensures
        r == github_url(path@),
{
    let v = chars_of(path);
    github_exec(&v)
}

/// Whether GitLab is enabled and `path` is a GitLab project, raw or blob path.
pub fn is_gitlab_url(path: &str, config: &Config) -> (r: bool)
    ensures
        r == gitlab_url(path@, *config),
{
    let v = chars_of(path);
    gitlab_exec(&v, config)
}

/// Whether Bitbucket is enabled and `path` is a Bitbucket download or raw path.
pub fn is_bitbucket_url(path: &str, config: &Config) -> (r: bool)
    ensures
        r == bitbucket_url(path@, *config),
{
    let v = chars_of(path);
    bitbucket_exec(&v, config)
}

/// Whether any enabled provider serves `path`.
pub fn is_supported_url(path: &str, config: &Config) -> (r: bool)
    ensures
        r == supported_url(path@, *config),
{
    is_github_url(path) || is_gitlab_url(path, config) || is_bitbucket_url(path, config)
}

/// Where the text after `[scheme]github.com/` starts in `v`.
fn github_rest_start(v: &Vec<char>) -> (k: usize)
    requires
        github_blob_raw(v@),
    ensures
        k <= v@.len(),
        github_rest(v@) == v@.skip(k as int),
{
    let s = scheme_len(v);
    let h = "github.com/".unicode_len();
    assert(occurs_at(v@.skip(s as int), "github.com/"@, 0));
    assert(v@.skip(s as int).skip(h as int) =~= v@.skip(s + h));
    let len = v.len();
    assert(s + h <= len);
    s + h
}

fn blob_segment_exec(rest: &Vec<char>) -> (r: Option<usize>)
    ensures
        match r {
            Some(i) => blob_segment(rest@) == Some(i as int) && i + "/blob/"@.len() <= rest@.len(),
            None => blob_segment(rest@) is None,
        },
{
    if rest.len() < 1 {
        return None;
    }
    match find_from_exec(rest, "/", 1) {
        None => None,
        Some(f) => {
            if rest.len() - f < 2 {
                None
            } else {
                find_from_exec(rest, "/blob/", f + 2)
            }
        },
    }
}

/// `path` with the blob segment of its GitHub shape turned into `/raw/`.
fn github_raw_url(path: &str) -> (r: String)
    requires
        github_blob_raw(path@),
    ensures
        r@ == github_raw_target(path@),
{
    let v = chars_of(path);
    let len = v.len();
    let k = github_rest_start(&v);
    let rest = suffix_of(&v, k);
    match blob_segment_exec(&rest) {
        None => path.to_owned(),
        Some(i) => {
            let n = "/blob/".unicode_len();
            let mut r = path.substring_char(0, k + i).to_owned();
            r.append("/raw/");
            r.append(path.substring_char(k + i + n, len));
            assert(r@ =~= replace_at(path@, (k + i) as int, n as int, "/raw/"@));
            r
        },
    }
}

/// The upstream target for `path`: blob pages are turned into raw downloads.
pub fn process_url(path: String, config: &Config) -> (r: String)
    ensures
        r@ == rewritten(path@, *config),
{
    let v = chars_of(path.as_str());
    if github_blob_raw_exec(&v) {
        github_raw_url(path.as_str())
    } else if config.git_services.gitlab_enabled && gitlab_blobs_exec(&v) {
        let once = replace_all_str(path.as_str(), "/-/blob/", "/-/raw/");
        replace_all_str(once.as_str(), "/blob/", "/raw/")
    } else {
        path
    }
}

/// The jsDelivr address of a GitHub blob or raw path.
fn mirror_url(path: &str) -> (r: String)
    requires
        github_blob_raw(path@),
    ensures
        r@ == mirrored(path@),
{
    let v = chars_of(path);
    let len = v.len();
    let k = github_rest_start(&v);
    let rest = suffix_of(&v, k);
    let mut r = "https://gcore.jsdelivr.net/gh/".to_owned();
    match blob_segment_exec(&rest) {
        None => {
            r.append(path.substring_char(k, len));
            assert(r@ =~= "https://gcore.jsdelivr.net/gh/"@ + github_rest(path@));
        },
        Some(i) => {
            let n = "/blob/".unicode_len();
            r.append(path.substring_char(k, k + i));
            r.append("@");
            r.append(path.substring_char(k + i + n, len));
            assert(r@ =~= "https://gcore.jsdelivr.net/gh/"@ + replace_at(
                github_rest(path@),
                i as int,
                n as int,
                "@"@,
            ));
        },
    }
    r
}

/// Decides how `path` (the request target without its leading slash) is
/// served under `config`. Never fails: unknown paths are `Unsupported`.
pub fn classify(path: &str, config: &Config) -> (r: RoutingDecision)
    ensures
        r@ == decide(path@, *config),
{
    let v = chars_of(path);
    if occurs_at_exec(&v, "q=", 0) {
        let start = "q=".unicode_len();
        let rest = path.substring_char(start, v.len());
        assert(rest@ =~= path@.skip(start as int));
        return RoutingDecision::Redirect(rest.to_owned());
    }
    if !(github_exec(&v) || gitlab_exec(&v, config) || bitbucket_exec(&v, config)) {
        return RoutingDecision::Unsupported;
    }
    if github_blob_raw_exec(&v) && config.jsdelivr.enabled {
        return RoutingDecision::Redirect(mirror_url(path));
    }
    RoutingDecision::Proxy(process_url(path.to_owned(), config))
}

/// A path beginning with `q=` is a redirect to the rest of the path, under
/// any configuration.
pub proof fn law_query_prefix_redirects(p: Seq<char>, config: Config)
    requires
        occurs_at(p, "q="@, 0),
    ensures
        decide(p, config) == Decision::Redirect(p.skip("q="@.len() as int)),
{
}

/// A path that no enabled provider rule matches (and that is no `q=`
/// redirect) is unsupported.
pub proof fn law_unmatched_is_unsupported(p: Seq<char>, config: Config)
    requires
        !occurs_at(p, "q="@, 0),
        !supported_url(p, config),
    ensures
        decide(p, config) == Decision::Unsupported,
{
}

/// A GitHub blob or raw path is proxied with its blob segment (the `/blob/`
/// after `owner/repo`) turned into `/raw/` when jsDelivr is off, and
/// redirected to the mirror host, with that segment turned into `@`, when it
/// is on. A path whose `owner/repo/` is followed by `blob/` has such a
/// segment, so exactly one replacement is made.
pub proof fn law_github_blob(p: Seq<char>, config: Config)
    requires
        github_blob_raw(p),
    ensures
        !config.jsdelivr.enabled ==> decide(p, config) == Decision::Proxy(github_raw_target(p)),
        config.jsdelivr.enabled ==> decide(p, config) == Decision::Redirect(mirrored(p)),
        occurs_at(mirrored(p), "https://gcore.jsdelivr.net/gh/"@, 0),
        github_blob(p) ==> blob_segment(github_rest(p)) is Some,
{
    reveal_strlit("q=");
    reveal_strlit("https://");
    reveal_strlit("http://");
    reveal_strlit("github.com/");
    if occurs_at(p, "q="@, 0) {
        assert(p.subrange(0, 2)[0] == 'q');
        assert(!occurs_at(p, "https://"@, 0)) by {
            assert(p.subrange(0, 2)[0] == p[0]);
        }
        assert(!occurs_at(p, "http://"@, 0)) by {
            assert(p.subrange(0, 2)[0] == p[0]);
        }
        assert(strip_scheme(p) == p);
        assert(p.subrange(0, 11)[0] == p[0]);
    }
    let m = "https://gcore.jsdelivr.net/gh/"@;
    let rest = github_rest(p);
    let tail = match blob_segment(rest) {
        Some(i) => replace_at(rest, i, "/blob/"@.len() as int, "@"@),
        None => rest,
    };
    assert((m + tail).subrange(0, m.len() as int) =~= m);
    if github_blob(p) {
        lemma_blob_segment_found(rest);
    }
}

proof fn lemma_blob_segment_found(rest: Seq<char>)
    requires
        repo_then(rest, TailShape::Either("blob/", "blob/")),
    ensures
        blob_segment(rest) is Some,
{
    reveal_strlit("/");
    reveal_strlit("/blob/");
    reveal_strlit("blob/");
    let q = choose|q: int|
        0 <= q < rest.len() && #[trigger] rest[q] == '/' && two_segments(rest.take(q)) && tail_ok(
            rest.skip(q + 1),
            TailShape::Either("blob/", "blob/"),
        );
    let t = rest.skip(q + 1);
    assert(occurs_at(t, "blob/"@, 0));
    assert(rest.subrange(q, q + 6) =~= "/blob/"@) by {
        assert forall|j: int| 1 <= j < 6 implies rest.subrange(q, q + 6)[j] == "/blob/"@[j] by {
            assert(t.subrange(0, 5)[j - 1] == "blob/"@[j - 1]);
        }
    }
    let k = choose|k: int| 0 < k < rest.take(q).len() - 1 && #[trigger] rest.take(q)[k] == '/';
    assert(rest[k] == '/');
    assert(rest.subrange(k, k + 1) =~= "/"@);
    lemma_find_from_reaches(rest, "/"@, 1, k);
    lemma_find_from_first(rest, "/"@, 1);
    let f = find_from(rest, "/"@, 1).unwrap();
    lemma_find_from_reaches(rest, "/blob/"@, f + 2, q);
}

} // verus!
