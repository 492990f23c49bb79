use gh_proxy::config::Config;
use gh_proxy::route::{
    classify, is_bitbucket_url, is_github_url, is_gitlab_url, is_supported_url, process_url,
    RoutingDecision,
};

fn with_gitlab() -> Config {
    let mut c = Config::default();
    c.git_services.gitlab_enabled = true;
    c
}

#[test]
fn blob_path_is_rewritten_to_raw() {
    let c = Config::default();
    assert_eq!(
        classify("github.com/a/b/blob/main/file.txt", &c),
        RoutingDecision::Proxy("github.com/a/b/raw/main/file.txt".to_string())
    );
}

#[test]
fn blob_rewrite_touches_only_the_first_occurrence() {
    let c = Config::default();
    assert_eq!(
        classify("https://github.com/a/b/blob/main/blob/x", &c),
        RoutingDecision::Proxy("https://github.com/a/b/raw/main/blob/x".to_string())
    );
}

#[test]
fn blob_path_goes_to_jsdelivr_when_enabled() {
    let mut c = Config::default();
    c.jsdelivr.enabled = true;
    assert_eq!(
        classify("https://github.com/a/b/blob/main/file.txt", &c),
        RoutingDecision::Redirect("https://gcore.jsdelivr.net/gh/a/b@main/file.txt".to_string())
    );
    assert_eq!(
        classify("github.com/a/b/blob/main/file.txt", &c),
        RoutingDecision::Redirect("https://gcore.jsdelivr.net/gh/a/b@main/file.txt".to_string())
    );
}

#[test]
fn query_prefix_redirects_whatever_the_config() {
    let mut c = Config::default();
    assert_eq!(
        classify("q=https://example.com/x", &c),
        RoutingDecision::Redirect("https://example.com/x".to_string())
    );
    c.jsdelivr.enabled = true;
    c.git_services.gitlab_enabled = true;
    assert_eq!(classify("q=", &c), RoutingDecision::Redirect(String::new()));
}

#[test]
fn unknown_paths_are_unsupported() {
    let c = Config::default();
    assert_eq!(classify("", &c), RoutingDecision::Unsupported);
    assert_eq!(classify("example.com/a/b/blob/x", &c), RoutingDecision::Unsupported);
    assert_eq!(classify("github.com/a/blob/x", &c), RoutingDecision::Unsupported);
    assert_eq!(classify("gitlab.com/a/b/-/raw/main/x", &c), RoutingDecision::Unsupported);
    assert_eq!(classify("bitbucket.org/a/b/raw/main/x", &c), RoutingDecision::Unsupported);
}

#[test]
fn github_shapes_are_recognised() {
    assert!(is_github_url("github.com/a/b/releases/download/v1/x.zip"));
    assert!(is_github_url("https://github.com/a/b/archive/main.zip"));
    assert!(is_github_url("http://github.com/a/b/info/refs"));
    assert!(is_github_url("github.com/a/b/git-upload-pack"));
    assert!(is_github_url("github.com/a/b/tags"));
    assert!(is_github_url("raw.githubusercontent.com/a/b/main/x"));
    assert!(is_github_url("raw.github.com/a/b/main/x"));
    assert!(is_github_url("gist.githubusercontent.com/a/b/raw"));
    assert!(is_github_url("gist.github.com/a/b/c"));
    assert!(is_github_url("github.com/a/b/c/raw/x"));
    assert!(!is_github_url("raw.githubusercontent.com/a/b/main/"));
    assert!(!is_github_url("gist.github.com/a/b/"));
    assert!(!is_github_url("github.com/a/b/issues"));
    assert!(!is_github_url("github.com//b/blob/x"));
}

#[test]
fn gitlab_and_bitbucket_follow_their_flags() {
    let mut c = Config::default();
    assert!(!is_gitlab_url("gitlab.com/a/b/-/raw/main/x", &c));
    assert!(!is_bitbucket_url("bitbucket.org/a/b/raw/main/x", &c));
    c.git_services.gitlab_enabled = true;
    c.git_services.bitbucket_enabled = true;
    assert!(is_gitlab_url("gitlab.com/a/b/-/raw/main/x", &c));
    assert!(is_gitlab_url("gitlab.com/a/b/repository/archive.tar.gz", &c));
    assert!(is_gitlab_url("gitlab.com/a/b/blob/main/x", &c));
    assert!(is_bitbucket_url("bitbucket.org/a/b/raw/main/x", &c));
    assert!(is_bitbucket_url("bitbucket.org/a/b/downloads/x.zip", &c));
    assert!(is_bitbucket_url("bitbucket.org/a/b/get/main.zip", &c));
    assert!(is_supported_url("bitbucket.org/a/b/src/main/x", &c));
    assert!(!is_supported_url("bitbucket.org/a/b/issues", &c));
}

#[test]
fn gitlab_blobs_become_raw() {
    let c = with_gitlab();
    assert_eq!(
        process_url("gitlab.com/a/b/-/blob/main/x".to_string(), &c),
        "gitlab.com/a/b/-/raw/main/x"
    );
    assert_eq!(
        classify("gitlab.com/a/b/blob/main/blob/x", &c),
        RoutingDecision::Proxy("gitlab.com/a/b/raw/main/raw/x".to_string())
    );
}

#[test]
fn other_supported_paths_are_proxied_unchanged() {
    let c = Config::default();
    assert_eq!(
        classify("github.com/a/b/releases/download/v1/x.zip", &c),
        RoutingDecision::Proxy("github.com/a/b/releases/download/v1/x.zip".to_string())
    );
    assert_eq!(
        process_url("raw.githubusercontent.com/a/b/main/x".to_string(), &c),
        "raw.githubusercontent.com/a/b/main/x"
    );
}

#[test]
fn owner_named_blob_keeps_its_name() {
    let mut c = Config::default();
    assert_eq!(
        classify("github.com/blob/x/blob/y", &c),
        RoutingDecision::Proxy("github.com/blob/x/raw/y".to_string())
    );
    assert_eq!(
        process_url("https://github.com/blob/blob/blob/y".to_string(), &c),
        "https://github.com/blob/blob/raw/y"
    );
    c.jsdelivr.enabled = true;
    assert_eq!(
        classify("github.com/blob/x/blob/y", &c),
        RoutingDecision::Redirect("https://gcore.jsdelivr.net/gh/blob/x@y".to_string())
    );
}

#[test]
fn raw_shape_is_mirrored_without_replacement() {
    let mut c = Config::default();
    c.jsdelivr.enabled = true;
    assert_eq!(
        classify("github.com/a/b/raw/main/f", &c),
        RoutingDecision::Redirect("https://gcore.jsdelivr.net/gh/a/b/raw/main/f".to_string())
    );
}
