use resourcefs_sources::error::{ErrorCategory, ErrorReason, ResourceError};
use resourcefs_sources::facts::Presence;
use resourcefs_sources::github::{api_base, GithubRepositoryIdentity, ParsedUrl};
use resourcefs_sources::identity::{
    web_origin,
    api_route, clean_authority, matches_object_url, require_object_link, require_observed_id,
    required, route_matches, same_url, sha, validate_account, validate_account_link,
    validate_comment_links, validate_optional_comment_link, validate_optional_object_link,
    validate_optional_web_link, web_route, Actor, WebFragment,
};

fn url(text: &str) -> ParsedUrl {
    web_origin(text).unwrap()
}

fn api() -> ParsedUrl {
    api_base("https://api.github.com").unwrap()
}

fn web() -> ParsedUrl {
    url("https://github.com/")
}

fn repo() -> GithubRepositoryIdentity {
    GithubRepositoryIdentity { owner: "Octo".to_string(), repository: "Hello".to_string() }
}

fn present(text: &str) -> Presence<String> {
    Presence::Present(text.to_string())
}

fn reason(error: &ResourceError) -> Option<ErrorReason> {
    error.details.map(|d| d.reason)
}

fn fails(result: Result<(), ResourceError>, expected: ErrorReason) {
    let error = result.unwrap_err();
    assert_eq!(error.category, ErrorCategory::SourceUnavailable);
    assert_eq!(reason(&error), Some(expected));
}

#[test]
fn web_origin_reports_origin_credentials_query_and_fragment() {
    let parsed = url("https://user:pw@API.github.com:443/a/b?x=1#frag");
    assert_eq!(parsed.origin, Some(("https".to_string(), "api.github.com".to_string(), 443)));
    assert!(parsed.has_credentials());
    assert_eq!(parsed.username, "user");
    assert_eq!(parsed.password.as_deref(), Some("pw"));
    assert!(url("https://user@example.com/").has_credentials());
    assert!(url("https://:pw@example.com/").has_credentials());
    assert!(!url("https://example.com/").has_credentials());
    assert_eq!(parsed.text, "https://user:pw@api.github.com/a/b?x=1#frag");
    assert_eq!(parsed.query_text.as_deref(), Some("x=1"));
    assert_eq!(parsed.fragment.as_deref(), Some("frag"));
    assert_eq!(parsed.path_segments(), Some(vec!["a".to_string(), "b".to_string()]));
    assert_eq!(url("file:///tmp/x").origin, None);
    assert_eq!(url("mailto:someone@example.com").path_segments(), None);
    let refused = web_origin("not a url").unwrap_err();
    assert_eq!(refused.category, ErrorCategory::SourceUnavailable);
    assert_eq!(reason(&refused), Some(ErrorReason::UpstreamUnavailable));
}

#[test]
fn api_bases_gain_a_trailing_slash() {
    let enterprise = api_base("https://ghe.example/api/v3").unwrap();
    assert_eq!(enterprise.path, "/api/v3/");
    assert_eq!(enterprise.text, "https://ghe.example/api/v3/");
    let public = api_base("https://api.github.com").unwrap();
    assert_eq!(public.path, "/");
    assert_eq!(public.text, "https://api.github.com/");
    let kept = api_base("https://ghe.example/api/v3/?x=1").unwrap();
    assert_eq!(kept.text, "https://ghe.example/api/v3/?x=1");
    let refused = api_base("not a url").unwrap_err();
    assert_eq!(refused.category, ErrorCategory::InvalidReference);
    assert_eq!(refused.message, "GitHub API base URL is invalid");
    assert!(refused.details.is_none());
}

#[test]
fn clean_authority_needs_one_origin_and_no_credentials() {
    assert!(clean_authority(&url("https://api.github.com/repos/a/b"), &api()));
    assert!(!clean_authority(&url("https://user@api.github.com/repos/a/b"), &api()));
    assert!(!clean_authority(&url("https://api.github.com:8443/repos/a/b"), &api()));
    assert!(!clean_authority(&url("http://api.github.com/repos/a/b"), &api()));
    let file = url("file:///tmp/x");
    assert!(!clean_authority(&file, &url("file:///tmp/x")));
}

#[test]
fn same_url_compares_path_without_case_and_refuses_extras() {
    let expected = url("https://api.github.com/repos/Octo/Hello/pulls/7");
    assert!(same_url("https://api.github.com/repos/octo/hello/pulls/7", &expected).is_ok());
    fails(same_url("https://api.github.com/repos/octo/hello/pulls/7?x", &expected), ErrorReason::UpstreamIdentityMismatch);
    fails(same_url("https://api.github.com/repos/octo/hello/pulls/7#x", &expected), ErrorReason::UpstreamIdentityMismatch);
    fails(same_url("https://api.github.com/repos/octo/hello/pulls/8", &expected), ErrorReason::UpstreamIdentityMismatch);
    fails(same_url("not a url", &expected), ErrorReason::UpstreamMalformed);
}

#[test]
fn object_links_must_name_the_object() {
    let expected = url("https://api.github.com/repos/Octo/Hello/pulls/comments/3");
    assert!(matches_object_url("https://api.github.com/repos/octo/hello/pulls/comments/3", &expected));
    assert!(!matches_object_url("https://example.com/repos/octo/hello/pulls/comments/3", &expected));
    assert!(require_object_link(&present("https://api.github.com/repos/Octo/Hello/pulls/comments/3"), &expected).is_ok());
    let error = require_object_link(&Presence::Null, &expected).unwrap_err();
    assert_eq!(error.category, ErrorCategory::NotFound);
    assert_eq!(error.message, "GitHub record does not belong to the addressed pull request");
    assert_eq!(reason(&error), Some(ErrorReason::UpstreamIdentityMismatch));
    assert!(validate_optional_object_link(&Presence::Omitted, &expected).is_ok());
    fails(
        validate_optional_object_link(&present("https://api.github.com/other"), &expected),
        ErrorReason::UpstreamIdentityMismatch,
    );
}

#[test]
fn observed_ids_and_shas() {
    assert_eq!(require_observed_id(Some(4), Some(4)).unwrap(), 4);
    assert_eq!(require_observed_id(None, Some(9)).unwrap(), 9);
    assert_eq!(reason(&require_observed_id(Some(4), Some(5)).unwrap_err()), Some(ErrorReason::UpstreamIdentityMismatch));
    assert_eq!(reason(&require_observed_id(Some(4), None).unwrap_err()), Some(ErrorReason::UpstreamMalformed));
    assert_eq!(*required(&Presence::Present(3u8)).unwrap(), 3);
    assert!(required::<u8>(&Presence::Null).is_err());
    let good = "0123456789abcdef0123456789abcdef01234567";
    assert_eq!(sha(&present(good)).unwrap(), good);
    assert!(sha(&present("0123456789ABCDEF0123456789abcdef01234567")).is_err());
    assert!(sha(&present("0123")).is_err());
    assert!(sha(&Presence::Omitted).is_err());
}

#[test]
fn api_routes_below_the_api_prefix() {
    let route = api_route(&url("https://api.github.com/repos/o/r/pulls/5"), &api()).unwrap().unwrap();
    assert_eq!((route.owner.as_str(), route.name.as_str(), route.family.as_str(), route.number), ("o", "r", "pulls", 5));
    let route = api_route(&url("https://api.github.com/repos/o/r/issues/comments/9/"), &api()).unwrap().unwrap();
    assert_eq!((route.family.as_str(), route.number), ("issues/comments", 9));
    let enterprise = url("https://ghe.example/api/v3/");
    let route = api_route(&url("https://ghe.example/api/v3/repos/o/r/issues/2"), &enterprise).unwrap().unwrap();
    assert_eq!((route.family.as_str(), route.number), ("issues", 2));
    assert!(api_route(&url("https://ghe.example/repos/o/r/issues/2"), &enterprise).unwrap().is_none());
    assert!(api_route(&url("https://api.github.com/repos/o/r/pulls/5/files"), &api()).unwrap().is_none());
    let error = api_route(&url("https://api.github.com/repos/o/r/pulls/x"), &api()).unwrap_err();
    assert_eq!(reason(&error), Some(ErrorReason::UpstreamMalformed));
}

#[test]
fn web_routes_and_their_fragments() {
    let route = web_route(&url("https://github.com/o/r/pull/5#issuecomment-12"), &web()).unwrap().unwrap();
    assert_eq!((route.owner.as_str(), route.name.as_str(), route.number), ("o", "r", 5));
    assert_eq!(route.fragment, Some(WebFragment::ConversationComment(12)));
    let route = web_route(&url("https://github.com/o/r/issues/5#pullrequestreview-3"), &web()).unwrap().unwrap();
    assert_eq!(route.fragment, Some(WebFragment::Review(3)));
    let route = web_route(&url("https://github.com/o/r/pull/5#discussion_r8"), &web()).unwrap().unwrap();
    assert_eq!(route.fragment, Some(WebFragment::ReviewComment(8)));
    let route = web_route(&url("https://github.com/o/r/pull/5#files"), &web()).unwrap().unwrap();
    assert_eq!(route.fragment, None);
    assert!(web_route(&url("https://example.com/o/r/pull/5"), &web()).unwrap().is_none());
    assert!(web_route(&url("https://github.com/o/r/commits/5"), &web()).unwrap().is_none());
    assert!(web_route(&url("https://github.com/o/r/pull/5/files"), &web()).unwrap().is_none());
    let zero = web_route(&url("https://github.com/o/r/pull/0"), &web()).err().unwrap();
    assert_eq!(reason(&zero), Some(ErrorReason::UpstreamIdentityMismatch));
    let bad = web_route(&url("https://github.com/o/r/pull/5#discussion_rx"), &web()).err().unwrap();
    assert_eq!(reason(&bad), Some(ErrorReason::UpstreamMalformed));
    let zero_id = web_route(&url("https://github.com/o/r/pull/5#pullrequestreview-0"), &web()).err().unwrap();
    assert_eq!(reason(&zero_id), Some(ErrorReason::UpstreamIdentityMismatch));
}

#[test]
fn optional_web_links_name_this_pull_request() {
    let link = present("https://github.com/octo/HELLO/pull/7#discussion_r4");
    assert_eq!(validate_optional_web_link(&link, &repo(), 7, &web()).unwrap(), Some(WebFragment::ReviewComment(4)));
    assert_eq!(validate_optional_web_link(&present("opaque"), &repo(), 7, &web()).unwrap(), None);
    assert_eq!(validate_optional_web_link(&Presence::Null, &repo(), 7, &web()).unwrap(), None);
    let other = validate_optional_web_link(&present("https://github.com/octo/hello/pull/8"), &repo(), 7, &web());
    assert_eq!(reason(&other.err().unwrap()), Some(ErrorReason::UpstreamIdentityMismatch));
    let foreign = validate_optional_web_link(&present("https://evil.example/octo/hello/pull/7"), &repo(), 7, &web());
    assert_eq!(reason(&foreign.err().unwrap()), Some(ErrorReason::UpstreamIdentityMismatch));
}

#[test]
fn comment_links_name_this_comment() {
    let api_link = present("https://api.github.com/repos/octo/hello/issues/comments/11");
    let web_link = present("https://github.com/octo/hello/pull/7#issuecomment-11");
    assert!(validate_optional_comment_link(&api_link, &repo(), 7, 11, &api(), &web(), true).is_ok());
    assert!(validate_optional_comment_link(&web_link, &repo(), 7, 11, &api(), &web(), false).is_ok());
    fails(validate_optional_comment_link(&api_link, &repo(), 7, 12, &api(), &web(), true), ErrorReason::UpstreamIdentityMismatch);
    fails(
        validate_optional_comment_link(&present("https://github.com/octo/hello/pull/7#pullrequestreview-11"), &repo(), 7, 11, &api(), &web(), false),
        ErrorReason::UpstreamIdentityMismatch,
    );
    fails(validate_optional_comment_link(&api_link, &repo(), 7, 11, &api(), &web(), false), ErrorReason::UpstreamIdentityMismatch);
}

#[test]
fn comment_records_must_belong_to_the_pull_request() {
    let issue = present("https://api.github.com/repos/octo/hello/issues/7");
    let api_link = present("https://api.github.com/repos/octo/hello/issues/comments/11");
    let web_link = present("https://github.com/octo/hello/pull/7#issuecomment-11");
    assert!(validate_comment_links(&repo(), 7, Some(11), Some(11), &issue, &api_link, &web_link, &api(), &web()).is_ok());
    assert!(validate_comment_links(&repo(), 7, None, Some(11), &issue, &api_link, &web_link, &api(), &web()).is_ok());
    fails(validate_comment_links(&repo(), 7, Some(12), Some(11), &issue, &api_link, &web_link, &api(), &web()), ErrorReason::UpstreamIdentityMismatch);
    fails(validate_comment_links(&repo(), 7, None, None, &issue, &api_link, &web_link, &api(), &web()), ErrorReason::UpstreamMalformed);
    fails(validate_comment_links(&repo(), 7, None, Some(11), &Presence::Null, &api_link, &web_link, &api(), &web()), ErrorReason::UpstreamIdentityMismatch);
    let other = present("https://api.github.com/repos/octo/hello/issues/8");
    let error = validate_comment_links(&repo(), 7, None, Some(11), &other, &api_link, &web_link, &api(), &web()).unwrap_err();
    assert_eq!(error.category, ErrorCategory::NotFound);
    assert_eq!(error.message, "GitHub comment does not belong to the addressed pull request");
    assert_eq!(reason(&error), Some(ErrorReason::UpstreamIdentityMismatch));
    let stale = present("https://github.com/octo/hello/pull/7#issuecomment-99");
    fails(validate_comment_links(&repo(), 7, None, Some(11), &issue, &api_link, &stale, &api(), &web()), ErrorReason::UpstreamIdentityMismatch);
}

#[test]
fn routes_compare_decoded_segments_below_the_prefix() {
    let route = vec!["users".to_string(), "dependabot[bot]".to_string()];
    let link = url("https://api.github.com/users/dependabot%5Bbot%5D");
    assert!(route_matches(&link, &api(), &route).unwrap());
    assert!(route_matches(&url("https://api.github.com/Users/DEPENDABOT%5BBOT%5D"), &api(), &route).unwrap());
    assert!(!route_matches(&url("https://api.github.com/users/dependabot%5Bbot%5D/x"), &api(), &route).unwrap());
    assert!(!route_matches(&url("https://api.github.com/users"), &api(), &route).unwrap());
    let enterprise = url("https://ghe.example/api/v3/");
    let login = vec!["users".to_string(), "octo".to_string()];
    assert!(route_matches(&url("https://ghe.example/api/v3/users/octo"), &enterprise, &login).unwrap());
    assert!(!route_matches(&url("https://ghe.example/users/octo"), &enterprise, &login).unwrap());
    let error = route_matches(&url("https://api.github.com/users/%zz"), &api(), &login).unwrap_err();
    assert_eq!(reason(&error), Some(ErrorReason::UpstreamMalformed));
}

#[test]
fn account_links_follow_their_routes() {
    let routes = vec![vec!["octo".to_string()], vec!["apps".to_string(), "octo".to_string()]];
    assert!(validate_account_link(&present("https://github.com/apps/octo"), &web(), &routes).is_ok());
    assert!(validate_account_link(&Presence::Omitted, &web(), &routes).is_ok());
    fails(validate_account_link(&present("https://github.com/octo?tab=repos"), &web(), &routes), ErrorReason::UpstreamIdentityMismatch);
    fails(validate_account_link(&present("::"), &web(), &routes), ErrorReason::UpstreamMalformed);
    fails(validate_account_link(&present("https://github.com/other"), &web(), &routes), ErrorReason::UpstreamIdentityMismatch);
}

fn actor(login: &str, api_url: &str, html_url: &str) -> Presence<Actor> {
    Presence::Present(Actor { login: present(login), url: present(api_url), html_url: present(html_url) })
}

#[test]
fn accounts_are_checked_by_login() {
    let app = actor(
        "dependabot[bot]",
        "https://api.github.com/users/dependabot%5Bbot%5D",
        "https://github.com/apps/dependabot",
    );
    assert!(validate_account(&app, &api(), &web()).is_ok());
    let user = actor("octo", "https://api.github.com/users/octo", "https://github.com/octo");
    assert!(validate_account(&user, &api(), &web()).is_ok());
    let no_app = actor("octo", "https://api.github.com/users/octo", "https://github.com/apps/octo");
    fails(validate_account(&no_app, &api(), &web()), ErrorReason::UpstreamIdentityMismatch);
    let bare_bot = actor("[bot]", "https://api.github.com/users/%5Bbot%5D", "https://github.com/apps/");
    fails(validate_account(&bare_bot, &api(), &web()), ErrorReason::UpstreamIdentityMismatch);
    fails(validate_account(&actor("..", "x", "y"), &api(), &web()), ErrorReason::UpstreamMalformed);
    assert!(validate_account(&Presence::Null, &api(), &web()).is_ok());
    let missing = Presence::Present(Actor { login: Presence::Null, url: Presence::Omitted, html_url: Presence::Omitted });
    fails(validate_account(&missing, &api(), &web()), ErrorReason::UpstreamMalformed);
}
