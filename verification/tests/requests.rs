use resourcefs_sources::error::{
    AcquisitionLimitKind, ErrorCategory, ErrorDetails, ErrorReason, LimitDetail, ResourceError,
};
use resourcefs_sources::fetch::{
    after_cache_put, cache_key_text, collection_query, endpoint, github_request, page_url, request_with_github_headers,
    revalidation, truncated_refusal, validator_refusal,
};
use resourcefs_sources::github::{api_base, GithubRepositoryIdentity, ParsedUrl};
use resourcefs_sources::identity::web_origin;
use resourcefs_sources::request::{HttpMethod, HttpRequest, RedirectBehavior};

fn api() -> ParsedUrl {
    api_base("https://api.github.com").unwrap()
}

fn repo() -> GithubRepositoryIdentity {
    GithubRepositoryIdentity { owner: "octo".to_string(), repository: "hello".to_string() }
}

fn names(request: &HttpRequest) -> Vec<(&str, &str)> {
    request.headers.iter().map(|h| (h.name.as_str(), h.value.as_str())).collect()
}

fn refusal(result: Result<HttpRequest, ResourceError>) -> (ErrorCategory, String) {
    let error = result.unwrap_err();
    assert!(error.details.is_none());
    (error.category, error.message)
}

fn invalid(message: &str) -> (ErrorCategory, String) {
    (ErrorCategory::InvalidReference, message.to_string())
}

#[test]
fn get_requests_follow_reads_and_start_without_headers() {
    let request = HttpRequest::get(api());
    assert_eq!(request.method, HttpMethod::Get);
    assert_eq!(request.redirect, RedirectBehavior::FollowReads);
    assert!(request.body.is_none());
    assert!(request.headers.is_empty());
    assert_eq!(request.url().text, "https://api.github.com/");
}

#[test]
fn header_names_are_normalized_and_validated() {
    let request = HttpRequest::get(api()).with_header("X-Custom", "v").unwrap();
    assert_eq!(names(&request), vec![("x-custom", "v")]);
    assert_eq!(request.header_bytes, 9);
    assert_eq!(refusal(HttpRequest::get(api()).with_header("bad name", "v")), invalid("HTTP request header name is invalid"));
    assert_eq!(refusal(HttpRequest::get(api()).with_header("", "v")), invalid("HTTP request header name is invalid"));
    for name in ["Authorization", "proxy-authorization", "Cookie", "HOST", "Connection", "Transfer-Encoding", "Content-Length", "TE", "Trailer", "Upgrade"] {
        assert_eq!(
            refusal(HttpRequest::get(api()).with_header(name, "v")),
            invalid("HTTP source header must not control authority, cookies, host, or message framing")
        );
    }
    let twice = request.with_header("x-CUSTOM", "w");
    assert_eq!(refusal(twice), invalid("HTTP source headers must not contain duplicate names"));
}

#[test]
fn header_values_refuse_control_bytes() {
    assert_eq!(refusal(HttpRequest::get(api()).with_header("X-A", "a\nb")), invalid("HTTP request header value is invalid"));
    assert_eq!(refusal(HttpRequest::get(api()).with_header("X-A", "a\u{7f}")), invalid("HTTP request header value is invalid"));
    assert!(HttpRequest::get(api()).with_header("X-A", "tab\there").is_ok());
    assert!(HttpRequest::get(api()).with_header("X-A", "caf\u{e9}").is_ok());
}

#[test]
fn headers_have_count_and_byte_ceilings() {
    let mut request = HttpRequest::get(api());
    for i in 0..16 {
        request = request.with_header(&format!("x-h{i:02}"), "v").unwrap();
    }
    assert_eq!(
        refusal(request.with_header("x-more", "v")),
        (ErrorCategory::LimitExceeded, "HTTP request exceeds the 16-header source ceiling".to_string())
    );
    let fits = HttpRequest::get(api()).with_header("X-Ab", &"a".repeat(16_380)).unwrap();
    assert_eq!(fits.header_bytes, 16_384);
    assert_eq!(
        refusal(fits.with_header("x-b", "")),
        (ErrorCategory::LimitExceeded, "HTTP request source headers exceed the 16384-byte ceiling".to_string())
    );
}

#[test]
fn json_requests_refuse_redirects_and_own_their_content_type() {
    let post = HttpRequest::post_json(api(), b"{}".to_vec()).unwrap();
    assert_eq!(post.method, HttpMethod::Post);
    assert_eq!(post.redirect, RedirectBehavior::Refuse);
    assert_eq!(post.body.as_deref(), Some(&b"{}"[..]));
    assert_eq!(
        refusal(post.with_header("Content-Type", "text/plain")),
        invalid("HTTP JSON mutation requests own their Content-Type header")
    );
    let patch = HttpRequest::patch_json(api(), Vec::new()).unwrap();
    assert_eq!(patch.method, HttpMethod::Patch);
    assert!(HttpRequest::get(api()).with_header("Content-Type", "text/plain").is_ok());
    let huge = HttpRequest::post_json(api(), vec![0_u8; 402_718_721]).unwrap_err();
    assert_eq!(huge.category, ErrorCategory::LimitExceeded);
    assert_eq!(huge.message, "HTTP mutation request body exceeds the 402718720-byte encoded ceiling");
    assert!(HttpRequest::patch_json(api(), vec![0_u8; 402_718_720]).is_ok());
}

#[test]
fn only_reads_are_replayed() {
    let get = HttpRequest::get(api()).with_header("Accept", "x").unwrap();
    let copy = get.retry_copy().unwrap();
    assert_eq!(names(&copy), vec![("accept", "x")]);
    assert_eq!(copy.header_bytes, get.header_bytes);
    assert_eq!(copy.url.text, get.url.text);
    assert!(HttpRequest::post_json(api(), Vec::new()).unwrap().retry_copy().is_none());
}

#[test]
fn github_requests_carry_the_api_headers() {
    let request = github_request(api(), "application/vnd.github+json", None).unwrap();
    assert_eq!(
        names(&request),
        vec![
            ("accept", "application/vnd.github+json"),
            ("user-agent", "resourcefs/1.0"),
            ("x-github-api-version", "2022-11-28"),
        ]
    );
    let conditional = github_request(api(), "application/vnd.github.diff", Some("\"abc\"")).unwrap();
    assert_eq!(conditional.headers[3].name, "if-none-match");
    assert_eq!(conditional.headers[3].value, "\"abc\"");
    let bad = github_request(api(), "application/vnd.github+json", Some("a\nb")).unwrap_err();
    assert_eq!(bad.message, "HTTP request header value is invalid");
    let oversized = github_request(api(), "application/vnd.github+json", Some(&"e".repeat(20_000))).unwrap_err();
    assert_eq!(oversized.category, ErrorCategory::LimitExceeded);
    let post = HttpRequest::post_json(api(), b"{}".to_vec()).unwrap();
    assert_eq!(request_with_github_headers(post, "application/vnd.github+json").unwrap().headers.len(), 3);
}

#[test]
fn endpoints_and_pages_stay_below_the_api_base() {
    assert_eq!(endpoint(&api(), &repo(), "issues/7").unwrap().text, "https://api.github.com/repos/octo/hello/issues/7");
    let enterprise = api_base("https://ghe.example/api/v3").unwrap();
    assert_eq!(
        endpoint(&enterprise, &repo(), "pulls").unwrap().text,
        "https://ghe.example/api/v3/repos/octo/hello/pulls"
    );
    let opaque = web_origin("mailto:someone@example.com").unwrap();
    let error = endpoint(&opaque, &repo(), "issues").unwrap_err();
    assert_eq!(error.category, ErrorCategory::InvalidReference);
    assert_eq!(error.message, "GitHub API endpoint could not be constructed");
    assert_eq!(
        page_url(&api(), &repo(), "issues", &collection_query(), 3).unwrap().text,
        "https://api.github.com/repos/octo/hello/issues?state=all&sort=updated&direction=desc&per_page=100&page=3"
    );
    assert_eq!(
        page_url(&api(), &repo(), "issues/7/comments", &[], 1).unwrap().text,
        "https://api.github.com/repos/octo/hello/issues/7/comments?per_page=100&page=1"
    );
    let pairs = vec![("q".to_string(), "a b&c".to_string())];
    assert_eq!(
        page_url(&api(), &repo(), "pulls", &pairs, 2).unwrap().text,
        "https://api.github.com/repos/octo/hello/pulls?q=a+b%26c&per_page=100&page=2"
    );
}

#[test]
fn cache_keys_name_the_media_type_and_url() {
    let url = endpoint(&api(), &repo(), "pulls/7").unwrap();
    assert_eq!(cache_key_text(&url, "application/vnd.github.diff"), "application/vnd.github.diff\nhttps://api.github.com/repos/octo/hello/pulls/7");
}

#[test]
fn conditional_fetches_serve_only_current_cache_entries() {
    assert!(revalidation(4, 4, true, true).is_ok());
    let invalidated = revalidation(5, 4, true, true).unwrap_err();
    assert_eq!(invalidated.category, ErrorCategory::SourceUnavailable);
    assert_eq!(invalidated.message, "GitHub read was invalidated by a concurrent mutation; retry the read");
    assert_eq!(invalidated.details.map(|d| d.reason), Some(ErrorReason::UpstreamUnavailable));
    assert!(revalidation(5, 4, true, false).unwrap_err().details.is_none());
    let uncached = revalidation(4, 4, false, true).unwrap_err();
    assert_eq!(uncached.message, "GitHub returned 304 without a session cache entry");
    assert_eq!(uncached.details.map(|d| d.reason), Some(ErrorReason::UpstreamMalformed));
    assert!(revalidation(4, 4, false, false).unwrap_err().details.is_none());
}

#[test]
fn truncated_responses_name_the_ceiling_when_controlled() {
    let controlled = truncated_refusal(true, 1024);
    assert_eq!(controlled.category, ErrorCategory::LimitExceeded);
    assert_eq!(controlled.message, "GitHub response exceeds the bounded HTTP body ceiling");
    let mut expected = ErrorDetails::new(ErrorReason::LimitExceeded);
    expected.limit = Some(LimitDetail { kind: AcquisitionLimitKind::ResponseBodyBytes, bound: 1024, observed: None });
    assert_eq!(controlled.details, Some(expected));
    assert!(truncated_refusal(false, 1024).details.is_none());
}

#[test]
fn cache_and_validator_size_refusals_are_not_read_failures() {
    let limit = ResourceError::new(ErrorCategory::LimitExceeded, "too big");
    let other = ResourceError::new(ErrorCategory::SourceUnavailable, "down");
    assert!(validator_refusal(limit.clone()).is_ok());
    assert_eq!(validator_refusal(other.clone()).unwrap_err().message, "down");
    assert_eq!(after_cache_put(Ok(())).unwrap(), false);
    assert_eq!(after_cache_put(Err(limit)).unwrap(), true);
    assert_eq!(after_cache_put(Err(other)).unwrap_err().message, "down");
}

use resourcefs_sources::fetch::{controlled_step, CachedEntry, FetchDecision};
use resourcefs_sources::link::BodyObservation;

fn entry(observation: Option<BodyObservation>) -> Option<CachedEntry> {
    Some(CachedEntry { body: b"[1]".to_vec(), etag: "\"v1\"".to_string(), link: Some("<x>".to_string()), observation })
}

#[test]
fn not_modified_serves_only_a_current_cache_entry() {
    match controlled_step(304, Ok(()), false, None, Ok(None), entry(None), true, true, 100) {
        FetchDecision::ServeCached { body, link, observation } => {
            assert_eq!(body, b"[1]".to_vec());
            assert_eq!(link.as_deref(), Some("<x>"));
            assert_eq!(observation.etag.as_deref(), Some("\"v1\""));
            assert!(observation.status.is_none());
        }
        other => panic!("unexpected {other:?}"),
    }
    let kept = BodyObservation::legacy("\"v0\"");
    match controlled_step(304, Ok(()), false, None, Ok(None), entry(Some(kept)), true, false, 100) {
        FetchDecision::ServeCached { observation, .. } => assert_eq!(observation.etag.as_deref(), Some("\"v0\"")),
        other => panic!("unexpected {other:?}"),
    }
    match controlled_step(304, Ok(()), false, None, Ok(None), entry(None), false, true, 100) {
        FetchDecision::Refuse(e) => assert_eq!(e.message, "GitHub read was invalidated by a concurrent mutation; retry the read"),
        other => panic!("unexpected {other:?}"),
    }
    match controlled_step(304, Ok(()), false, None, Ok(None), None, true, true, 100) {
        FetchDecision::Refuse(e) => assert_eq!(e.message, "GitHub returned 304 without a session cache entry"),
        other => panic!("unexpected {other:?}"),
    }
}

#[test]
fn fresh_answers_are_stored_by_entity_tag() {
    let link = || Ok(Some("<next>".to_string()));
    assert!(matches!(controlled_step(200, Ok(()), false, Some("\"v2\""), link(), None, true, true, 100), FetchDecision::Store { link: Some(_) }));
    assert!(matches!(controlled_step(200, Ok(()), false, None, link(), entry(None), true, true, 100), FetchDecision::Evict { .. }));
    match controlled_step(200, Ok(()), true, Some("\"v2\""), link(), None, true, true, 100) {
        FetchDecision::Refuse(e) => assert_eq!(e.details.unwrap().limit.unwrap().bound, 100),
        other => panic!("unexpected {other:?}"),
    }
    let denied = ResourceError::new(ErrorCategory::PermissionDenied, "no");
    match controlled_step(403, Err(denied), false, None, link(), None, true, true, 100) {
        FetchDecision::Refuse(e) => assert_eq!(e.category, ErrorCategory::PermissionDenied),
        other => panic!("unexpected {other:?}"),
    }
    let bad_link = ResourceError::new(ErrorCategory::LimitExceeded, "link too long");
    match controlled_step(200, Ok(()), false, None, Err(bad_link), None, true, true, 100) {
        FetchDecision::Refuse(e) => {
            assert_eq!(e.message, "link too long");
            assert_eq!(e.details.map(|d| d.reason), Some(ErrorReason::UpstreamMalformed));
        }
        other => panic!("unexpected {other:?}"),
    }
}

use resourcefs_sources::fetch::admit_decision;
use resourcefs_sources::http::{HttpReadBudget, ReadAcquisitionLimits, Span};

#[test]
fn controlled_reads_charge_what_they_accept() {
    let limits = ReadAcquisitionLimits {
        max_attempts: 3,
        timeout: Span::from_secs(10),
        max_response_bytes: 10,
        max_accepted_body_bytes: 15,
        max_representation_bytes: 100,
    };
    let mut budget = HttpReadBudget::with_limits(&limits);
    assert!(matches!(admit_decision(&mut budget, FetchDecision::Store { link: None }, false, 8), FetchDecision::Store { .. }));
    assert_eq!(budget.accepted_body_bytes, 8);
    let cached = FetchDecision::ServeCached { body: vec![0; 5], link: None, observation: BodyObservation::legacy("e") };
    assert!(matches!(admit_decision(&mut budget, cached, false, 0), FetchDecision::ServeCached { .. }));
    assert_eq!(budget.accepted_body_bytes, 13);
    match admit_decision(&mut budget, FetchDecision::Evict { link: None }, false, 3) {
        FetchDecision::Refuse(e) => assert_eq!(e.category, ErrorCategory::LimitExceeded),
        other => panic!("unexpected {other:?}"),
    }
    assert_eq!(budget.accepted_body_bytes, 13);
    let denied = FetchDecision::Refuse(ResourceError::new(ErrorCategory::PermissionDenied, "no"));
    assert!(matches!(admit_decision(&mut budget, denied, false, 9), FetchDecision::Refuse(e) if e.category == ErrorCategory::PermissionDenied));
    assert_eq!(budget.accepted_body_bytes, 13);
    let mut fresh = HttpReadBudget::with_limits(&limits);
    let cut = FetchDecision::Refuse(truncated_refusal(true, 10));
    match admit_decision(&mut fresh, cut, true, 10) {
        FetchDecision::Refuse(e) => assert_eq!(e.details.unwrap().limit.unwrap().observed, Some(11)),
        other => panic!("unexpected {other:?}"),
    }
}
