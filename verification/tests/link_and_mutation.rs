use resourcefs_sources::error::{ErrorCategory, ErrorReason, ResourceError};
use resourcefs_sources::frontmatter::{parse_frontmatter, parse_string_scalar, FrontmatterValue};
use resourcefs_sources::github::{api_base, GithubRepositoryIdentity};
use resourcefs_sources::link::{
    classify_facts_status, classify_status, collection_step, continuation_page, is_repository_id_path,
    next_link, next_link_target, CollectionStep,
};
use resourcefs_sources::mutation::{
    authorize_creation, classify_mutation_response, parse_creation_submission, validate_object_web_url,
    validate_replacement, CreationSubmission, GithubCreationTarget, GithubFieldTarget, MutationAccess,
    MutationCommitFailure, RepositoryGrants,
};

fn repo() -> GithubRepositoryIdentity {
    GithubRepositoryIdentity { owner: "owner".to_string(), repository: "repo".to_string() }
}

fn chars(s: &str) -> Vec<char> {
    s.chars().collect()
}

#[test]
fn next_link_is_found_among_relations() {
    let header = "<https://api.github.com/repositories/1/issues?page=2>; rel=\"next\", <https://api.github.com/repositories/1/issues?page=5>; rel=\"last\"";
    assert_eq!(
        next_link_target(header).expect("well formed").as_deref(),
        Some("https://api.github.com/repositories/1/issues?page=2")
    );
    assert_eq!(next_link_target("<a>; REL=Next").expect("case").as_deref(), Some("a"));
    assert_eq!(next_link_target("<a>; rel=\"prev next\"").expect("list").as_deref(), Some("a"));
    assert_eq!(
        next_link_target("<a>; title=\"x, y\"; rel=next").expect("quoted comma").as_deref(),
        Some("a")
    );
    assert_eq!(next_link_target("<a>; rel=\"last\"").expect("no next"), None);
    assert_eq!(next_link_target("").expect("empty"), None);
}

#[test]
fn malformed_link_headers_are_refused() {
    for header in ["https://x; rel=next", "<a; rel=next", "<a>; rel", "<a>; rel=next, <b>; rel=next"] {
        let error = next_link_target(header).expect_err(header);
        assert_eq!(error.category, ErrorCategory::SourceUnavailable);
        assert_eq!(error.message, "GitHub pagination Link is malformed");
    }
}

#[test]
fn next_pages_stay_on_the_repository_endpoint() {
    let base = api_base("https://api.github.com/").expect("base");
    let inside = next_link(
        Some("<https://api.github.com/repositories/42/issues?per_page=100&page=3>; rel=\"next\""),
        &base,
        "/repos/owner/repo/issues",
        "issues",
    )
    .expect("same family")
    .expect("a next page");
    assert_eq!(continuation_page(&inside).expect("numeric page"), 3);
    let other_host = next_link(
        Some("<https://evil.example/repos/owner/repo/issues?page=2>; rel=\"next\""),
        &base,
        "/repos/owner/repo/issues",
        "issues",
    )
    .expect_err("other origin");
    assert_eq!(other_host.category, ErrorCategory::PermissionDenied);
    assert!(is_repository_id_path("/", "/repositories/42/issues", "issues"));
    assert!(!is_repository_id_path("/", "/repositories/4x2/issues", "issues"));
    assert!(!is_repository_id_path("/", "/repositories/42/pulls", "issues"));
}

#[test]
fn collection_stops_after_ten_pages() {
    let base = api_base("https://api.github.com/").expect("base");
    let page = |n: u32| {
        let header = format!("<https://api.github.com/repos/owner/repo/issues?page={n}>; rel=\"next\"");
        next_link(Some(&header), &base, "/repos/owner/repo/issues", "issues").expect("same family").expect("next")
    };
    let next = page(11);
    match collection_step(10, Some(next)).expect("numeric") {
        CollectionStep::Truncated(page) => assert_eq!(page, 11),
        other => panic!("unexpected {other:?}"),
    }
    let again = page(4);
    assert!(matches!(collection_step(3, Some(again)).expect("fetch"), CollectionStep::Fetch(_)));
    assert!(matches!(collection_step(3, None).expect("done"), CollectionStep::Complete));
}

#[test]
fn upstream_statuses_become_typed_refusals() {
    assert!(classify_status(204, None, false).is_ok());
    let limited = classify_status(403, Some(0), false).expect_err("rate limited");
    assert_eq!(limited.category, ErrorCategory::SourceUnavailable);
    assert_eq!(limited.message, "GitHub rate limit is exhausted");
    let denied = classify_status(403, Some(5), false).expect_err("denied");
    assert_eq!(denied.category, ErrorCategory::PermissionDenied);
    let odd = classify_status(418, None, false).expect_err("teapot");
    assert_eq!(odd.message, "GitHub upstream returned HTTP status 418");

    let facts = classify_facts_status(404, None, Some(30), Some(1_720_000_000)).expect_err("missing");
    assert_eq!(facts.category, ErrorCategory::NotFound);
    let details = facts.details.expect("details");
    assert_eq!(details.reason, ErrorReason::UpstreamNotFoundOrHidden);
    assert_eq!(details.http_status, Some(404));
    assert!(details.missing_or_access_hidden);
    assert_eq!(details.retry_delay_seconds, Some(30));
    assert_eq!(details.rate_limit_reset, Some(1_720_000_000));
}

#[test]
fn frontmatter_reads_fields_and_body() {
    let (fields, body) = parse_frontmatter("---\ntitle: Hello\n---\nBody text").expect("document");
    assert_eq!(fields, vec![("title".to_string(), FrontmatterValue::String("Hello".to_string()))]);
    assert_eq!(body, "Body text");
    let (fields, body) = parse_frontmatter("---\r\ntitle: 'It''s'\r\n---\r\nB").expect("crlf");
    assert_eq!(fields, vec![("title".to_string(), FrontmatterValue::String("It's".to_string()))]);
    assert_eq!(body, "B");
    let (fields, _) = parse_frontmatter("---\ntitle: \"a\\u0041\"\n\ndraft: false\n---\n").expect("json escape");
    assert_eq!(
        fields,
        vec![
            ("title".to_string(), FrontmatterValue::String("aA".to_string())),
            ("draft".to_string(), FrontmatterValue::Boolean(false)),
        ]
    );
}

#[test]
fn frontmatter_refuses_other_yaml() {
    let cases = [
        ("title: x", "creation document must begin with an exact '---' delimiter line"),
        ("---\ntitle: x\n", "creation document frontmatter is missing its closing '---' delimiter"),
        ("---\nTitle: x\n---\n", "frontmatter keys must be lowercase ASCII without whitespace"),
        ("---\ntitle x\n---\n", "frontmatter lines must use one 'key: value' scalar"),
        ("---\ntitle: a\ntitle: b\n---\n", "frontmatter fields must not be duplicated"),
        ("---\ntitle:  \n---\n", "frontmatter field must have a scalar value"),
    ];
    for (document, message) in cases {
        let error = parse_frontmatter(document).expect_err(document);
        assert_eq!(error.category, ErrorCategory::InvalidReference);
        assert_eq!(error.message, message, "{document:?}");
    }
}

#[test]
fn plain_scalars_that_yaml_reads_otherwise_are_refused() {
    for value in ["42", "1_000", "-0x1F", ".inf", "inf", "1e5", ".5", "null", "~", "true", "a # b", "a: b", "[x]", "- x", "x'"] {
        let error = parse_string_scalar(&chars(value)).expect_err(value);
        assert_eq!(error.message, "frontmatter value uses unsupported YAML syntax; quote one-line strings", "{value:?}");
    }
    for value in ["1e5x", "v1.2", "a#b", "hello world"] {
        assert_eq!(parse_string_scalar(&chars(value)).expect(value), value);
    }
    assert_eq!(
        parse_string_scalar(&chars("'a'b'")).expect_err("lone quote").message,
        "single quote inside a quoted scalar must be doubled"
    );
    assert_eq!(
        parse_string_scalar(&chars("\"a\\nb\"")).expect_err("newline").message,
        "frontmatter strings must remain on one logical line"
    );
    assert_eq!(
        parse_string_scalar(&chars("\"a")).expect_err("bad json").message,
        "double-quoted frontmatter strings must use JSON escapes"
    );
}

#[test]
fn creation_documents_become_submissions() {
    let pull = GithubCreationTarget::Pull { repository: repo() };
    let submission = parse_creation_submission(
        &pull,
        "---\ntitle: T\nhead: feature\nbase: main\ndraft: true\n---\nDesc",
    )
    .expect("pull");
    assert_eq!(
        submission,
        CreationSubmission::Pull {
            title: "T".to_string(),
            head: "feature".to_string(),
            base: "main".to_string(),
            draft: Some(true),
            body: "Desc".to_string(),
        }
    );
    let draft = parse_creation_submission(&pull, "---\ntitle: T\nhead: f\nbase: m\ndraft: yes\n---\n")
        .expect_err("string draft");
    assert_eq!(draft.message, "pull request frontmatter field 'draft' must be true or false");
    let issue = GithubCreationTarget::Issue { repository: repo() };
    assert_eq!(
        parse_creation_submission(&issue, "---\nlabels: x\ntitle: T\n---\n").expect_err("labels").message,
        "frontmatter contains an unsupported field"
    );
    assert_eq!(
        parse_creation_submission(&issue, "---\n---\n").expect_err("no title").message,
        "frontmatter field 'title' is required"
    );
    assert_eq!(
        parse_creation_submission(&issue, "---\ntitle: '  '\n---\n").expect_err("blank").message,
        "issue title must not be blank"
    );
    let comment = GithubCreationTarget::IssueComment { repository: repo(), number: 7 };
    assert_eq!(
        parse_creation_submission(&comment, "  \n").expect_err("blank comment").message,
        "conversation comment must not be blank"
    );
    assert_eq!(
        GithubCreationTarget::PullComment { repository: repo(), number: 9 }.mutation_suffix(),
        "issues/9/comments"
    );
    assert_eq!(
        GithubFieldTarget::PullComment { repository: repo(), number: 9, id: 12 }.mutation_suffix(),
        "issues/comments/12"
    );
}

#[test]
fn mutation_responses_say_whether_the_outcome_is_known() {
    assert!(classify_mutation_response(200, false, None, false, 200, true).is_ok());
    match classify_mutation_response(500, false, None, false, 200, true) {
        Err(MutationCommitFailure::Unknown(e)) => assert_eq!(e.category, ErrorCategory::SourceUnavailable),
        other => panic!("unexpected {other:?}"),
    }
    match classify_mutation_response(422, false, None, false, 200, true) {
        Err(MutationCommitFailure::Conclusive(e)) => {
            assert_eq!(e.category, ErrorCategory::InvalidReference);
            assert_eq!(e.message, "GitHub rejected the mutation input");
        },
        other => panic!("unexpected {other:?}"),
    }
    match classify_mutation_response(204, false, None, false, 200, true) {
        Err(MutationCommitFailure::Unknown(e)) => {
            assert_eq!(e.message, "GitHub mutation returned unexpected success status 204")
        },
        other => panic!("unexpected {other:?}"),
    }
    match classify_mutation_response(200, true, None, false, 200, false) {
        Err(MutationCommitFailure::Conclusive(e)) => assert_eq!(e.category, ErrorCategory::SourceUnavailable),
        other => panic!("unexpected {other:?}"),
    }
    match classify_mutation_response(418, false, None, false, 201, true) {
        Err(MutationCommitFailure::Conclusive(e)) => {
            assert_eq!(e.message, "GitHub mutation returned HTTP status 418")
        },
        other => panic!("unexpected {other:?}"),
    }
}

#[test]
fn object_urls_must_name_the_addressed_object() {
    assert!(validate_object_web_url("https://github.com/Owner/Repo/issues/7", &repo(), "issues", 7).is_ok());
    let cases = [
        ("http://github.com/owner/repo/issues/7", "GitHub object URL must use HTTPS"),
        ("https://github.com/owner/repo/pull/8", "GitHub object URL does not match its requested repository identity"),
        ("https://github.com/x/y", "GitHub object URL does not name a repository object"),
        ("https://github.com/owner/repo/issues/seven", "GitHub object URL number is invalid"),
        ("not a url", "GitHub object URL is malformed"),
    ];
    for (url, message) in cases {
        assert_eq!(validate_object_web_url(url, &repo(), "issues", 7).expect_err(url).message, message);
    }
}

#[test]
fn blank_titles_and_comments_are_refused_and_grants_are_checked() {
    let title = GithubFieldTarget::IssueTitle { repository: repo(), number: 1 };
    assert_eq!(validate_replacement(&title, " \t").expect_err("blank").category, ErrorCategory::InvalidReference);
    let body = GithubFieldTarget::IssueBody { repository: repo(), number: 1 };
    assert!(validate_replacement(&body, "").is_ok());
    let grants = RepositoryGrants { create: false, update: true };
    assert_eq!(
        authorize_creation(Some(grants), MutationAccess::Create).expect_err("no grant").message,
        "GitHub repository create grant is required for Creation Targets"
    );
    assert_eq!(
        authorize_creation(None, MutationAccess::Create).expect_err("not allowlisted").category,
        ErrorCategory::PermissionDenied
    );
}

use resourcefs_sources::mutation::GithubAddress;
use resourcefs_sources::resource::{IssueResource, PullRequestResource};

fn octo() -> GithubRepositoryIdentity {
    GithubRepositoryIdentity { owner: "octo".to_string(), repository: "hello".to_string() }
}

#[test]
fn field_targets_are_titles_bodies_and_conversation_comments() {
    let item = |resource| GithubAddress::IssueItem { repository: octo(), number: 7, resource };
    match GithubFieldTarget::parse(false, item(IssueResource::Comment(9))).unwrap() {
        GithubFieldTarget::IssueComment { repository, number, id } => {
            assert_eq!((repository.owner.as_str(), number, id), ("octo", 7, 9));
        }
        other => panic!("unexpected {other:?}"),
    }
    assert!(matches!(GithubFieldTarget::parse(false, item(IssueResource::Title)).unwrap(), GithubFieldTarget::IssueTitle { number: 7, .. }));
    let pull = GithubAddress::PullItem { repository: octo(), number: 3, resource: PullRequestResource::Body };
    assert!(matches!(GithubFieldTarget::parse(false, pull).unwrap(), GithubFieldTarget::PullBody { number: 3, .. }));
    let selector = GithubFieldTarget::parse(true, item(IssueResource::Title)).unwrap_err();
    assert_eq!(selector.category, ErrorCategory::InvalidReference);
    assert_eq!(selector.message, "GitHub Field mutation requires a canonical reference without a selector");
    for address in [
        item(IssueResource::Comments),
        GithubAddress::PullItem { repository: octo(), number: 3, resource: PullRequestResource::Review(1) },
        GithubAddress::IssueCollection { repository: octo() },
    ] {
        let error = GithubFieldTarget::parse(false, address).unwrap_err();
        assert_eq!(error.category, ErrorCategory::UnsupportedMutation);
        assert_eq!(error.message, "GitHub mutation supports only existing title, body, and stable conversation-comment Fields");
    }
    let other = GithubFieldTarget::parse(false, GithubAddress::Other).unwrap_err();
    assert_eq!(other.message, "GitHub mutation accepts only issue:// or pr:// Field references");
}

#[test]
fn creation_targets_are_new_items_and_new_comments() {
    assert!(matches!(GithubCreationTarget::parse(false, GithubAddress::IssueNew { repository: octo() }).unwrap(), GithubCreationTarget::Issue { .. }));
    assert!(matches!(GithubCreationTarget::parse(false, GithubAddress::PullNew { repository: octo() }).unwrap(), GithubCreationTarget::Pull { .. }));
    let comments = GithubAddress::PullItem { repository: octo(), number: 4, resource: PullRequestResource::CommentsNew };
    assert!(matches!(GithubCreationTarget::parse(false, comments).unwrap(), GithubCreationTarget::PullComment { number: 4, .. }));
    let selector = GithubCreationTarget::parse(true, GithubAddress::IssueNew { repository: octo() }).unwrap_err();
    assert_eq!(selector.message, "Creation Target writes do not accept projection selectors");
    let title = GithubAddress::IssueItem { repository: octo(), number: 4, resource: IssueResource::Title };
    assert_eq!(GithubCreationTarget::parse(false, title).unwrap_err().category, ErrorCategory::UnsupportedMutation);
}

use resourcefs_sources::mutation::{field_mutability, validate_write, MutationTargetMode};

#[test]
fn only_granted_fields_are_mutable() {
    let title = || GithubAddress::IssueItem { repository: octo(), number: 7, resource: IssueResource::Title };
    let granted = Some(RepositoryGrants { create: false, update: true });
    let read_only = Some(RepositoryGrants { create: true, update: false });
    assert!(field_mutability(false, title(), granted).unwrap());
    assert!(!field_mutability(false, title(), read_only).unwrap());
    assert!(!field_mutability(false, title(), None).unwrap());
    let comments = GithubAddress::IssueItem { repository: octo(), number: 7, resource: IssueResource::Comments };
    assert!(!field_mutability(false, comments, granted).unwrap());
    assert!(!field_mutability(false, GithubAddress::Other, granted).unwrap());
    let selector = field_mutability(true, title(), granted).unwrap_err();
    assert_eq!(selector.category, ErrorCategory::InvalidReference);
}

#[test]
fn writes_are_checked_against_their_mode() {
    let title = || GithubAddress::IssueItem { repository: octo(), number: 7, resource: IssueResource::Title };
    let body = GithubAddress::IssueItem { repository: octo(), number: 7, resource: IssueResource::Body };
    assert!(validate_write(MutationTargetMode::AuthoritativeText, false, title(), "New title").is_ok());
    let blank = validate_write(MutationTargetMode::AuthoritativeText, false, title(), "  ").unwrap_err();
    assert_eq!(blank.message, "GitHub titles and conversation comments must not be blank");
    assert!(validate_write(MutationTargetMode::AuthoritativeText, false, body, "").is_ok());
    let new_comment = GithubAddress::IssueItem { repository: octo(), number: 7, resource: IssueResource::CommentsNew };
    assert!(validate_write(MutationTargetMode::CreationTarget, false, new_comment.clone(), "hello").is_ok());
    let empty = validate_write(MutationTargetMode::CreationTarget, false, new_comment, " ").unwrap_err();
    assert_eq!(empty.category, ErrorCategory::InvalidReference);
    let not_creation = validate_write(MutationTargetMode::CreationTarget, false, title(), "x").unwrap_err();
    assert_eq!(not_creation.category, ErrorCategory::UnsupportedMutation);
    let authored = validate_write(MutationTargetMode::AuthoredText, false, title(), "x").unwrap_err();
    assert_eq!(authored.category, ErrorCategory::SourceUnavailable);
    assert_eq!(authored.message, "GitHub Source Adapter received an authored-text target mode");
}

use resourcefs_sources::mutation::after_cache_cleared;

#[test]
fn an_uncleared_cache_leaves_a_written_outcome_unknown() {
    assert!(after_cache_cleared(Ok(())).is_ok());
    match after_cache_cleared(Err(ResourceError::new(ErrorCategory::SourceUnavailable, "session gone"))) {
        Err(MutationCommitFailure::Unknown(e)) => assert_eq!(e.message, "session gone"),
        other => panic!("unexpected {other:?}"),
    }
}

use resourcefs_sources::mutation::mutation_route;

#[test]
fn mutations_post_creations_and_patch_fields() {
    let new_issue = GithubAddress::IssueNew { repository: octo() };
    assert_eq!(mutation_route(true, false, new_issue).unwrap(), ("POST".to_string(), "issues".to_string()));
    let comments = GithubAddress::PullItem { repository: octo(), number: 9, resource: PullRequestResource::CommentsNew };
    assert_eq!(mutation_route(true, false, comments).unwrap(), ("POST".to_string(), "issues/9/comments".to_string()));
    let title = GithubAddress::PullItem { repository: octo(), number: 9, resource: PullRequestResource::Title };
    assert_eq!(mutation_route(false, false, title).unwrap(), ("PATCH".to_string(), "pulls/9".to_string()));
    let comment = GithubAddress::IssueItem { repository: octo(), number: 9, resource: IssueResource::Comment(5) };
    assert_eq!(mutation_route(false, false, comment).unwrap(), ("PATCH".to_string(), "issues/comments/5".to_string()));
    assert_eq!(mutation_route(false, false, GithubAddress::Other).unwrap_err().category, ErrorCategory::UnsupportedMutation);
}
