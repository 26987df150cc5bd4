use resourcefs_sources::error::{ErrorCategory, ErrorReason, ResourceError};
use resourcefs_sources::facts::Presence;
use resourcefs_sources::github::{api_base, GithubRepositoryIdentity, ParsedUrl};
use resourcefs_sources::identity::{
    web_origin,expected_object_url, expected_web_commit_url, Actor};
use resourcefs_sources::records::{
    validate_comment, validate_commit, validate_inline_comment, validate_pull_object, validate_review,
    NativeComment, NativeCommit, NativeCommitData, NativeInlineComment, NativeParent, NativeReview,
    NativeTree, PullObject,
};

const SHA: &str = "0123456789abcdef0123456789abcdef01234567";
const TREE: &str = "89abcdef0123456789abcdef0123456789abcdef";
const PARENT: &str = "fedcba9876543210fedcba9876543210fedcba98";

fn url(text: &str) -> ParsedUrl {
    web_origin(text).unwrap()
}

fn api() -> ParsedUrl {
    api_base("https://api.github.com").unwrap()
}

fn web() -> ParsedUrl {
    url("https://github.com/")
}

fn repo() -> GithubRepositoryIdentity {
    GithubRepositoryIdentity { owner: "octo".to_string(), repository: "hello".to_string() }
}

fn present(text: &str) -> Presence<String> {
    Presence::Present(text.to_string())
}

fn reason(error: &ResourceError) -> Option<ErrorReason> {
    error.details.map(|d| d.reason)
}

#[test]
fn expected_urls_join_below_their_bases() {
    let object = expected_object_url(&api(), &repo(), "pulls/7").unwrap();
    assert_eq!(object.text, "https://api.github.com/repos/octo/hello/pulls/7");
    let enterprise = url("https://ghe.example/api/v3/");
    let object = expected_object_url(&enterprise, &repo(), "pulls/comments/3").unwrap();
    assert_eq!(object.text, "https://ghe.example/api/v3/repos/octo/hello/pulls/comments/3");
    let page = expected_web_commit_url(&web(), &repo(), SHA).unwrap();
    assert_eq!(page.text, format!("https://github.com/octo/hello/commit/{SHA}"));
}

fn review(html: &str) -> NativeReview {
    NativeReview {
        id: Presence::Present(5),
        node_id: Presence::Omitted,
        url: present("https://api.github.com/repos/octo/hello/pulls/7/reviews/5"),
        html_url: present(html),
        pull_request_url: present("https://api.github.com/repos/octo/hello/pulls/7"),
        body: present("ok"),
        user: Presence::Null,
        state: present("APPROVED"),
        commit_id: Presence::Null,
        submitted_at: Presence::Omitted,
    }
}

#[test]
fn reviews_must_name_themselves() {
    let validated = validate_review(review("https://github.com/octo/hello/pull/7#pullrequestreview-5"), &repo(), 7, Some(5), &api(), &web()).unwrap();
    let pairs: Vec<(&str, &str)> = validated.unavailable.iter().map(|u| (u.field, u.reason)).collect();
    assert_eq!(pairs, vec![("nodeId", "omitted"), ("author", "null"), ("commitSha", "null"), ("submittedAt", "omitted")]);
    let wrong = validate_review(review("https://github.com/octo/hello/pull/7#pullrequestreview-6"), &repo(), 7, None, &api(), &web());
    assert_eq!(reason(&wrong.unwrap_err()), Some(ErrorReason::UpstreamIdentityMismatch));
    let other_id = validate_review(review("https://github.com/octo/hello/pull/7"), &repo(), 7, Some(6), &api(), &web());
    assert_eq!(reason(&other_id.unwrap_err()), Some(ErrorReason::UpstreamIdentityMismatch));
    let mut foreign = review("opaque");
    foreign.pull_request_url = present("https://api.github.com/repos/octo/hello/pulls/8");
    let error = validate_review(foreign, &repo(), 7, None, &api(), &web()).unwrap_err();
    assert_eq!(error.category, ErrorCategory::NotFound);
    assert_eq!(error.message, "GitHub record does not belong to the addressed pull request");
    let mut stray = review("opaque");
    stray.url = present("https://api.github.com/repos/octo/hello/pulls/7/reviews/9");
    let error = validate_review(stray, &repo(), 7, None, &api(), &web()).unwrap_err();
    assert_eq!(reason(&error), Some(ErrorReason::UpstreamIdentityMismatch));
    let mut anonymous = review("opaque");
    anonymous.id = Presence::Null;
    let error = validate_review(anonymous, &repo(), 7, None, &api(), &web()).unwrap_err();
    assert_eq!(reason(&error), Some(ErrorReason::UpstreamMalformed));
}

#[test]
fn pull_objects_give_their_ids() {
    let pull = present("https://api.github.com/repos/octo/hello/pulls/7");
    let own = present("https://api.github.com/repos/octo/hello/pulls/comments/3");
    let html = present("https://github.com/octo/hello/pull/7#discussion_r3");
    assert_eq!(validate_pull_object(PullObject::ReviewComment, None, Some(3), &pull, &own, &html, &repo(), 7, &api(), &web()).unwrap(), 3);
    let review_html = present("https://github.com/octo/hello/pull/7#pullrequestreview-3");
    let error = validate_pull_object(PullObject::ReviewComment, None, Some(3), &pull, &own, &review_html, &repo(), 7, &api(), &web()).unwrap_err();
    assert_eq!(reason(&error), Some(ErrorReason::UpstreamIdentityMismatch));
}

fn inline() -> NativeInlineComment {
    NativeInlineComment {
        id: Presence::Present(3),
        node_id: present("n"),
        url: present("https://api.github.com/repos/octo/hello/pulls/comments/3"),
        html_url: present("https://github.com/octo/hello/pull/7#discussion_r3"),
        pull_request_url: present("https://api.github.com/repos/octo/hello/pulls/7"),
        pull_request_review_id: Presence::Present(5),
        in_reply_to_id: Presence::Omitted,
        body: present("b"),
        user: Presence::Null,
        created_at: present("t"),
        updated_at: present("t"),
        path: present("src/lib.rs"),
        diff_hunk: present("@@"),
        commit_id: present(SHA),
        original_commit_id: present(SHA),
        side: present("RIGHT"),
        line: Presence::Present(4),
        start_side: Presence::Null,
        start_line: Presence::Null,
        original_line: Presence::Present(4),
        original_start_line: Presence::Null,
        position: Presence::Present(1),
        original_position: Presence::Present(1),
        subject_type: present("line"),
    }
}

#[test]
fn inline_comments_note_missing_fields() {
    let validated = validate_inline_comment(inline(), &repo(), 7, Some(3), &api(), &web()).unwrap();
    let pairs: Vec<(&str, &str)> = validated.unavailable.iter().map(|u| (u.field, u.reason)).collect();
    assert_eq!(
        pairs,
        vec![("replyToId", "omitted"), ("author", "null"), ("startSide", "null"), ("startLine", "null"), ("originalStartLine", "null")]
    );
    let mut elsewhere = inline();
    elsewhere.pull_request_url = Presence::Omitted;
    let error = validate_inline_comment(elsewhere, &repo(), 7, None, &api(), &web()).unwrap_err();
    assert_eq!(error.category, ErrorCategory::NotFound);
}

#[test]
fn conversation_comments_note_missing_fields() {
    let comment = NativeComment {
        id: Presence::Present(11),
        node_id: Presence::Null,
        url: present("https://api.github.com/repos/octo/hello/issues/comments/11"),
        html_url: Presence::Omitted,
        issue_url: present("https://api.github.com/repos/octo/hello/issues/7"),
        body: present("hi"),
        user: Presence::Present(Actor { login: present("octo"), url: Presence::Omitted, html_url: Presence::Omitted }),
        created_at: present("t"),
        updated_at: Presence::Null,
    };
    let validated = validate_comment(comment, &repo(), 7, None, &api(), &web()).unwrap();
    let pairs: Vec<(&str, &str)> = validated.unavailable.iter().map(|u| (u.field, u.reason)).collect();
    assert_eq!(pairs, vec![("nodeId", "null"), ("updatedAt", "null"), ("links.htmlUrl", "omitted")]);
}

fn commit() -> NativeCommit {
    NativeCommit {
        sha: present(SHA),
        url: present(&format!("https://api.github.com/repos/octo/hello/commits/{SHA}")),
        html_url: present(&format!("https://github.com/octo/hello/commit/{SHA}")),
        comments_url: present(&format!("https://api.github.com/repos/octo/hello/commits/{SHA}/comments")),
        commit: Presence::Present(NativeCommitData {
            author: Presence::Omitted,
            committer: Presence::Omitted,
            message: present("m"),
            tree: Presence::Present(NativeTree {
                sha: present(TREE),
                url: present(&format!("https://api.github.com/repos/octo/hello/git/trees/{TREE}")),
            }),
            url: present(&format!("https://api.github.com/repos/octo/hello/git/commits/{SHA}")),
        }),
        author: Presence::Present(Actor {
            login: present("octo"),
            url: present("https://api.github.com/users/octo"),
            html_url: present("https://github.com/octo"),
        }),
        committer: Presence::Null,
        parents: Presence::Present(vec![NativeParent {
            sha: present(PARENT),
            url: present(&format!("https://api.github.com/repos/octo/hello/commits/{PARENT}")),
            html_url: present(&format!("https://github.com/octo/hello/commit/{PARENT}")),
        }]),
    }
}

#[test]
fn commits_are_checked_link_by_link() {
    let endpoint = url(&format!("https://api.github.com/repos/octo/hello/commits/{SHA}"));
    let value = commit();
    let (_, sha, tree, parents) = validate_commit(&value, &repo(), SHA, &endpoint, &api(), &web()).unwrap();
    assert_eq!((sha, tree, parents), (SHA, TREE, vec![0]));
    let error = validate_commit(&value, &repo(), PARENT, &endpoint, &api(), &web()).err().unwrap();
    assert_eq!(reason(&error), Some(ErrorReason::UpstreamIdentityMismatch));
    let mut bad_parent = commit();
    if let Presence::Present(parents) = &mut bad_parent.parents {
        parents[0].html_url = present(&format!("https://github.com/octo/other/commit/{PARENT}"));
    }
    let error = validate_commit(&bad_parent, &repo(), SHA, &endpoint, &api(), &web()).err().unwrap();
    assert_eq!(reason(&error), Some(ErrorReason::UpstreamIdentityMismatch));
    let mut no_tree = commit();
    if let Presence::Present(data) = &mut no_tree.commit {
        data.tree = Presence::Null;
    }
    let error = validate_commit(&no_tree, &repo(), SHA, &endpoint, &api(), &web()).err().unwrap();
    assert_eq!(reason(&error), Some(ErrorReason::UpstreamMalformed));
    let mut bad_account = commit();
    bad_account.author = Presence::Present(Actor {
        login: present("octo"),
        url: present("https://api.github.com/users/other"),
        html_url: Presence::Omitted,
    });
    let error = validate_commit(&bad_account, &repo(), SHA, &endpoint, &api(), &web()).err().unwrap();
    assert_eq!(reason(&error), Some(ErrorReason::UpstreamIdentityMismatch));
    let elsewhere = url("https://api.github.com/repos/octo/hello/commits/other");
    let error = validate_commit(&value, &repo(), SHA, &elsewhere, &api(), &web()).err().unwrap();
    assert_eq!(error.category, ErrorCategory::NotFound);
}

use resourcefs_sources::records::{
    record_id, record_unavailable, validate_native, CollectionFamily, Native, PullRequestFact, Record,
};

#[test]
fn facts_name_collection_families() {
    assert_eq!(CollectionFamily::from_fact(PullRequestFact::Comments).unwrap(), CollectionFamily::Conversation);
    assert_eq!(CollectionFamily::from_fact(PullRequestFact::Reviews).unwrap(), CollectionFamily::Review);
    assert_eq!(CollectionFamily::from_fact(PullRequestFact::ReviewComments).unwrap(), CollectionFamily::Inline);
    for fact in [PullRequestFact::Pull, PullRequestFact::Comment(1), PullRequestFact::Review(2), PullRequestFact::ReviewComment(3)] {
        let error = CollectionFamily::from_fact(fact).unwrap_err();
        assert_eq!(error.category, ErrorCategory::UnsupportedProjection);
    }
    assert_eq!(CollectionFamily::Conversation.suffix(7), "issues/7/comments");
    assert_eq!(CollectionFamily::Review.suffix(7), "pulls/7/reviews");
    assert_eq!(CollectionFamily::Inline.suffix(12), "pulls/12/comments");
    assert_eq!(CollectionFamily::Review.kind(), "github.review_submission_collection");
    assert_eq!(CollectionFamily::Conversation.kind(), "github.conversation_comment_collection");
    assert_eq!(CollectionFamily::Inline.kind(), "github.review_comment_collection");
}

#[test]
fn natives_are_validated_by_their_family() {
    let record = validate_native(Native::Inline(inline()), &repo(), 7, &api(), &web()).unwrap();
    assert_eq!(record_id(&record), 3);
    assert_eq!(record_unavailable(&record).len(), 5);
    assert!(matches!(record, Record::Inline(_)));
    let record = validate_native(Native::Review(review("opaque")), &repo(), 7, &api(), &web()).unwrap();
    assert_eq!(record_id(&record), 5);
    let error = validate_native(Native::Review(review("opaque")), &repo(), 8, &api(), &web()).unwrap_err();
    assert_eq!(error.category, ErrorCategory::NotFound);
}
