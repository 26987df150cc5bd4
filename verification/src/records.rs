//! Validation of the facts records below a pull request: conversation
//! comments, review submissions and inline review comments. A record's
//! identity and links are checked before its unavailable fields are noted,
//! so a contradictory record is never softened into a partial one.
use vstd::prelude::*;
use crate::error::{is_refusal, ErrorCategory, ErrorReason, ResourceError};
use crate::facts::{entry_views, failure, is_facts_failure, note, Presence, Unavailable};
use crate::github::{GithubRepositoryIdentity, ParsedUrl, UrlParts};
use crate::identity::{
    account_spec, comment_links_spec, commit_page_path, expected_object_url, expected_web_commit_url,
    is_foreign_record, is_sha, joined, object_path, present_text, require_object_link, require_observed_id,
    required, sha, spec_matches_object_url, validate_account, validate_comment_links,
    validate_optional_object_link, validate_optional_web_link, web_link_spec, Actor, Verdict, WebFragment,
};
use crate::resource::{unsupported_github_projection, unsupported_message};
use crate::text::{chars_of, decimal, owned, push_decimal, push_str};

verus! {

broadcast use vstd::string::group_string_axioms;

/// The value of a present field.
pub open spec fn value_of<T>(p: Presence<T>) -> Option<T> {
    match p {
        Presence::Present(v) => Some(v),
        _ => None,
    }
}

/// The sentence of a record that names another pull request's object.
pub open spec fn foreign_message() -> Seq<char> {
    "GitHub record does not belong to the addressed pull request"@
}

// ------------------------------------------------------------ object links

/// The two families of objects addressed below a pull request by id.
#[derive(Debug, Clone, Copy, PartialEq, Eq, Structural)]
pub enum PullObject {
    Review,
    ReviewComment,
}

/// The object's own API path below the repository.
pub open spec fn own_suffix(kind: PullObject, number: u64, id: u64) -> Seq<char> {
    match kind {
        PullObject::Review => "pulls/"@ + decimal(number as nat) + "/reviews/"@ + decimal(id as nat),
        PullObject::ReviewComment => "pulls/comments/"@ + decimal(id as nat),
    }
}

/// The web fragment that names the object.
pub open spec fn own_fragment(kind: PullObject, id: u64) -> WebFragment {
    match kind {
        PullObject::Review => WebFragment::Review(id),
        PullObject::ReviewComment => WebFragment::ReviewComment(id),
    }
}

/// How the identity of a review or inline comment ends: it must carry its
/// id (the addressed one, when one was); its pull-request link must name
/// this pull request's API object; its own API link, when a URL, must name
/// its own object; and a recognized web link must name this pull request
/// and, by fragment, this object.
pub open spec fn pull_object_verdict(
    kind: PullObject,
    requested: Option<u64>,
    observed: Option<u64>,
    pull_request_url: Option<Seq<char>>,
    url: Option<Seq<char>>,
    html_url: Option<Seq<char>>,
    repository: GithubRepositoryIdentity,
    number: u64,
    api: UrlParts,
    web: UrlParts,
) -> Verdict {
    match observed {
        None => Verdict::Failed(ErrorReason::UpstreamMalformed),
        Some(o) => if requested matches Some(x) && x != o {
            Verdict::Failed(ErrorReason::UpstreamIdentityMismatch)
        } else {
            match joined(api, object_path(repository, "pulls/"@ + decimal(number as nat))) {
                None => Verdict::Failed(ErrorReason::UpstreamMalformed),
                Some(pull) => if !(pull_request_url matches Some(v) && spec_matches_object_url(v, pull)) {
                    Verdict::Foreign
                } else {
                    match joined(api, object_path(repository, own_suffix(kind, number, o))) {
                        None => Verdict::Failed(ErrorReason::UpstreamMalformed),
                        Some(own) => if url matches Some(v) && !spec_matches_object_url(v, own) {
                            Verdict::Failed(ErrorReason::UpstreamIdentityMismatch)
                        } else {
                            match web_link_spec(html_url, repository, number, web) {
                                Err(e) => Verdict::Failed(e),
                                Ok(Some(f)) => if f != own_fragment(kind, o) {
                                    Verdict::Failed(ErrorReason::UpstreamIdentityMismatch)
                                } else {
                                    Verdict::Accepted
                                },
                                Ok(None) => Verdict::Accepted,
                            }
                        },
                    }
                },
            }
        },
    }
}

/// `r` ends as `v` says, carrying the observed id on success.
pub open spec fn ends_with_id(r: Result<u64, ResourceError>, v: Verdict, observed: Option<u64>) -> bool {
    match v {
        Verdict::Accepted => r == Ok::<u64, ResourceError>(observed->0),
        Verdict::Failed(reason) => r matches Err(e) && is_facts_failure(e, reason),
        Verdict::Foreign => r matches Err(e) && is_foreign_record(e, foreign_message()),
    }
}

/// Checks the identity and links of a review or inline comment read below
/// pull request `number`, and gives its id.
pub fn validate_pull_object(
    kind: PullObject,
    requested: Option<u64>,
    observed: Option<u64>,
    pull_request_url: &Presence<String>,
    url: &Presence<String>,
    html_url: &Presence<String>,
    repository: &GithubRepositoryIdentity,
    number: u64,
    api: &ParsedUrl,
    web: &ParsedUrl,
) -> (r: Result<u64, ResourceError>)
    ensures
        ends_with_id(
            r,
            pull_object_verdict(
                kind,
                requested,
                observed,
                present_text(pull_request_url),
                present_text(url),
                present_text(html_url),
                *repository,
                number,
                api.parts(),
                web.parts(),
            ),
            observed,
        ),
{
    reveal(pull_object_verdict);
    let id = require_observed_id(requested, observed)?;
    let mut pulls = owned("pulls/");
    push_decimal(&mut pulls, number);
    let pull = expected_object_url(api, repository, pulls.as_str())?;
    require_object_link(pull_request_url, &pull)?;
    let mut own = if kind == PullObject::Review {
        let mut s = owned("pulls/");
        push_decimal(&mut s, number);
        push_str(&mut s, "/reviews/");
        s
    } else {
        owned("pulls/comments/")
    };
    push_decimal(&mut own, id);
    let own_url = expected_object_url(api, repository, own.as_str())?;
    validate_optional_object_link(url, &own_url)?;
    match validate_optional_web_link(html_url, repository, number, web)? {
        Some(fragment) => {
            let expected = if kind == PullObject::Review {
                WebFragment::Review(id)
            } else {
                WebFragment::ReviewComment(id)
            };
            if fragment != expected {
                return Err(failure(ErrorReason::UpstreamIdentityMismatch));
            }
        },
        None => {},
    }
    Ok(id)
}

// ------------------------------------------------------------ reviews

/// A review submission as the provider serves it.
#[derive(Debug)]
pub struct NativeReview {
    pub id: Presence<u64>,
    pub node_id: Presence<String>,
    pub url: Presence<String>,
    pub html_url: Presence<String>,
    pub pull_request_url: Presence<String>,
    pub body: Presence<String>,
    pub user: Presence<Actor>,
    pub state: Presence<String>,
    pub commit_id: Presence<String>,
    pub submitted_at: Presence<String>,
}

/// A validated review and the fields it lacks.
#[derive(Debug)]
pub struct ValidatedReview {
    pub id: u64,
    pub review: NativeReview,
    pub unavailable: Vec<Unavailable>,
}

/// The fields a review lacks, in the order they are reported.
pub open spec fn review_unavailable(r: NativeReview) -> Seq<(Seq<char>, Seq<char>)> {
    let l = note(Seq::empty(), "nodeId"@, r.node_id is Present, r.node_id.spec_availability());
    let l = note(l, "body"@, r.body is Present, r.body.spec_availability());
    let l = note(l, "author"@, r.user is Present, r.user.spec_availability());
    let l = note(l, "state"@, r.state is Present, r.state.spec_availability());
    let l = note(l, "commitSha"@, r.commit_id is Present, r.commit_id.spec_availability());
    let l = note(l, "submittedAt"@, r.submitted_at is Present, r.submitted_at.spec_availability());
    let l = note(l, "links.apiUrl"@, r.url is Present, r.url.spec_availability());
    let l = note(l, "links.htmlUrl"@, r.html_url is Present, r.html_url.spec_availability());
    note(l, "links.pullRequestUrl"@, r.pull_request_url is Present, r.pull_request_url.spec_availability())
}

/// The verdict on a review read below pull request `number`.
pub open spec fn review_verdict(
    r: NativeReview,
    repository: GithubRepositoryIdentity,
    number: u64,
    review_id: Option<u64>,
    api: UrlParts,
    web: UrlParts,
) -> Verdict {
    pull_object_verdict(
        PullObject::Review,
        review_id,
        value_of(r.id),
        present_text(&r.pull_request_url),
        present_text(&r.url),
        present_text(&r.html_url),
        repository,
        number,
        api,
        web,
    )
}

/// Validates one review submission and notes the fields it lacks.
pub fn validate_review(
    review: NativeReview,
    repository: &GithubRepositoryIdentity,
    number: u64,
    review_id: Option<u64>,
    api: &ParsedUrl,
    web: &ParsedUrl,
) -> (r: Result<ValidatedReview, ResourceError>)
    ensures
        match review_verdict(review, *repository, number, review_id, api.parts(), web.parts()) {
            Verdict::Accepted => r matches Ok(v) && v.review == review && value_of(review.id) == Some(v.id)
                && entry_views(v.unavailable@)
                == review_unavailable(review),
            Verdict::Failed(reason) => r matches Err(e) && is_facts_failure(e, reason),
            Verdict::Foreign => r matches Err(e) && is_foreign_record(e, foreign_message()),
        },
{
    let observed = match review.id {
        Presence::Present(id) => Some(id),
        _ => None,
    };
    let id = validate_pull_object(
        PullObject::Review,
        review_id,
        observed,
        &review.pull_request_url,
        &review.url,
        &review.html_url,
        repository,
        number,
        api,
        web,
    )?;
    let unavailable = review_unavailable_list(&review);
    Ok(ValidatedReview { id, review, unavailable })
}

fn review_unavailable_list(review: &NativeReview) -> (unavailable: Vec<Unavailable>)
    ensures
        entry_views(unavailable@) == review_unavailable(*review),
{
    let mut unavailable: Vec<Unavailable> = Vec::new();
    proof {
        assert(entry_views(unavailable@) =~= Seq::empty());
    }
    review.node_id.unavailable("nodeId", &mut unavailable);
    review.body.unavailable("body", &mut unavailable);
    review.user.unavailable("author", &mut unavailable);
    review.state.unavailable("state", &mut unavailable);
    review.commit_id.unavailable("commitSha", &mut unavailable);
    review.submitted_at.unavailable("submittedAt", &mut unavailable);
    review.url.unavailable("links.apiUrl", &mut unavailable);
    review.html_url.unavailable("links.htmlUrl", &mut unavailable);
    review.pull_request_url.unavailable("links.pullRequestUrl", &mut unavailable);
    unavailable
}

// ------------------------------------------------------------ inline comments

/// An inline review comment as the provider serves it.
#[derive(Debug)]
pub struct NativeInlineComment {
    pub id: Presence<u64>,
    pub node_id: Presence<String>,
    pub url: Presence<String>,
    pub html_url: Presence<String>,
    pub pull_request_url: Presence<String>,
    pub pull_request_review_id: Presence<u64>,
    pub in_reply_to_id: Presence<u64>,
    pub body: Presence<String>,
    pub user: Presence<Actor>,
    pub created_at: Presence<String>,
    pub updated_at: Presence<String>,
    pub path: Presence<String>,
    pub diff_hunk: Presence<String>,
    pub commit_id: Presence<String>,
    pub original_commit_id: Presence<String>,
    pub side: Presence<String>,
    pub line: Presence<i64>,
    pub start_side: Presence<String>,
    pub start_line: Presence<i64>,
    pub original_line: Presence<i64>,
    pub original_start_line: Presence<i64>,
    pub position: Presence<i64>,
    pub original_position: Presence<i64>,
    pub subject_type: Presence<String>,
}

/// A validated inline comment and the fields it lacks.
#[derive(Debug)]
pub struct ValidatedInlineComment {
    pub id: u64,
    pub comment: NativeInlineComment,
    pub unavailable: Vec<Unavailable>,
}

/// The fields an inline comment lacks, in the order they are reported.
pub open spec fn inline_unavailable(c: NativeInlineComment) -> Seq<(Seq<char>, Seq<char>)> {
    let l = note(Seq::empty(), "nodeId"@, c.node_id is Present, c.node_id.spec_availability());
    let l = note(l, "reviewId"@, c.pull_request_review_id is Present, c.pull_request_review_id.spec_availability());
    let l = note(l, "replyToId"@, c.in_reply_to_id is Present, c.in_reply_to_id.spec_availability());
    let l = note(l, "body"@, c.body is Present, c.body.spec_availability());
    let l = note(l, "author"@, c.user is Present, c.user.spec_availability());
    let l = note(l, "createdAt"@, c.created_at is Present, c.created_at.spec_availability());
    let l = note(l, "updatedAt"@, c.updated_at is Present, c.updated_at.spec_availability());
    let l = note(l, "path"@, c.path is Present, c.path.spec_availability());
    let l = note(l, "diffHunk"@, c.diff_hunk is Present, c.diff_hunk.spec_availability());
    let l = note(l, "commitSha"@, c.commit_id is Present, c.commit_id.spec_availability());
    let l = note(l, "originalCommitSha"@, c.original_commit_id is Present, c.original_commit_id.spec_availability());
    let l = note(l, "side"@, c.side is Present, c.side.spec_availability());
    let l = note(l, "line"@, c.line is Present, c.line.spec_availability());
    let l = note(l, "startSide"@, c.start_side is Present, c.start_side.spec_availability());
    let l = note(l, "startLine"@, c.start_line is Present, c.start_line.spec_availability());
    let l = note(l, "originalLine"@, c.original_line is Present, c.original_line.spec_availability());
    let l = note(l, "originalStartLine"@, c.original_start_line is Present, c.original_start_line.spec_availability());
    let l = note(l, "position"@, c.position is Present, c.position.spec_availability());
    let l = note(l, "originalPosition"@, c.original_position is Present, c.original_position.spec_availability());
    let l = note(l, "subjectType"@, c.subject_type is Present, c.subject_type.spec_availability());
    let l = note(l, "links.apiUrl"@, c.url is Present, c.url.spec_availability());
    let l = note(l, "links.htmlUrl"@, c.html_url is Present, c.html_url.spec_availability());
    note(l, "links.pullRequestUrl"@, c.pull_request_url is Present, c.pull_request_url.spec_availability())
}

/// The verdict on an inline comment read below pull request `number`.
pub open spec fn inline_verdict(
    c: NativeInlineComment,
    repository: GithubRepositoryIdentity,
    number: u64,
    comment_id: Option<u64>,
    api: UrlParts,
    web: UrlParts,
) -> Verdict {
    pull_object_verdict(
        PullObject::ReviewComment,
        comment_id,
        value_of(c.id),
        present_text(&c.pull_request_url),
        present_text(&c.url),
        present_text(&c.html_url),
        repository,
        number,
        api,
        web,
    )
}

/// Validates one inline review comment and notes the fields it lacks.
pub fn validate_inline_comment(
    comment: NativeInlineComment,
    repository: &GithubRepositoryIdentity,
    number: u64,
    comment_id: Option<u64>,
    api: &ParsedUrl,
    web: &ParsedUrl,
) -> (r: Result<ValidatedInlineComment, ResourceError>)
    ensures
        match inline_verdict(comment, *repository, number, comment_id, api.parts(), web.parts()) {
            Verdict::Accepted => r matches Ok(v) && v.comment == comment && value_of(comment.id) == Some(v.id)
                && entry_views(v.unavailable@) == inline_unavailable(comment),
            Verdict::Failed(reason) => r matches Err(e) && is_facts_failure(e, reason),
            Verdict::Foreign => r matches Err(e) && is_foreign_record(e, foreign_message()),
        },
{
    let observed = match comment.id {
        Presence::Present(id) => Some(id),
        _ => None,
    };
    let id = validate_pull_object(
        PullObject::ReviewComment,
        comment_id,
        observed,
        &comment.pull_request_url,
        &comment.url,
        &comment.html_url,
        repository,
        number,
        api,
        web,
    )?;
    let unavailable = inline_unavailable_list(&comment);
    Ok(ValidatedInlineComment { id, comment, unavailable })
}

#[verifier::rlimit(40)]
fn inline_unavailable_list(comment: &NativeInlineComment) -> (unavailable: Vec<Unavailable>)
    ensures
        entry_views(unavailable@) == inline_unavailable(*comment),
{
    let mut unavailable: Vec<Unavailable> = Vec::new();
    proof {
        assert(entry_views(unavailable@) =~= Seq::empty());
    }
    comment.node_id.unavailable("nodeId", &mut unavailable);
    comment.pull_request_review_id.unavailable("reviewId", &mut unavailable);
    comment.in_reply_to_id.unavailable("replyToId", &mut unavailable);
    comment.body.unavailable("body", &mut unavailable);
    comment.user.unavailable("author", &mut unavailable);
    comment.created_at.unavailable("createdAt", &mut unavailable);
    comment.updated_at.unavailable("updatedAt", &mut unavailable);
    comment.path.unavailable("path", &mut unavailable);
    comment.diff_hunk.unavailable("diffHunk", &mut unavailable);
    comment.commit_id.unavailable("commitSha", &mut unavailable);
    comment.original_commit_id.unavailable("originalCommitSha", &mut unavailable);
    comment.side.unavailable("side", &mut unavailable);
    comment.line.unavailable("line", &mut unavailable);
    comment.start_side.unavailable("startSide", &mut unavailable);
    comment.start_line.unavailable("startLine", &mut unavailable);
    comment.original_line.unavailable("originalLine", &mut unavailable);
    comment.original_start_line.unavailable("originalStartLine", &mut unavailable);
    comment.position.unavailable("position", &mut unavailable);
    comment.original_position.unavailable("originalPosition", &mut unavailable);
    comment.subject_type.unavailable("subjectType", &mut unavailable);
    comment.url.unavailable("links.apiUrl", &mut unavailable);
    comment.html_url.unavailable("links.htmlUrl", &mut unavailable);
    comment.pull_request_url.unavailable("links.pullRequestUrl", &mut unavailable);
    unavailable
}

// ------------------------------------------------------------ conversation comments

/// A conversation comment as the provider serves it.
#[derive(Debug)]
pub struct NativeComment {
    pub id: Presence<u64>,
    pub node_id: Presence<String>,
    pub url: Presence<String>,
    pub html_url: Presence<String>,
    pub issue_url: Presence<String>,
    pub body: Presence<String>,
    pub user: Presence<Actor>,
    pub created_at: Presence<String>,
    pub updated_at: Presence<String>,
}

/// A validated conversation comment and the fields it lacks.
#[derive(Debug)]
pub struct ValidatedComment {
    pub id: u64,
    pub comment: NativeComment,
    pub unavailable: Vec<Unavailable>,
}

/// The fields a conversation comment lacks, in the order they are reported.
pub open spec fn comment_unavailable(c: NativeComment) -> Seq<(Seq<char>, Seq<char>)> {
    let l = note(Seq::empty(), "nodeId"@, c.node_id is Present, c.node_id.spec_availability());
    let l = note(l, "body"@, c.body is Present, c.body.spec_availability());
    let l = note(l, "author"@, c.user is Present, c.user.spec_availability());
    let l = note(l, "createdAt"@, c.created_at is Present, c.created_at.spec_availability());
    let l = note(l, "updatedAt"@, c.updated_at is Present, c.updated_at.spec_availability());
    let l = note(l, "links.apiUrl"@, c.url is Present, c.url.spec_availability());
    let l = note(l, "links.htmlUrl"@, c.html_url is Present, c.html_url.spec_availability());
    note(l, "links.issueUrl"@, c.issue_url is Present, c.issue_url.spec_availability())
}

/// Validates one conversation comment read below pull request `number`
/// and notes the fields it lacks.
pub fn validate_comment(
    comment: NativeComment,
    repository: &GithubRepositoryIdentity,
    number: u64,
    comment_id: Option<u64>,
    api: &ParsedUrl,
    web: &ParsedUrl,
) -> (r: Result<ValidatedComment, ResourceError>)
    ensures
        match comment_links_spec(
            *repository,
            number,
            comment_id,
            value_of(comment.id),
            present_text(&comment.issue_url),
            present_text(&comment.url),
            present_text(&comment.html_url),
            api.parts(),
            web.parts(),
        ) {
            Verdict::Accepted => r matches Ok(v) && v.comment == comment && value_of(comment.id) == Some(v.id)
                && entry_views(v.unavailable@) == comment_unavailable(comment),
            Verdict::Failed(reason) => r matches Err(e) && is_facts_failure(e, reason),
            Verdict::Foreign => r matches Err(e) && is_foreign_record(
                e,
                "GitHub comment does not belong to the addressed pull request"@,
            ),
        },
{
    let observed = match comment.id {
        Presence::Present(id) => Some(id),
        _ => None,
    };
    let id = match observed {
        Some(o) => o,
        None => 0,
    };
    validate_comment_links(
        repository,
        number,
        comment_id,
        observed,
        &comment.issue_url,
        &comment.url,
        &comment.html_url,
        api,
        web,
    )?;
    let mut unavailable: Vec<Unavailable> = Vec::new();
    proof {
        assert(entry_views(unavailable@) =~= Seq::empty());
    }
    comment.node_id.unavailable("nodeId", &mut unavailable);
    comment.body.unavailable("body", &mut unavailable);
    comment.user.unavailable("author", &mut unavailable);
    comment.created_at.unavailable("createdAt", &mut unavailable);
    comment.updated_at.unavailable("updatedAt", &mut unavailable);
    comment.url.unavailable("links.apiUrl", &mut unavailable);
    comment.html_url.unavailable("links.htmlUrl", &mut unavailable);
    comment.issue_url.unavailable("links.issueUrl", &mut unavailable);
    Ok(ValidatedComment { id, comment, unavailable })
}

// ------------------------------------------------------------ commits

fn same_text(a: &str, b: &str) -> (r: bool)
    ensures
        r == (a@ == b@),
{
    let x = chars_of(a);
    let y = chars_of(b);
    crate::github::same_chars(x.as_slice(), y.as_slice())
}

/// `first`, and when it accepts, `next`.
pub open spec fn then(first: Verdict, next: Verdict) -> Verdict {
    if first is Accepted {
        next
    } else {
        first
    }
}

/// `r` ends as `v` says: success, a facts failure with its reason, or a
/// foreign record.
pub open spec fn ends_as_any<T>(r: Result<T, ResourceError>, v: Verdict) -> bool {
    match v {
        Verdict::Accepted => r is Ok,
        Verdict::Failed(reason) => r matches Err(e) && is_facts_failure(e, reason),
        Verdict::Foreign => r matches Err(e) && is_foreign_record(e, foreign_message()),
    }
}

pub open spec fn reason_verdict(reason: Option<ErrorReason>) -> Verdict {
    match reason {
        Some(e) => Verdict::Failed(e),
        None => Verdict::Accepted,
    }
}

/// A field the record must carry.
pub open spec fn required_verdict(present: bool) -> Verdict {
    if present {
        Verdict::Accepted
    } else {
        Verdict::Failed(ErrorReason::UpstreamMalformed)
    }
}

/// A commit id the record must carry.
pub open spec fn sha_verdict(p: &Presence<String>) -> Verdict {
    match p {
        Presence::Present(s) => if is_sha(s@) {
            Verdict::Accepted
        } else {
            Verdict::Failed(ErrorReason::UpstreamMalformed)
        },
        _ => Verdict::Failed(ErrorReason::UpstreamMalformed),
    }
}

/// An expected URL that must be constructible.
pub open spec fn join_verdict(j: Option<UrlParts>) -> Verdict {
    if j is Some {
        Verdict::Accepted
    } else {
        Verdict::Failed(ErrorReason::UpstreamMalformed)
    }
}

/// An optional link that, when present, must name `expected`.
pub open spec fn link_verdict(link: Option<Seq<char>>, expected: Option<UrlParts>) -> Verdict {
    match (link, expected) {
        (Some(v), Some(e)) => if spec_matches_object_url(v, e) {
            Verdict::Accepted
        } else {
            Verdict::Failed(ErrorReason::UpstreamIdentityMismatch)
        },
        _ => Verdict::Accepted,
    }
}

/// A person as a commit records them.
#[derive(Debug)]
pub struct NativePerson {
    pub name: Presence<String>,
    pub email: Presence<String>,
    pub date: Presence<String>,
}

#[derive(Debug)]
pub struct NativeTree {
    pub sha: Presence<String>,
    pub url: Presence<String>,
}

#[derive(Debug)]
pub struct NativeParent {
    pub sha: Presence<String>,
    pub url: Presence<String>,
    pub html_url: Presence<String>,
}

/// The Git commit a commit record describes.
#[derive(Debug)]
pub struct NativeCommitData {
    pub author: Presence<NativePerson>,
    pub committer: Presence<NativePerson>,
    pub message: Presence<String>,
    pub tree: Presence<NativeTree>,
    pub url: Presence<String>,
}

/// A commit as the provider serves it.
#[derive(Debug)]
pub struct NativeCommit {
    pub sha: Presence<String>,
    pub url: Presence<String>,
    pub html_url: Presence<String>,
    pub comments_url: Presence<String>,
    pub commit: Presence<NativeCommitData>,
    pub author: Presence<Actor>,
    pub committer: Presence<Actor>,
    pub parents: Presence<Vec<NativeParent>>,
}

pub open spec fn text_of(p: &Presence<String>) -> Seq<char> {
    present_text(p)->0
}

/// The commit's own links and accounts: its id must be the requested one,
/// its API link must name the endpoint read, its web and comments links
/// must name its own pages, and its accounts must be consistent.
pub open spec fn commit_links_verdict(
    c: NativeCommit,
    repository: GithubRepositoryIdentity,
    requested: Seq<char>,
    endpoint: UrlParts,
    api: UrlParts,
    web: UrlParts,
) -> Verdict {
    let sha = text_of(&c.sha);
    let web_page = joined(web, commit_page_path(repository, sha));
    let comments = joined(api, object_path(repository, "commits/"@ + sha + "/comments"@));
    then(
        sha_verdict(&c.sha),
        then(
            if sha != requested {
                Verdict::Failed(ErrorReason::UpstreamIdentityMismatch)
            } else {
                Verdict::Accepted
            },
            then(
                required_verdict(c.url is Present),
                then(
                    if spec_matches_object_url(text_of(&c.url), endpoint) {
                        Verdict::Accepted
                    } else {
                        Verdict::Foreign
                    },
                    then(
                        join_verdict(web_page),
                        then(
                            link_verdict(present_text(&c.html_url), web_page),
                            then(
                                join_verdict(comments),
                                then(
                                    link_verdict(present_text(&c.comments_url), comments),
                                    then(
                                        reason_verdict(account_spec(&c.author, api, web)),
                                        reason_verdict(account_spec(&c.committer, api, web)),
                                    ),
                                ),
                            ),
                        ),
                    ),
                ),
            ),
        ),
    )
}

fn commit_links<'a>(
    commit: &'a NativeCommit,
    repository: &GithubRepositoryIdentity,
    requested: &str,
    endpoint: &ParsedUrl,
    api: &ParsedUrl,
    web: &ParsedUrl,
) -> (r: Result<&'a str, ResourceError>)
    ensures
        ends_as_any(r, commit_links_verdict(*commit, *repository, requested@, endpoint.parts(), api.parts(), web.parts())),
        r matches Ok(s) ==> s@ == text_of(&commit.sha),
{
    let observed = sha(&commit.sha)?;
    if !same_text(observed, requested) {
        return Err(failure(ErrorReason::UpstreamIdentityMismatch));
    }
    required(&commit.url)?;
    require_object_link(&commit.url, endpoint)?;
    let web_page = expected_web_commit_url(web, repository, observed)?;
    validate_optional_object_link(&commit.html_url, &web_page)?;
    let mut suffix = owned("commits/");
    push_str(&mut suffix, observed);
    push_str(&mut suffix, "/comments");
    let comments = expected_object_url(api, repository, suffix.as_str())?;
    validate_optional_object_link(&commit.comments_url, &comments)?;
    validate_account(&commit.author, api, web)?;
    validate_account(&commit.committer, api, web)?;
    Ok(observed)
}

/// The Git commit's links: its own object and its tree's.
pub open spec fn commit_data_verdict(d: NativeCommitData, repository: GithubRepositoryIdentity, sha: Seq<char>, api: UrlParts) -> Verdict {
    let own = joined(api, object_path(repository, "git/commits/"@ + sha));
    then(
        join_verdict(own),
        then(
            link_verdict(present_text(&d.url), own),
            match d.tree {
                Presence::Present(tree) => {
                    let tree_url = joined(api, object_path(repository, "git/trees/"@ + text_of(&tree.sha)));
                    then(
                        sha_verdict(&tree.sha),
                        then(join_verdict(tree_url), link_verdict(present_text(&tree.url), tree_url)),
                    )
                },
                _ => Verdict::Failed(ErrorReason::UpstreamMalformed),
            },
        ),
    )
}

fn commit_data<'a>(
    details: &'a NativeCommitData,
    repository: &GithubRepositoryIdentity,
    sha_text: &str,
    api: &ParsedUrl,
) -> (r: Result<&'a str, ResourceError>)
    ensures
        ends_as_any(r, commit_data_verdict(*details, *repository, sha_text@, api.parts())),
        r matches Ok(s) ==> (details.tree matches Presence::Present(t) && s@ == text_of(&t.sha)),
{
    let mut suffix = owned("git/commits/");
    push_str(&mut suffix, sha_text);
    let own = expected_object_url(api, repository, suffix.as_str())?;
    validate_optional_object_link(&details.url, &own)?;
    let tree = required(&details.tree)?;
    let tree_sha = sha(&tree.sha)?;
    let mut tree_suffix = owned("git/trees/");
    push_str(&mut tree_suffix, tree_sha);
    let tree_url = expected_object_url(api, repository, tree_suffix.as_str())?;
    validate_optional_object_link(&tree.url, &tree_url)?;
    Ok(tree_sha)
}

/// One parent's links: its id, then both of its expected URLs, then its API
/// and web links.
pub open spec fn parent_verdict(p: NativeParent, repository: GithubRepositoryIdentity, api: UrlParts, web: UrlParts) -> Verdict {
    let sha = text_of(&p.sha);
    let api_url = joined(api, object_path(repository, "commits/"@ + sha));
    let web_url = joined(web, commit_page_path(repository, sha));
    then(
        sha_verdict(&p.sha),
        then(
            join_verdict(api_url),
            then(
                join_verdict(web_url),
                then(link_verdict(present_text(&p.url), api_url), link_verdict(present_text(&p.html_url), web_url)),
            ),
        ),
    )
}

/// Every parent's verdict, in order.
pub open spec fn parents_verdict(ps: Seq<NativeParent>, repository: GithubRepositoryIdentity, api: UrlParts, web: UrlParts) -> Verdict
    decreases ps.len(),
{
    if ps.len() == 0 {
        Verdict::Accepted
    } else {
        then(parent_verdict(ps[0], repository, api, web), parents_verdict(ps.drop_first(), repository, api, web))
    }
}

proof fn lemma_parents_step(ps: Seq<NativeParent>, k: int, repository: GithubRepositoryIdentity, api: UrlParts, web: UrlParts)
    requires
        0 <= k < ps.len(),
    ensures
        parents_verdict(ps.skip(k), repository, api, web) == then(
            parent_verdict(ps[k], repository, api, web),
            parents_verdict(ps.skip(k + 1), repository, api, web),
        ),
{
    assert(ps.skip(k)[0] == ps[k]);
    assert(ps.skip(k).drop_first() =~= ps.skip(k + 1));
}

fn check_parent(parent: &NativeParent, repository: &GithubRepositoryIdentity, api: &ParsedUrl, web: &ParsedUrl) -> (r: Result<
    (),
    ResourceError,
>)
    ensures
        ends_as_any(r, parent_verdict(*parent, *repository, api.parts(), web.parts())),
{
    let parent_sha = sha(&parent.sha)?;
    let mut suffix = owned("commits/");
    push_str(&mut suffix, parent_sha);
    let api_url = expected_object_url(api, repository, suffix.as_str())?;
    let web_url = expected_web_commit_url(web, repository, parent_sha)?;
    validate_optional_object_link(&parent.url, &api_url)?;
    validate_optional_object_link(&parent.html_url, &web_url)?;
    Ok(())
}

/// The verdict on a commit read as `requested` from `endpoint`.
pub open spec fn commit_verdict(
    c: NativeCommit,
    repository: GithubRepositoryIdentity,
    requested: Seq<char>,
    endpoint: UrlParts,
    api: UrlParts,
    web: UrlParts,
) -> Verdict {
    then(
        commit_links_verdict(c, repository, requested, endpoint, api, web),
        match c.commit {
            Presence::Present(d) => then(
                commit_data_verdict(d, repository, text_of(&c.sha), api),
                match c.parents {
                    Presence::Present(ps) => parents_verdict(ps@, repository, api, web),
                    _ => Verdict::Failed(ErrorReason::UpstreamMalformed),
                },
            ),
            _ => Verdict::Failed(ErrorReason::UpstreamMalformed),
        },
    )
}

/// Validates a commit read as `requested` from `endpoint`; gives its Git
/// commit, its id, its tree's id and the indices of its parents.
pub fn validate_commit<'a>(
    commit: &'a NativeCommit,
    repository: &GithubRepositoryIdentity,
    requested: &str,
    endpoint: &ParsedUrl,
    api: &ParsedUrl,
    web: &ParsedUrl,
) -> (r: Result<(&'a NativeCommitData, &'a str, &'a str, Vec<usize>), ResourceError>)
    ensures
        ends_as_any(r, commit_verdict(*commit, *repository, requested@, endpoint.parts(), api.parts(), web.parts())),
        r matches Ok((d, s, t, indices)) ==> {
            &&& commit.commit == Presence::Present(*d)
            &&& s@ == requested@
            &&& d.tree matches Presence::Present(tree) && t@ == text_of(&tree.sha)
            &&& commit.parents matches Presence::Present(ps) && indices@.len() == ps@.len()
            &&& forall|i: int| 0 <= i < indices@.len() ==> indices@[i] == i
        },
{
    let observed = commit_links(commit, repository, requested, endpoint, api, web)?;
    let details = required(&commit.commit)?;
    let tree_sha = commit_data(details, repository, observed, api)?;
    let parents = required(&commit.parents)?;
    let mut indices: Vec<usize> = Vec::new();
    let mut k: usize = 0;
    proof {
        assert(parents@.skip(0) =~= parents@);
    }
    while k < parents.len()
        invariant
            k <= parents@.len(),
            commit.parents == Presence::Present(*parents),
            commit_verdict(*commit, *repository, requested@, endpoint.parts(), api.parts(), web.parts())
                == parents_verdict(parents@.skip(k as int), *repository, api.parts(), web.parts()),
            indices@.len() == k,
            forall|i: int| 0 <= i < k ==> indices@[i] == i,
        decreases parents@.len() - k,
    {
        proof {
            lemma_parents_step(parents@, k as int, *repository, api.parts(), web.parts());
        }
        check_parent(&parents[k], repository, api, web)?;
        indices.push(k);
        k = k + 1;
    }
    proof {
        assert(parents@.skip(k as int) =~= Seq::<NativeParent>::empty());
    }
    Ok((details, observed, tree_sha, indices))
}

// ------------------------------------------------------------ families

/// The facts of a pull request a facts read can address.
#[derive(Debug, Clone, Copy, PartialEq, Eq, Structural)]
pub enum PullRequestFact {
    Pull,
    Comments,
    Reviews,
    ReviewComments,
    Comment(u64),
    Review(u64),
    ReviewComment(u64),
}

/// A bounded collection family.
#[derive(Debug, Clone, Copy, PartialEq, Eq, Structural)]
pub enum CollectionFamily {
    Conversation,
    Review,
    Inline,
}

impl CollectionFamily {
    /// The collection family a fact names; an item fact is no collection.
    pub fn from_fact(fact: PullRequestFact) -> (r: Result<CollectionFamily, ResourceError>)
        ensures
            match fact {
                PullRequestFact::Comments => r == Ok::<CollectionFamily, ResourceError>(CollectionFamily::Conversation),
                PullRequestFact::Reviews => r == Ok::<CollectionFamily, ResourceError>(CollectionFamily::Review),
                PullRequestFact::ReviewComments => r == Ok::<CollectionFamily, ResourceError>(CollectionFamily::Inline),
                _ => r matches Err(e) && is_refusal(e, ErrorCategory::UnsupportedProjection, unsupported_message()),
            },
    {
        match fact {
            PullRequestFact::Comments => Ok(CollectionFamily::Conversation),
            PullRequestFact::Reviews => Ok(CollectionFamily::Review),
            PullRequestFact::ReviewComments => Ok(CollectionFamily::Inline),
            _ => Err(unsupported_github_projection()),
        }
    }

    pub open spec fn spec_kind(self) -> Seq<char> {
        match self {
            CollectionFamily::Conversation => "github.conversation_comment_collection"@,
            CollectionFamily::Review => "github.review_submission_collection"@,
            CollectionFamily::Inline => "github.review_comment_collection"@,
        }
    }

    pub fn kind(self) -> (s: &'static str)
        ensures
            s@ == self.spec_kind(),
    {
        match self {
            CollectionFamily::Conversation => "github.conversation_comment_collection",
            CollectionFamily::Review => "github.review_submission_collection",
            CollectionFamily::Inline => "github.review_comment_collection",
        }
    }

    /// The provider path below `repos/<owner>/<name>/` of the collection.
    pub open spec fn spec_suffix(self, number: u64) -> Seq<char> {
        match self {
            CollectionFamily::Conversation => "issues/"@ + decimal(number as nat) + "/comments"@,
            CollectionFamily::Review => "pulls/"@ + decimal(number as nat) + "/reviews"@,
            CollectionFamily::Inline => "pulls/"@ + decimal(number as nat) + "/comments"@,
        }
    }

    pub fn suffix(self, number: u64) -> (s: String)
        ensures
            s@ == self.spec_suffix(number),
    {
        let mut s = match self {
            CollectionFamily::Conversation => owned("issues/"),
            _ => owned("pulls/"),
        };
        push_decimal(&mut s, number);
        match self {
            CollectionFamily::Conversation => push_str(&mut s, "/comments"),
            CollectionFamily::Review => push_str(&mut s, "/reviews"),
            CollectionFamily::Inline => push_str(&mut s, "/comments"),
        }
        s
    }
}

/// A native record of one of the collection families.
#[derive(Debug)]
pub enum Native {
    Conversation(NativeComment),
    Review(NativeReview),
    Inline(NativeInlineComment),
}

/// A validated record of one of the collection families.
#[derive(Debug)]
pub enum Record {
    Conversation(ValidatedComment),
    Review(ValidatedReview),
    Inline(ValidatedInlineComment),
}

/// Validates a native record with its family's validator, as one record of
/// a collection (no item id addressed).
pub fn validate_native(
    native: Native,
    repository: &GithubRepositoryIdentity,
    number: u64,
    api: &ParsedUrl,
    web: &ParsedUrl,
) -> (r: Result<Record, ResourceError>)
    ensures
        match native {
            Native::Conversation(c) => match comment_links_spec(
                *repository,
                number,
                None,
                value_of(c.id),
                present_text(&c.issue_url),
                present_text(&c.url),
                present_text(&c.html_url),
                api.parts(),
                web.parts(),
            ) {
                Verdict::Accepted => r matches Ok(Record::Conversation(v)) && v.comment == c && Some(v.id) == value_of(c.id),
                Verdict::Failed(reason) => r matches Err(e) && is_facts_failure(e, reason),
                Verdict::Foreign => r matches Err(e) && is_foreign_record(
                    e,
                    "GitHub comment does not belong to the addressed pull request"@,
                ),
            },
            Native::Review(rv) => match review_verdict(rv, *repository, number, None, api.parts(), web.parts()) {
                Verdict::Accepted => r matches Ok(Record::Review(v)) && v.review == rv && Some(v.id) == value_of(rv.id),
                Verdict::Failed(reason) => r matches Err(e) && is_facts_failure(e, reason),
                Verdict::Foreign => r matches Err(e) && is_foreign_record(e, foreign_message()),
            },
            Native::Inline(c) => match inline_verdict(c, *repository, number, None, api.parts(), web.parts()) {
                Verdict::Accepted => r matches Ok(Record::Inline(v)) && v.comment == c && Some(v.id) == value_of(c.id),
                Verdict::Failed(reason) => r matches Err(e) && is_facts_failure(e, reason),
                Verdict::Foreign => r matches Err(e) && is_foreign_record(e, foreign_message()),
            },
        },
{
    match native {
        Native::Conversation(c) => match validate_comment(c, repository, number, None, api, web) {
            Ok(v) => Ok(Record::Conversation(v)),
            Err(e) => Err(e),
        },
        Native::Review(rv) => match validate_review(rv, repository, number, None, api, web) {
            Ok(v) => Ok(Record::Review(v)),
            Err(e) => Err(e),
        },
        Native::Inline(c) => match validate_inline_comment(c, repository, number, None, api, web) {
            Ok(v) => Ok(Record::Inline(v)),
            Err(e) => Err(e),
        },
    }
}

pub open spec fn spec_record_id(record: Record) -> u64 {
    match record {
        Record::Conversation(v) => v.id,
        Record::Review(v) => v.id,
        Record::Inline(v) => v.id,
    }
}

/// A validated record's id.
pub fn record_id(record: &Record) -> (id: u64)
    ensures
        id == spec_record_id(*record),
{
    match record {
        Record::Conversation(v) => v.id,
        Record::Review(v) => v.id,
        Record::Inline(v) => v.id,
    }
}

/// The fields a validated record lacks.
pub fn record_unavailable(record: &Record) -> (u: &[Unavailable])
    ensures
        u@ == match *record {
            Record::Conversation(v) => v.unavailable@,
            Record::Review(v) => v.unavailable@,
            Record::Inline(v) => v.unavailable@,
        },
{
    match record {
        Record::Conversation(v) => v.unavailable.as_slice(),
        Record::Review(v) => v.unavailable.as_slice(),
        Record::Inline(v) => v.unavailable.as_slice(),
    }
}

} // verus!
