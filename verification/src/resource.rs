//! How a GitHub read becomes a Resource: the collection pages of issues and
//! pull requests, the listings of one record's comments, reviews and files,
//! the continuation lines that name the next page, and the checks that keep a
//! fetched object under the path that addressed it.
use vstd::prelude::*;
use crate::error::{is_refusal, refused_as, ErrorCategory, ResourceError};
use crate::github::{
    authoritative_body, comment_ids_error, files_valid, is_upstream_error, issue_identity_error,
    issue_listing_error, malformed_upstream, parent_refusal, positive_message, pull_identity_error,
    pull_summaries_error, review_comment_ids_error, review_ids_error, user_error,
    validate_comment_ids, validate_files, validate_issue_identity, validate_issue_listing,
    validate_parent, validate_positive, validate_pull_identity, validate_pull_summaries,
    validate_review_comment_ids, validate_review_ids, validate_user, GithubRepositoryIdentity,
};
use crate::github_wire::{
    ConversationComment, DiffFile, Issue, PullRequest, PullRequestSummary, Review, ReviewComment,
    SimpleUser,
};
use crate::http::utf8_string;
use crate::order::{sort_stable, stable_sorted, ExecStampKey, StampKey};
use crate::render::{
    aggregate_base, author_text, comment, comment_order, comment_text, concat_map, diff_file,
    diff_file_text, issue_aggregate, issue_text, pull_request_aggregate, pull_text, review,
    review_comment, review_comment_order, review_comment_text, review_order, review_reference, review_text,
    sort_comments, sort_review_comments, sort_reviews,
};
use crate::text::{chars_of, decimal, owned, push_decimal, push_str};

verus! {

broadcast use vstd::string::group_string_axioms;

// ----------------------------------------------------------- continuations

/// The line break a continuation line needs before it: one, unless the
/// content is empty or already ends a line.
pub open spec fn line_break_before(content: Seq<char>) -> Seq<char> {
    if content.len() > 0 && content.last() != '\n' {
        "\n"@
    } else {
        Seq::empty()
    }
}

/// `content` followed by the `Continuation:` line naming `reference`.
pub open spec fn with_continuation(content: Seq<char>, reference: Seq<char>) -> Seq<char> {
    content + line_break_before(content) + "\nContinuation: "@ + reference + "\n"@
}

/// `content` followed by one continuation line per reference, in order.
pub open spec fn with_continuations(content: Seq<char>, refs: Seq<Seq<char>>) -> Seq<char>
    decreases refs.len(),
{
    if refs.len() == 0 {
        content
    } else {
        with_continuation(with_continuations(content, refs.drop_last()), refs.last())
    }
}

pub open spec fn string_views(v: Seq<String>) -> Seq<Seq<char>> {
    v.map_values(|s: String| s@)
}

pub open spec fn opt_view(o: Option<String>) -> Option<Seq<char>> {
    match o {
        Some(s) => Some(s@),
        None => None,
    }
}

/// The reference of page `page` of the collection at `base`.
pub open spec fn page_ref(base: Seq<char>, page: u64) -> Seq<char> {
    base + ":page:"@ + decimal(page as nat)
}

pub open spec fn next_ref(base: Seq<char>, next: Option<u64>) -> Option<Seq<char>> {
    match next {
        Some(p) => Some(page_ref(base, p)),
        None => None,
    }
}

/// The content of a collection page that may name a next page.
pub open spec fn collected(content: Seq<char>, next: Option<Seq<char>>) -> Seq<char> {
    match next {
        Some(r) => with_continuation(content, r),
        None => content,
    }
}

/// Law: a continuation line keeps the content it follows intact and ends the
/// text, so the reference survives at the end of a retained artifact.
pub proof fn lemma_continuation_ends_text(content: Seq<char>, reference: Seq<char>)
    ensures
        ({
            let out = with_continuation(content, reference);
            let tail = "\nContinuation: "@ + reference + "\n"@;
            &&& content.len() + tail.len() <= out.len()
            &&& out.take(content.len() as int) == content
            &&& out.skip(out.len() - tail.len()) == tail
        }),
{
    let out = with_continuation(content, reference);
    let tail = "\nContinuation: "@ + reference + "\n"@;
    assert(out =~= content + line_break_before(content) + tail);
    assert(out.take(content.len() as int) =~= content);
    assert(out.skip(out.len() - tail.len()) =~= tail);
}

/// Appends the `Continuation:` line naming `reference`.
pub fn write_continuation_line(content: &mut String, reference: &str)
    ensures
        final(content)@ == with_continuation(old(content)@, reference@),
{
    let cs = chars_of(content.as_str());
    if cs.len() > 0 && cs[cs.len() - 1] != '\n' {
        push_str(content, "\n");
    }
    push_str(content, "\nContinuation: ");
    push_str(content, reference);
    push_str(content, "\n");
    proof {
        assert(final(content)@ =~= with_continuation(old(content)@, reference@));
    }
}

pub fn page_reference(base: &str, page: u64) -> (s: String)
    ensures
        s@ == page_ref(base@, page),
{
    let mut s = owned(base);
    push_str(&mut s, ":page:");
    push_decimal(&mut s, page);
    s
}

pub fn next_reference(base: &str, next: Option<u64>) -> (r: Option<String>)
    ensures
        opt_view(r) == next_ref(base@, next),
{
    match next {
        Some(p) => Some(page_reference(base, p)),
        None => None,
    }
}

/// A rendered projection plus the reference of the page it leaves out.
#[derive(Debug)]
pub struct Rendered {
    pub content: String,
    pub continuation: Option<String>,
}

impl Rendered {
    /// A projection with nothing left out.
    pub fn complete(content: String) -> (r: Rendered)
        ensures
            r.content@ == content@,
            r.continuation is None,
    {
        Rendered { content, continuation: None }
    }

    /// One page of a collection; a next page is named both in the text and
    /// as the structured continuation.
    pub fn collection(content: String, next: Option<String>) -> (r: Rendered)
        ensures
            r.content@ == collected(content@, opt_view(next)),
            opt_view(r.continuation) == opt_view(next),
    {
        let mut content = content;
        match &next {
            Some(reference) => write_continuation_line(&mut content, reference.as_str()),
            None => {},
        }
        Rendered { content, continuation: next }
    }

    /// A projection composed of several collections: each one's next page is
    /// named by a line of the text, and none is the projection's own.
    pub fn aggregate(content: String, continuations: &[String]) -> (r: Rendered)
        ensures
            r.content@ == with_continuations(content@, string_views(continuations@)),
            r.continuation is None,
    {
        let mut content = content;
        let ghost start = content@;
        let mut i: usize = 0;
        while i < continuations.len()
            invariant
                i <= continuations@.len(),
                content@ == with_continuations(start, string_views(continuations@.take(i as int))),
            decreases continuations@.len() - i,
        {
            write_continuation_line(&mut content, continuations[i].as_str());
            proof {
                let t = string_views(continuations@.take(i + 1));
                assert(t.drop_last() =~= string_views(continuations@.take(i as int)));
            }
            i = i + 1;
        }
        proof {
            assert(continuations@.take(i as int) =~= continuations@);
        }
        Rendered::complete(content)
    }
}

// -------------------------------------------------------------- listings

/// The texts `f(s[0])`, `f(s[1])`, … joined by `sep`.
pub open spec fn join_map<T>(s: Seq<T>, f: spec_fn(T) -> Seq<char>, sep: Seq<char>) -> Seq<char>
    decreases s.len(),
{
    if s.len() == 0 {
        Seq::empty()
    } else if s.len() == 1 {
        f(s[0])
    } else {
        join_map(s.drop_last(), f, sep) + sep + f(s.last())
    }
}

pub proof fn lemma_join_map_step<T>(s: Seq<T>, f: spec_fn(T) -> Seq<char>, sep: Seq<char>, i: int)
    requires
        0 <= i < s.len(),
    ensures
        join_map(s.take(i + 1), f, sep) == join_map(s.take(i), f, sep) + (if i > 0 {
            sep
        } else {
            Seq::empty()
        }) + f(s[i]),
{
    let t = s.take(i + 1);
    assert(t.drop_last() =~= s.take(i));
    if i == 0 {
        assert(join_map(s.take(0), f, sep) =~= Seq::<char>::empty());
        assert(Seq::<char>::empty() + Seq::<char>::empty() + f(s[0]) =~= f(s[0]));
    }
}

// ------------------------------------------------------ repository listings

/// A listed issue sorts by its last update, latest first, then by number.
pub open spec fn listing_issue_key(i: Issue) -> StampKey {
    (true, i.updated_at@, i.number)
}

pub open spec fn listing_pull_key(p: PullRequestSummary) -> StampKey {
    (true, p.updated_at@, p.number)
}

pub open spec fn issue_listing_order() -> spec_fn(Issue) -> StampKey {
    |i: Issue| listing_issue_key(i)
}

pub open spec fn pull_listing_order() -> spec_fn(PullRequestSummary) -> StampKey {
    |p: PullRequestSummary| listing_pull_key(p)
}

pub open spec fn is_plain_issue() -> spec_fn(Issue) -> bool {
    |i: Issue| !i.pull_request
}

/// The issues a collection page lists: pull requests left out, the rest
/// most recently updated first.
pub open spec fn listed_issues(v: Seq<Issue>) -> Seq<Issue> {
    stable_sorted(v.filter(is_plain_issue()), issue_listing_order(), true)
}

pub open spec fn listed_pulls(v: Seq<PullRequestSummary>) -> Seq<PullRequestSummary> {
    stable_sorted(v, pull_listing_order(), true)
}

pub open spec fn issue_row(base: Seq<char>, i: Issue) -> Seq<char> {
    "- "@ + base + "/"@ + decimal(i.number as nat) + " \u{2014} "@ + i.title@ + " ["@ + i.state@ + "] by "@
        + author_text(i.user) + " (updated "@ + i.updated_at@ + ")\n"@
}

/// The state a listed pull request shows: `merged` once it has a merge time.
pub open spec fn merge_text(p: PullRequestSummary) -> Seq<char> {
    if p.merged_at is Some {
        "merged"@
    } else {
        p.state@
    }
}

pub open spec fn pull_row(base: Seq<char>, p: PullRequestSummary) -> Seq<char> {
    "- "@ + base + "/"@ + decimal(p.number as nat) + " \u{2014} "@ + p.title@ + " ["@ + merge_text(p)
        + (if p.draft {
        ", draft"@
    } else {
        Seq::empty()
    }) + "] by "@ + author_text(p.user) + " (updated "@ + p.updated_at@ + "; "@ + p.html_url@ + ")\n"@
}

pub open spec fn issue_collection_text(repository: GithubRepositoryIdentity, rows: Seq<Issue>, has_next: bool) -> Seq<char> {
    let base = "issue://"@ + repository.spec_text();
    "# Issues: "@ + repository.spec_text() + "\n"@ + if rows.len() == 0 {
        if has_next {
            "\n(no issues on this page)\n"@
        } else {
            "\n(no issues)\n"@
        }
    } else {
        concat_map(rows, |i: Issue| issue_row(base, i))
    }
}

pub open spec fn pull_collection_text(
    repository: GithubRepositoryIdentity,
    rows: Seq<PullRequestSummary>,
    has_next: bool,
) -> Seq<char> {
    let base = "pr://"@ + repository.spec_text();
    "# Pull requests: "@ + repository.spec_text() + "\n"@ + if rows.len() == 0 {
        if has_next {
            "\n(no pull requests on this page)\n"@
        } else {
            "\n(no pull requests)\n"@
        }
    } else {
        concat_map(rows, |p: PullRequestSummary| pull_row(base, p))
    }
}

fn retain_plain_issues(items: Vec<Issue>) -> (r: Vec<Issue>)
    ensures
        r@ == items@.filter(is_plain_issue()),
{
    let ghost orig = items@;
    let mut items = items;
    let mut out: Vec<Issue> = Vec::new();
    let ghost mut done: int = 0;
    while items.len() > 0
        invariant
            0 <= done <= orig.len(),
            items@ == orig.skip(done),
            out@ == orig.take(done).filter(is_plain_issue()),
        decreases items@.len(),
    {
        assert(orig.skip(done).len() == orig.len() - done);
        let x = items.remove(0);
        proof {
            assert(x == orig[done]);
            let t = orig.take(done + 1);
            assert(t.drop_last() =~= orig.take(done));
            assert(t.last() == x);
        }
        let ghost prev = out@;
        if !x.pull_request {
            out.push(x);
        }
        proof {
            reveal(Seq::filter);
            let t = orig.take(done + 1);
            assert((is_plain_issue())(x) == !x.pull_request);
            assert(t.filter(is_plain_issue()) == if !x.pull_request {
                prev.push(x)
            } else {
                prev
            });
            done = done + 1;
            assert(items@ =~= orig.skip(done));
        }
    }
    proof {
        reveal(Seq::filter);
        assert(orig.take(done) =~= orig);
    }
    out
}

fn sort_listed_issues(items: Vec<Issue>) -> (r: Vec<Issue>)
    ensures
        r@ == stable_sorted(items@, issue_listing_order(), true),
{
    let mut keys: Vec<ExecStampKey> = Vec::new();
    let mut i: usize = 0;
    while i < items.len()
        invariant
            i <= items@.len(),
            keys@.len() == i,
            forall|m: int| 0 <= m < i ==> (#[trigger] keys@[m]).key() == (issue_listing_order())(items@[m]),
        decreases items@.len() - i,
    {
        let x = &items[i];
        keys.push(ExecStampKey { present: true, stamp: chars_of(x.updated_at.as_str()), id: x.number });
        i = i + 1;
    }
    sort_stable(items, keys, true, Ghost(issue_listing_order()))
}

fn sort_listed_pulls(items: Vec<PullRequestSummary>) -> (r: Vec<PullRequestSummary>)
    ensures
        r@ == stable_sorted(items@, pull_listing_order(), true),
{
    let mut keys: Vec<ExecStampKey> = Vec::new();
    let mut i: usize = 0;
    while i < items.len()
        invariant
            i <= items@.len(),
            keys@.len() == i,
            forall|m: int| 0 <= m < i ==> (#[trigger] keys@[m]).key() == (pull_listing_order())(items@[m]),
        decreases items@.len() - i,
    {
        let x = &items[i];
        keys.push(ExecStampKey { present: true, stamp: chars_of(x.updated_at.as_str()), id: x.number });
        i = i + 1;
    }
    sort_stable(items, keys, true, Ghost(pull_listing_order()))
}

fn push_issue_row(s: &mut String, base: &str, x: &Issue)
    ensures
        final(s)@ == old(s)@ + issue_row(base@, *x),
{
    let mut t = owned("- ");
    push_str(&mut t, base);
    push_str(&mut t, "/");
    push_decimal(&mut t, x.number);
    push_str(&mut t, " \u{2014} ");
    push_str(&mut t, x.title.as_str());
    push_str(&mut t, " [");
    push_str(&mut t, x.state.as_str());
    push_str(&mut t, "] by ");
    match &x.user {
        Some(u) => push_str(&mut t, u.login.as_str()),
        None => push_str(&mut t, "[deleted]"),
    }
    push_str(&mut t, " (updated ");
    push_str(&mut t, x.updated_at.as_str());
    push_str(&mut t, ")\n");
    push_str(s, t.as_str());
}

fn push_pull_row(s: &mut String, base: &str, x: &PullRequestSummary)
    ensures
        final(s)@ == old(s)@ + pull_row(base@, *x),
{
    let mut t = owned("- ");
    push_str(&mut t, base);
    push_str(&mut t, "/");
    push_decimal(&mut t, x.number);
    push_str(&mut t, " \u{2014} ");
    push_str(&mut t, x.title.as_str());
    push_str(&mut t, " [");
    if x.merged_at.is_some() {
        push_str(&mut t, "merged");
    } else {
        push_str(&mut t, x.state.as_str());
    }
    let ghost before = t@;
    if x.draft {
        push_str(&mut t, ", draft");
    } else {
        proof {
            assert(t@ =~= before + Seq::<char>::empty());
        }
    }
    push_str(&mut t, "] by ");
    match &x.user {
        Some(u) => push_str(&mut t, u.login.as_str()),
        None => push_str(&mut t, "[deleted]"),
    }
    push_str(&mut t, " (updated ");
    push_str(&mut t, x.updated_at.as_str());
    push_str(&mut t, "; ");
    push_str(&mut t, x.html_url.as_str());
    push_str(&mut t, ")\n");
    push_str(s, t.as_str());
}

/// One page of a repository's issues: the listing is checked, pull requests
/// are left out, and the rest are listed latest update first.
pub fn issue_collection(
    repository: &GithubRepositoryIdentity,
    issues: Vec<Issue>,
    next: Option<u64>,
) -> (r: Result<Rendered, ResourceError>)
    ensures
        match issue_listing_error(issues@) {
            Some(m) => r matches Err(e) && is_upstream_error(e, m),
            None => r matches Ok(page) && {
                let base = "issue://"@ + repository.spec_text();
                &&& page.content@ == collected(
                    issue_collection_text(*repository, listed_issues(issues@), next is Some),
                    next_ref(base, next),
                )
                &&& opt_view(page.continuation) == next_ref(base, next)
            },
        },
{
    validate_issue_listing(issues.as_slice())?;
    let ghost given = issues@;
    let rows = sort_listed_issues(retain_plain_issues(issues));
    let repo = repository.as_string();
    let mut base = owned("issue://");
    push_str(&mut base, repo.as_str());
    let mut s = owned("# Issues: ");
    push_str(&mut s, repo.as_str());
    push_str(&mut s, "\n");
    if rows.len() == 0 {
        if next.is_some() {
            push_str(&mut s, "\n(no issues on this page)\n");
        } else {
            push_str(&mut s, "\n(no issues)\n");
        }
    } else {
        let ghost start = s@;
        let ghost f = |i: Issue| issue_row(base@, i);
        let mut i: usize = 0;
        while i < rows.len()
            invariant
                i <= rows@.len(),
                f == (|i: Issue| issue_row(base@, i)),
                s@ == start + concat_map(rows@.take(i as int), f),
            decreases rows@.len() - i,
        {
            push_issue_row(&mut s, base.as_str(), &rows[i]);
            proof {
                let t = rows@.take(i + 1);
                assert(t.drop_last() =~= rows@.take(i as int));
                assert(s@ =~= start + concat_map(t, f));
            }
            i = i + 1;
        }
        proof {
            assert(rows@.take(i as int) =~= rows@);
        }
    }
    let next_page = next_reference(base.as_str(), next);
    Ok(Rendered::collection(s, next_page))
}

/// One page of a repository's pull requests, latest update first.
pub fn pull_collection(
    repository: &GithubRepositoryIdentity,
    pulls: Vec<PullRequestSummary>,
    next: Option<u64>,
) -> (r: Result<Rendered, ResourceError>)
    ensures
        match pull_summaries_error(pulls@) {
            Some(m) => r matches Err(e) && is_upstream_error(e, m),
            None => r matches Ok(page) && {
                let base = "pr://"@ + repository.spec_text();
                &&& page.content@ == collected(
                    pull_collection_text(*repository, listed_pulls(pulls@), next is Some),
                    next_ref(base, next),
                )
                &&& opt_view(page.continuation) == next_ref(base, next)
            },
        },
{
    validate_pull_summaries(pulls.as_slice())?;
    let rows = sort_listed_pulls(pulls);
    let repo = repository.as_string();
    let mut base = owned("pr://");
    push_str(&mut base, repo.as_str());
    let mut s = owned("# Pull requests: ");
    push_str(&mut s, repo.as_str());
    push_str(&mut s, "\n");
    if rows.len() == 0 {
        if next.is_some() {
            push_str(&mut s, "\n(no pull requests on this page)\n");
        } else {
            push_str(&mut s, "\n(no pull requests)\n");
        }
    } else {
        let ghost start = s@;
        let ghost f = |p: PullRequestSummary| pull_row(base@, p);
        let mut i: usize = 0;
        while i < rows.len()
            invariant
                i <= rows@.len(),
                f == (|p: PullRequestSummary| pull_row(base@, p)),
                s@ == start + concat_map(rows@.take(i as int), f),
            decreases rows@.len() - i,
        {
            push_pull_row(&mut s, base.as_str(), &rows[i]);
            proof {
                let t = rows@.take(i + 1);
                assert(t.drop_last() =~= rows@.take(i as int));
                assert(s@ =~= start + concat_map(t, f));
            }
            i = i + 1;
        }
        proof {
            assert(rows@.take(i as int) =~= rows@);
        }
    }
    let next_page = next_reference(base.as_str(), next);
    Ok(Rendered::collection(s, next_page))
}


// ------------------------------------------------------------ record checks

/// Why a record fetched by id is refused before its parent is consulted: a
/// zero id, an invalid account, then an id other than the addressed one.
pub open spec fn identity_refusal(
    id: u64,
    expected: u64,
    user: Option<SimpleUser>,
    id_field: Seq<char>,
    user_field: Seq<char>,
    mismatch: Seq<char>,
) -> Option<Seq<char>> {
    if id == 0 {
        Some(positive_message(id_field))
    } else if user_error(user, user_field) is Some {
        user_error(user, user_field)
    } else if id != expected {
        Some(mismatch)
    } else {
        None
    }
}

fn check_identity(
    id: u64,
    expected: u64,
    user: &Option<SimpleUser>,
    id_field: &str,
    user_field: &str,
    mismatch: &str,
) -> (r: Result<(), ResourceError>)
    ensures
        match identity_refusal(id, expected, *user, id_field@, user_field@, mismatch@) {
            None => r is Ok,
            Some(m) => r matches Err(e) && is_upstream_error(e, m),
        },
{
    validate_positive(id, id_field)?;
    validate_user(user, user_field)?;
    if id != expected {
        return Err(malformed_upstream(mismatch));
    }
    Ok(())
}

/// Issue `number` as fetched, refused when its identity is malformed or
/// when the number names a pull request.
pub fn checked_issue(issue: Issue, number: u64) -> (r: Result<Issue, ResourceError>)
    ensures
        match issue_identity_error(issue, number) {
            Some(m) => r matches Err(e) && is_upstream_error(e, m),
            None => if issue.pull_request {
                r matches Err(e) && is_refusal(
                    e,
                    ErrorCategory::NotFound,
                    "GitHub number names a pull request; address it through pr://"@,
                )
            } else {
                r == Ok::<Issue, ResourceError>(issue)
            },
        },
{
    validate_issue_identity(&issue, number)?;
    if issue.pull_request {
        return Err(
            ResourceError::new(
                ErrorCategory::NotFound,
                "GitHub number names a pull request; address it through pr://",
            ),
        );
    }
    Ok(issue)
}

/// Pull request `number` as fetched, refused when its identity is malformed.
pub fn checked_pull(pull: PullRequest, number: u64) -> (r: Result<PullRequest, ResourceError>)
    ensures
        match pull_identity_error(pull, number) {
            Some(m) => r matches Err(e) && is_upstream_error(e, m),
            None => r == Ok::<PullRequest, ResourceError>(pull),
        },
{
    validate_pull_identity(&pull, number)?;
    Ok(pull)
}

/// Conversation comment `id` as fetched, served only beneath issue or pull
/// request `number` of `repository`.
pub fn checked_conversation_comment(
    c: ConversationComment,
    repository: &GithubRepositoryIdentity,
    number: u64,
    id: u64,
) -> (r: Result<ConversationComment, ResourceError>)
    ensures
        match identity_refusal(
            c.id,
            id,
            c.user,
            "comment.id"@,
            "comment.user.id"@,
            "GitHub comment ID does not match its path"@,
        ) {
            Some(m) => r matches Err(e) && is_upstream_error(e, m),
            None => refused_as(r, parent_refusal(c.issue_url@, *repository, "issues"@, number)) && (
            r is Ok ==> r == Ok::<ConversationComment, ResourceError>(c)),
        },
{
    check_identity(
        c.id,
        id,
        &c.user,
        "comment.id",
        "comment.user.id",
        "GitHub comment ID does not match its path",
    )?;
    validate_parent(c.issue_url.as_str(), repository, "issues", number)?;
    Ok(c)
}

/// Inline review comment `id` as fetched, served only beneath pull request
/// `number` of `repository`.
pub fn checked_review_comment(
    c: ReviewComment,
    repository: &GithubRepositoryIdentity,
    number: u64,
    id: u64,
) -> (r: Result<ReviewComment, ResourceError>)
    ensures
        match identity_refusal(
            c.id,
            id,
            c.user,
            "review_comment.id"@,
            "review_comment.user.id"@,
            "GitHub review comment ID does not match its path"@,
        ) {
            Some(m) => r matches Err(e) && is_upstream_error(e, m),
            None => refused_as(r, parent_refusal(c.pull_request_url@, *repository, "pulls"@, number)) && (
            r is Ok ==> r == Ok::<ReviewComment, ResourceError>(c)),
        },
{
    check_identity(
        c.id,
        id,
        &c.user,
        "review_comment.id",
        "review_comment.user.id",
        "GitHub review comment ID does not match its path",
    )?;
    validate_parent(c.pull_request_url.as_str(), repository, "pulls", number)?;
    Ok(c)
}

/// Review `id` as fetched.
pub fn checked_review(rv: Review, id: u64) -> (r: Result<Review, ResourceError>)
    ensures
        match identity_refusal(
            rv.id,
            id,
            rv.user,
            "review.id"@,
            "review.user.id"@,
            "GitHub review ID does not match its path"@,
        ) {
            Some(m) => r matches Err(e) && is_upstream_error(e, m),
            None => r == Ok::<Review, ResourceError>(rv),
        },
{
    check_identity(
        rv.id,
        id,
        &rv.user,
        "review.id",
        "review.user.id",
        "GitHub review ID does not match its path",
    )?;
    Ok(rv)
}

// ----------------------------------------------------- one record's lists

pub open spec fn comment_entry(base: Seq<char>, c: ConversationComment) -> Seq<char> {
    base + "/comments/"@ + decimal(c.id as nat) + "\n"@ + comment_text(c)
}

pub open spec fn review_entry(base: Seq<char>, r: Review) -> Seq<char> {
    base + "/reviews/"@ + decimal(r.id as nat) + "\n"@ + review_text(r)
}

pub open spec fn review_comment_entry(base: Seq<char>, c: ReviewComment) -> Seq<char> {
    base + "/review-comments/"@ + decimal(c.id as nat) + "\n"@ + review_comment_text(c)
}

/// The listing of conversation comments, each led by its own reference.
pub open spec fn comments_listing(base: Seq<char>, cs: Seq<ConversationComment>) -> Seq<char> {
    join_map(cs, |c: ConversationComment| comment_entry(base, c), "\n\n"@)
}

pub open spec fn reviews_listing(base: Seq<char>, rs: Seq<Review>) -> Seq<char> {
    join_map(rs, |r: Review| review_entry(base, r), "\n\n"@)
}

/// Law: the reviews listing leads each review's entry with the address the
/// aggregate names that review by: the base, `/reviews/` and the review id.
pub proof fn lemma_listing_leads_with_the_review_address(base: Seq<char>, r: Review)
    ensures
        review_entry(base, r).take((base + "/reviews/"@ + decimal(r.id as nat)).len() as int)
            == base + "/reviews/"@ + decimal(r.id as nat),
        review_reference(base, r.id) == "\nReference: "@ + (base + "/reviews/"@ + decimal(r.id as nat)),
{
    let addr = base + "/reviews/"@ + decimal(r.id as nat);
    assert(review_entry(base, r) =~= addr + ("\n"@ + review_text(r)));
    assert(review_entry(base, r).take(addr.len() as int) =~= addr);
    assert(review_reference(base, r.id) =~= "\nReference: "@ + addr);
}

pub open spec fn review_comments_listing(base: Seq<char>, cs: Seq<ReviewComment>) -> Seq<char> {
    join_map(cs, |c: ReviewComment| review_comment_entry(base, c), "\n\n"@)
}

/// One page of a record's conversation comments, oldest first.
pub fn comments_page(
    base: &str,
    comments: Vec<ConversationComment>,
    next: Option<u64>,
) -> (r: Result<Rendered, ResourceError>)
    ensures
        match comment_ids_error(comments@) {
            Some(m) => r matches Err(e) && is_upstream_error(e, m),
            None => r matches Ok(page) && {
                let at = base@ + "/comments"@;
                &&& page.content@ == collected(
                    comments_listing(base@, stable_sorted(comments@, comment_order(), false)),
                    next_ref(at, next),
                )
                &&& opt_view(page.continuation) == next_ref(at, next)
            },
        },
{
    validate_comment_ids(comments.as_slice())?;
    let rows = sort_comments(comments);
    let ghost f = |c: ConversationComment| comment_entry(base@, c);
    let mut s = String::new();
    let mut i: usize = 0;
    while i < rows.len()
        invariant
            i <= rows@.len(),
            f == (|c: ConversationComment| comment_entry(base@, c)),
            s@ == join_map(rows@.take(i as int), f, "\n\n"@),
        decreases rows@.len() - i,
    {
        let ghost before = s@;
        if i > 0 {
            push_str(&mut s, "\n\n");
        }
        let ghost mid = s@;
        push_str(&mut s, base);
        push_str(&mut s, "/comments/");
        push_decimal(&mut s, rows[i].id);
        push_str(&mut s, "\n");
        push_str(&mut s, comment(&rows[i]).as_str());
        proof {
            lemma_join_map_step(rows@, f, "\n\n"@, i as int);
            assert(mid =~= before + (if i > 0 { "\n\n"@ } else { Seq::<char>::empty() }));
            assert(s@ =~= join_map(rows@.take(i + 1), f, "\n\n"@));
        }
        i = i + 1;
    }
    proof {
        assert(rows@.take(i as int) =~= rows@);
    }
    let mut at = owned(base);
    push_str(&mut at, "/comments");
    let next_page = next_reference(at.as_str(), next);
    Ok(Rendered::collection(s, next_page))
}

/// One page of a pull request's reviews, pending first, then by submission.
pub fn reviews_page(base: &str, reviews: Vec<Review>, next: Option<u64>) -> (r: Result<Rendered, ResourceError>)
    ensures
        match review_ids_error(reviews@) {
            Some(m) => r matches Err(e) && is_upstream_error(e, m),
            None => r matches Ok(page) && {
                let at = base@ + "/reviews"@;
                &&& page.content@ == collected(
                    reviews_listing(base@, stable_sorted(reviews@, review_order(), false)),
                    next_ref(at, next),
                )
                &&& opt_view(page.continuation) == next_ref(at, next)
            },
        },
{
    validate_review_ids(reviews.as_slice())?;
    let rows = sort_reviews(reviews);
    let ghost f = |r: Review| review_entry(base@, r);
    let mut s = String::new();
    let mut i: usize = 0;
    while i < rows.len()
        invariant
            i <= rows@.len(),
            f == (|r: Review| review_entry(base@, r)),
            s@ == join_map(rows@.take(i as int), f, "\n\n"@),
        decreases rows@.len() - i,
    {
        let ghost before = s@;
        if i > 0 {
            push_str(&mut s, "\n\n");
        }
        let ghost mid = s@;
        push_str(&mut s, base);
        push_str(&mut s, "/reviews/");
        push_decimal(&mut s, rows[i].id);
        push_str(&mut s, "\n");
        push_str(&mut s, review(&rows[i]).as_str());
        proof {
            lemma_join_map_step(rows@, f, "\n\n"@, i as int);
            assert(mid =~= before + (if i > 0 { "\n\n"@ } else { Seq::<char>::empty() }));
            assert(s@ =~= join_map(rows@.take(i + 1), f, "\n\n"@));
        }
        i = i + 1;
    }
    proof {
        assert(rows@.take(i as int) =~= rows@);
    }
    let mut at = owned(base);
    push_str(&mut at, "/reviews");
    let next_page = next_reference(at.as_str(), next);
    Ok(Rendered::collection(s, next_page))
}

/// One page of a pull request's inline review comments, oldest first.
pub fn review_comments_page(
    base: &str,
    comments: Vec<ReviewComment>,
    next: Option<u64>,
) -> (r: Result<Rendered, ResourceError>)
    ensures
        match review_comment_ids_error(comments@) {
            Some(m) => r matches Err(e) && is_upstream_error(e, m),
            None => r matches Ok(page) && {
                let at = base@ + "/review-comments"@;
                &&& page.content@ == collected(
                    review_comments_listing(base@, stable_sorted(comments@, review_comment_order(), false)),
                    next_ref(at, next),
                )
                &&& opt_view(page.continuation) == next_ref(at, next)
            },
        },
{
    validate_review_comment_ids(comments.as_slice())?;
    let rows = sort_review_comments(comments);
    let ghost f = |c: ReviewComment| review_comment_entry(base@, c);
    let mut s = String::new();
    let mut i: usize = 0;
    while i < rows.len()
        invariant
            i <= rows@.len(),
            f == (|c: ReviewComment| review_comment_entry(base@, c)),
            s@ == join_map(rows@.take(i as int), f, "\n\n"@),
        decreases rows@.len() - i,
    {
        let ghost before = s@;
        if i > 0 {
            push_str(&mut s, "\n\n");
        }
        let ghost mid = s@;
        push_str(&mut s, base);
        push_str(&mut s, "/review-comments/");
        push_decimal(&mut s, rows[i].id);
        push_str(&mut s, "\n");
        push_str(&mut s, review_comment(&rows[i]).as_str());
        proof {
            lemma_join_map_step(rows@, f, "\n\n"@, i as int);
            assert(mid =~= before + (if i > 0 { "\n\n"@ } else { Seq::<char>::empty() }));
            assert(s@ =~= join_map(rows@.take(i + 1), f, "\n\n"@));
        }
        i = i + 1;
    }
    proof {
        assert(rows@.take(i as int) =~= rows@);
    }
    let mut at = owned(base);
    push_str(&mut at, "/review-comments");
    let next_page = next_reference(at.as_str(), next);
    Ok(Rendered::collection(s, next_page))
}


// -------------------------------------------------------------------- diffs

/// Changed files an upstream page lists.
pub const PAGE_SIZE: u64 = 100;

/// The listing row of the file numbered `n` on a diff page.
pub open spec fn diff_row(base: Seq<char>, n: nat, f: DiffFile) -> Seq<char> {
    base + "/diff/"@ + decimal(n) + " \u{2014} "@ + f.filename@ + " ("@ + f.status@ + ")"@
}

/// The rows of a diff page whose files are numbered from `first + 1`,
/// one per line.
pub open spec fn diff_rows(base: Seq<char>, first: nat, files: Seq<DiffFile>) -> Seq<char>
    decreases files.len(),
{
    if files.len() == 0 {
        Seq::empty()
    } else if files.len() == 1 {
        diff_row(base, first + 1, files[0])
    } else {
        diff_rows(base, first, files.drop_last()) + "\n"@ + diff_row(base, first + files.len(), files.last())
    }
}

/// Page `page` of a pull request's changed files, numbered across pages.
pub fn diff_page(base: &str, page: u64, files: Vec<DiffFile>, next: Option<u64>) -> (r: Result<Rendered, ResourceError>)
    requires
        page >= 1 && (page - 1) * PAGE_SIZE <= u64::MAX ==> (page - 1) * PAGE_SIZE + files@.len() <= u64::MAX,
    ensures
        if !files_valid(files@) {
            r matches Err(e) && is_upstream_error(e, "GitHub diff file requires filename and status"@)
        } else if page == 0 || (page - 1) * PAGE_SIZE > u64::MAX {
            r matches Err(e) && is_refusal(e, ErrorCategory::LimitExceeded, "GitHub diff page index overflowed"@)
        } else {
            r matches Ok(rendered) && {
                let at = base@ + "/diff"@;
                &&& rendered.content@ == collected(
                    diff_rows(base@, ((page - 1) * PAGE_SIZE) as nat, files@),
                    next_ref(at, next),
                )
                &&& opt_view(rendered.continuation) == next_ref(at, next)
            }
        },
{
    validate_files(files.as_slice())?;
    let base_index = match page.checked_sub(1) {
        Some(p) => match p.checked_mul(PAGE_SIZE) {
            Some(b) => b,
            None => {
                return Err(ResourceError::new(ErrorCategory::LimitExceeded, "GitHub diff page index overflowed"));
            },
        },
        None => {
            return Err(ResourceError::new(ErrorCategory::LimitExceeded, "GitHub diff page index overflowed"));
        },
    };
    let mut s = String::new();
    let mut i: usize = 0;
    while i < files.len()
        invariant
            i <= files@.len(),
            base_index + files@.len() <= u64::MAX,
            s@ == diff_rows(base@, base_index as nat, files@.take(i as int)),
        decreases files@.len() - i,
    {
        let ghost before = s@;
        if i > 0 {
            push_str(&mut s, "\n");
        }
        let ghost mid = s@;
        let n: u64 = base_index + i as u64 + 1;
        push_str(&mut s, base);
        push_str(&mut s, "/diff/");
        push_decimal(&mut s, n);
        push_str(&mut s, " \u{2014} ");
        push_str(&mut s, files[i].filename.as_str());
        push_str(&mut s, " (");
        push_str(&mut s, files[i].status.as_str());
        push_str(&mut s, ")");
        proof {
            let t = files@.take(i + 1);
            assert(t.drop_last() =~= files@.take(i as int));
            assert(t.last() == files@[i as int]);
            if i == 0 {
                assert(t[0] == files@[0]);
                assert(files@.take(0).len() == 0);
                assert(mid =~= before);
                assert(before =~= Seq::<char>::empty());
            } else {
                assert(mid =~= before + "\n"@);
            }
            assert(s@ =~= diff_rows(base@, base_index as nat, t));
        }
        i = i + 1;
    }
    proof {
        assert(files@.take(i as int) =~= files@);
    }
    let mut at = owned(base);
    push_str(&mut at, "/diff");
    let next_page = next_reference(at.as_str(), next);
    Ok(Rendered::collection(s, next_page))
}

/// `index - 1`, or zero for index zero.
pub open spec fn zero_based(index: u64) -> u64 {
    if index == 0 {
        0
    } else {
        (index - 1) as u64
    }
}

/// Where diff file `index` (counted from 1) is listed: its upstream page and
/// its offset there, on the same pages the diff listing advertises.
pub fn diff_file_location(index: u64) -> (loc: (u64, usize))
    ensures
        loc.0 == zero_based(index) / PAGE_SIZE + 1,
        loc.1 == zero_based(index) % PAGE_SIZE,
{
    let zero = index.saturating_sub(1);
    let page = zero / PAGE_SIZE + 1;
    let offset = (zero % PAGE_SIZE) as usize;
    (page, offset)
}

/// Law: diff files are numbered across the same pages the listing shows, so
/// the file a diff page lists at offset `k` of page `page` is the one its
/// number addresses.
pub proof fn lemma_diff_numbering(page: u64, k: nat)
    requires
        1 <= page,
        k < PAGE_SIZE,
        (page - 1) * PAGE_SIZE + k + 1 <= u64::MAX,
    ensures
        ({
            let n = ((page - 1) * PAGE_SIZE + k + 1) as u64;
            &&& zero_based(n) / PAGE_SIZE + 1 == page
            &&& zero_based(n) % PAGE_SIZE == k
        }),
{
    let n = ((page - 1) * PAGE_SIZE + k + 1) as u64;
    let p1: int = page - 1;
    assert(zero_based(n) == p1 * 100 + k);
    assert((p1 * 100 + k) / 100 == p1 && (p1 * 100 + k) % 100 == k) by (nonlinear_arith)
        requires
            0 <= p1,
            0 <= k < 100,
    ;
}

/// The changed file at `offset` of a fetched page.
pub fn diff_file_resource(files: &[DiffFile], offset: usize) -> (r: Result<Rendered, ResourceError>)
    ensures
        if !files_valid(files@) {
            r matches Err(e) && is_upstream_error(e, "GitHub diff file requires filename and status"@)
        } else if offset >= files@.len() {
            r matches Err(e) && is_refusal(e, ErrorCategory::NotFound, "GitHub diff file index was not found"@)
        } else {
            r matches Ok(rendered) && rendered.content@ == diff_file_text(files@[offset as int])
                && rendered.continuation is None
        },
{
    validate_files(files)?;
    if offset >= files.len() {
        return Err(ResourceError::new(ErrorCategory::NotFound, "GitHub diff file index was not found"));
    }
    Ok(Rendered::complete(diff_file(&files[offset])))
}

/// A pull request's unified diff, which must be UTF-8.
pub fn unified_diff_resource(body: &[u8]) -> (r: Result<Rendered, ResourceError>)
    ensures
        if vstd::utf8::valid_utf8(body@) {
            r matches Ok(rendered) && rendered.content@ == vstd::utf8::decode_utf8(body@)
                && rendered.continuation is None
        } else {
            r matches Err(e) && is_upstream_error(e, "GitHub unified diff is not valid UTF-8"@)
        },
{
    match utf8_string(body) {
        Some(text) => Ok(Rendered::complete(text)),
        None => Err(malformed_upstream("GitHub unified diff is not valid UTF-8")),
    }
}

// --------------------------------------------------------------- aggregates

pub open spec fn opt_seq(o: Option<Seq<char>>) -> Seq<Seq<char>> {
    match o {
        Some(x) => seq![x],
        None => Seq::empty(),
    }
}

/// The aggregate of a checked issue `number` and the first page of its
/// conversation comments; a further page is named by a continuation line.
pub fn issue_aggregate_resource(
    repository: &GithubRepositoryIdentity,
    number: u64,
    issue: &Issue,
    comments: Vec<ConversationComment>,
    next: Option<u64>,
) -> (r: Result<Rendered, ResourceError>)
    ensures
        match comment_ids_error(comments@) {
            Some(m) => r matches Err(e) && is_upstream_error(e, m),
            None => r matches Ok(rendered) && rendered.continuation is None && rendered.content@
                == with_continuations(
                issue_text(*repository, *issue, stable_sorted(comments@, comment_order(), false)),
                opt_seq(next_ref(aggregate_base("issue://"@, *repository, number) + "/comments"@, next)),
            ),
        },
{
    validate_comment_ids(comments.as_slice())?;
    let text = issue_aggregate(repository, issue, comments);
    let mut at = owned("issue://");
    push_str(&mut at, repository.as_string().as_str());
    push_str(&mut at, "/");
    push_decimal(&mut at, number);
    push_str(&mut at, "/comments");
    proof {
        assert(at@ =~= aggregate_base("issue://"@, *repository, number) + "/comments"@);
    }
    let mut refs: Vec<String> = Vec::new();
    match next_reference(at.as_str(), next) {
        Some(x) => refs.push(x),
        None => {},
    }
    proof {
        assert(string_views(refs@) =~= opt_seq(next_ref(at@, next)));
    }
    Ok(Rendered::aggregate(text, refs.as_slice()))
}

/// The continuation lines of a pull-request aggregate, in the order its
/// sections appear.
pub open spec fn pull_continuations(
    base: Seq<char>,
    comment_next: Option<u64>,
    review_next: Option<u64>,
    review_comment_next: Option<u64>,
    file_next: Option<u64>,
) -> Seq<Seq<char>> {
    opt_seq(next_ref(base + "/comments"@, comment_next)) + opt_seq(next_ref(base + "/reviews"@, review_next))
        + opt_seq(next_ref(base + "/review-comments"@, review_comment_next)) + opt_seq(
        next_ref(base + "/diff"@, file_next),
    )
}

fn push_next(refs: &mut Vec<String>, base: &str, section: &str, next: Option<u64>)
    ensures
        string_views(final(refs)@) == string_views(old(refs)@) + opt_seq(next_ref(base@ + section@, next)),
{
    let mut at = owned(base);
    push_str(&mut at, section);
    let ghost before = refs@;
    match next_reference(at.as_str(), next) {
        Some(x) => refs.push(x),
        None => {},
    }
    proof {
        assert(string_views(refs@) =~= string_views(before) + opt_seq(next_ref(at@, next)));
    }
}

/// The aggregate of a checked pull request `number` with the first pages of
/// its comments, reviews, inline comments and changed files.
pub fn pull_aggregate_resource(
    repository: &GithubRepositoryIdentity,
    number: u64,
    pull: &PullRequest,
    comments: Vec<ConversationComment>,
    comment_next: Option<u64>,
    reviews: Vec<Review>,
    review_next: Option<u64>,
    review_comments: Vec<ReviewComment>,
    review_comment_next: Option<u64>,
    files: Vec<DiffFile>,
    file_next: Option<u64>,
) -> (r: Result<Rendered, ResourceError>)
    ensures
        if comment_ids_error(comments@) is Some {
            r matches Err(e) && is_upstream_error(e, comment_ids_error(comments@)->0)
        } else if review_ids_error(reviews@) is Some {
            r matches Err(e) && is_upstream_error(e, review_ids_error(reviews@)->0)
        } else if review_comment_ids_error(review_comments@) is Some {
            r matches Err(e) && is_upstream_error(e, review_comment_ids_error(review_comments@)->0)
        } else if !files_valid(files@) {
            r matches Err(e) && is_upstream_error(e, "GitHub diff file requires filename and status"@)
        } else {
            r matches Ok(rendered) && rendered.continuation is None && rendered.content@
                == with_continuations(
                pull_text(
                    *repository,
                    *pull,
                    stable_sorted(comments@, comment_order(), false),
                    stable_sorted(reviews@, review_order(), false),
                    stable_sorted(review_comments@, review_comment_order(), false),
                    files@,
                ),
                pull_continuations(
                    aggregate_base("pr://"@, *repository, number),
                    comment_next,
                    review_next,
                    review_comment_next,
                    file_next,
                ),
            )
        },
{
    validate_comment_ids(comments.as_slice())?;
    validate_review_ids(reviews.as_slice())?;
    validate_review_comment_ids(review_comments.as_slice())?;
    validate_files(files.as_slice())?;
    let text = pull_request_aggregate(repository, pull, comments, reviews, review_comments, files.as_slice());
    let mut base = owned("pr://");
    push_str(&mut base, repository.as_string().as_str());
    push_str(&mut base, "/");
    push_decimal(&mut base, number);
    proof {
        assert(base@ =~= aggregate_base("pr://"@, *repository, number));
    }
    let mut refs: Vec<String> = Vec::new();
    proof {
        assert(string_views(refs@) =~= Seq::<Seq<char>>::empty());
    }
    push_next(&mut refs, base.as_str(), "/comments", comment_next);
    push_next(&mut refs, base.as_str(), "/reviews", review_next);
    push_next(&mut refs, base.as_str(), "/review-comments", review_comment_next);
    push_next(&mut refs, base.as_str(), "/diff", file_next);
    proof {
        assert(string_views(refs@) =~= pull_continuations(base@, comment_next, review_next, review_comment_next, file_next));
    }
    Ok(Rendered::aggregate(text, refs.as_slice()))
}

// -------------------------------------------------------------- read plans

/// What an `issue://<owner>/<repository>/<number>` reference names.
#[derive(Debug, Clone, Copy, PartialEq, Eq, Structural)]
pub enum IssueResource {
    Aggregate,
    Title,
    Body,
    Comments,
    CommentsNew,
    Comment(u64),
}

/// What an item reference beneath `pr://` names.
#[derive(Debug, Clone, Copy, PartialEq, Eq, Structural)]
pub enum PullRequestResource {
    Facts,
    Aggregate,
    Title,
    Body,
    Comments,
    CommentsNew,
    Comment(u64),
    Reviews,
    Review(u64),
    ReviewComments,
    ReviewComment(u64),
    Diff,
    DiffFile(u64),
}

/// The upstream reads an issue projection needs, with the page of a paged
/// one: the issue itself is fetched first for every one of them.
#[derive(Debug, Clone, Copy, PartialEq, Eq, Structural)]
pub enum IssueRead {
    Aggregate,
    Title,
    Body,
    Comments(u64),
    Comment(u64),
}

/// The upstream reads a pull-request projection needs.
#[derive(Debug, Clone, Copy, PartialEq, Eq, Structural)]
pub enum PullRead {
    Aggregate,
    Title,
    Body,
    Comments(u64),
    Comment(u64),
    Reviews(u64),
    Review(u64),
    ReviewComments(u64),
    ReviewComment(u64),
    UnifiedDiff,
    DiffPage(u64),
    DiffFile { page: u64, offset: usize },
}

pub open spec fn unsupported_message() -> Seq<char> {
    "GitHub reference does not name a supported read projection"@
}

pub fn unsupported_github_projection() -> (e: ResourceError)
    ensures
        is_refusal(e, ErrorCategory::UnsupportedProjection, unsupported_message()),
{
    ResourceError::new(
        ErrorCategory::UnsupportedProjection,
        "GitHub reference does not name a supported read projection",
    )
}

pub open spec fn page_or_first(page: Option<u64>) -> u64 {
    match page {
        Some(p) => p,
        None => 1,
    }
}

/// The reads an issue projection needs; only the comment listing is paged.
pub open spec fn issue_read_plan(resource: IssueResource, page: Option<u64>) -> Option<IssueRead> {
    if page is Some && resource != IssueResource::Comments {
        None
    } else {
        match resource {
            IssueResource::Aggregate => Some(IssueRead::Aggregate),
            IssueResource::Title => Some(IssueRead::Title),
            IssueResource::Body => Some(IssueRead::Body),
            IssueResource::Comments => Some(IssueRead::Comments(page_or_first(page))),
            IssueResource::CommentsNew => None,
            IssueResource::Comment(id) => Some(IssueRead::Comment(id)),
        }
    }
}

/// The reads a pull-request projection needs; the comment, review, inline
/// comment and diff listings are paged, and an unpaged diff is the unified
/// diff.
pub open spec fn pull_read_plan(resource: PullRequestResource, page: Option<u64>) -> Option<PullRead> {
    let paged = match resource {
        PullRequestResource::Comments | PullRequestResource::Reviews | PullRequestResource::ReviewComments
        | PullRequestResource::Diff => true,
        _ => false,
    };
    if page is Some && !paged {
        None
    } else {
        match resource {
            PullRequestResource::Facts => None,
            PullRequestResource::Aggregate => Some(PullRead::Aggregate),
            PullRequestResource::Title => Some(PullRead::Title),
            PullRequestResource::Body => Some(PullRead::Body),
            PullRequestResource::Comments => Some(PullRead::Comments(page_or_first(page))),
            PullRequestResource::CommentsNew => None,
            PullRequestResource::Comment(id) => Some(PullRead::Comment(id)),
            PullRequestResource::Reviews => Some(PullRead::Reviews(page_or_first(page))),
            PullRequestResource::Review(id) => Some(PullRead::Review(id)),
            PullRequestResource::ReviewComments => Some(PullRead::ReviewComments(page_or_first(page))),
            PullRequestResource::ReviewComment(id) => Some(PullRead::ReviewComment(id)),
            PullRequestResource::Diff => match page {
                Some(p) => Some(PullRead::DiffPage(p)),
                None => Some(PullRead::UnifiedDiff),
            },
            PullRequestResource::DiffFile(index) => Some(
                PullRead::DiffFile {
                    page: (zero_based(index) / PAGE_SIZE + 1) as u64,
                    offset: (zero_based(index) % PAGE_SIZE) as usize,
                },
            ),
        }
    }
}

/// Law: each paged listing projection of a pull request is read through
/// its own listing, at the requested page or the first: comments through
/// the comment listing, reviews through the review listing, inline comments
/// through the inline-comment listing.
pub proof fn lemma_listings_read_their_own_listing(page: Option<u64>)
    ensures
        ({
            let p: u64 = match page {
                Some(n) => n,
                None => 1,
            };
            &&& pull_read_plan(PullRequestResource::Reviews, page) == Some(PullRead::Reviews(p))
            &&& pull_read_plan(PullRequestResource::Comments, page) == Some(PullRead::Comments(p))
            &&& pull_read_plan(PullRequestResource::ReviewComments, page) == Some(PullRead::ReviewComments(p))
            &&& issue_read_plan(IssueResource::Comments, page) == Some(IssueRead::Comments(p))
        }),
{
}

/// Law: one record of a listing is read as that record, by the id asked
/// for, and never through a paged listing.
pub proof fn lemma_single_records_read_by_id(id: u64)
    ensures
        pull_read_plan(PullRequestResource::Review(id), None) == Some(PullRead::Review(id)),
        pull_read_plan(PullRequestResource::Comment(id), None) == Some(PullRead::Comment(id)),
        pull_read_plan(PullRequestResource::ReviewComment(id), None) == Some(PullRead::ReviewComment(id)),
        issue_read_plan(IssueResource::Comment(id), None) == Some(IssueRead::Comment(id)),
        forall|p: u64| pull_read_plan(PullRequestResource::Review(id), Some(p)) is None,
{
}

pub fn plan_issue_read(resource: IssueResource, page: Option<u64>) -> (r: Result<IssueRead, ResourceError>)
    ensures
        match issue_read_plan(resource, page) {
            Some(plan) => r == Ok::<IssueRead, ResourceError>(plan),
            None => r matches Err(e) && is_refusal(e, ErrorCategory::UnsupportedProjection, unsupported_message()),
        },
{
    let comments = match resource {
        IssueResource::Comments => true,
        _ => false,
    };
    if page.is_some() && !comments {
        return Err(unsupported_github_projection());
    }
    match resource {
        IssueResource::Aggregate => Ok(IssueRead::Aggregate),
        IssueResource::Title => Ok(IssueRead::Title),
        IssueResource::Body => Ok(IssueRead::Body),
        IssueResource::Comments => Ok(
            IssueRead::Comments(
                match page {
                    Some(p) => p,
                    None => 1,
                },
            ),
        ),
        IssueResource::CommentsNew => Err(unsupported_github_projection()),
        IssueResource::Comment(id) => Ok(IssueRead::Comment(id)),
    }
}

pub fn plan_pull_read(resource: PullRequestResource, page: Option<u64>) -> (r: Result<PullRead, ResourceError>)
    ensures
        match pull_read_plan(resource, page) {
            Some(plan) => r == Ok::<PullRead, ResourceError>(plan),
            None => r matches Err(e) && is_refusal(e, ErrorCategory::UnsupportedProjection, unsupported_message()),
        },
{
    let paged = match resource {
        PullRequestResource::Comments | PullRequestResource::Reviews | PullRequestResource::ReviewComments
        | PullRequestResource::Diff => true,
        _ => false,
    };
    if page.is_some() && !paged {
        return Err(unsupported_github_projection());
    }
    let first = match page {
        Some(p) => p,
        None => 1,
    };
    match resource {
        PullRequestResource::Facts => Err(unsupported_github_projection()),
        PullRequestResource::Aggregate => Ok(PullRead::Aggregate),
        PullRequestResource::Title => Ok(PullRead::Title),
        PullRequestResource::Body => Ok(PullRead::Body),
        PullRequestResource::Comments => Ok(PullRead::Comments(first)),
        PullRequestResource::CommentsNew => Err(unsupported_github_projection()),
        PullRequestResource::Comment(id) => Ok(PullRead::Comment(id)),
        PullRequestResource::Reviews => Ok(PullRead::Reviews(first)),
        PullRequestResource::Review(id) => Ok(PullRead::Review(id)),
        PullRequestResource::ReviewComments => Ok(PullRead::ReviewComments(first)),
        PullRequestResource::ReviewComment(id) => Ok(PullRead::ReviewComment(id)),
        PullRequestResource::Diff => match page {
            Some(p) => Ok(PullRead::DiffPage(p)),
            None => Ok(PullRead::UnifiedDiff),
        },
        PullRequestResource::DiffFile(index) => {
            let (page, offset) = diff_file_location(index);
            Ok(PullRead::DiffFile { page, offset })
        },
    }
}

/// The text a title projection serves.
pub fn title_resource(title: String) -> (r: Rendered)
    ensures
        r.content@ == title@,
        r.continuation is None,
{
    Rendered::complete(title)
}

/// The text a body projection serves: the body, or nothing for a null one.
pub fn body_resource(body: Option<String>) -> (r: Rendered)
    ensures
        r.content@ == match body {
            Some(b) => b@,
            None => Seq::<char>::empty(),
        },
        r.continuation is None,
{
    Rendered::complete(authoritative_body(body))
}

} // verus!
