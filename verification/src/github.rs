//! Validation of decoded GitHub records before anything is rendered: positive
//! and unique identities, present accounts with logins, required listing
//! fields, and parent links that name the addressed repository object.
use vstd::prelude::*;
use url::{Origin, Url};
use crate::error::{refused_as, ErrorCategory, ResourceError};
use crate::github_wire::{
    ConversationComment, DiffFile, Issue, PullRequest, PullRequestSummary, Review, ReviewComment,
    SimpleUser,
};
use crate::text::{
    chars_eq_ignore_case, chars_eq_str, chars_of, eq_ignore_case, owned, parse_u64, parse_u64_spec, push_char, push_str,
    split_chars, split_seq, string_of, sub_chars, views,
};

verus! {

broadcast use {vstd::string::group_string_axioms, vstd::std_specs::hash::group_hash_axioms};

/// An allowlisted repository, `owner/repository`.
#[derive(Debug, Clone)]
pub struct GithubRepositoryIdentity {
    pub owner: String,
    pub repository: String,
}

impl GithubRepositoryIdentity {
    /// The identity's text, `owner/repository`.
    pub open spec fn spec_text(&self) -> Seq<char> {
        self.owner@ + "/"@ + self.repository@
    }

    pub fn as_string(&self) -> (s: String)
        ensures
            s@ == self.spec_text(),
    {
        let mut s = String::new();
        push_str(&mut s, self.owner.as_str());
        push_str(&mut s, "/");
        push_str(&mut s, self.repository.as_str());
        proof {
            assert(s@ =~= self.spec_text());
        }
        s
    }
}

/// A refusal of category `source_unavailable` with sentence `message`.
pub open spec fn is_upstream_error(e: ResourceError, message: Seq<char>) -> bool {
    e.category == ErrorCategory::SourceUnavailable && e.message@ == message && e.details is None
}

pub fn malformed_upstream(message: &str) -> (e: ResourceError)
    ensures
        is_upstream_error(e, message@),
{
    ResourceError::new(ErrorCategory::SourceUnavailable, message)
}

pub open spec fn positive_message(field: Seq<char>) -> Seq<char> {
    "GitHub upstream field '"@ + field + "' must be positive"@
}

pub open spec fn login_message(field: Seq<char>) -> Seq<char> {
    "GitHub upstream field '"@ + field + "' requires a login"@
}

pub open spec fn duplicate_message(field: Seq<char>) -> Seq<char> {
    "GitHub upstream field '"@ + field + "' contains a duplicate identity"@
}

fn field_message(field: &str, suffix: &str) -> (e: ResourceError)
    ensures
        is_upstream_error(e, "GitHub upstream field '"@ + field@ + suffix@),
{
    let mut message = String::new();
    push_str(&mut message, "GitHub upstream field '");
    push_str(&mut message, field);
    push_str(&mut message, suffix);
    proof {
        assert(message@ =~= "GitHub upstream field '"@ + field@ + suffix@);
    }
    ResourceError::from_string(ErrorCategory::SourceUnavailable, message)
}

/// The refusal a failed check reports: `None` passes, `Some(m)` refuses
/// with sentence `m`.
pub open spec fn refuses_with(r: Result<(), ResourceError>, m: Option<Seq<char>>) -> bool {
    match m {
        None => r is Ok,
        Some(message) => r matches Err(e) && is_upstream_error(e, message),
    }
}

pub fn validate_positive(value: u64, field: &str) -> (r: Result<(), ResourceError>)
    ensures
        refuses_with(r, if value == 0 { Some(positive_message(field@)) } else { None }),
{
    if value == 0 {
        return Err(field_message(field, "' must be positive"));
    }
    Ok(())
}

/// What is wrong with a present account: a zero id, then an empty login.
pub open spec fn user_error(user: Option<SimpleUser>, field: Seq<char>) -> Option<Seq<char>> {
    match user {
        Some(u) => if u.id == 0 {
            Some(positive_message(field))
        } else if u.login@.len() == 0 {
            Some(login_message(field))
        } else {
            None
        },
        None => None,
    }
}

pub fn validate_user(user: &Option<SimpleUser>, field: &str) -> (r: Result<(), ResourceError>)
    ensures
        refuses_with(r, user_error(*user, field@)),
{
    if let Some(user) = user {
        validate_positive(user.id, field)?;
        if user.login.as_str().is_empty() {
            return Err(field_message(field, "' requires a login"));
        }
    }
    Ok(())
}

pub open spec fn issue_identity_error(issue: Issue, expected: u64) -> Option<Seq<char>> {
    if issue.id == 0 {
        Some(positive_message("issue.id"@))
    } else if issue.number == 0 {
        Some(positive_message("issue.number"@))
    } else if user_error(issue.user, "issue.user.id"@) is Some {
        user_error(issue.user, "issue.user.id"@)
    } else if issue.number != expected {
        Some("GitHub issue number does not match its Path Reference"@)
    } else {
        None
    }
}

/// Checks a fetched issue against the number its reference addressed.
pub fn validate_issue_identity(issue: &Issue, expected: u64) -> (r: Result<(), ResourceError>)
    ensures
        refuses_with(r, issue_identity_error(*issue, expected)),
{
    validate_positive(issue.id, "issue.id")?;
    validate_positive(issue.number, "issue.number")?;
    validate_user(&issue.user, "issue.user.id")?;
    if issue.number != expected {
        return Err(malformed_upstream("GitHub issue number does not match its Path Reference"));
    }
    Ok(())
}

pub open spec fn pull_identity_error(pull: PullRequest, expected: u64) -> Option<Seq<char>> {
    if pull.id == 0 {
        Some(positive_message("pull_request.id"@))
    } else if pull.number == 0 {
        Some(positive_message("pull_request.number"@))
    } else if user_error(pull.user, "pull_request.user.id"@) is Some {
        user_error(pull.user, "pull_request.user.id"@)
    } else if pull.number != expected {
        Some("GitHub pull request number does not match its Path Reference"@)
    } else {
        None
    }
}

/// Checks a fetched pull request against the number its reference addressed.
pub fn validate_pull_identity(pull: &PullRequest, expected: u64) -> (r: Result<(), ResourceError>)
    ensures
        refuses_with(r, pull_identity_error(*pull, expected)),
{
    validate_positive(pull.id, "pull_request.id")?;
    validate_positive(pull.number, "pull_request.number")?;
    validate_user(&pull.user, "pull_request.user.id")?;
    if pull.number != expected {
        return Err(
            malformed_upstream("GitHub pull request number does not match its Path Reference"),
        );
    }
    Ok(())
}

/// The first identity of `ids` that is zero or repeats an earlier one.
pub open spec fn unique_ids_error(ids: Seq<u64>, field: Seq<char>) -> Option<Seq<char>>
    decreases ids.len(),
{
    if ids.len() == 0 {
        None
    } else if unique_ids_error(ids.drop_last(), field) is Some {
        unique_ids_error(ids.drop_last(), field)
    } else if ids.last() == 0 {
        Some(positive_message(field))
    } else if ids.drop_last().contains(ids.last()) {
        Some(duplicate_message(field))
    } else {
        None
    }
}

/// Every identity is positive and none repeats.
pub fn validate_unique_ids(ids: &[u64], field: &str) -> (r: Result<(), ResourceError>)
    ensures
        refuses_with(r, unique_ids_error(ids@, field@)),
{
    let mut seen: std::collections::HashSet<u64> = std::collections::HashSet::new();
    let mut i: usize = 0;
    while i < ids.len()
        invariant
            i <= ids@.len(),
            unique_ids_error(ids@.take(i as int), field@) is None,
            seen@ == ids@.take(i as int).to_set(),
        decreases ids@.len() - i,
    {
        let id = ids[i];
        let ghost prefix = ids@.take(i as int);
        proof {
            assert(ids@.take(i + 1).drop_last() =~= prefix);
            assert(ids@.take(i + 1).last() == id);
        }
        if id == 0 {
            proof {
                lemma_unique_ids_error_sticks(ids@, field@, i + 1);
            }
            return Err(field_message(field, "' must be positive"));
        }
        let fresh = seen.insert(id);
        proof {
            assert(prefix.to_set().contains(id) <==> prefix.contains(id)) by {
                if prefix.contains(id) {
                    let k = choose|k: int| 0 <= k < prefix.len() && prefix[k] == id;
                    assert(prefix.to_set().contains(prefix[k]));
                }
            }
            assert(ids@.take(i + 1) =~= prefix.push(id));
        }
        if !fresh {
            proof {
                lemma_unique_ids_error_sticks(ids@, field@, i + 1);
            }
            return Err(field_message(field, "' contains a duplicate identity"));
        }
        i = i + 1;
    }
    proof {
        assert(ids@.take(i as int) =~= ids@);
    }
    Ok(())
}

proof fn lemma_unique_ids_error_sticks(ids: Seq<u64>, field: Seq<char>, k: int)
    requires
        0 <= k <= ids.len(),
        unique_ids_error(ids.take(k), field) is Some,
    ensures
        unique_ids_error(ids, field) == unique_ids_error(ids.take(k), field),
    decreases ids.len() - k,
{
    if k < ids.len() {
        assert(ids.take(k + 1).drop_last() =~= ids.take(k));
        lemma_unique_ids_error_sticks(ids, field, k + 1);
    } else {
        assert(ids.take(k) =~= ids);
    }
}

/// The identities of a list of records.
pub open spec fn issue_ids(v: Seq<Issue>) -> Seq<u64> {
    v.map_values(|x: Issue| x.id)
}

pub open spec fn summary_ids(v: Seq<PullRequestSummary>) -> Seq<u64> {
    v.map_values(|x: PullRequestSummary| x.id)
}

pub open spec fn comment_ids(v: Seq<ConversationComment>) -> Seq<u64> {
    v.map_values(|x: ConversationComment| x.id)
}

pub open spec fn review_ids(v: Seq<Review>) -> Seq<u64> {
    v.map_values(|x: Review| x.id)
}

pub open spec fn review_comment_ids(v: Seq<ReviewComment>) -> Seq<u64> {
    v.map_values(|x: ReviewComment| x.id)
}

/// What is wrong with one listed issue, given the numbers listed before it.
pub open spec fn issue_row_error(x: Issue, earlier: Seq<u64>) -> Option<Seq<char>> {
    if x.number == 0 {
        Some(positive_message("issue.number"@))
    } else if user_error(x.user, "issue.user.id"@) is Some {
        user_error(x.user, "issue.user.id"@)
    } else if earlier.contains(x.number) || x.state@.len() == 0 || x.title@.len() == 0
        || x.html_url@.len() == 0 || x.updated_at@.len() == 0 {
        Some("GitHub issue listing contains invalid required fields"@)
    } else {
        None
    }
}

pub open spec fn issue_rows_error(v: Seq<Issue>) -> Option<Seq<char>>
    decreases v.len(),
{
    if v.len() == 0 {
        None
    } else if issue_rows_error(v.drop_last()) is Some {
        issue_rows_error(v.drop_last())
    } else {
        issue_row_error(v.last(), v.drop_last().map_values(|x: Issue| x.number))
    }
}

pub open spec fn issue_listing_error(v: Seq<Issue>) -> Option<Seq<char>> {
    if unique_ids_error(issue_ids(v), "issue.id"@) is Some {
        unique_ids_error(issue_ids(v), "issue.id"@)
    } else {
        issue_rows_error(v)
    }
}

proof fn lemma_issue_rows_sticks(v: Seq<Issue>, k: int)
    requires
        0 <= k <= v.len(),
        issue_rows_error(v.take(k)) is Some,
    ensures
        issue_rows_error(v) == issue_rows_error(v.take(k)),
    decreases v.len() - k,
{
    if k < v.len() {
        assert(v.take(k + 1).drop_last() =~= v.take(k));
        lemma_issue_rows_sticks(v, k + 1);
    } else {
        assert(v.take(k) =~= v);
    }
}

fn collect_issue_ids(values: &[Issue]) -> (ids: Vec<u64>)
    ensures
        ids@ == issue_ids(values@),
{
    let mut ids: Vec<u64> = Vec::new();
    let mut i: usize = 0;
    while i < values.len()
        invariant
            i <= values@.len(),
            ids@ =~= issue_ids(values@.take(i as int)),
        decreases values@.len() - i,
    {
        ids.push(values[i].id);
        i = i + 1;
    }
    proof {
        assert(values@.take(i as int) =~= values@);
    }
    ids
}

/// Checks one collection page of issues: unique positive ids, then per row a
/// positive unique number, a valid account and the required text fields.
pub fn validate_issue_listing(values: &[Issue]) -> (r: Result<(), ResourceError>)
    ensures
        refuses_with(r, issue_listing_error(values@)),
{
    let ids = collect_issue_ids(values);
    validate_unique_ids(&ids, "issue.id")?;
    let mut numbers: std::collections::HashSet<u64> = std::collections::HashSet::new();
    let mut i: usize = 0;
    while i < values.len()
        invariant
            i <= values@.len(),
            unique_ids_error(issue_ids(values@), "issue.id"@) is None,
            issue_rows_error(values@.take(i as int)) is None,
            numbers@ == values@.take(i as int).map_values(|x: Issue| x.number).to_set(),
        decreases values@.len() - i,
    {
        let value = &values[i];
        let ghost prefix = values@.take(i as int);
        let ghost earlier = prefix.map_values(|x: Issue| x.number);
        proof {
            assert(values@.take(i + 1).drop_last() =~= prefix);
            assert(values@.take(i + 1).last() == *value);
        }
        match validate_positive(value.number, "issue.number") {
            Ok(()) => {},
            Err(e) => {
                proof {
                    lemma_issue_rows_sticks(values@, i + 1);
                }
                return Err(e);
            },
        }
        match validate_user(&value.user, "issue.user.id") {
            Ok(()) => {},
            Err(e) => {
                proof {
                    lemma_issue_rows_sticks(values@, i + 1);
                }
                return Err(e);
            },
        }
        let fresh = numbers.insert(value.number);
        proof {
            lemma_to_set_contains(earlier, value.number);
            assert(values@.take(i + 1).map_values(|x: Issue| x.number) =~= earlier.push(
                value.number,
            ));
            lemma_push_to_set(earlier, value.number);
        }
        if !fresh || value.state.as_str().is_empty() || value.title.as_str().is_empty()
            || value.html_url.as_str().is_empty() || value.updated_at.as_str().is_empty() {
            proof {
                lemma_issue_rows_sticks(values@, i + 1);
            }
            return Err(malformed_upstream("GitHub issue listing contains invalid required fields"));
        }
        i = i + 1;
    }
    proof {
        assert(values@.take(i as int) =~= values@);
    }
    Ok(())
}

pub proof fn lemma_push_to_set(s: Seq<u64>, n: u64)
    ensures
        s.push(n).to_set() == s.to_set().insert(n),
{
    assert forall|x: u64| s.push(n).to_set().contains(x) <==> s.to_set().insert(n).contains(x) by {
        lemma_to_set_contains(s.push(n), x);
        lemma_to_set_contains(s, x);
        if s.push(n).contains(x) && x != n {
            let k = choose|k: int| 0 <= k < s.push(n).len() && s.push(n)[k] == x;
            assert(s[k] == x);
        }
        if s.contains(x) {
            let k = choose|k: int| 0 <= k < s.len() && s[k] == x;
            assert(s.push(n)[k] == x);
        }
        if x == n {
            assert(s.push(n)[s.len() as int] == n);
        }
    }
    assert(s.push(n).to_set() =~= s.to_set().insert(n));
}

pub proof fn lemma_to_set_contains(s: Seq<u64>, x: u64)
    ensures
        s.to_set().contains(x) <==> s.contains(x),
{
    if s.contains(x) {
        let k = choose|k: int| 0 <= k < s.len() && s[k] == x;
        assert(s.to_set().contains(s[k]));
    }
}

/// What is wrong with one listed pull request, given the numbers before it.
pub open spec fn summary_row_error(x: PullRequestSummary, earlier: Seq<u64>) -> Option<Seq<char>> {
    if x.number == 0 {
        Some(positive_message("pull_request.number"@))
    } else if user_error(x.user, "pull_request.user.id"@) is Some {
        user_error(x.user, "pull_request.user.id"@)
    } else if earlier.contains(x.number) || x.state@.len() == 0 || x.title@.len() == 0
        || x.html_url@.len() == 0 || x.updated_at@.len() == 0 {
        Some("GitHub pull request listing contains invalid required fields"@)
    } else {
        None
    }
}

pub open spec fn summary_rows_error(v: Seq<PullRequestSummary>) -> Option<Seq<char>>
    decreases v.len(),
{
    if v.len() == 0 {
        None
    } else if summary_rows_error(v.drop_last()) is Some {
        summary_rows_error(v.drop_last())
    } else {
        summary_row_error(v.last(), v.drop_last().map_values(|x: PullRequestSummary| x.number))
    }
}

pub open spec fn pull_summaries_error(v: Seq<PullRequestSummary>) -> Option<Seq<char>> {
    if unique_ids_error(summary_ids(v), "pull_request.id"@) is Some {
        unique_ids_error(summary_ids(v), "pull_request.id"@)
    } else {
        summary_rows_error(v)
    }
}

proof fn lemma_summary_rows_sticks(v: Seq<PullRequestSummary>, k: int)
    requires
        0 <= k <= v.len(),
        summary_rows_error(v.take(k)) is Some,
    ensures
        summary_rows_error(v) == summary_rows_error(v.take(k)),
    decreases v.len() - k,
{
    if k < v.len() {
        assert(v.take(k + 1).drop_last() =~= v.take(k));
        lemma_summary_rows_sticks(v, k + 1);
    } else {
        assert(v.take(k) =~= v);
    }
}

fn collect_summary_ids(values: &[PullRequestSummary]) -> (ids: Vec<u64>)
    ensures
        ids@ == summary_ids(values@),
{
    let mut ids: Vec<u64> = Vec::new();
    let mut i: usize = 0;
    while i < values.len()
        invariant
            i <= values@.len(),
            ids@ =~= summary_ids(values@.take(i as int)),
        decreases values@.len() - i,
    {
        ids.push(values[i].id);
        i = i + 1;
    }
    proof {
        assert(values@.take(i as int) =~= values@);
    }
    ids
}

/// Checks one collection page of pull requests, as for issues.
pub fn validate_pull_summaries(values: &[PullRequestSummary]) -> (r: Result<(), ResourceError>)
    ensures
        refuses_with(r, pull_summaries_error(values@)),
{
    let ids = collect_summary_ids(values);
    validate_unique_ids(&ids, "pull_request.id")?;
    let mut numbers: std::collections::HashSet<u64> = std::collections::HashSet::new();
    let mut i: usize = 0;
    while i < values.len()
        invariant
            i <= values@.len(),
            unique_ids_error(summary_ids(values@), "pull_request.id"@) is None,
            summary_rows_error(values@.take(i as int)) is None,
            numbers@ == values@.take(i as int).map_values(|x: PullRequestSummary| x.number).to_set(),
        decreases values@.len() - i,
    {
        let value = &values[i];
        let ghost prefix = values@.take(i as int);
        let ghost earlier = prefix.map_values(|x: PullRequestSummary| x.number);
        proof {
            assert(values@.take(i + 1).drop_last() =~= prefix);
            assert(values@.take(i + 1).last() == *value);
        }
        match validate_positive(value.number, "pull_request.number") {
            Ok(()) => {},
            Err(e) => {
                proof {
                    lemma_summary_rows_sticks(values@, i + 1);
                }
                return Err(e);
            },
        }
        match validate_user(&value.user, "pull_request.user.id") {
            Ok(()) => {},
            Err(e) => {
                proof {
                    lemma_summary_rows_sticks(values@, i + 1);
                }
                return Err(e);
            },
        }
        let fresh = numbers.insert(value.number);
        proof {
            lemma_to_set_contains(earlier, value.number);
            assert(values@.take(i + 1).map_values(|x: PullRequestSummary| x.number) =~= earlier.push(
                value.number,
            ));
            lemma_push_to_set(earlier, value.number);
        }
        if !fresh || value.state.as_str().is_empty() || value.title.as_str().is_empty()
            || value.html_url.as_str().is_empty() || value.updated_at.as_str().is_empty() {
            proof {
                lemma_summary_rows_sticks(values@, i + 1);
            }
            return Err(
                malformed_upstream("GitHub pull request listing contains invalid required fields"),
            );
        }
        i = i + 1;
    }
    proof {
        assert(values@.take(i as int) =~= values@);
    }
    Ok(())
}

/// What is wrong with one conversation comment of a page.
pub open spec fn comment_row_error(x: ConversationComment) -> Option<Seq<char>> {
    if user_error(x.user, "comment.user.id"@) is Some {
        user_error(x.user, "comment.user.id"@)
    } else if x.issue_url@.len() == 0 {
        Some("GitHub conversation comment requires issue_url"@)
    } else {
        None
    }
}

pub open spec fn comment_rows_error(v: Seq<ConversationComment>) -> Option<Seq<char>>
    decreases v.len(),
{
    if v.len() == 0 {
        None
    } else if comment_rows_error(v.drop_last()) is Some {
        comment_rows_error(v.drop_last())
    } else {
        comment_row_error(v.last())
    }
}

pub open spec fn comment_ids_error(v: Seq<ConversationComment>) -> Option<Seq<char>> {
    if unique_ids_error(comment_ids(v), "comment.id"@) is Some {
        unique_ids_error(comment_ids(v), "comment.id"@)
    } else {
        comment_rows_error(v)
    }
}

proof fn lemma_comment_rows_sticks(v: Seq<ConversationComment>, k: int)
    requires
        0 <= k <= v.len(),
        comment_rows_error(v.take(k)) is Some,
    ensures
        comment_rows_error(v) == comment_rows_error(v.take(k)),
    decreases v.len() - k,
{
    if k < v.len() {
        assert(v.take(k + 1).drop_last() =~= v.take(k));
        lemma_comment_rows_sticks(v, k + 1);
    } else {
        assert(v.take(k) =~= v);
    }
}

/// Checks one page of conversation comments.
pub fn validate_comment_ids(values: &[ConversationComment]) -> (r: Result<(), ResourceError>)
    ensures
        refuses_with(r, comment_ids_error(values@)),
{
    let mut ids: Vec<u64> = Vec::new();
    let mut k: usize = 0;
    while k < values.len()
        invariant
            k <= values@.len(),
            ids@ =~= comment_ids(values@.take(k as int)),
        decreases values@.len() - k,
    {
        ids.push(values[k].id);
        k = k + 1;
    }
    proof {
        assert(values@.take(k as int) =~= values@);
    }
    validate_unique_ids(&ids, "comment.id")?;
    let mut i: usize = 0;
    while i < values.len()
        invariant
            i <= values@.len(),
            unique_ids_error(comment_ids(values@), "comment.id"@) is None,
            comment_rows_error(values@.take(i as int)) is None,
        decreases values@.len() - i,
    {
        let value = &values[i];
        proof {
            assert(values@.take(i + 1).drop_last() =~= values@.take(i as int));
            assert(values@.take(i + 1).last() == *value);
        }
        match validate_user(&value.user, "comment.user.id") {
            Ok(()) => {},
            Err(e) => {
                proof {
                    lemma_comment_rows_sticks(values@, i + 1);
                }
                return Err(e);
            },
        }
        if value.issue_url.as_str().is_empty() {
            proof {
                lemma_comment_rows_sticks(values@, i + 1);
            }
            return Err(malformed_upstream("GitHub conversation comment requires issue_url"));
        }
        i = i + 1;
    }
    proof {
        assert(values@.take(i as int) =~= values@);
    }
    Ok(())
}

pub open spec fn review_users_error(v: Seq<Review>) -> Option<Seq<char>>
    decreases v.len(),
{
    if v.len() == 0 {
        None
    } else if review_users_error(v.drop_last()) is Some {
        review_users_error(v.drop_last())
    } else {
        user_error(v.last().user, "review.user.id"@)
    }
}

pub open spec fn review_ids_error(v: Seq<Review>) -> Option<Seq<char>> {
    if unique_ids_error(review_ids(v), "review.id"@) is Some {
        unique_ids_error(review_ids(v), "review.id"@)
    } else {
        review_users_error(v)
    }
}

proof fn lemma_review_users_sticks(v: Seq<Review>, k: int)
    requires
        0 <= k <= v.len(),
        review_users_error(v.take(k)) is Some,
    ensures
        review_users_error(v) == review_users_error(v.take(k)),
    decreases v.len() - k,
{
    if k < v.len() {
        assert(v.take(k + 1).drop_last() =~= v.take(k));
        lemma_review_users_sticks(v, k + 1);
    } else {
        assert(v.take(k) =~= v);
    }
}

/// Checks one page of reviews.
pub fn validate_review_ids(values: &[Review]) -> (r: Result<(), ResourceError>)
    ensures
        refuses_with(r, review_ids_error(values@)),
{
    let mut ids: Vec<u64> = Vec::new();
    let mut k: usize = 0;
    while k < values.len()
        invariant
            k <= values@.len(),
            ids@ =~= review_ids(values@.take(k as int)),
        decreases values@.len() - k,
    {
        ids.push(values[k].id);
        k = k + 1;
    }
    proof {
        assert(values@.take(k as int) =~= values@);
    }
    validate_unique_ids(&ids, "review.id")?;
    let mut i: usize = 0;
    while i < values.len()
        invariant
            i <= values@.len(),
            unique_ids_error(review_ids(values@), "review.id"@) is None,
            review_users_error(values@.take(i as int)) is None,
        decreases values@.len() - i,
    {
        let value = &values[i];
        proof {
            assert(values@.take(i + 1).drop_last() =~= values@.take(i as int));
            assert(values@.take(i + 1).last() == *value);
        }
        match validate_user(&value.user, "review.user.id") {
            Ok(()) => {},
            Err(e) => {
                proof {
                    lemma_review_users_sticks(values@, i + 1);
                }
                return Err(e);
            },
        }
        i = i + 1;
    }
    proof {
        assert(values@.take(i as int) =~= values@);
    }
    Ok(())
}

pub open spec fn review_comment_row_error(x: ReviewComment) -> Option<Seq<char>> {
    if user_error(x.user, "review_comment.user.id"@) is Some {
        user_error(x.user, "review_comment.user.id"@)
    } else if x.pull_request_url@.len() == 0 {
        Some("GitHub review comment requires pull_request_url"@)
    } else {
        None
    }
}

pub open spec fn review_comment_rows_error(v: Seq<ReviewComment>) -> Option<Seq<char>>
    decreases v.len(),
{
    if v.len() == 0 {
        None
    } else if review_comment_rows_error(v.drop_last()) is Some {
        review_comment_rows_error(v.drop_last())
    } else {
        review_comment_row_error(v.last())
    }
}

pub open spec fn review_comment_ids_error(v: Seq<ReviewComment>) -> Option<Seq<char>> {
    if unique_ids_error(review_comment_ids(v), "review_comment.id"@) is Some {
        unique_ids_error(review_comment_ids(v), "review_comment.id"@)
    } else {
        review_comment_rows_error(v)
    }
}

proof fn lemma_review_comment_rows_sticks(v: Seq<ReviewComment>, k: int)
    requires
        0 <= k <= v.len(),
        review_comment_rows_error(v.take(k)) is Some,
    ensures
        review_comment_rows_error(v) == review_comment_rows_error(v.take(k)),
    decreases v.len() - k,
{
    if k < v.len() {
        assert(v.take(k + 1).drop_last() =~= v.take(k));
        lemma_review_comment_rows_sticks(v, k + 1);
    } else {
        assert(v.take(k) =~= v);
    }
}

/// Checks one page of inline review comments.
pub fn validate_review_comment_ids(values: &[ReviewComment]) -> (r: Result<(), ResourceError>)
    ensures
        refuses_with(r, review_comment_ids_error(values@)),
{
    let mut ids: Vec<u64> = Vec::new();
    let mut k: usize = 0;
    while k < values.len()
        invariant
            k <= values@.len(),
            ids@ =~= review_comment_ids(values@.take(k as int)),
        decreases values@.len() - k,
    {
        ids.push(values[k].id);
        k = k + 1;
    }
    proof {
        assert(values@.take(k as int) =~= values@);
    }
    validate_unique_ids(&ids, "review_comment.id")?;
    let mut i: usize = 0;
    while i < values.len()
        invariant
            i <= values@.len(),
            unique_ids_error(review_comment_ids(values@), "review_comment.id"@) is None,
            review_comment_rows_error(values@.take(i as int)) is None,
        decreases values@.len() - i,
    {
        let value = &values[i];
        proof {
            assert(values@.take(i + 1).drop_last() =~= values@.take(i as int));
            assert(values@.take(i + 1).last() == *value);
        }
        match validate_user(&value.user, "review_comment.user.id") {
            Ok(()) => {},
            Err(e) => {
                proof {
                    lemma_review_comment_rows_sticks(values@, i + 1);
                }
                return Err(e);
            },
        }
        if value.pull_request_url.as_str().is_empty() {
            proof {
                lemma_review_comment_rows_sticks(values@, i + 1);
            }
            return Err(malformed_upstream("GitHub review comment requires pull_request_url"));
        }
        i = i + 1;
    }
    proof {
        assert(values@.take(i as int) =~= values@);
    }
    Ok(())
}

/// Every diff file names a file and a status.
pub open spec fn files_valid(v: Seq<DiffFile>) -> bool {
    forall|i: int| 0 <= i < v.len() ==> #[trigger] v[i].filename@.len() > 0 && v[i].status@.len() > 0
}

pub fn validate_files(values: &[DiffFile]) -> (r: Result<(), ResourceError>)
    ensures
        refuses_with(
            r,
            if files_valid(values@) {
                None
            } else {
                Some("GitHub diff file requires filename and status"@)
            },
        ),
{
    let mut i: usize = 0;
    while i < values.len()
        invariant
            i <= values@.len(),
            forall|k: int| 0 <= k < i ==> #[trigger] values@[k].filename@.len() > 0
                && values@[k].status@.len() > 0,
        decreases values@.len() - i,
    {
        if values[i].filename.as_str().is_empty() || values[i].status.as_str().is_empty() {
            return Err(malformed_upstream("GitHub diff file requires filename and status"));
        }
        i = i + 1;
    }
    Ok(())
}

/// A field's authoritative body: an absent body is empty text.
pub fn authoritative_body(body: Option<String>) -> (s: String)
    ensures
        s@ == match body {
            Some(b) => b@,
            None => Seq::<char>::empty(),
        },
{
    match body {
        Some(body) => body,
        None => String::new(),
    }
}

// ------------------------------------------------------------ parent links

/// What `url::Url::parse` makes of an input: the scheme, host, port and path
/// (percent-encoded, as the URL holds it), its query pairs and query, its
/// fragment, its user name and password, its serialization and its origin.
pub struct UrlParts {
    pub scheme: Seq<char>,
    pub host: Option<Seq<char>>,
    /// The explicit port, else the scheme's known default.
    pub port: Option<u16>,
    pub path: Seq<char>,
    /// The decoded query pairs, in order.
    pub query: Seq<(Seq<char>, Seq<char>)>,
    /// The query as written after `?`, when there is one.
    pub query_text: Option<Seq<char>>,
    pub fragment: Option<Seq<char>>,
    /// The user name, empty when there is none.
    pub username: Seq<char>,
    pub password: Option<Seq<char>>,
    /// Its serialization.
    pub text: Seq<char>,
    /// The tuple origin (scheme, serialized host, port); `None` for an
    /// opaque origin, which equals no other URL's origin.
    pub origin: Option<(Seq<char>, Seq<char>, u16)>,
}

impl UrlParts {
    /// It carries credentials: a user name or a password.
    pub open spec fn credentials(self) -> bool {
        self.username.len() > 0 || self.password is Some
    }

    /// `Url::path_segments`: the pieces of the path after its leading `/`,
    /// `None` for a path without one.
    pub open spec fn segments(self) -> Option<Seq<Seq<char>>> {
        if self.path.len() > 0 && self.path[0] == '/' {
            Some(split_seq(self.path.drop_first(), '/'))
        } else {
            None
        }
    }
}

/// The parse of `input` by `url::Url::parse`, `None` when it is refused.
pub uninterp spec fn url_parse(input: Seq<char>) -> Option<UrlParts>;

/// The parts of a parsed URL this adapter reads.
#[derive(Debug)]
pub struct ParsedUrl {
    pub scheme: String,
    pub host: Option<String>,
    pub port: Option<u16>,
    pub path: String,
    pub query: Vec<(String, String)>,
    pub query_text: Option<String>,
    pub fragment: Option<String>,
    pub username: String,
    pub password: Option<String>,
    pub text: String,
    pub origin: Option<(String, String, u16)>,
}

pub open spec fn opt_chars(o: Option<String>) -> Option<Seq<char>> {
    match o {
        Some(s) => Some(s@),
        None => None,
    }
}

pub open spec fn segment_views(v: Seq<String>) -> Seq<Seq<char>> {
    v.map_values(|s: String| s@)
}

pub open spec fn pair_views(v: Seq<(String, String)>) -> Seq<(Seq<char>, Seq<char>)> {
    v.map_values(|p: (String, String)| (p.0@, p.1@))
}

fn copy_opt(o: &Option<String>) -> (r: Option<String>)
    ensures
        opt_chars(r) == opt_chars(*o),
{
    match o {
        Some(s) => Some(owned(s.as_str())),
        None => None,
    }
}

impl ParsedUrl {
    /// Whether the URL carries credentials: a user name or a password.
    pub fn has_credentials(&self) -> (b: bool)
        ensures
            b == self.parts().credentials(),
            b == (self.username@.len() > 0 || self.password is Some),
    {
        chars_of(self.username.as_str()).len() > 0 || self.password.is_some()
    }

    /// A copy with the same parts.
    pub fn duplicate(&self) -> (r: ParsedUrl)
        ensures
            r.parts() == self.parts(),
    {
        let mut query: Vec<(String, String)> = Vec::new();
        let mut i: usize = 0;
        while i < self.query.len()
            invariant
                i <= self.query@.len(),
                query@.len() == i,
                forall|k: int| 0 <= k < i ==> (#[trigger] query@[k]).0@ == self.query@[k].0@ && query@[k].1@
                    == self.query@[k].1@,
            decreases self.query@.len() - i,
        {
            let pair = (owned(self.query[i].0.as_str()), owned(self.query[i].1.as_str()));
            query.push(pair);
            i = i + 1;
        }
        proof {
            assert(pair_views(query@) =~= pair_views(self.query@));
        }
        let origin = match &self.origin {
            Some((a, b, c)) => Some((owned(a.as_str()), owned(b.as_str()), *c)),
            None => None,
        };
        ParsedUrl {
            scheme: owned(self.scheme.as_str()),
            host: copy_opt(&self.host),
            port: self.port,
            path: owned(self.path.as_str()),
            query,
            query_text: copy_opt(&self.query_text),
            fragment: copy_opt(&self.fragment),
            username: owned(self.username.as_str()),
            password: copy_opt(&self.password),
            text: owned(self.text.as_str()),
            origin,
        }
    }

    /// `Url::path_segments`: the path after its leading `/`, split at `/`.
    pub fn path_segments(&self) -> (r: Option<Vec<String>>)
        ensures
            match r {
                Some(v) => self.parts().segments() == Some(segment_views(v@)),
                None => self.parts().segments() is None,
            },
    {
        let path = chars_of(self.path.as_str());
        if path.len() == 0 || path[0] != '/' {
            return None;
        }
        let rest = sub_chars(path.as_slice(), 1, path.len());
        proof {
            assert(rest@ =~= self.path@.drop_first());
        }
        let pieces = split_chars(rest.as_slice(), '/');
        let mut out: Vec<String> = Vec::new();
        let mut i: usize = 0;
        while i < pieces.len()
            invariant
                i <= pieces@.len(),
                out@.len() == i,
                forall|k: int| 0 <= k < i ==> #[trigger] out@[k]@ == pieces@[k]@,
            decreases pieces@.len() - i,
        {
            out.push(string_of(pieces[i].as_slice()));
            i = i + 1;
        }
        proof {
            assert(segment_views(out@) =~= views(pieces@));
        }
        Some(out)
    }

    pub open spec fn parts(&self) -> UrlParts {
        UrlParts {
            scheme: self.scheme@,
            host: match self.host {
                Some(h) => Some(h@),
                None => None,
            },
            port: self.port,
            path: self.path@,
            query: pair_views(self.query@),
            query_text: opt_chars(self.query_text),
            fragment: opt_chars(self.fragment),
            username: self.username@,
            password: opt_chars(self.password),
            text: self.text@,
            origin: match self.origin {
                Some((a, b, c)) => Some((a@, b@, c)),
                None => None,
            },
        }
    }
}

/// Parses `input` with `url::Url::parse` and reads its scheme, host, port
/// (`port_or_known_default`), path, path segments, decoded query pairs, query,
/// fragment, user name, password, serialization and origin.
/// The contract only names the result: which inputs the crate accepts and
/// how it normalizes them is its own.
#[verifier::external_body]
pub(crate) fn parse_url(input: &str) -> (r: Option<ParsedUrl>)
    ensures
        r is Some <==> url_parse(input@) is Some,
        r matches Some(p) ==> p.parts() == url_parse(input@)->0,
{
    let url = Url::parse(input).ok()?;
    Some(ParsedUrl {
        scheme: url.scheme().to_owned(),
        host: url.host_str().map(str::to_owned),
        port: url.port_or_known_default(),
        path: url.path().to_owned(),
        query: url.query_pairs().into_owned().collect(),
        query_text: url.query().map(str::to_owned),
        fragment: url.fragment().map(str::to_owned),
        username: url.username().to_owned(),
        password: url.password().map(str::to_owned),
        text: url.as_str().to_owned(),
        origin: match url.origin() { Origin::Tuple(s, h, p) => Some((s, h.to_string(), p)), _ => None },
    })
}

/// The serialization `url::Url::join` gives for `relative` resolved against
/// the URL that `base` parses to; `None` when either step refuses.
pub uninterp spec fn url_join(base: Seq<char>, relative: Seq<char>) -> Option<Seq<char>>;

/// Parses `base` with `url::Url::parse` and resolves `relative` against it
/// with `Url::join`, giving the result's serialization. The contract only
/// names the result: the resolution rules are the crate's own.
#[verifier::external_body]
pub(crate) fn join_url(base: &str, relative: &str) -> (r: Option<String>)
    ensures
        match r {
            Some(s) => url_join(base@, relative@) == Some(s@),
            None => url_join(base@, relative@) is None,
        },
{
    Url::parse(base).ok()?.join(relative).ok().map(String::from)
}

/// The serialization of the URL that `text` parses to once `Url::set_path`
/// has given it `path`; `None` when `text` does not parse.
pub uninterp spec fn url_with_path(text: Seq<char>, path: Seq<char>) -> Option<Seq<char>>;

/// Parses `text` with `url::Url::parse`, replaces its path with
/// `Url::set_path` and gives the serialization. `set_path` always succeeds,
/// so a result comes exactly when `text` parses; the text is only named.
#[verifier::external_body]
pub(crate) fn with_path(text: &str, path: &str) -> (r: Option<String>)
    ensures
        match r {
            Some(s) => url_with_path(text@, path@) == Some(s@),
            None => url_with_path(text@, path@) is None,
        },
        r is Some <==> url_parse(text@) is Some,
{
    let mut url = Url::parse(text).ok()?;
    url.set_path(path);
    Some(url.as_str().to_owned())
}

/// The refusal of a configured API base that is not a URL.
pub open spec fn is_invalid_api_base(e: ResourceError) -> bool {
    e.category == ErrorCategory::InvalidReference && e.message@ == "GitHub API base URL is invalid"@
        && e.details is None
}

/// Whether `path` ends with `/`.
pub open spec fn ends_with_slash(path: Seq<char>) -> bool {
    path.len() > 0 && path.last() == '/'
}

/// The API base a source is configured with: `text` parsed, its path given a
/// trailing `/` when it lacks one so that relative routes resolve below it.
pub open spec fn spec_api_base(text: Seq<char>) -> Option<UrlParts> {
    match url_parse(text) {
        None => None,
        Some(p) => if ends_with_slash(p.path) {
            Some(p)
        } else {
            match url_with_path(text, p.path.push('/')) {
                None => None,
                Some(t) => url_parse(t),
            }
        },
    }
}

/// Parses the configured API base URL.
pub fn api_base(text: &str) -> (r: Result<ParsedUrl, ResourceError>)
    ensures
        match spec_api_base(text@) {
            Some(p) => r matches Ok(u) && u.parts() == p,
            None => r matches Err(e) && is_invalid_api_base(e),
        },
{
    let parsed = match parse_url(text) {
        Some(p) => p,
        None => {
            return Err(ResourceError::new(ErrorCategory::InvalidReference, "GitHub API base URL is invalid"));
        },
    };
    let path = chars_of(parsed.path.as_str());
    if path.len() > 0 && path[path.len() - 1] == '/' {
        return Ok(parsed);
    }
    let mut slashed = owned(parsed.path.as_str());
    push_char(&mut slashed, '/');
    let text2 = match with_path(text, slashed.as_str()) {
        Some(t) => t,
        None => {
            return Err(ResourceError::new(ErrorCategory::InvalidReference, "GitHub API base URL is invalid"));
        },
    };
    match parse_url(text2.as_str()) {
        Some(p) => Ok(p),
        None => Err(ResourceError::new(ErrorCategory::InvalidReference, "GitHub API base URL is invalid")),
    }
}

/// Why a parent URL does not place a record under repository object
/// `family/number`, if it does not.
pub open spec fn parent_refusal(
    url: Seq<char>,
    repository: GithubRepositoryIdentity,
    family: Seq<char>,
    number: u64,
) -> Option<(ErrorCategory, Seq<char>)> {
    match url_parse(url) {
        None => Some((ErrorCategory::SourceUnavailable, "GitHub parent URL is malformed"@)),
        Some(p) => match p.segments() {
            None => Some((ErrorCategory::SourceUnavailable, "GitHub parent URL is malformed"@)),
            Some(s) => if names_parent(s, repository, family, number) {
                None
            } else {
                Some(
                    (
                        ErrorCategory::NotFound,
                        "GitHub comment does not belong to the addressed issue or pull request"@,
                    ),
                )
            },
        },
    }
}

/// Whether segments end in `repos/<owner>/<name>/<family>/<number>` naming
/// this repository (owner and name compared without ASCII case) and number.
pub open spec fn names_parent(
    s: Seq<Seq<char>>,
    repository: GithubRepositoryIdentity,
    family: Seq<char>,
    number: u64,
) -> bool {
    &&& s.len() >= 5
    &&& s[s.len() - 5] == "repos"@
    &&& eq_ignore_case(s[s.len() - 4], repository.owner@)
    &&& eq_ignore_case(s[s.len() - 3], repository.repository@)
    &&& s[s.len() - 2] == family
    &&& parse_u64_spec(s[s.len() - 1]) == Some(number)
}

/// A comment fetched from a repository-wide endpoint belongs under the
/// addressed object only when its parent link names that object.
pub fn validate_parent(
    url: &str,
    repository: &GithubRepositoryIdentity,
    family: &str,
    number: u64,
) -> (r: Result<(), ResourceError>)
    ensures
        refused_as(r, parent_refusal(url@, *repository, family@, number)),
        match url_parse(url@) {
            None => r matches Err(e) && is_upstream_error(e, "GitHub parent URL is malformed"@),
            Some(p) => match p.segments() {
                None => r matches Err(e) && is_upstream_error(e, "GitHub parent URL is malformed"@),
                Some(s) => if names_parent(s, *repository, family@, number) {
                    r is Ok
                } else {
                    r matches Err(e) && e.category == ErrorCategory::NotFound && e.message@
                        == "GitHub comment does not belong to the addressed issue or pull request"@
                },
            },
        },
{
    let parsed = match parse_url(url) {
        Some(p) => p,
        None => {
            return Err(malformed_upstream("GitHub parent URL is malformed"));
        },
    };
    let segments = match parsed.path_segments() {
        Some(s) => s,
        None => {
            return Err(malformed_upstream("GitHub parent URL is malformed"));
        },
    };
    let ghost s = segment_views(segments@);
    let n = segments.len();
    let mut owned = false;
    if n >= 5 {
        let repos = chars_of(segments[n - 5].as_str());
        let owner = chars_of(segments[n - 4].as_str());
        let name = chars_of(segments[n - 3].as_str());
        let observed_family = chars_of(segments[n - 2].as_str());
        let observed_number = chars_of(segments[n - 1].as_str());
        let expected_owner = chars_of(repository.owner.as_str());
        let expected_name = chars_of(repository.repository.as_str());
        let family_chars = chars_of(family);
        proof {
            assert(s[n - 5] == segments@[n - 5]@);
            assert(s[n - 4] == segments@[n - 4]@);
            assert(s[n - 3] == segments@[n - 3]@);
            assert(s[n - 2] == segments@[n - 2]@);
            assert(s[n - 1] == segments@[n - 1]@);
        }
        owned = chars_eq_str(&repos, "repos") && chars_eq_ignore_case(&owner, &expected_owner)
            && chars_eq_ignore_case(&name, &expected_name) && same_chars(
            &observed_family,
            &family_chars,
        ) && parse_u64(&observed_number) == Some(number);
    }
    if !owned {
        return Err(
            ResourceError::new(
                ErrorCategory::NotFound,
                "GitHub comment does not belong to the addressed issue or pull request",
            ),
        );
    }
    Ok(())
}

/// Whether two character vectors are equal.
pub fn same_chars(a: &[char], b: &[char]) -> (r: bool)
    ensures
        r == (a@ == b@),
{
    if a.len() != b.len() {
        return false;
    }
    let mut i: usize = 0;
    while i < a.len()
        invariant
            a@.len() == b@.len(),
            i <= a@.len(),
            forall|k: int| 0 <= k < i ==> a@[k] == b@[k],
        decreases a@.len() - i,
    {
        if a[i] != b[i] {
            return false;
        }
        i = i + 1;
    }
    proof {
        assert(a@ =~= b@);
    }
    true
}

} // verus!
