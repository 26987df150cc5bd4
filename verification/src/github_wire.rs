//! The GitHub REST records this adapter reads, and the inspection that
//! checks a decoded record's identities and measures what it retains.
use vstd::prelude::*;
use crate::error::{ErrorCategory, ResourceError};
use crate::text::{byte_len, char_len_utf8, char_width, chars_of, owned, push_char, push_str, str_byte_len};

verus! {

broadcast use vstd::string::group_string_axioms;

/// An account reference; absent for a deleted account.
#[derive(Debug, Clone)]
pub struct SimpleUser {
    pub login: String,
    pub id: u64,
}

#[derive(Debug, Clone)]
pub struct Issue {
    pub id: u64,
    pub number: u64,
    pub state: String,
    pub title: String,
    pub body: Option<String>,
    pub user: Option<SimpleUser>,
    pub html_url: String,
    pub created_at: String,
    pub updated_at: String,
    /// The record carries a `pull_request` marker: it is a pull request.
    pub pull_request: bool,
}

#[derive(Debug, Clone)]
pub struct PullRequest {
    pub id: u64,
    pub number: u64,
    pub state: String,
    pub title: String,
    pub body: Option<String>,
    pub user: Option<SimpleUser>,
    pub html_url: String,
    pub created_at: String,
    pub updated_at: String,
    pub draft: bool,
    pub merged: bool,
    pub merged_at: Option<String>,
    /// The head branch name (`head.ref`).
    pub head: String,
    /// The base branch name (`base.ref`).
    pub base: String,
}

#[derive(Debug, Clone)]
pub struct PullRequestSummary {
    pub id: u64,
    pub number: u64,
    pub state: String,
    pub title: String,
    pub user: Option<SimpleUser>,
    pub html_url: String,
    pub updated_at: String,
    pub draft: bool,
    pub merged_at: Option<String>,
}

#[derive(Debug, Clone)]
pub struct ConversationComment {
    pub id: u64,
    pub body: Option<String>,
    pub user: Option<SimpleUser>,
    pub created_at: String,
    pub updated_at: String,
    pub issue_url: String,
}

#[derive(Debug, Clone)]
pub struct Review {
    pub id: u64,
    pub body: String,
    pub user: Option<SimpleUser>,
    pub state: String,
    pub submitted_at: Option<String>,
    pub commit_id: Option<String>,
}

#[derive(Debug, Clone)]
pub struct ReviewComment {
    pub id: u64,
    pub body: String,
    pub user: Option<SimpleUser>,
    pub path: String,
    pub diff_hunk: String,
    pub created_at: String,
    pub updated_at: String,
    pub pull_request_review_id: Option<u64>,
    pub pull_request_url: String,
}

#[derive(Debug, Clone)]
pub struct DiffFile {
    pub filename: String,
    pub status: String,
    pub patch: Option<String>,
}

/// Which record family an inspection decoded.
#[derive(Debug, Clone, Copy, PartialEq, Eq, Structural)]
pub enum GithubWireKindForTest {
    Issue,
    PullRequest,
    ConversationComments,
    Reviews,
    ReviewComments,
    DiffFiles,
}

/// One decoded GitHub document of a known family.
#[derive(Debug, Clone)]
pub enum WireDocument {
    Issue(Issue),
    PullRequest(PullRequest),
    ConversationComments(Vec<ConversationComment>),
    Reviews(Vec<Review>),
    ReviewComments(Vec<ReviewComment>),
    DiffFiles(Vec<DiffFile>),
}

impl WireDocument {
    pub fn kind(&self) -> (k: GithubWireKindForTest)
        ensures
            k == match self {
                WireDocument::Issue(_) => GithubWireKindForTest::Issue,
                WireDocument::PullRequest(_) => GithubWireKindForTest::PullRequest,
                WireDocument::ConversationComments(_) => GithubWireKindForTest::ConversationComments,
                WireDocument::Reviews(_) => GithubWireKindForTest::Reviews,
                WireDocument::ReviewComments(_) => GithubWireKindForTest::ReviewComments,
                WireDocument::DiffFiles(_) => GithubWireKindForTest::DiffFiles,
            },
    {
        match self {
            WireDocument::Issue(_) => GithubWireKindForTest::Issue,
            WireDocument::PullRequest(_) => GithubWireKindForTest::PullRequest,
            WireDocument::ConversationComments(_) => GithubWireKindForTest::ConversationComments,
            WireDocument::Reviews(_) => GithubWireKindForTest::Reviews,
            WireDocument::ReviewComments(_) => GithubWireKindForTest::ReviewComments,
            WireDocument::DiffFiles(_) => GithubWireKindForTest::DiffFiles,
        }
    }
}

/// What an inspection observed: identities, numbers, the fields that were
/// absent, and the bytes the record retains.
#[derive(Debug, Clone)]
pub struct GithubWireObservation {
    ids: Vec<u64>,
    numbers: Vec<u64>,
    absent_fields: Vec<&'static str>,
    retained_bytes: usize,
}

/// The texts of a list of static names.
pub open spec fn names(v: Seq<&'static str>) -> Seq<Seq<char>> {
    v.map_values(|s: &'static str| s@)
}

impl GithubWireObservation {
    pub closed spec fn spec_ids(&self) -> Seq<u64> {
        self.ids@
    }

    pub closed spec fn spec_numbers(&self) -> Seq<u64> {
        self.numbers@
    }

    pub closed spec fn spec_absent_fields(&self) -> Seq<Seq<char>> {
        names(self.absent_fields@)
    }

    pub closed spec fn spec_retained_bytes(&self) -> usize {
        self.retained_bytes
    }

    pub fn ids(&self) -> (s: &[u64])
        ensures
            s@ == self.spec_ids(),
    {
        self.ids.as_slice()
    }

    pub fn numbers(&self) -> (s: &[u64])
        ensures
            s@ == self.spec_numbers(),
    {
        self.numbers.as_slice()
    }

    pub fn absent_fields(&self) -> (s: &[&'static str])
        ensures
            names(s@) == self.spec_absent_fields(),
    {
        self.absent_fields.as_slice()
    }

    pub fn retained_bytes(&self) -> (n: usize)
        ensures
            n == self.spec_retained_bytes(),
    {
        self.retained_bytes
    }
}

// ------------------------------------------------------------- measuring

/// `n` clamped to `usize::MAX`: a chain of saturating additions of
/// non-negative terms.
pub open spec fn sat(n: int) -> usize {
    if n > usize::MAX {
        usize::MAX
    } else if n < 0 {
        0
    } else {
        n as usize
    }
}

pub fn sat_add(a: usize, b: usize) -> (r: usize)
    ensures
        r == sat(a + b),
{
    a.saturating_add(b)
}

/// Adds `b` to an accumulator that already holds `sat(t)`.
fn accumulate(acc: usize, Ghost(t): Ghost<int>, b: usize) -> (r: usize)
    requires
        acc == sat(t),
        t >= 0,
    ensures
        r == sat(t + b),
{
    sat_add(acc, b)
}

/// Bytes of an optional text.
pub open spec fn opt_len(v: Option<String>) -> int {
    match v {
        Some(s) => byte_len(s@) as int,
        None => 0,
    }
}

pub fn optional_bytes(value: &Option<String>) -> (n: usize)
    ensures
        n == opt_len(*value),
{
    match value {
        Some(s) => str_byte_len(s.as_str()),
        None => 0,
    }
}

/// Total bytes of a list of texts.
pub open spec fn sum_bytes(v: Seq<&str>) -> int
    decreases v.len(),
{
    if v.len() == 0 {
        0
    } else {
        sum_bytes(v.drop_last()) + byte_len(v.last()@) as int
    }
}

/// Saturating total of the texts' byte lengths.
pub fn string_bytes(values: &[&str]) -> (n: usize)
    ensures
        n == sat(sum_bytes(values@)),
{
    let mut total: usize = 0;
    let mut i: usize = 0;
    while i < values.len()
        invariant
            i <= values@.len(),
            total == sat(sum_bytes(values@.take(i as int))),
        decreases values@.len() - i,
    {
        proof {
            assert(values@.take(i + 1).drop_last() =~= values@.take(i as int));
            lemma_sum_bytes_nonneg(values@.take(i as int));
        }
        total = sat_add(total, str_byte_len(values[i]));
        i = i + 1;
    }
    proof {
        assert(values@.take(i as int) =~= values@);
    }
    total
}

proof fn lemma_sum_bytes_nonneg(v: Seq<&str>)
    ensures
        sum_bytes(v) >= 0,
    decreases v.len(),
{
    if v.len() > 0 {
        lemma_sum_bytes_nonneg(v.drop_last());
    }
}

/// The refusal for a required positive identity that is zero.
pub open spec fn is_field_error(e: ResourceError, field: Seq<char>) -> bool {
    &&& e.category == ErrorCategory::SourceUnavailable
    &&& e.message@ == "GitHub upstream field '"@ + field + "' must be positive"@
    &&& e.details is None
}

fn field_error(field: &str) -> (e: ResourceError)
    ensures
        is_field_error(e, field@),
{
    let mut message = String::new();
    push_str(&mut message, "GitHub upstream field '");
    push_str(&mut message, field);
    push_str(&mut message, "' must be positive");
    proof {
        assert(message@ =~= "GitHub upstream field '"@ + field@ + "' must be positive"@);
    }
    ResourceError::from_string(ErrorCategory::SourceUnavailable, message)
}

/// A required identity, refused when zero.
pub fn require_positive(value: u64, field: &str) -> (r: Result<u64, ResourceError>)
    ensures
        value > 0 ==> r == Ok::<u64, ResourceError>(value),
        value == 0 ==> (r matches Err(e) && is_field_error(e, field@)),
{
    if value == 0 {
        return Err(field_error(field));
    }
    Ok(value)
}

/// Bytes an account reference retains: its login. A present account must
/// carry a positive id.
pub open spec fn user_fault(u: Option<SimpleUser>) -> bool {
    u matches Some(x) && x.id == 0
}

pub open spec fn user_len(u: Option<SimpleUser>) -> int {
    match u {
        Some(x) => byte_len(x.login@) as int,
        None => 0,
    }
}

pub fn user_bytes(value: &Option<SimpleUser>) -> (r: Result<usize, ResourceError>)
    ensures
        user_fault(*value) ==> (r matches Err(e) && is_field_error(e, "user.id"@)),
        !user_fault(*value) ==> r == Ok::<usize, ResourceError>(user_len(*value) as usize),
{
    match value {
        None => Ok(0),
        Some(user) => {
            require_positive(user.id, "user.id")?;
            Ok(str_byte_len(user.login.as_str()))
        },
    }
}

// ------------------------------------------------------- inspection model

/// What an inspection must report: the field of the first zero identity,
/// or what it observed (with the exact, unclamped byte total).
pub enum WireOutcome {
    Fault(Seq<char>),
    Observed { ids: Seq<u64>, numbers: Seq<u64>, absent: Seq<Seq<char>>, total: int },
}

pub open spec fn absent_if(missing: bool, name: Seq<char>) -> Seq<Seq<char>> {
    if missing {
        seq![name]
    } else {
        Seq::empty()
    }
}

pub open spec fn bool_len(b: bool) -> int {
    if b {
        1
    } else {
        0
    }
}

pub open spec fn issue_outcome(v: Issue) -> WireOutcome {
    if v.id == 0 {
        WireOutcome::Fault("id"@)
    } else if v.number == 0 {
        WireOutcome::Fault("number"@)
    } else if user_fault(v.user) {
        WireOutcome::Fault("user.id"@)
    } else {
        WireOutcome::Observed {
            ids: seq![v.id],
            numbers: seq![v.number],
            absent: absent_if(v.body is None, "body"@) + absent_if(v.user is None, "user"@),
            total: byte_len(v.state@) + byte_len(v.title@) + byte_len(v.html_url@) + byte_len(
                v.created_at@,
            ) + byte_len(v.updated_at@) + opt_len(v.body) + user_len(v.user) + bool_len(
                v.pull_request,
            ),
        }
    }
}

pub open spec fn pull_outcome(v: PullRequest) -> WireOutcome {
    if v.id == 0 {
        WireOutcome::Fault("id"@)
    } else if v.number == 0 {
        WireOutcome::Fault("number"@)
    } else if user_fault(v.user) {
        WireOutcome::Fault("user.id"@)
    } else {
        WireOutcome::Observed {
            ids: seq![v.id],
            numbers: seq![v.number],
            absent: absent_if(v.body is None, "body"@) + absent_if(v.user is None, "user"@)
                + absent_if(v.merged_at is None, "merged_at"@),
            total: byte_len(v.state@) + byte_len(v.title@) + byte_len(v.html_url@) + byte_len(
                v.created_at@,
            ) + byte_len(v.updated_at@) + byte_len(v.head@) + byte_len(v.base@) + opt_len(v.body)
                + user_len(v.user) + opt_len(v.merged_at) + bool_len(v.draft) + bool_len(
                v.merged,
            ),
        }
    }
}

// Conversation comments.
pub open spec fn comment_fault(c: ConversationComment) -> Option<Seq<char>> {
    if c.id == 0 {
        Some("id"@)
    } else if user_fault(c.user) {
        Some("user.id"@)
    } else {
        None
    }
}

pub open spec fn comment_total(c: ConversationComment) -> int {
    byte_len(c.created_at@) + byte_len(c.updated_at@) + byte_len(c.issue_url@) + opt_len(c.body)
        + user_len(c.user)
}

pub open spec fn comment_absent(c: ConversationComment) -> Seq<Seq<char>> {
    absent_if(c.body is None, "body"@) + absent_if(c.user is None, "user"@)
}

pub open spec fn comments_fault(v: Seq<ConversationComment>) -> Option<Seq<char>>
    decreases v.len(),
{
    if v.len() == 0 {
        None
    } else if comments_fault(v.drop_last()) is Some {
        comments_fault(v.drop_last())
    } else {
        comment_fault(v.last())
    }
}

pub open spec fn comments_total(v: Seq<ConversationComment>) -> int
    decreases v.len(),
{
    if v.len() == 0 {
        0
    } else {
        comments_total(v.drop_last()) + comment_total(v.last())
    }
}

pub open spec fn comments_absent(v: Seq<ConversationComment>) -> Seq<Seq<char>>
    decreases v.len(),
{
    if v.len() == 0 {
        Seq::empty()
    } else {
        comments_absent(v.drop_last()) + comment_absent(v.last())
    }
}

// Reviews.
pub open spec fn review_fault(c: Review) -> Option<Seq<char>> {
    if c.id == 0 {
        Some("id"@)
    } else if user_fault(c.user) {
        Some("user.id"@)
    } else {
        None
    }
}

pub open spec fn review_total(c: Review) -> int {
    byte_len(c.body@) + byte_len(c.state@) + opt_len(c.submitted_at) + opt_len(c.commit_id)
        + user_len(c.user)
}

pub open spec fn reviews_fault(v: Seq<Review>) -> Option<Seq<char>>
    decreases v.len(),
{
    if v.len() == 0 {
        None
    } else if reviews_fault(v.drop_last()) is Some {
        reviews_fault(v.drop_last())
    } else {
        review_fault(v.last())
    }
}

pub open spec fn reviews_total(v: Seq<Review>) -> int
    decreases v.len(),
{
    if v.len() == 0 {
        0
    } else {
        reviews_total(v.drop_last()) + review_total(v.last())
    }
}

/// How many reviews lack the field `which` (0 commit_id, 1 submitted_at, 2 user).
pub open spec fn reviews_missing(v: Seq<Review>, which: int) -> nat
    decreases v.len(),
{
    if v.len() == 0 {
        0
    } else {
        reviews_missing(v.drop_last(), which) + if review_missing(v.last(), which) {
            1nat
        } else {
            0nat
        }
    }
}

pub open spec fn review_missing(c: Review, which: int) -> bool {
    if which == 0 {
        c.commit_id is None
    } else if which == 1 {
        c.submitted_at is None
    } else {
        c.user is None
    }
}

/// `n` copies of `name`.
pub open spec fn repeat(name: Seq<char>, n: nat) -> Seq<Seq<char>> {
    Seq::new(n, |_i: int| name)
}

/// The reviews' absent fields in sorted order: every `commit_id`, then
/// every `submitted_at`, then every `user`.
pub open spec fn reviews_absent(v: Seq<Review>) -> Seq<Seq<char>> {
    repeat("commit_id"@, reviews_missing(v, 0)) + repeat("submitted_at"@, reviews_missing(v, 1))
        + repeat("user"@, reviews_missing(v, 2))
}

// Inline review comments.
pub open spec fn review_comment_fault(c: ReviewComment) -> Option<Seq<char>> {
    if c.id == 0 {
        Some("id"@)
    } else if user_fault(c.user) {
        Some("user.id"@)
    } else {
        None
    }
}

pub open spec fn review_comment_total(c: ReviewComment) -> int {
    byte_len(c.body@) + byte_len(c.path@) + byte_len(c.diff_hunk@) + byte_len(c.created_at@)
        + byte_len(c.updated_at@) + user_len(c.user)
}

pub open spec fn review_comment_absent(c: ReviewComment) -> Seq<Seq<char>> {
    absent_if(c.pull_request_review_id is None, "pull_request_review_id"@) + absent_if(
        c.user is None,
        "user"@,
    )
}

pub open spec fn review_comments_fault(v: Seq<ReviewComment>) -> Option<Seq<char>>
    decreases v.len(),
{
    if v.len() == 0 {
        None
    } else if review_comments_fault(v.drop_last()) is Some {
        review_comments_fault(v.drop_last())
    } else {
        review_comment_fault(v.last())
    }
}

pub open spec fn review_comments_total(v: Seq<ReviewComment>) -> int
    decreases v.len(),
{
    if v.len() == 0 {
        0
    } else {
        review_comments_total(v.drop_last()) + review_comment_total(v.last())
    }
}

pub open spec fn review_comments_absent(v: Seq<ReviewComment>) -> Seq<Seq<char>>
    decreases v.len(),
{
    if v.len() == 0 {
        Seq::empty()
    } else {
        review_comments_absent(v.drop_last()) + review_comment_absent(v.last())
    }
}

// Diff files.
pub open spec fn files_total(v: Seq<DiffFile>) -> int
    decreases v.len(),
{
    if v.len() == 0 {
        0
    } else {
        files_total(v.drop_last()) + byte_len(v.last().filename@) + byte_len(v.last().status@)
            + opt_len(v.last().patch)
    }
}

pub open spec fn files_absent(v: Seq<DiffFile>) -> Seq<Seq<char>>
    decreases v.len(),
{
    if v.len() == 0 {
        Seq::empty()
    } else {
        files_absent(v.drop_last()) + absent_if(v.last().patch is None, "patch"@)
    }
}

pub open spec fn wire_outcome(doc: WireDocument) -> WireOutcome {
    match doc {
        WireDocument::Issue(v) => issue_outcome(v),
        WireDocument::PullRequest(v) => pull_outcome(v),
        WireDocument::ConversationComments(v) => match comments_fault(v@) {
            Some(f) => WireOutcome::Fault(f),
            None => WireOutcome::Observed {
                ids: v@.map_values(|c: ConversationComment| c.id),
                numbers: Seq::empty(),
                absent: comments_absent(v@),
                total: comments_total(v@),
            },
        },
        WireDocument::Reviews(v) => match reviews_fault(v@) {
            Some(f) => WireOutcome::Fault(f),
            None => WireOutcome::Observed {
                ids: v@.map_values(|c: Review| c.id),
                numbers: Seq::empty(),
                absent: reviews_absent(v@),
                total: reviews_total(v@),
            },
        },
        WireDocument::ReviewComments(v) => match review_comments_fault(v@) {
            Some(f) => WireOutcome::Fault(f),
            None => WireOutcome::Observed {
                ids: v@.map_values(|c: ReviewComment| c.id),
                numbers: Seq::empty(),
                absent: review_comments_absent(v@),
                total: review_comments_total(v@),
            },
        },
        WireDocument::DiffFiles(v) => WireOutcome::Observed {
            ids: Seq::empty(),
            numbers: Seq::empty(),
            absent: files_absent(v@),
            total: files_total(v@),
        },
    }
}

/// `r` is what the inspection of an outcome must return.
pub open spec fn reports(r: Result<GithubWireObservation, ResourceError>, o: WireOutcome) -> bool {
    match o {
        WireOutcome::Fault(f) => r matches Err(e) && is_field_error(e, f),
        WireOutcome::Observed { ids, numbers, absent, total } => r matches Ok(obs) && obs.spec_ids()
            == ids && obs.spec_numbers() == numbers && obs.spec_absent_fields() == absent
            && obs.spec_retained_bytes() == sat(total),
    }
}

// -------------------------------------------------------------- inspection

/// Checks a decoded record's identities and measures what it retains.
pub fn inspect_github_wire_for_test(document: &WireDocument) -> (r: Result<
    GithubWireObservation,
    ResourceError,
>)
    ensures
        reports(r, wire_outcome(*document)),
{
    match document {
        WireDocument::Issue(value) => inspect_issue(value),
        WireDocument::PullRequest(value) => inspect_pull(value),
        WireDocument::ConversationComments(values) => inspect_comments(values),
        WireDocument::Reviews(values) => inspect_reviews(values),
        WireDocument::ReviewComments(values) => inspect_review_comments(values),
        WireDocument::DiffFiles(values) => inspect_files(values),
    }
}

fn inspect_issue(value: &Issue) -> (r: Result<GithubWireObservation, ResourceError>)
    ensures
        reports(r, issue_outcome(*value)),
{
    let id = require_positive(value.id, "id")?;
    let number = require_positive(value.number, "number")?;
    let mut absent_fields: Vec<&'static str> = Vec::new();
    if value.body.is_none() {
        absent_fields.push("body");
    }
    if value.user.is_none() {
        absent_fields.push("user");
    }
    let ghost mut t: int = 0;
    let mut retained: usize = 0;
    let b = str_byte_len(value.state.as_str());
    retained = accumulate(retained, Ghost(t), b);
    proof { t = t + b; }
    let b = str_byte_len(value.title.as_str());
    retained = accumulate(retained, Ghost(t), b);
    proof { t = t + b; }
    let b = str_byte_len(value.html_url.as_str());
    retained = accumulate(retained, Ghost(t), b);
    proof { t = t + b; }
    let b = str_byte_len(value.created_at.as_str());
    retained = accumulate(retained, Ghost(t), b);
    proof { t = t + b; }
    let b = str_byte_len(value.updated_at.as_str());
    retained = accumulate(retained, Ghost(t), b);
    proof { t = t + b; }
    let b = optional_bytes(&value.body);
    retained = accumulate(retained, Ghost(t), b);
    proof { t = t + b; }
    let b = user_bytes(&value.user)?;
    retained = accumulate(retained, Ghost(t), b);
    proof { t = t + b; }
    let b: usize = if value.pull_request { 1 } else { 0 };
    retained = accumulate(retained, Ghost(t), b);
    proof { t = t + b; }
    proof {
        assert(names(absent_fields@) =~= absent_if(value.body is None, "body"@) + absent_if(
            value.user is None,
            "user"@,
        ));
    }
    let mut ids: Vec<u64> = Vec::new();
    ids.push(id);
    let mut numbers: Vec<u64> = Vec::new();
    numbers.push(number);
    proof {
        assert(ids@ =~= seq![id]);
        assert(numbers@ =~= seq![number]);
    }
    Ok(
        GithubWireObservation {
            ids,
            numbers,
            absent_fields,
            retained_bytes: retained,
        },
    )
}

fn inspect_pull(value: &PullRequest) -> (r: Result<GithubWireObservation, ResourceError>)
    ensures
        reports(r, pull_outcome(*value)),
{
    let id = require_positive(value.id, "id")?;
    let number = require_positive(value.number, "number")?;
    let mut absent_fields: Vec<&'static str> = Vec::new();
    if value.body.is_none() {
        absent_fields.push("body");
    }
    if value.user.is_none() {
        absent_fields.push("user");
    }
    if value.merged_at.is_none() {
        absent_fields.push("merged_at");
    }
    let ghost mut t: int = 0;
    let mut retained: usize = 0;
    let b = str_byte_len(value.state.as_str());
    retained = accumulate(retained, Ghost(t), b);
    proof { t = t + b; }
    let b = str_byte_len(value.title.as_str());
    retained = accumulate(retained, Ghost(t), b);
    proof { t = t + b; }
    let b = str_byte_len(value.html_url.as_str());
    retained = accumulate(retained, Ghost(t), b);
    proof { t = t + b; }
    let b = str_byte_len(value.created_at.as_str());
    retained = accumulate(retained, Ghost(t), b);
    proof { t = t + b; }
    let b = str_byte_len(value.updated_at.as_str());
    retained = accumulate(retained, Ghost(t), b);
    proof { t = t + b; }
    let b = str_byte_len(value.head.as_str());
    retained = accumulate(retained, Ghost(t), b);
    proof { t = t + b; }
    let b = str_byte_len(value.base.as_str());
    retained = accumulate(retained, Ghost(t), b);
    proof { t = t + b; }
    let b = optional_bytes(&value.body);
    retained = accumulate(retained, Ghost(t), b);
    proof { t = t + b; }
    let b = user_bytes(&value.user)?;
    retained = accumulate(retained, Ghost(t), b);
    proof { t = t + b; }
    let b = optional_bytes(&value.merged_at);
    retained = accumulate(retained, Ghost(t), b);
    proof { t = t + b; }
    let b: usize = if value.draft { 1 } else { 0 };
    retained = accumulate(retained, Ghost(t), b);
    proof { t = t + b; }
    let b: usize = if value.merged { 1 } else { 0 };
    retained = accumulate(retained, Ghost(t), b);
    proof { t = t + b; }
    proof {
        assert(names(absent_fields@) =~= absent_if(value.body is None, "body"@) + absent_if(
            value.user is None,
            "user"@,
        ) + absent_if(value.merged_at is None, "merged_at"@));
    }
    let mut ids: Vec<u64> = Vec::new();
    ids.push(id);
    let mut numbers: Vec<u64> = Vec::new();
    numbers.push(number);
    proof {
        assert(ids@ =~= seq![id]);
        assert(numbers@ =~= seq![number]);
    }
    Ok(
        GithubWireObservation {
            ids,
            numbers,
            absent_fields,
            retained_bytes: retained,
        },
    )
}

proof fn lemma_sat_nested(t: int, e: int)
    requires
        t >= 0,
        e >= 0,
    ensures
        sat(t + sat(e)) == sat(t + e),
{
}

proof fn lemma_comments_fault_sticks(v: Seq<ConversationComment>, k: int)
    requires
        0 <= k <= v.len(),
        comments_fault(v.take(k)) is Some,
    ensures
        comments_fault(v) == comments_fault(v.take(k)),
    decreases v.len() - k,
{
    if k < v.len() {
        assert(v.take(k + 1).drop_last() =~= v.take(k));
        lemma_comments_fault_sticks(v, k + 1);
    } else {
        assert(v.take(k) =~= v);
    }
}

proof fn lemma_reviews_fault_sticks(v: Seq<Review>, k: int)
    requires
        0 <= k <= v.len(),
        reviews_fault(v.take(k)) is Some,
    ensures
        reviews_fault(v) == reviews_fault(v.take(k)),
    decreases v.len() - k,
{
    if k < v.len() {
        assert(v.take(k + 1).drop_last() =~= v.take(k));
        lemma_reviews_fault_sticks(v, k + 1);
    } else {
        assert(v.take(k) =~= v);
    }
}

proof fn lemma_review_comments_fault_sticks(v: Seq<ReviewComment>, k: int)
    requires
        0 <= k <= v.len(),
        review_comments_fault(v.take(k)) is Some,
    ensures
        review_comments_fault(v) == review_comments_fault(v.take(k)),
    decreases v.len() - k,
{
    if k < v.len() {
        assert(v.take(k + 1).drop_last() =~= v.take(k));
        lemma_review_comments_fault_sticks(v, k + 1);
    } else {
        assert(v.take(k) =~= v);
    }
}

/// Bytes one conversation comment retains.
fn comment_bytes(value: &ConversationComment) -> (r: Result<usize, ResourceError>)
    ensures
        user_fault(value.user) ==> (r matches Err(e) && is_field_error(e, "user.id"@)),
        !user_fault(value.user) ==> r == Ok::<usize, ResourceError>(sat(comment_total(*value))),
{
    let ghost mut t: int = 0;
    let mut retained: usize = 0;
    let b = str_byte_len(value.created_at.as_str());
    retained = accumulate(retained, Ghost(t), b);
    proof { t = t + b; }
    let b = str_byte_len(value.updated_at.as_str());
    retained = accumulate(retained, Ghost(t), b);
    proof { t = t + b; }
    let b = str_byte_len(value.issue_url.as_str());
    retained = accumulate(retained, Ghost(t), b);
    proof { t = t + b; }
    let b = optional_bytes(&value.body);
    retained = accumulate(retained, Ghost(t), b);
    proof { t = t + b; }
    let b = user_bytes(&value.user)?;
    retained = accumulate(retained, Ghost(t), b);
    Ok(retained)
}

fn inspect_comments(values: &Vec<ConversationComment>) -> (r: Result<
    GithubWireObservation,
    ResourceError,
>)
    ensures
        reports(r, wire_outcome(WireDocument::ConversationComments(*values))),
{
    let mut ids: Vec<u64> = Vec::new();
    let mut absent_fields: Vec<&'static str> = Vec::new();
    let mut retained: usize = 0;
    let mut i: usize = 0;
    while i < values.len()
        invariant
            i <= values@.len(),
            comments_fault(values@.take(i as int)) is None,
            ids@ == values@.take(i as int).map_values(|c: ConversationComment| c.id),
            names(absent_fields@) == comments_absent(values@.take(i as int)),
            retained == sat(comments_total(values@.take(i as int))),
            comments_total(values@.take(i as int)) >= 0,
        decreases values@.len() - i,
    {
        let value = &values[i];
        let ghost prefix = values@.take(i as int);
        let ghost next = values@.take(i + 1);
        proof {
            assert(next.drop_last() =~= prefix);
            assert(next.last() == *value);
        }
        if value.id == 0 {
            proof {
                lemma_comments_fault_sticks(values@, i + 1);
            }
            return Err(field_error("id"));
        }
        ids.push(value.id);
        let ghost before = absent_fields@;
        if value.body.is_none() {
            absent_fields.push("body");
        }
        if value.user.is_none() {
            absent_fields.push("user");
        }
        proof {
            assert(names(absent_fields@) =~= names(before) + comment_absent(*value));
        }
        let b = match comment_bytes(value) {
            Ok(b) => b,
            Err(e) => {
                proof {
                    lemma_comments_fault_sticks(values@, i + 1);
                }
                return Err(e);
            },
        };
        proof {
            lemma_sat_nested(comments_total(prefix), comment_total(*value));
        }
        retained = accumulate(retained, Ghost(comments_total(prefix)), b);
        proof {
            assert(ids@ =~= next.map_values(|c: ConversationComment| c.id));
        }
        i = i + 1;
    }
    proof {
        assert(values@.take(i as int) =~= values@);
    }
    Ok(
        GithubWireObservation {
            ids,
            numbers: Vec::new(),
            absent_fields,
            retained_bytes: retained,
        },
    )
}

/// Bytes one review retains.
fn review_bytes(value: &Review) -> (r: Result<usize, ResourceError>)
    ensures
        user_fault(value.user) ==> (r matches Err(e) && is_field_error(e, "user.id"@)),
        !user_fault(value.user) ==> r == Ok::<usize, ResourceError>(sat(review_total(*value))),
{
    let ghost mut t: int = 0;
    let mut retained: usize = 0;
    let b = str_byte_len(value.body.as_str());
    retained = accumulate(retained, Ghost(t), b);
    proof { t = t + b; }
    let b = str_byte_len(value.state.as_str());
    retained = accumulate(retained, Ghost(t), b);
    proof { t = t + b; }
    let b = optional_bytes(&value.submitted_at);
    retained = accumulate(retained, Ghost(t), b);
    proof { t = t + b; }
    let b = optional_bytes(&value.commit_id);
    retained = accumulate(retained, Ghost(t), b);
    proof { t = t + b; }
    let b = user_bytes(&value.user)?;
    retained = accumulate(retained, Ghost(t), b);
    Ok(retained)
}

fn inspect_reviews(values: &Vec<Review>) -> (r: Result<GithubWireObservation, ResourceError>)
    ensures
        reports(r, wire_outcome(WireDocument::Reviews(*values))),
{
    let mut ids: Vec<u64> = Vec::new();
    let mut missing_commit: usize = 0;
    let mut missing_submitted: usize = 0;
    let mut missing_user: usize = 0;
    let mut retained: usize = 0;
    let mut i: usize = 0;
    while i < values.len()
        invariant
            i <= values@.len(),
            reviews_fault(values@.take(i as int)) is None,
            ids@ == values@.take(i as int).map_values(|c: Review| c.id),
            missing_commit == reviews_missing(values@.take(i as int), 0),
            missing_submitted == reviews_missing(values@.take(i as int), 1),
            missing_user == reviews_missing(values@.take(i as int), 2),
            missing_commit <= i && missing_submitted <= i && missing_user <= i,
            retained == sat(reviews_total(values@.take(i as int))),
            reviews_total(values@.take(i as int)) >= 0,
        decreases values@.len() - i,
    {
        let value = &values[i];
        let ghost prefix = values@.take(i as int);
        let ghost next = values@.take(i + 1);
        proof {
            assert(next.drop_last() =~= prefix);
            assert(next.last() == *value);
        }
        if value.id == 0 {
            proof {
                lemma_reviews_fault_sticks(values@, i + 1);
            }
            return Err(field_error("id"));
        }
        ids.push(value.id);
        if value.commit_id.is_none() {
            missing_commit = missing_commit + 1;
        }
        if value.submitted_at.is_none() {
            missing_submitted = missing_submitted + 1;
        }
        if value.user.is_none() {
            missing_user = missing_user + 1;
        }
        let b = match review_bytes(value) {
            Ok(b) => b,
            Err(e) => {
                proof {
                    lemma_reviews_fault_sticks(values@, i + 1);
                }
                return Err(e);
            },
        };
        proof {
            lemma_sat_nested(reviews_total(prefix), review_total(*value));
        }
        retained = accumulate(retained, Ghost(reviews_total(prefix)), b);
        proof {
            assert(ids@ =~= next.map_values(|c: Review| c.id));
        }
        i = i + 1;
    }
    proof {
        assert(values@.take(i as int) =~= values@);
    }
    let mut absent_fields: Vec<&'static str> = Vec::new();
    push_repeated(&mut absent_fields, "commit_id", missing_commit);
    push_repeated(&mut absent_fields, "submitted_at", missing_submitted);
    push_repeated(&mut absent_fields, "user", missing_user);
    proof {
        assert(names(absent_fields@) =~= reviews_absent(values@));
    }
    Ok(
        GithubWireObservation {
            ids,
            numbers: Vec::new(),
            absent_fields,
            retained_bytes: retained,
        },
    )
}

/// Appends `count` copies of `name`.
fn push_repeated(v: &mut Vec<&'static str>, name: &'static str, count: usize)
    ensures
        names(final(v)@) == names(old(v)@) + repeat(name@, count as nat),
{
    let ghost start = v@;
    let mut k: usize = 0;
    while k < count
        invariant
            k <= count,
            names(v@) == names(start) + repeat(name@, k as nat),
        decreases count - k,
    {
        let ghost prev = v@;
        v.push(name);
        k = k + 1;
        proof {
            assert(names(v@) =~= names(prev).push(name@));
            assert(repeat(name@, k as nat) =~= repeat(name@, (k - 1) as nat).push(name@));
            assert(names(v@) =~= names(start) + repeat(name@, k as nat));
        }
    }
}

/// Bytes one inline review comment retains.
fn review_comment_bytes(value: &ReviewComment) -> (r: Result<usize, ResourceError>)
    ensures
        user_fault(value.user) ==> (r matches Err(e) && is_field_error(e, "user.id"@)),
        !user_fault(value.user) ==> r == Ok::<usize, ResourceError>(
            sat(review_comment_total(*value)),
        ),
{
    let ghost mut t: int = 0;
    let mut retained: usize = 0;
    let b = str_byte_len(value.body.as_str());
    retained = accumulate(retained, Ghost(t), b);
    proof { t = t + b; }
    let b = str_byte_len(value.path.as_str());
    retained = accumulate(retained, Ghost(t), b);
    proof { t = t + b; }
    let b = str_byte_len(value.diff_hunk.as_str());
    retained = accumulate(retained, Ghost(t), b);
    proof { t = t + b; }
    let b = str_byte_len(value.created_at.as_str());
    retained = accumulate(retained, Ghost(t), b);
    proof { t = t + b; }
    let b = str_byte_len(value.updated_at.as_str());
    retained = accumulate(retained, Ghost(t), b);
    proof { t = t + b; }
    let b = user_bytes(&value.user)?;
    retained = accumulate(retained, Ghost(t), b);
    Ok(retained)
}

fn inspect_review_comments(values: &Vec<ReviewComment>) -> (r: Result<
    GithubWireObservation,
    ResourceError,
>)
    ensures
        reports(r, wire_outcome(WireDocument::ReviewComments(*values))),
{
    let mut ids: Vec<u64> = Vec::new();
    let mut absent_fields: Vec<&'static str> = Vec::new();
    let mut retained: usize = 0;
    let mut i: usize = 0;
    while i < values.len()
        invariant
            i <= values@.len(),
            review_comments_fault(values@.take(i as int)) is None,
            ids@ == values@.take(i as int).map_values(|c: ReviewComment| c.id),
            names(absent_fields@) == review_comments_absent(values@.take(i as int)),
            retained == sat(review_comments_total(values@.take(i as int))),
            review_comments_total(values@.take(i as int)) >= 0,
        decreases values@.len() - i,
    {
        let value = &values[i];
        let ghost prefix = values@.take(i as int);
        let ghost next = values@.take(i + 1);
        proof {
            assert(next.drop_last() =~= prefix);
            assert(next.last() == *value);
        }
        if value.id == 0 {
            proof {
                lemma_review_comments_fault_sticks(values@, i + 1);
            }
            return Err(field_error("id"));
        }
        ids.push(value.id);
        let ghost before = absent_fields@;
        if value.pull_request_review_id.is_none() {
            absent_fields.push("pull_request_review_id");
        }
        if value.user.is_none() {
            absent_fields.push("user");
        }
        proof {
            assert(names(absent_fields@) =~= names(before) + review_comment_absent(*value));
        }
        let b = match review_comment_bytes(value) {
            Ok(b) => b,
            Err(e) => {
                proof {
                    lemma_review_comments_fault_sticks(values@, i + 1);
                }
                return Err(e);
            },
        };
        proof {
            lemma_sat_nested(review_comments_total(prefix), review_comment_total(*value));
        }
        retained = accumulate(retained, Ghost(review_comments_total(prefix)), b);
        proof {
            assert(ids@ =~= next.map_values(|c: ReviewComment| c.id));
        }
        i = i + 1;
    }
    proof {
        assert(values@.take(i as int) =~= values@);
    }
    Ok(
        GithubWireObservation {
            ids,
            numbers: Vec::new(),
            absent_fields,
            retained_bytes: retained,
        },
    )
}

fn inspect_files(values: &Vec<DiffFile>) -> (r: Result<GithubWireObservation, ResourceError>)
    ensures
        reports(r, wire_outcome(WireDocument::DiffFiles(*values))),
{
    let mut absent_fields: Vec<&'static str> = Vec::new();
    let mut retained: usize = 0;
    let mut i: usize = 0;
    while i < values.len()
        invariant
            i <= values@.len(),
            names(absent_fields@) == files_absent(values@.take(i as int)),
            retained == sat(files_total(values@.take(i as int))),
            files_total(values@.take(i as int)) >= 0,
        decreases values@.len() - i,
    {
        let value = &values[i];
        let ghost prefix = values@.take(i as int);
        let ghost next = values@.take(i + 1);
        proof {
            assert(next.drop_last() =~= prefix);
            assert(next.last() == *value);
        }
        let ghost before = absent_fields@;
        if value.patch.is_none() {
            absent_fields.push("patch");
        }
        proof {
            assert(names(absent_fields@) =~= names(before) + absent_if(
                value.patch is None,
                "patch"@,
            ));
        }
        let ghost t0 = files_total(prefix);
        let b = str_byte_len(value.filename.as_str());
        retained = accumulate(retained, Ghost(t0), b);
        let b2 = str_byte_len(value.status.as_str());
        retained = accumulate(retained, Ghost(t0 + b), b2);
        let b3 = optional_bytes(&value.patch);
        retained = accumulate(retained, Ghost(t0 + b + b2), b3);
        i = i + 1;
    }
    proof {
        assert(values@.take(i as int) =~= values@);
    }
    Ok(
        GithubWireObservation {
            ids: Vec::new(),
            numbers: Vec::new(),
            absent_fields,
            retained_bytes: retained,
        },
    )
}


// ------------------------------------------------------------ decode errors

/// The longest prefix of `s` whose UTF-8 encoding fits in `limit` bytes.
pub open spec fn byte_prefix(s: Seq<char>, limit: nat) -> Seq<char>
    decreases s.len(),
{
    if s.len() == 0 || char_width(s[0]) > limit {
        Seq::empty()
    } else {
        seq![s[0]] + byte_prefix(s.drop_first(), (limit - char_width(s[0])) as nat)
    }
}

/// Bytes of a malformed-JSON diagnostic a refusal keeps.
pub const MAX_DIAGNOSTIC_BYTES: usize = 512;

/// The refusal of an upstream body that does not decode: where decoding
/// failed and why, cut to at most 512 bytes on a character boundary.
pub fn malformed_json(path: &str, detail: &str) -> (e: ResourceError)
    ensures
        e.category == ErrorCategory::SourceUnavailable,
        e.details is None,
        e.message@ == byte_prefix(
            "GitHub upstream JSON is malformed at '"@ + path@ + "': "@ + detail@,
            MAX_DIAGNOSTIC_BYTES as nat,
        ),
{
    let mut full = owned("GitHub upstream JSON is malformed at '");
    push_str(&mut full, path);
    push_str(&mut full, "': ");
    push_str(&mut full, detail);
    let cs = chars_of(full.as_str());
    let mut kept = String::new();
    let mut room: usize = MAX_DIAGNOSTIC_BYTES;
    let mut i: usize = 0;
    proof {
        assert(cs@.skip(0) =~= cs@);
    }
    while i < cs.len() && char_len_utf8(cs[i]) <= room
        invariant
            i <= cs@.len(),
            cs@ == full@,
            byte_prefix(cs@, MAX_DIAGNOSTIC_BYTES as nat) == kept@ + byte_prefix(cs@.skip(i as int), room as nat),
        decreases cs@.len() - i,
    {
        let w = char_len_utf8(cs[i]);
        proof {
            assert(cs@.skip(i as int)[0] == cs@[i as int]);
            assert(cs@.skip(i as int).drop_first() =~= cs@.skip(i + 1));
        }
        let ghost before = kept@;
        push_char(&mut kept, cs[i]);
        room = room - w;
        i = i + 1;
        proof {
            assert(before + (seq![cs@[i - 1]] + byte_prefix(cs@.skip(i as int), room as nat)) =~= kept@
                + byte_prefix(cs@.skip(i as int), room as nat));
        }
    }
    proof {
        if i == cs@.len() {
            assert(cs@.skip(i as int) =~= Seq::<char>::empty());
        } else {
            assert(cs@.skip(i as int)[0] == cs@[i as int]);
            assert(char_width(cs@[i as int]) > room);
        }
        assert(byte_prefix(cs@.skip(i as int), room as nat) =~= Seq::<char>::empty());
        assert(kept@ + Seq::<char>::empty() =~= kept@);
    }
    ResourceError::from_string(ErrorCategory::SourceUnavailable, kept)
}

// -------------------------------------------------------------- concatenated listings

/// The first fault of two listings read one after the other.
pub open spec fn first_fault(a: Option<Seq<char>>, b: Option<Seq<char>>) -> Option<Seq<char>> {
    if a is Some {
        a
    } else {
        b
    }
}

proof fn lemma_comments_concat(a: Seq<ConversationComment>, b: Seq<ConversationComment>)
    ensures
        comments_fault(a + b) == first_fault(comments_fault(a), comments_fault(b)),
        comments_total(a + b) == comments_total(a) + comments_total(b),
        comments_absent(a + b) == comments_absent(a) + comments_absent(b),
        comments_total(b) >= 0,
    decreases b.len(),
{
    if b.len() == 0 {
        assert(a + b =~= a);
        assert(comments_absent(a) + comments_absent(b) =~= comments_absent(a));
    } else {
        lemma_comments_concat(a, b.drop_last());
        assert((a + b).drop_last() =~= a + b.drop_last());
        assert((a + b).last() == b.last());
        assert(comments_absent(a + b) =~= comments_absent(a) + comments_absent(b));
    }
}

proof fn lemma_review_comments_concat(a: Seq<ReviewComment>, b: Seq<ReviewComment>)
    ensures
        review_comments_fault(a + b) == first_fault(review_comments_fault(a), review_comments_fault(b)),
        review_comments_total(a + b) == review_comments_total(a) + review_comments_total(b),
        review_comments_absent(a + b) == review_comments_absent(a) + review_comments_absent(b),
        review_comments_total(b) >= 0,
    decreases b.len(),
{
    if b.len() == 0 {
        assert(a + b =~= a);
        assert(review_comments_absent(a) + review_comments_absent(b) =~= review_comments_absent(a));
    } else {
        lemma_review_comments_concat(a, b.drop_last());
        assert((a + b).drop_last() =~= a + b.drop_last());
        assert((a + b).last() == b.last());
        assert(review_comments_absent(a + b) =~= review_comments_absent(a) + review_comments_absent(b));
    }
}

proof fn lemma_reviews_concat(a: Seq<Review>, b: Seq<Review>)
    ensures
        reviews_fault(a + b) == first_fault(reviews_fault(a), reviews_fault(b)),
        reviews_total(a + b) == reviews_total(a) + reviews_total(b),
        reviews_total(b) >= 0,
        forall|w: int| #[trigger] reviews_missing(a + b, w) == reviews_missing(a, w) + reviews_missing(b, w),
    decreases b.len(),
{
    if b.len() == 0 {
        assert(a + b =~= a);
    } else {
        lemma_reviews_concat(a, b.drop_last());
        assert((a + b).drop_last() =~= a + b.drop_last());
        assert((a + b).last() == b.last());
        assert forall|w: int| #[trigger] reviews_missing(a + b, w) == reviews_missing(a, w) + reviews_missing(b, w) by {
            assert(reviews_missing(a + b.drop_last(), w) == reviews_missing(a, w) + reviews_missing(b.drop_last(), w));
        }
    }
}

proof fn lemma_files_concat(a: Seq<DiffFile>, b: Seq<DiffFile>)
    ensures
        files_total(a + b) == files_total(a) + files_total(b),
        files_absent(a + b) == files_absent(a) + files_absent(b),
        files_total(b) >= 0,
    decreases b.len(),
{
    if b.len() == 0 {
        assert(a + b =~= a);
        assert(files_absent(a) + files_absent(b) =~= files_absent(a));
    } else {
        lemma_files_concat(a, b.drop_last());
        assert((a + b).drop_last() =~= a + b.drop_last());
        assert((a + b).last() == b.last());
        assert(files_absent(a + b) =~= files_absent(a) + files_absent(b));
    }
}

/// The listing a list document holds, if it is one of the four listings.
pub open spec fn same_listing_kind(x: WireDocument, y: WireDocument) -> bool {
    match (x, y) {
        (WireDocument::ConversationComments(_), WireDocument::ConversationComments(_)) => true,
        (WireDocument::Reviews(_), WireDocument::Reviews(_)) => true,
        (WireDocument::ReviewComments(_), WireDocument::ReviewComments(_)) => true,
        (WireDocument::DiffFiles(_), WireDocument::DiffFiles(_)) => true,
        _ => false,
    }
}

/// `z` lists `x`'s records followed by `y`'s.
pub open spec fn concatenates(x: WireDocument, y: WireDocument, z: WireDocument) -> bool {
    match (x, y, z) {
        (
            WireDocument::ConversationComments(a),
            WireDocument::ConversationComments(b),
            WireDocument::ConversationComments(c),
        ) => c@ == a@ + b@,
        (WireDocument::Reviews(a), WireDocument::Reviews(b), WireDocument::Reviews(c)) => c@ == a@ + b@,
        (WireDocument::ReviewComments(a), WireDocument::ReviewComments(b), WireDocument::ReviewComments(c)) => c@
            == a@ + b@,
        (WireDocument::DiffFiles(a), WireDocument::DiffFiles(b), WireDocument::DiffFiles(c)) => c@ == a@ + b@,
        _ => false,
    }
}

/// The absent fields of the concatenation: for reviews, each field's
/// entries together, in the fixed field order; otherwise one listing's
/// after the other's.
pub open spec fn joined_absent(x: WireDocument, y: WireDocument, ax: Seq<Seq<char>>, ay: Seq<Seq<char>>) -> Seq<
    Seq<char>,
> {
    match (x, y) {
        (WireDocument::Reviews(a), WireDocument::Reviews(b)) => repeat(
            "commit_id"@,
            reviews_missing(a@, 0) + reviews_missing(b@, 0),
        ) + repeat("submitted_at"@, reviews_missing(a@, 1) + reviews_missing(b@, 1)) + repeat(
            "user"@,
            reviews_missing(a@, 2) + reviews_missing(b@, 2),
        ),
        _ => ax + ay,
    }
}

/// Inspecting a listing that concatenates two accepted listings observes
/// the concatenation of their identifiers, no numbers, their absent fields
/// together, and the sum of their retained bytes; when the two retained
/// counts fit a `usize` together, so does the sum, unsaturated.
pub proof fn lemma_inspection_concatenates(x: WireDocument, y: WireDocument, z: WireDocument)
    requires
        same_listing_kind(x, y),
        concatenates(x, y, z),
        wire_outcome(x) is Observed,
        wire_outcome(y) is Observed,
    ensures
        ({
            let ox = wire_outcome(x);
            let oy = wire_outcome(y);
            let oz = wire_outcome(z);
            &&& oz is Observed
            &&& oz->ids == ox->ids + oy->ids
            &&& oz->numbers == Seq::<u64>::empty()
            &&& oz->absent == joined_absent(x, y, ox->absent, oy->absent)
            &&& oz->total == ox->total + oy->total
            &&& ox->total >= 0 && oy->total >= 0
            &&& sat(ox->total) + sat(oy->total) <= usize::MAX ==> sat(oz->total) == sat(ox->total) + sat(
                oy->total,
            )
        }),
{
    match (x, y, z) {
        (
            WireDocument::ConversationComments(a),
            WireDocument::ConversationComments(b),
            WireDocument::ConversationComments(c),
        ) => {
            lemma_comments_concat(a@, b@);
            lemma_comments_concat(Seq::empty(), a@);
            assert(Seq::<ConversationComment>::empty() + a@ =~= a@);
            assert(c@.map_values(|t: ConversationComment| t.id) =~= a@.map_values(|t: ConversationComment| t.id)
                + b@.map_values(|t: ConversationComment| t.id));
        },
        (WireDocument::Reviews(a), WireDocument::Reviews(b), WireDocument::Reviews(c)) => {
            lemma_reviews_concat(a@, b@);
            lemma_reviews_concat(Seq::empty(), a@);
            assert(Seq::<Review>::empty() + a@ =~= a@);
            assert(c@.map_values(|t: Review| t.id) =~= a@.map_values(|t: Review| t.id) + b@.map_values(
                |t: Review| t.id,
            ));
            assert(reviews_missing(c@, 0) == reviews_missing(a@, 0) + reviews_missing(b@, 0));
            assert(reviews_missing(c@, 1) == reviews_missing(a@, 1) + reviews_missing(b@, 1));
            assert(reviews_missing(c@, 2) == reviews_missing(a@, 2) + reviews_missing(b@, 2));
        },
        (WireDocument::ReviewComments(a), WireDocument::ReviewComments(b), WireDocument::ReviewComments(c)) => {
            lemma_review_comments_concat(a@, b@);
            lemma_review_comments_concat(Seq::empty(), a@);
            assert(Seq::<ReviewComment>::empty() + a@ =~= a@);
            assert(c@.map_values(|t: ReviewComment| t.id) =~= a@.map_values(|t: ReviewComment| t.id)
                + b@.map_values(|t: ReviewComment| t.id));
        },
        (WireDocument::DiffFiles(a), WireDocument::DiffFiles(b), WireDocument::DiffFiles(c)) => {
            lemma_files_concat(a@, b@);
            lemma_files_concat(Seq::empty(), a@);
            assert(Seq::<DiffFile>::empty() + a@ =~= a@);
            assert(Seq::<u64>::empty() + Seq::<u64>::empty() =~= Seq::<u64>::empty());
        },
        _ => {},
    }
}

} // verus!
