//! The Markdown renderings of GitHub issues, pull requests and their parts.
//! Aggregates list conversation comments and inline review comments by
//! creation time, reviews by submission time (pending first), each then by id.
use vstd::prelude::*;
use crate::github::GithubRepositoryIdentity;
use crate::github_wire::{ConversationComment, DiffFile, Issue, PullRequest, Review, ReviewComment, SimpleUser};
use crate::order::{sort_stable, stable_sorted, ExecStampKey, StampKey};
use crate::text::{chars_of, decimal, owned, push_decimal, push_str};

verus! {

broadcast use vstd::string::group_string_axioms;

// ------------------------------------------------------------------ pieces

/// The login of an account, or `[deleted]` for a deleted one.
pub open spec fn author_text(user: Option<SimpleUser>) -> Seq<char> {
    match user {
        Some(u) => u.login@,
        None => "[deleted]"@,
    }
}

/// An optional text, or `fallback` when it is absent.
pub open spec fn or_text(value: Option<String>, fallback: Seq<char>) -> Seq<char> {
    match value {
        Some(v) => v@,
        None => fallback,
    }
}

/// A body, or `(no body)` when it is absent.
pub open spec fn body_text(body: Option<String>) -> Seq<char> {
    or_text(body, "(no body)"@)
}

pub open spec fn bool_text(b: bool) -> Seq<char> {
    if b {
        "true"@
    } else {
        "false"@
    }
}

fn push_author(s: &mut String, user: &Option<SimpleUser>)
    ensures
        final(s)@ == old(s)@ + author_text(*user),
{
    match user {
        Some(u) => push_str(s, u.login.as_str()),
        None => push_str(s, "[deleted]"),
    }
}

fn push_or(s: &mut String, value: &Option<String>, fallback: &str)
    ensures
        final(s)@ == old(s)@ + or_text(*value, fallback@),
{
    match value {
        Some(v) => push_str(s, v.as_str()),
        None => push_str(s, fallback),
    }
}

fn push_bool(s: &mut String, b: bool)
    ensures
        final(s)@ == old(s)@ + bool_text(b),
{
    if b {
        push_str(s, "true");
    } else {
        push_str(s, "false");
    }
}

/// The concatenation of `f` over `s`, in order.
pub open spec fn concat_map<T>(s: Seq<T>, f: spec_fn(T) -> Seq<char>) -> Seq<char>
    decreases s.len(),
{
    if s.len() == 0 {
        Seq::empty()
    } else {
        concat_map(s.drop_last(), f) + f(s.last())
    }
}

proof fn lemma_concat_map_step<T>(s: Seq<T>, f: spec_fn(T) -> Seq<char>, i: int)
    requires
        0 <= i < s.len(),
    ensures
        concat_map(s.take(i + 1), f) == concat_map(s.take(i), f) + f(s[i]),
{
    assert(s.take(i + 1).drop_last() =~= s.take(i));
}

// ------------------------------------------------------------------- order

pub open spec fn comment_key(c: ConversationComment) -> StampKey {
    (true, c.created_at@, c.id)
}

pub open spec fn review_key(r: Review) -> StampKey {
    match r.submitted_at {
        Some(t) => (true, t@, r.id),
        None => (false, Seq::empty(), r.id),
    }
}

pub open spec fn review_comment_key(c: ReviewComment) -> StampKey {
    (true, c.created_at@, c.id)
}

pub open spec fn comment_order() -> spec_fn(ConversationComment) -> StampKey {
    |c: ConversationComment| comment_key(c)
}

pub open spec fn review_order() -> spec_fn(Review) -> StampKey {
    |r: Review| review_key(r)
}

pub open spec fn review_comment_order() -> spec_fn(ReviewComment) -> StampKey {
    |c: ReviewComment| review_comment_key(c)
}

/// Conversation comments by creation time, then id; equal keys keep their
/// input order.
pub fn sort_comments(items: Vec<ConversationComment>) -> (r: Vec<ConversationComment>)
    ensures
        r@ == stable_sorted(items@, comment_order(), false),
{
    let mut keys: Vec<ExecStampKey> = Vec::new();
    let mut i: usize = 0;
    while i < items.len()
        invariant
            i <= items@.len(),
            keys@.len() == i,
            forall|m: int| 0 <= m < i ==> (#[trigger] keys@[m]).key() == (comment_order())(items@[m]),
        decreases items@.len() - i,
    {
        let c = &items[i];
        keys.push(ExecStampKey { present: true, stamp: chars_of(c.created_at.as_str()), id: c.id });
        i = i + 1;
    }
    sort_stable(items, keys, false, Ghost(comment_order()))
}

/// Reviews by submission time (pending ones first), then id; equal keys keep
/// their input order.
pub fn sort_reviews(items: Vec<Review>) -> (r: Vec<Review>)
    ensures
        r@ == stable_sorted(items@, review_order(), false),
{
    let mut keys: Vec<ExecStampKey> = Vec::new();
    let mut i: usize = 0;
    while i < items.len()
        invariant
            i <= items@.len(),
            keys@.len() == i,
            forall|m: int| 0 <= m < i ==> (#[trigger] keys@[m]).key() == (review_order())(items@[m]),
        decreases items@.len() - i,
    {
        let r = &items[i];
        let key = match &r.submitted_at {
            Some(t) => ExecStampKey { present: true, stamp: chars_of(t.as_str()), id: r.id },
            None => ExecStampKey { present: false, stamp: Vec::new(), id: r.id },
        };
        proof {
            assert(key.stamp@ =~= review_key(*r).1);
        }
        keys.push(key);
        i = i + 1;
    }
    sort_stable(items, keys, false, Ghost(review_order()))
}

/// Inline review comments by creation time, then id; equal keys keep their
/// input order.
pub fn sort_review_comments(items: Vec<ReviewComment>) -> (r: Vec<ReviewComment>)
    ensures
        r@ == stable_sorted(items@, review_comment_order(), false),
{
    let mut keys: Vec<ExecStampKey> = Vec::new();
    let mut i: usize = 0;
    while i < items.len()
        invariant
            i <= items@.len(),
            keys@.len() == i,
            forall|m: int| 0 <= m < i ==> (#[trigger] keys@[m]).key() == (review_comment_order())(items@[m]),
        decreases items@.len() - i,
    {
        let c = &items[i];
        keys.push(ExecStampKey { present: true, stamp: chars_of(c.created_at.as_str()), id: c.id });
        i = i + 1;
    }
    sort_stable(items, keys, false, Ghost(review_comment_order()))
}

// --------------------------------------------------------------- aggregates

/// The address of an aggregate: `scheme` (`issue://` or `pr://`), the
/// repository and the number.
pub open spec fn aggregate_base(scheme: Seq<char>, repository: GithubRepositoryIdentity, number: u64) -> Seq<char> {
    scheme + repository.spec_text() + "/"@ + decimal(number as nat)
}

fn make_base(scheme: &str, repository: &GithubRepositoryIdentity, number: u64) -> (s: String)
    ensures
        s@ == aggregate_base(scheme@, *repository, number),
{
    let mut s = owned(scheme);
    push_str(&mut s, repository.as_string().as_str());
    push_str(&mut s, "/");
    push_decimal(&mut s, number);
    proof {
        assert(s@ =~= aggregate_base(scheme@, *repository, number));
    }
    s
}

/// One conversation comment inside an aggregate.
pub open spec fn comment_block(base: Seq<char>, c: ConversationComment) -> Seq<char> {
    "\n### Comment "@ + decimal(c.id as nat) + "\nAuthor: "@ + author_text(c.user) + "\nCreated: "@
        + c.created_at@ + "\nUpdated: "@ + c.updated_at@ + "\nReference: "@ + base + "/comments/"@
        + decimal(c.id as nat) + "\n\n"@ + body_text(c.body) + "\n"@
}

/// One review inside a pull-request aggregate.
pub open spec fn review_block(base: Seq<char>, r: Review) -> Seq<char> {
    "\n### Review "@ + decimal(r.id as nat) + "\nState: "@ + r.state@ + "\nAuthor: "@ + author_text(r.user)
        + "\nSubmitted: "@ + or_text(r.submitted_at, "pending"@) + "\nReference: "@ + base + "/reviews/"@
        + decimal(r.id as nat) + "\n\n"@ + r.body@ + "\n"@
}

/// One inline review comment inside a pull-request aggregate.
pub open spec fn inline_block(base: Seq<char>, c: ReviewComment) -> Seq<char> {
    "\n### Inline comment "@ + decimal(c.id as nat) + "\nAuthor: "@ + author_text(c.user) + "\nPath: "@
        + c.path@ + "\nCreated: "@ + c.created_at@ + "\nUpdated: "@ + c.updated_at@ + "\nReference: "@
        + base + "/review-comments/"@ + decimal(c.id as nat) + "\n\n"@ + c.body@ + "\n"@
}

/// The diff listing line of the file at 1-based position `index`.
pub open spec fn diff_line(base: Seq<char>, index: nat, f: DiffFile) -> Seq<char> {
    "- "@ + base + "/diff/"@ + decimal(index) + " \u{2014} "@ + f.filename@ + " ("@ + f.status@ + (
    if f.patch is Some {
        ")\n"@
    } else {
        "; patch unavailable)\n"@
    })
}

/// The diff listing lines of `files`, numbered from 1.
pub open spec fn diff_lines(base: Seq<char>, files: Seq<DiffFile>) -> Seq<char>
    decreases files.len(),
{
    if files.len() == 0 {
        Seq::empty()
    } else {
        diff_lines(base, files.drop_last()) + diff_line(base, files.len(), files.last())
    }
}

pub open spec fn comment_blocks(base: Seq<char>, cs: Seq<ConversationComment>) -> Seq<char> {
    concat_map(cs, |c: ConversationComment| comment_block(base, c))
}

pub open spec fn review_blocks(base: Seq<char>, rs: Seq<Review>) -> Seq<char> {
    concat_map(rs, |r: Review| review_block(base, r))
}

pub open spec fn inline_blocks(base: Seq<char>, cs: Seq<ReviewComment>) -> Seq<char> {
    concat_map(cs, |c: ReviewComment| inline_block(base, c))
}

proof fn lemma_concat_map_append<T>(a: Seq<T>, b: Seq<T>, f: spec_fn(T) -> Seq<char>)
    ensures
        concat_map(a + b, f) == concat_map(a, f) + concat_map(b, f),
    decreases b.len(),
{
    if b.len() == 0 {
        assert(a + b =~= a);
        assert(concat_map(a, f) + concat_map(b, f) =~= concat_map(a, f));
    } else {
        lemma_concat_map_append(a, b.drop_last(), f);
        assert((a + b).drop_last() =~= a + b.drop_last());
        assert((a + b).last() == b.last());
        assert(concat_map(a + b, f) =~= concat_map(a, f) + concat_map(b, f));
    }
}

/// The `Reference:` line that names review `id` of the record whose
/// aggregate lives at `base`: the base, `/reviews/` and the id.
pub open spec fn review_reference(base: Seq<char>, id: u64) -> Seq<char> {
    "\nReference: "@ + base + "/reviews/"@ + decimal(id as nat)
}

/// `line` stands in `text` at `j`, and a line break follows it.
pub open spec fn line_at(text: Seq<char>, line: Seq<char>, j: int) -> bool {
    &&& 0 <= j
    &&& j + line.len() < text.len()
    &&& text.subrange(j, j + line.len()) == line
    &&& text[j + line.len()] == '\n'
}

proof fn lemma_line_in_middle(p: Seq<char>, m: Seq<char>, q: Seq<char>, line: Seq<char>, j: int)
    requires
        line_at(m, line, j),
    ensures
        line_at(p + m + q, line, p.len() + j),
{
    let t = p + m + q;
    assert(t.subrange(p.len() + j, p.len() + j + line.len()) =~= m.subrange(j, j + line.len()));
    assert(t[p.len() + j + line.len()] == m[j + line.len()]);
}

proof fn review_reference_index(base: Seq<char>, r: Review) -> (j: int)
    ensures
        line_at(review_block(base, r), review_reference(base, r.id), j),
{
    let pre = "\n### Review "@ + decimal(r.id as nat) + "\nState: "@ + r.state@ + "\nAuthor: "@ + author_text(r.user)
        + "\nSubmitted: "@ + or_text(r.submitted_at, "pending"@);
    let line = review_reference(base, r.id);
    let post = "\n\n"@ + r.body@ + "\n"@;
    assert(review_block(base, r) =~= pre + line + post);
    reveal_strlit("\n\n");
    assert(post.len() >= 2 && post[0] == '\n');
    assert((line + post).subrange(0, line.len() as int) =~= line);
    assert((line + post)[line.len() as int] == post[0]);
    assert(line_at(line + post, line, 0));
    lemma_line_in_middle(pre, line + post, Seq::empty(), line, 0);
    assert(pre + (line + post) + Seq::<char>::empty() =~= review_block(base, r));
    pre.len() as int
}

/// Law: a review's block names the review by the aggregate base, `/reviews/`
/// and the review id, on a `Reference:` line of its own.
pub proof fn lemma_review_block_names_the_review(base: Seq<char>, r: Review)
    ensures
        exists|j: int| #[trigger] line_at(review_block(base, r), review_reference(base, r.id), j),
{
    let j = review_reference_index(base, r);
}

/// Law: in a pull-request aggregate, every review is named on a
/// `Reference:` line by the aggregate base `pr://owner/repo/number`,
/// `/reviews/` and its id.
pub proof fn lemma_aggregate_names_each_review(
    repository: GithubRepositoryIdentity,
    pull: PullRequest,
    comments: Seq<ConversationComment>,
    reviews: Seq<Review>,
    review_comments: Seq<ReviewComment>,
    files: Seq<DiffFile>,
    i: int,
)
    requires
        0 <= i < reviews.len(),
    ensures
        exists|j: int| #[trigger] line_at(
            pull_text(repository, pull, comments, reviews, review_comments, files),
            review_reference(aggregate_base("pr://"@, repository, pull.number), reviews[i].id),
            j,
        ),
{
    let base = aggregate_base("pr://"@, repository, pull.number);
    let f = |r: Review| review_block(base, r);
    let line = review_reference(base, reviews[i].id);
    let a = reviews.take(i);
    let one = seq![reviews[i]];
    let b = reviews.skip(i + 1);
    assert(reviews =~= a + one + b);
    lemma_concat_map_append(a + one, b, f);
    lemma_concat_map_append(a, one, f);
    assert(one.drop_last() =~= Seq::<Review>::empty());
    assert(concat_map(Seq::<Review>::empty(), f) =~= Seq::<char>::empty());
    assert(one.last() == reviews[i]);
    assert(concat_map(one, f) == concat_map(one.drop_last(), f) + f(one.last()));
    assert(concat_map(one, f) =~= f(reviews[i]));
    let k = review_reference_index(base, reviews[i]);
    let blocks = concat_map(reviews, f);
    assert(blocks == concat_map(a, f) + review_block(base, reviews[i]) + concat_map(b, f));
    lemma_line_in_middle(concat_map(a, f), review_block(base, reviews[i]), concat_map(b, f), line, k);
    assert(review_blocks(base, reviews) == blocks);
    let head = pull_head_text(base, pull) + "\n## Conversation comments\n"@ + comment_blocks(base, comments)
        + "\n## Reviews\n"@;
    let tail = "\n## Inline review comments\n"@ + inline_blocks(base, review_comments) + "\n## Diff\n"@
        + diff_lines(base, files);
    assert(pull_text(repository, pull, comments, reviews, review_comments, files) =~= head + blocks + tail);
    lemma_line_in_middle(head, blocks, tail, line, concat_map(a, f).len() + k);
}

/// The aggregate of an issue whose conversation comments are `comments`, in
/// the order given.
pub open spec fn issue_text(repository: GithubRepositoryIdentity, issue: Issue, comments: Seq<ConversationComment>) -> Seq<char> {
    let base = aggregate_base("issue://"@, repository, issue.number);
    "# Issue #"@ + decimal(issue.number as nat) + ": "@ + issue.title@ + "\n\nKind: issue\nNumber: "@
        + decimal(issue.number as nat) + "\nState: "@ + issue.state@ + "\nAuthor: "@ + author_text(issue.user)
        + "\nCreated: "@ + issue.created_at@ + "\nUpdated: "@ + issue.updated_at@ + "\nURL: "@
        + issue.html_url@ + "\nTitle: "@ + base + "/title\nBody: "@ + base + "/body\n\n## Body\n\n"@
        + body_text(issue.body) + "\n\n## Conversation comments\n"@ + comment_blocks(base, comments)
}

/// The head of a pull-request aggregate, up to its conversation comments.
pub open spec fn pull_head_text(base: Seq<char>, pull: PullRequest) -> Seq<char> {
    "# Pull request #"@ + decimal(pull.number as nat) + ": "@ + pull.title@
        + "\n\nKind: pull request\nNumber: "@ + decimal(pull.number as nat) + "\nState: "@ + pull.state@
        + "\nAuthor: "@ + author_text(pull.user) + "\nCreated: "@ + pull.created_at@ + "\nUpdated: "@
        + pull.updated_at@ + "\nURL: "@ + pull.html_url@ + "\nDraft: "@ + bool_text(pull.draft)
        + "\nMerged: "@ + bool_text(pull.merged) + "\nMerged at: "@ + or_text(pull.merged_at, "not merged"@)
        + "\nHead: "@ + pull.head@ + "\nBase: "@ + pull.base@ + "\nTitle: "@ + base + "/title\nBody: "@
        + base + "/body\n\n## Body\n\n"@ + body_text(pull.body) + "\n"@
}

/// The aggregate of a pull request with its parts in the order given.
pub open spec fn pull_text(
    repository: GithubRepositoryIdentity,
    pull: PullRequest,
    comments: Seq<ConversationComment>,
    reviews: Seq<Review>,
    review_comments: Seq<ReviewComment>,
    files: Seq<DiffFile>,
) -> Seq<char> {
    let base = aggregate_base("pr://"@, repository, pull.number);
    pull_head_text(base, pull) + "\n## Conversation comments\n"@ + comment_blocks(base, comments)
        + "\n## Reviews\n"@ + review_blocks(base, reviews) + "\n## Inline review comments\n"@
        + inline_blocks(base, review_comments) + "\n## Diff\n"@ + diff_lines(base, files)
}

fn push_comment_block(s: &mut String, base: &str, c: &ConversationComment)
    ensures
        final(s)@ == old(s)@ + comment_block(base@, *c),
{
    push_str(s, "\n### Comment ");
    push_decimal(s, c.id);
    push_str(s, "\nAuthor: ");
    push_author(s, &c.user);
    push_str(s, "\nCreated: ");
    push_str(s, c.created_at.as_str());
    push_str(s, "\nUpdated: ");
    push_str(s, c.updated_at.as_str());
    push_str(s, "\nReference: ");
    push_str(s, base);
    push_str(s, "/comments/");
    push_decimal(s, c.id);
    push_str(s, "\n\n");
    push_or(s, &c.body, "(no body)");
    push_str(s, "\n");
    proof {
        assert(s@ =~= old(s)@ + comment_block(base@, *c));
    }
}

fn push_review_block(s: &mut String, base: &str, r: &Review)
    ensures
        final(s)@ == old(s)@ + review_block(base@, *r),
{
    push_str(s, "\n### Review ");
    push_decimal(s, r.id);
    push_str(s, "\nState: ");
    push_str(s, r.state.as_str());
    push_str(s, "\nAuthor: ");
    push_author(s, &r.user);
    push_str(s, "\nSubmitted: ");
    push_or(s, &r.submitted_at, "pending");
    push_str(s, "\nReference: ");
    push_str(s, base);
    push_str(s, "/reviews/");
    push_decimal(s, r.id);
    push_str(s, "\n\n");
    push_str(s, r.body.as_str());
    push_str(s, "\n");
    proof {
        assert(s@ =~= old(s)@ + review_block(base@, *r));
    }
}

fn push_inline_block(s: &mut String, base: &str, c: &ReviewComment)
    ensures
        final(s)@ == old(s)@ + inline_block(base@, *c),
{
    push_str(s, "\n### Inline comment ");
    push_decimal(s, c.id);
    push_str(s, "\nAuthor: ");
    push_author(s, &c.user);
    push_str(s, "\nPath: ");
    push_str(s, c.path.as_str());
    push_str(s, "\nCreated: ");
    push_str(s, c.created_at.as_str());
    push_str(s, "\nUpdated: ");
    push_str(s, c.updated_at.as_str());
    push_str(s, "\nReference: ");
    push_str(s, base);
    push_str(s, "/review-comments/");
    push_decimal(s, c.id);
    push_str(s, "\n\n");
    push_str(s, c.body.as_str());
    push_str(s, "\n");
    proof {
        assert(s@ =~= old(s)@ + inline_block(base@, *c));
    }
}

fn push_diff_line(s: &mut String, base: &str, index: u64, f: &DiffFile)
    ensures
        final(s)@ == old(s)@ + diff_line(base@, index as nat, *f),
{
    push_str(s, "- ");
    push_str(s, base);
    push_str(s, "/diff/");
    push_decimal(s, index);
    push_str(s, " \u{2014} ");
    push_str(s, f.filename.as_str());
    push_str(s, " (");
    push_str(s, f.status.as_str());
    if f.patch.is_some() {
        push_str(s, ")\n");
    } else {
        push_str(s, "; patch unavailable)\n");
    }
    proof {
        assert(s@ =~= old(s)@ + diff_line(base@, index as nat, *f));
    }
}

fn push_comment_blocks(s: &mut String, base: &str, cs: &Vec<ConversationComment>)
    ensures
        final(s)@ == old(s)@ + comment_blocks(base@, cs@),
{
    let ghost start = s@;
    let ghost f = |c: ConversationComment| comment_block(base@, c);
    let mut i: usize = 0;
    while i < cs.len()
        invariant
            i <= cs@.len(),
            f == (|c: ConversationComment| comment_block(base@, c)),
            s@ == start + concat_map(cs@.take(i as int), f),
        decreases cs@.len() - i,
    {
        push_comment_block(s, base, &cs[i]);
        proof {
            lemma_concat_map_step(cs@, f, i as int);
            assert(s@ =~= start + concat_map(cs@.take(i + 1), f));
        }
        i = i + 1;
    }
    proof {
        assert(cs@.take(i as int) =~= cs@);
    }
}

fn push_review_blocks(s: &mut String, base: &str, rs: &Vec<Review>)
    ensures
        final(s)@ == old(s)@ + review_blocks(base@, rs@),
{
    let ghost start = s@;
    let ghost f = |r: Review| review_block(base@, r);
    let mut i: usize = 0;
    while i < rs.len()
        invariant
            i <= rs@.len(),
            f == (|r: Review| review_block(base@, r)),
            s@ == start + concat_map(rs@.take(i as int), f),
        decreases rs@.len() - i,
    {
        push_review_block(s, base, &rs[i]);
        proof {
            lemma_concat_map_step(rs@, f, i as int);
            assert(s@ =~= start + concat_map(rs@.take(i + 1), f));
        }
        i = i + 1;
    }
    proof {
        assert(rs@.take(i as int) =~= rs@);
    }
}

fn push_inline_blocks(s: &mut String, base: &str, cs: &Vec<ReviewComment>)
    ensures
        final(s)@ == old(s)@ + inline_blocks(base@, cs@),
{
    let ghost start = s@;
    let ghost f = |c: ReviewComment| inline_block(base@, c);
    let mut i: usize = 0;
    while i < cs.len()
        invariant
            i <= cs@.len(),
            f == (|c: ReviewComment| inline_block(base@, c)),
            s@ == start + concat_map(cs@.take(i as int), f),
        decreases cs@.len() - i,
    {
        push_inline_block(s, base, &cs[i]);
        proof {
            lemma_concat_map_step(cs@, f, i as int);
            assert(s@ =~= start + concat_map(cs@.take(i + 1), f));
        }
        i = i + 1;
    }
    proof {
        assert(cs@.take(i as int) =~= cs@);
    }
}

fn push_diff_lines(s: &mut String, base: &str, files: &[DiffFile])
    ensures
        final(s)@ == old(s)@ + diff_lines(base@, files@),
{
    let ghost start = s@;
    let mut i: usize = 0;
    while i < files.len()
        invariant
            i <= files@.len(),
            s@ == start + diff_lines(base@, files@.take(i as int)),
        decreases files@.len() - i,
    {
        push_diff_line(s, base, (i + 1) as u64, &files[i]);
        proof {
            let t = files@.take(i + 1);
            assert(t.drop_last() =~= files@.take(i as int));
            assert(t.last() == files@[i as int]);
            assert(s@ =~= start + diff_lines(base@, t));
        }
        i = i + 1;
    }
    proof {
        assert(files@.take(i as int) =~= files@);
    }
}

/// The aggregate rendering of an issue and its conversation comments.
pub fn issue_aggregate(
    repository: &GithubRepositoryIdentity,
    issue: &Issue,
    comments: Vec<ConversationComment>,
) -> (s: String)
    ensures
        s@ == issue_text(*repository, *issue, stable_sorted(comments@, comment_order(), false)),
{
    let comments = sort_comments(comments);
    let base = make_base("issue://", repository, issue.number);
    let mut s = owned("# Issue #");
    push_decimal(&mut s, issue.number);
    push_str(&mut s, ": ");
    push_str(&mut s, issue.title.as_str());
    push_str(&mut s, "\n\nKind: issue\nNumber: ");
    push_decimal(&mut s, issue.number);
    push_str(&mut s, "\nState: ");
    push_str(&mut s, issue.state.as_str());
    push_str(&mut s, "\nAuthor: ");
    push_author(&mut s, &issue.user);
    push_str(&mut s, "\nCreated: ");
    push_str(&mut s, issue.created_at.as_str());
    push_str(&mut s, "\nUpdated: ");
    push_str(&mut s, issue.updated_at.as_str());
    push_str(&mut s, "\nURL: ");
    push_str(&mut s, issue.html_url.as_str());
    push_str(&mut s, "\nTitle: ");
    push_str(&mut s, base.as_str());
    push_str(&mut s, "/title\nBody: ");
    push_str(&mut s, base.as_str());
    push_str(&mut s, "/body\n\n## Body\n\n");
    push_or(&mut s, &issue.body, "(no body)");
    push_str(&mut s, "\n\n## Conversation comments\n");
    push_comment_blocks(&mut s, base.as_str(), &comments);
    s
}

fn pull_head(base: &str, pull: &PullRequest) -> (t: String)
    ensures
        t@ == pull_head_text(base@, *pull),
{
    let mut t = owned("# Pull request #");
    push_decimal(&mut t, pull.number);
    push_str(&mut t, ": ");
    push_str(&mut t, pull.title.as_str());
    push_str(&mut t, "\n\nKind: pull request\nNumber: ");
    push_decimal(&mut t, pull.number);
    push_str(&mut t, "\nState: ");
    push_str(&mut t, pull.state.as_str());
    push_str(&mut t, "\nAuthor: ");
    push_author(&mut t, &pull.user);
    push_str(&mut t, "\nCreated: ");
    push_str(&mut t, pull.created_at.as_str());
    push_str(&mut t, "\nUpdated: ");
    push_str(&mut t, pull.updated_at.as_str());
    push_str(&mut t, "\nURL: ");
    push_str(&mut t, pull.html_url.as_str());
    push_str(&mut t, "\nDraft: ");
    push_bool(&mut t, pull.draft);
    push_str(&mut t, "\nMerged: ");
    push_bool(&mut t, pull.merged);
    push_str(&mut t, "\nMerged at: ");
    push_or(&mut t, &pull.merged_at, "not merged");
    push_str(&mut t, "\nHead: ");
    push_str(&mut t, pull.head.as_str());
    push_str(&mut t, "\nBase: ");
    push_str(&mut t, pull.base.as_str());
    push_str(&mut t, "\nTitle: ");
    push_str(&mut t, base);
    push_str(&mut t, "/title\nBody: ");
    push_str(&mut t, base);
    push_str(&mut t, "/body\n\n## Body\n\n");
    push_or(&mut t, &pull.body, "(no body)");
    push_str(&mut t, "\n");
    t
}

/// The aggregate rendering of a pull request: its conversation comments,
/// reviews and inline review comments, each sorted, and the diff listing.
pub fn pull_request_aggregate(
    repository: &GithubRepositoryIdentity,
    pull: &PullRequest,
    comments: Vec<ConversationComment>,
    reviews: Vec<Review>,
    review_comments: Vec<ReviewComment>,
    files: &[DiffFile],
) -> (s: String)
    ensures
        s@ == pull_text(
            *repository,
            *pull,
            stable_sorted(comments@, comment_order(), false),
            stable_sorted(reviews@, review_order(), false),
            stable_sorted(review_comments@, review_comment_order(), false),
            files@,
        ),
{
    let comments = sort_comments(comments);
    let reviews = sort_reviews(reviews);
    let review_comments = sort_review_comments(review_comments);
    let base = make_base("pr://", repository, pull.number);
    let mut s = pull_head(base.as_str(), pull);
    push_str(&mut s, "\n## Conversation comments\n");
    push_comment_blocks(&mut s, base.as_str(), &comments);
    push_str(&mut s, "\n## Reviews\n");
    push_review_blocks(&mut s, base.as_str(), &reviews);
    push_str(&mut s, "\n## Inline review comments\n");
    push_inline_blocks(&mut s, base.as_str(), &review_comments);
    push_str(&mut s, "\n## Diff\n");
    push_diff_lines(&mut s, base.as_str(), files);
    s
}

// ------------------------------------------------------------ single parts

pub open spec fn comment_text(c: ConversationComment) -> Seq<char> {
    "Author: "@ + author_text(c.user) + "\nCreated: "@ + c.created_at@ + "\nUpdated: "@ + c.updated_at@
        + "\n\n"@ + body_text(c.body)
}

pub open spec fn review_text(r: Review) -> Seq<char> {
    "State: "@ + r.state@ + "\nAuthor: "@ + author_text(r.user) + "\nSubmitted: "@
        + or_text(r.submitted_at, "pending"@) + "\nCommit: "@ + or_text(r.commit_id, "unavailable"@)
        + "\n\n"@ + r.body@
}

pub open spec fn review_comment_text(c: ReviewComment) -> Seq<char> {
    "Author: "@ + author_text(c.user) + "\nPath: "@ + c.path@ + "\nCreated: "@ + c.created_at@
        + "\nUpdated: "@ + c.updated_at@ + "\n"@ + (match c.pull_request_review_id {
        Some(id) => "Review ID: "@ + decimal(id as nat) + "\n"@,
        None => Seq::empty(),
    }) + "Diff hunk: "@ + c.diff_hunk@ + "\n\n"@ + c.body@ + "\n"@
}

pub open spec fn diff_file_text(f: DiffFile) -> Seq<char> {
    "File: "@ + f.filename@ + "\nStatus: "@ + f.status@ + "\nPatch: "@ + or_text(f.patch, "unavailable"@)
}

/// A conversation comment on its own.
pub fn comment(c: &ConversationComment) -> (s: String)
    ensures
        s@ == comment_text(*c),
{
    let mut s = owned("Author: ");
    push_author(&mut s, &c.user);
    push_str(&mut s, "\nCreated: ");
    push_str(&mut s, c.created_at.as_str());
    push_str(&mut s, "\nUpdated: ");
    push_str(&mut s, c.updated_at.as_str());
    push_str(&mut s, "\n\n");
    push_or(&mut s, &c.body, "(no body)");
    s
}

/// A review on its own.
pub fn review(r: &Review) -> (s: String)
    ensures
        s@ == review_text(*r),
{
    let mut s = owned("State: ");
    push_str(&mut s, r.state.as_str());
    push_str(&mut s, "\nAuthor: ");
    push_author(&mut s, &r.user);
    push_str(&mut s, "\nSubmitted: ");
    push_or(&mut s, &r.submitted_at, "pending");
    push_str(&mut s, "\nCommit: ");
    push_or(&mut s, &r.commit_id, "unavailable");
    push_str(&mut s, "\n\n");
    push_str(&mut s, r.body.as_str());
    s
}

/// An inline review comment on its own.
pub fn review_comment(c: &ReviewComment) -> (s: String)
    ensures
        s@ == review_comment_text(*c),
{
    let mut s = owned("Author: ");
    push_author(&mut s, &c.user);
    push_str(&mut s, "\nPath: ");
    push_str(&mut s, c.path.as_str());
    push_str(&mut s, "\nCreated: ");
    push_str(&mut s, c.created_at.as_str());
    push_str(&mut s, "\nUpdated: ");
    push_str(&mut s, c.updated_at.as_str());
    push_str(&mut s, "\n");
    let ghost before = s@;
    match c.pull_request_review_id {
        Some(id) => {
            push_str(&mut s, "Review ID: ");
            push_decimal(&mut s, id);
            push_str(&mut s, "\n");
        },
        None => {},
    }
    push_str(&mut s, "Diff hunk: ");
    push_str(&mut s, c.diff_hunk.as_str());
    push_str(&mut s, "\n\n");
    push_str(&mut s, c.body.as_str());
    push_str(&mut s, "\n");
    proof {
        assert(s@ =~= review_comment_text(*c));
    }
    s
}

/// A changed file on its own.
pub fn diff_file(f: &DiffFile) -> (s: String)
    ensures
        s@ == diff_file_text(*f),
{
    let mut s = owned("File: ");
    push_str(&mut s, f.filename.as_str());
    push_str(&mut s, "\nStatus: ");
    push_str(&mut s, f.status.as_str());
    push_str(&mut s, "\nPatch: ");
    push_or(&mut s, &f.patch, "unavailable");
    s
}

} // verus!
