//! The decisions of a paginated facts collection read. The reader fetches,
//! decodes, validates and measures pages; this state machine decides after
//! each of those steps whether the read refuses, stops with what it has
//! admitted, or goes on, and keeps the admitted pages.
use vstd::prelude::*;
use crate::error::{AcquisitionLimitKind, ErrorReason, LimitDetail, ResourceError};
use crate::facts::{
    failure, is_facts_failure, is_representation_limit, local_limit_error, rejects_every_page, retryable,
    spec_is_representation_limit, spec_rejects_every_page, spec_retryable,
};
use crate::text::{chars_of, owned};

verus! {

broadcast use vstd::string::group_string_axioms;

/// Why a collection read stopped.
#[derive(Debug, Clone)]
pub enum CollectionStop {
    /// Every page was admitted.
    Complete,
    /// The read kept a prefix of the collection: a local limit or a failure
    /// stopped it, and it may resume at `resume_at`.
    Incomplete { local_limit: Option<LimitDetail>, failure: Option<ResourceError>, resume_at: Option<String> },
    /// The upstream contradicted itself; the collection's extent is unknown.
    Unknown { reason: &'static str },
}

/// A partial collection may roll back unless a malformed record stopped it
/// or its state is unknown.
pub open spec fn spec_rollback_allowed(stop: CollectionStop) -> bool {
    match stop {
        CollectionStop::Complete => true,
        CollectionStop::Incomplete { failure, .. } => match failure {
            Some(e) => !(e.details matches Some(d) && d.reason == ErrorReason::UpstreamMalformed),
            None => true,
        },
        CollectionStop::Unknown { .. } => false,
    }
}

/// How a read that admitted every page it fetched stops: complete when the
/// provider names no next page; otherwise incomplete and resumable at the
/// continuation, or of unknown extent when no continuation fits.
pub fn actual_stop(has_next: bool, continuation: Option<String>) -> (stop: CollectionStop)
    ensures
        !has_next ==> stop == CollectionStop::Complete,
        has_next ==> match continuation {
            Some(c) => stop matches CollectionStop::Incomplete { local_limit: None, failure: None, resume_at: Some(r) }
                && r@ == c@,
            None => stop matches CollectionStop::Unknown { reason } && reason@ == "continuation_unrepresentable"@,
        },
{
    if !has_next {
        return CollectionStop::Complete;
    }
    match continuation {
        Some(c) => CollectionStop::Incomplete { local_limit: None, failure: None, resume_at: Some(c) },
        None => {
            let reason = "continuation_unrepresentable";
            proof {
                reveal_strlit("continuation_unrepresentable");
            }
            CollectionStop::Unknown { reason }
        },
    }
}

/// Rounds of measuring a facts document against its own stop: the document
/// states its representation size, which changes the size it states.
pub const MAX_REPRESENTATION_ROUNDS: usize = 4;

/// Whether measuring `stop`'s document gave `length` again; when it did not,
/// a representation limit in `stop` now records `length` as observed.
pub fn observe_representation(stop: &mut CollectionStop, previous: usize, length: usize) -> (settled: bool)
    ensures
        settled == (length == previous),
        settled ==> *final(stop) == *old(stop),
        !settled ==> match *old(stop) {
            CollectionStop::Incomplete { local_limit: Some(l), failure, resume_at } => if l.kind
                == AcquisitionLimitKind::RepresentationBytes {
                *final(stop) == CollectionStop::Incomplete {
                    local_limit: Some(LimitDetail { observed: Some(length as u64), ..l }),
                    failure,
                    resume_at,
                }
            } else {
                *final(stop) == *old(stop)
            },
            _ => *final(stop) == *old(stop),
        },
{
    if length == previous {
        return true;
    }
    match stop {
        CollectionStop::Incomplete { local_limit: Some(l), .. } => {
            match l.kind {
                AcquisitionLimitKind::RepresentationBytes => {
                    l.observed = Some(length as u64);
                },
                _ => {},
            }
        },
        _ => {},
    }
    false
}

pub fn rollback_allowed(stop: &CollectionStop) -> (b: bool)
    ensures
        b == spec_rollback_allowed(*stop),
{
    match stop {
        CollectionStop::Complete => true,
        CollectionStop::Incomplete { failure, .. } => match failure {
            Some(e) => match e.details {
                Some(d) => match d.reason {
                    ErrorReason::UpstreamMalformed => false,
                    _ => true,
                },
                None => true,
            },
            None => true,
        },
        CollectionStop::Unknown { .. } => false,
    }
}

/// What the reader does next.
#[derive(Debug)]
pub enum ReadStep {
    /// The read fails with this error.
    Refuse(ResourceError),
    /// The read ends with what it admitted.
    Stop(CollectionStop),
    /// The read goes on.
    Proceed,
}

/// A refusal while nothing is admitted, else a stop.
pub open spec fn refuse_or_stop(empty: bool, error: ResourceError, stop: CollectionStop) -> ReadStep {
    if empty {
        ReadStep::Refuse(error)
    } else {
        ReadStep::Stop(stop)
    }
}

/// The record count of admitted pages.
pub open spec fn total(pages: Seq<(Seq<char>, nat)>) -> nat
    decreases pages.len(),
{
    if pages.len() == 0 {
        0
    } else {
        total(pages.drop_last()) + pages.last().1
    }
}

/// The state of one collection read: the request URLs it fetched, the ids of
/// the records it admitted, and its admitted pages (request URL and record
/// count), in order.
pub struct CollectionRead {
    max_records: usize,
    seen: Vec<String>,
    ids: Vec<u64>,
    pages: Vec<(String, usize)>,
}

pub open spec fn page_views(pages: Seq<(String, usize)>) -> Seq<(Seq<char>, nat)> {
    pages.map_values(|p: (String, usize)| (p.0@, p.1 as nat))
}

pub open spec fn string_views(v: Seq<String>) -> Seq<Seq<char>> {
    v.map_values(|s: String| s@)
}

impl CollectionRead {
    pub closed spec fn max(&self) -> nat {
        self.max_records as nat
    }

    /// The request URLs fetched so far.
    pub closed spec fn seen(&self) -> Seq<Seq<char>> {
        string_views(self.seen@)
    }

    /// The ids of the admitted records, in order.
    pub closed spec fn ids(&self) -> Seq<u64> {
        self.ids@
    }

    /// The admitted pages: request URL and record count.
    pub closed spec fn pages(&self) -> Seq<(Seq<char>, nat)> {
        page_views(self.pages@)
    }

    /// Admitted ids are distinct, at most the record bound, and the admitted
    /// pages hold exactly them.
    pub open spec fn wf(&self) -> bool {
        &&& self.ids().no_duplicates()
        &&& self.ids().len() <= self.max()
        &&& total(self.pages()) == self.ids().len()
    }

    /// A read that admits at most `max_records` records.
    pub fn new(max_records: usize) -> (r: Self)
        ensures
            r.wf(),
            r.max() == max_records,
            r.seen() == Seq::<Seq<char>>::empty(),
            r.ids() == Seq::<u64>::empty(),
            r.pages() == Seq::<(Seq<char>, nat)>::empty(),
    {
        let r = CollectionRead { max_records, seen: Vec::new(), ids: Vec::new(), pages: Vec::new() };
        proof {
            assert(r.seen() =~= Seq::<Seq<char>>::empty());
            assert(r.pages() =~= Seq::<(Seq<char>, nat)>::empty());
        }
        r
    }

    pub fn record_count(&self) -> (n: usize)
        ensures
            n == self.ids().len(),
    {
        self.ids.len()
    }

    pub fn page_count(&self) -> (n: usize)
        ensures
            n == self.pages().len(),
    {
        self.pages.len()
    }

    /// Before fetching `url`: a URL fetched before means the pagination
    /// repeats, which refuses the read while nothing is admitted and
    /// otherwise stops it as unknown.
    pub fn begin_page(&mut self, url: &str) -> (step: ReadStep)
        requires
            old(self).wf(),
        ensures
            final(self).wf(),
            final(self).ids() == old(self).ids(),
            final(self).pages() == old(self).pages(),
            final(self).max() == old(self).max(),
            old(self).seen().contains(url@) ==> final(self).seen() == old(self).seen() && (match step {
                ReadStep::Refuse(e) => old(self).ids().len() == 0 && is_facts_failure(e, ErrorReason::UpstreamMalformed),
                ReadStep::Stop(s) => old(self).ids().len() > 0 && s == CollectionStop::Unknown { reason: "repeated_pagination" },
                ReadStep::Proceed => false,
            }),
            !old(self).seen().contains(url@) ==> final(self).seen() == old(self).seen().push(url@) && step is Proceed,
    {
        let target = chars_of(url);
        let mut i: usize = 0;
        while i < self.seen.len()
            invariant
                i <= self.seen@.len(),
                self.ids@ == old(self).ids@,
                self.pages@ == old(self).pages@,
                self.seen@ == old(self).seen@,
                self.max_records == old(self).max_records,
                old(self).wf(),
                target@ == url@,
                forall|k: int| 0 <= k < i ==> self.seen@[k]@ != url@,
            decreases self.seen@.len() - i,
        {
            let seen = chars_of(self.seen[i].as_str());
            if crate::github::same_chars(seen.as_slice(), target.as_slice()) {
                proof {
                    assert(self.seen()[i as int] == url@);
                }
                if self.ids.len() == 0 {
                    return ReadStep::Refuse(failure(ErrorReason::UpstreamMalformed));
                }
                return ReadStep::Stop(CollectionStop::Unknown { reason: "repeated_pagination" });
            }
            i = i + 1;
        }
        proof {
            assert forall|k: int| 0 <= k < self.seen().len() implies self.seen()[k] != url@ by {
                assert(self.seen()[k] == self.seen@[k]@);
            }
        }
        let ghost before = self.seen@;
        self.seen.push(owned(url));
        proof {
            assert(string_views(self.seen@) =~= string_views(before).push(url@));
        }
        ReadStep::Proceed
    }

    /// A page could not be fetched: a failure every page would meet, or one
    /// met before anything is admitted, refuses the read; otherwise the read
    /// stops with that failure, resuming at the page when a fresh read of it
    /// may succeed.
    pub fn page_failed(
        &self,
        url: &str,
        error: ResourceError,
        accepted_body_bytes: usize,
        parent_body_bytes: usize,
    ) -> (step: ReadStep)
        ensures
            (self.ids().len() == 0 || spec_rejects_every_page(error)) ==> step == ReadStep::Refuse(error),
            !(self.ids().len() == 0 || spec_rejects_every_page(error)) ==> (step matches ReadStep::Stop(
                CollectionStop::Incomplete { local_limit, failure, resume_at },
            ) && local_limit is None && failure == Some(error) && (match resume_at {
                Some(u) => u@ == url@ && spec_retryable(error, accepted_body_bytes as nat, parent_body_bytes as nat),
                None => !spec_retryable(error, accepted_body_bytes as nat, parent_body_bytes as nat),
            })),
    {
        if self.ids.len() == 0 || rejects_every_page(&error) {
            return ReadStep::Refuse(error);
        }
        let resume_at = if retryable(&error, accepted_body_bytes, parent_body_bytes) {
            Some(owned(url))
        } else {
            None
        };
        ReadStep::Stop(CollectionStop::Incomplete { local_limit: None, failure: Some(error), resume_at })
    }

    /// A page's body does not decode as its family's records.
    pub fn page_undecodable(&self) -> (step: ReadStep)
        ensures
            self.ids().len() == 0 ==> (step matches ReadStep::Refuse(e) && is_facts_failure(
                e,
                ErrorReason::UpstreamMalformed,
            )),
            self.ids().len() > 0 ==> (step matches ReadStep::Stop(
                CollectionStop::Incomplete { local_limit, failure, resume_at },
            ) && local_limit is None && resume_at is None && (failure matches Some(e) && is_facts_failure(
                e,
                ErrorReason::UpstreamMalformed,
            ))),
    {
        let error = failure(ErrorReason::UpstreamMalformed);
        if self.ids.len() == 0 {
            return ReadStep::Refuse(error);
        }
        ReadStep::Stop(CollectionStop::Incomplete { local_limit: None, failure: Some(error), resume_at: None })
    }
}

/// The first failed validation among a page's records, in order.
pub open spec fn first_err(o: Seq<Result<u64, ResourceError>>) -> Option<ResourceError>
    decreases o.len(),
{
    if o.len() == 0 {
        None
    } else {
        match o[0] {
            Err(e) => Some(e),
            Ok(_) => first_err(o.drop_first()),
        }
    }
}

/// The ids of a page's validated records, in order.
pub open spec fn ok_ids(o: Seq<Result<u64, ResourceError>>) -> Seq<u64>
    decreases o.len(),
{
    if o.len() == 0 {
        Seq::empty()
    } else {
        match o[0] {
            Ok(id) => seq![id] + ok_ids(o.drop_first()),
            Err(_) => ok_ids(o.drop_first()),
        }
    }
}

proof fn lemma_ok_ids_len(o: Seq<Result<u64, ResourceError>>)
    ensures
        ok_ids(o).len() <= o.len(),
    decreases o.len(),
{
    if o.len() > 0 {
        lemma_ok_ids_len(o.drop_first());
    }
}

/// Page ids that are distinct and new to the collection.
pub open spec fn fresh(ids: Seq<u64>, page: Seq<u64>) -> bool {
    page.no_duplicates() && forall|k: int| 0 <= k < page.len() ==> !ids.contains(#[trigger] page[k])
}

/// The limit detail of a refusal or stop at a local bound.
pub open spec fn limit_at(kind: AcquisitionLimitKind, bound: nat, observed: nat) -> LimitDetail {
    LimitDetail { kind, bound: bound as u64, observed: Some(observed as u64) }
}

/// The refusal of a local limit: `local_limit_error`'s.
pub open spec fn is_local_limit(e: ResourceError, kind: AcquisitionLimitKind, bound: nat, observed: nat) -> bool {
    &&& e.category == crate::error::ErrorCategory::LimitExceeded
    &&& e.message@ == "GitHub collection exceeds its local admission limit"@
    &&& e.details matches Some(d) && d.reason == ErrorReason::LimitExceeded && d.limit == Some(
        limit_at(kind, bound, observed),
    )
}

pub open spec fn distinct_prefix(p: Seq<u64>, i: int) -> bool {
    forall|a: int, b: int| 0 <= a < b < i ==> p[a] != p[b]
}

pub open spec fn new_prefix(ids: Seq<u64>, p: Seq<u64>, i: int) -> bool {
    forall|a: int| 0 <= a < i ==> !ids.contains(#[trigger] p[a])
}

proof fn lemma_prefix_step(ids: Seq<u64>, p: Seq<u64>, i: int)
    requires
        0 <= i < p.len(),
    ensures
        distinct_prefix(p, i + 1) == (distinct_prefix(p, i) && !p.subrange(0, i).contains(p[i])),
        new_prefix(ids, p, i + 1) == (new_prefix(ids, p, i) && !ids.contains(p[i])),
{
    let pre = p.subrange(0, i);
    if distinct_prefix(p, i) && !pre.contains(p[i]) {
        assert forall|a: int, b: int| 0 <= a < b < i + 1 implies p[a] != p[b] by {
            if b == i {
                assert(pre[a] == p[a]);
            }
        }
    }
    if distinct_prefix(p, i + 1) {
        assert forall|a: int| 0 <= a < pre.len() implies pre[a] != p[i] by {
            assert(pre[a] == p[a]);
        }
    }
    if new_prefix(ids, p, i) && !ids.contains(p[i]) {
        assert forall|a: int| 0 <= a < i + 1 implies !ids.contains(#[trigger] p[a]) by {}
    }
}

/// Whether `id` is among the first `end` ids.
fn contains_id(ids: &[u64], end: usize, id: u64) -> (b: bool)
    requires
        end <= ids@.len(),
    ensures
        b == ids@.subrange(0, end as int).contains(id),
{
    let mut i: usize = 0;
    while i < end
        invariant
            i <= end <= ids@.len(),
            forall|k: int| 0 <= k < i ==> ids@[k] != id,
        decreases end - i,
    {
        if ids[i] == id {
            proof {
                let s = ids@.subrange(0, end as int);
                assert(s[i as int] == id);
                assert(s.contains(id));
            }
            return true;
        }
        i = i + 1;
    }
    false
}

impl CollectionRead {
    /// A page's validated records: the first failed record refuses the read
    /// when its failure rejects every page or nothing is admitted, and else
    /// stops it; ids repeated within the page or across pages make the
    /// pagination unknown (refused while nothing is admitted); records past
    /// the bound refuse or stop at the record limit, resuming at the page.
    /// Otherwise the page's ids, ready to be measured.
    pub fn check_page(&self, url: &str, outcomes: Vec<Result<u64, ResourceError>>) -> (r: Result<
        Vec<u64>,
        ReadStep,
    >)
        requires
            self.wf(),
            self.ids().len() + outcomes@.len() <= usize::MAX,
        ensures
            match first_err(outcomes@) {
                Some(e) => if spec_rejects_every_page(e) || self.ids().len() == 0 {
                    r == Err::<Vec<u64>, ReadStep>(ReadStep::Refuse(e))
                } else {
                    r == Err::<Vec<u64>, ReadStep>(
                        ReadStep::Stop(CollectionStop::Incomplete { local_limit: None, failure: Some(e), resume_at: None }),
                    )
                },
                None => {
                    let p = ok_ids(outcomes@);
                    let count = self.ids().len() + p.len();
                    if !fresh(self.ids(), p) {
                        if self.ids().len() == 0 {
                            r matches Err(ReadStep::Refuse(e)) && is_facts_failure(e, ErrorReason::UpstreamMalformed)
                        } else {
                            r == Err::<Vec<u64>, ReadStep>(
                                ReadStep::Stop(CollectionStop::Unknown { reason: "duplicate_record_id" }),
                            )
                        }
                    } else if count > self.max() {
                        if self.ids().len() == 0 {
                            r matches Err(ReadStep::Refuse(e)) && is_local_limit(
                                e,
                                AcquisitionLimitKind::CollectionRecords,
                                self.max(),
                                count,
                            )
                        } else {
                            r matches Err(
                                ReadStep::Stop(CollectionStop::Incomplete { local_limit, failure, resume_at }),
                            ) && local_limit == Some(limit_at(AcquisitionLimitKind::CollectionRecords, self.max(), count))
                                && failure is None && (resume_at matches Some(u) && u@ == url@)
                        }
                    } else {
                        r matches Ok(v) && v@ == p
                    }
                },
            },
    {
        let mut k: usize = 0;
        let mut page: Vec<u64> = Vec::new();
        proof {
            assert(outcomes@.skip(0) =~= outcomes@);
            assert(page@ + ok_ids(outcomes@) =~= ok_ids(outcomes@));
        }
        while k < outcomes.len()
            invariant
                k <= outcomes@.len(),
                first_err(outcomes@) == first_err(outcomes@.skip(k as int)),
                ok_ids(outcomes@) == page@ + ok_ids(outcomes@.skip(k as int)),
            ensures
                k <= outcomes@.len(),
                first_err(outcomes@) == first_err(outcomes@.skip(k as int)),
                ok_ids(outcomes@) == page@ + ok_ids(outcomes@.skip(k as int)),
                k < outcomes@.len() ==> outcomes@[k as int] is Err,
            decreases outcomes@.len() - k,
        {
            let ghost rest = outcomes@.skip(k as int);
            proof {
                assert(rest[0] == outcomes@[k as int]);
                assert(rest.drop_first() =~= outcomes@.skip(k + 1));
            }
            match &outcomes[k] {
                Ok(id) => {
                    let ghost before = page@;
                    page.push(*id);
                    proof {
                        assert(before + (seq![*id] + ok_ids(outcomes@.skip(k + 1))) =~= page@ + ok_ids(
                            outcomes@.skip(k + 1),
                        ));
                    }
                },
                Err(_) => {
                    break;
                },
            }
            k = k + 1;
        }
        if k < outcomes.len() {
            let mut outcomes = outcomes;
            let item = outcomes.remove(k);
            if let Err(e) = item {
                if rejects_every_page(&e) || self.ids.len() == 0 {
                    return Err(ReadStep::Refuse(e));
                }
                return Err(
                    ReadStep::Stop(CollectionStop::Incomplete { local_limit: None, failure: Some(e), resume_at: None }),
                );
            }
            proof {
                assert(false);
            }
            return Ok(page);
        }
        proof {
            assert(outcomes@.skip(k as int) =~= Seq::<Result<u64, ResourceError>>::empty());
            assert(page@ + Seq::<u64>::empty() =~= page@);
            lemma_ok_ids_len(outcomes@);
        }
        let mut fresh_page = true;
        let mut i: usize = 0;
        while i < page.len()
            invariant
                i <= page@.len(),
                fresh_page == (distinct_prefix(page@, i as int) && new_prefix(self.ids@, page@, i as int)),
            decreases page@.len() - i,
        {
            let id = page[i];
            let known = contains_id(self.ids.as_slice(), self.ids.len(), id);
            let repeated = contains_id(page.as_slice(), i, id);
            proof {
                assert(self.ids@.subrange(0, self.ids@.len() as int) =~= self.ids@);
            }
            proof {
                lemma_prefix_step(self.ids@, page@, i as int);
            }
            if known || repeated {
                fresh_page = false;
            }
            i = i + 1;
        }
        proof {
            assert(fresh_page == fresh(self.ids(), page@)) by {
                if fresh_page {
                    assert forall|a: int, b: int| 0 <= a < page@.len() && 0 <= b < page@.len() && a != b implies page@[a]
                        != page@[b] by {
                        if a < b {
                            assert(page@[a] != page@[b]);
                        } else {
                            assert(page@[b] != page@[a]);
                        }
                    }
                } else {
                    if distinct_prefix(page@, page@.len() as int) {
                        let a = choose|a: int| 0 <= a < page@.len() && #[trigger] self.ids@.contains(page@[a]);
                        assert(self.ids@.contains(page@[a]));
                    } else {
                        let (a, b) = choose|a: int, b: int| 0 <= a < b < page@.len() && page@[a] == page@[b];
                        assert(page@[a] == page@[b]);
                    }
                }
            }
        }
        if !fresh_page {
            if self.ids.len() == 0 {
                return Err(ReadStep::Refuse(failure(ErrorReason::UpstreamMalformed)));
            }
            return Err(ReadStep::Stop(CollectionStop::Unknown { reason: "duplicate_record_id" }));
        }
        let count = self.ids.len() + page.len();
        if count > self.max_records {
            if self.ids.len() == 0 {
                return Err(
                    ReadStep::Refuse(local_limit_error(AcquisitionLimitKind::CollectionRecords, self.max_records, count)),
                );
            }
            let limit = LimitDetail {
                kind: AcquisitionLimitKind::CollectionRecords,
                bound: self.max_records as u64,
                observed: Some(count as u64),
            };
            return Err(
                ReadStep::Stop(
                    CollectionStop::Incomplete { local_limit: Some(limit), failure: None, resume_at: Some(owned(url)) },
                ),
            );
        }
        Ok(page)
    }

    /// A checked page measured at `representation_bytes`: past the
    /// representation bound it refuses (nothing admitted) or stops at that
    /// limit, resuming at the page, with the observed size still to be
    /// measured; otherwise it is admitted.
    pub fn admit_page(
        &mut self,
        url: &str,
        page_ids: Vec<u64>,
        representation_bytes: usize,
        max_representation_bytes: usize,
    ) -> (step: ReadStep)
        requires
            old(self).wf(),
            fresh(old(self).ids(), page_ids@),
            old(self).ids().len() + page_ids@.len() <= old(self).max(),
        ensures
            final(self).wf(),
            final(self).seen() == old(self).seen(),
            final(self).max() == old(self).max(),
            representation_bytes > max_representation_bytes ==> {
                &&& final(self).ids() == old(self).ids()
                &&& final(self).pages() == old(self).pages()
                &&& old(self).ids().len() == 0 ==> (step matches ReadStep::Refuse(e) && is_local_limit(
                    e,
                    AcquisitionLimitKind::RepresentationBytes,
                    max_representation_bytes as nat,
                    representation_bytes as nat,
                ))
                &&& old(self).ids().len() > 0 ==> (step matches ReadStep::Stop(
                    CollectionStop::Incomplete { local_limit, failure, resume_at },
                ) && local_limit == Some(limit_at(AcquisitionLimitKind::RepresentationBytes, max_representation_bytes as nat, 0))
                    && failure is None && (resume_at matches Some(u) && u@ == url@))
            },
            representation_bytes <= max_representation_bytes ==> {
                &&& final(self).ids() == old(self).ids() + page_ids@
                &&& final(self).pages() == old(self).pages().push((url@, page_ids@.len()))
                &&& step is Proceed
            },
    {
        if representation_bytes > max_representation_bytes {
            if self.ids.len() == 0 {
                return ReadStep::Refuse(
                    local_limit_error(AcquisitionLimitKind::RepresentationBytes, max_representation_bytes, representation_bytes),
                );
            }
            let limit = LimitDetail {
                kind: AcquisitionLimitKind::RepresentationBytes,
                bound: max_representation_bytes as u64,
                observed: Some(0),
            };
            return ReadStep::Stop(
                CollectionStop::Incomplete { local_limit: Some(limit), failure: None, resume_at: Some(owned(url)) },
            );
        }
        let ghost old_ids = self.ids@;
        let ghost old_pages = self.pages@;
        let n = page_ids.len();
        let mut i: usize = 0;
        while i < n
            invariant
                i <= n == page_ids@.len(),
                self.ids@ == old_ids + page_ids@.subrange(0, i as int),
                self.pages@ == old_pages,
                self.seen@ == old(self).seen@,
                self.max_records == old(self).max_records,
            decreases n - i,
        {
            self.ids.push(page_ids[i]);
            proof {
                assert(old_ids + page_ids@.subrange(0, i + 1) =~= (old_ids + page_ids@.subrange(0, i as int)).push(
                    page_ids@[i as int],
                ));
            }
            i = i + 1;
        }
        self.pages.push((owned(url), n));
        proof {
            assert(page_ids@.subrange(0, n as int) =~= page_ids@);
            assert(page_views(self.pages@) =~= page_views(old_pages).push((url@, n as nat)));
            assert(page_views(self.pages@).drop_last() =~= page_views(old_pages));
            let all = self.ids@;
            assert forall|a: int, b: int| 0 <= a < all.len() && 0 <= b < all.len() && a != b implies all[a]
                != all[b] by {
                let m = old_ids.len() as int;
                if a < m && b >= m {
                    assert(all[b] == page_ids@[b - m]);
                    assert(!old_ids.contains(page_ids@[b - m]));
                } else if a >= m && b < m {
                    assert(all[a] == page_ids@[a - m]);
                    assert(!old_ids.contains(page_ids@[a - m]));
                }
            }
        }
        ReadStep::Proceed
    }

    /// When the final representation is over its bound and the stop allows
    /// it, the last admitted page is given back: the read keeps the records
    /// before it, if there are any, and stops at the representation limit,
    /// resuming at that page. `None` (nothing changed) means the failure
    /// stands.
    pub fn rollback(&mut self, error: &ResourceError, terminal: &CollectionStop, max_representation_bytes: usize) -> (r:
        Option<CollectionStop>)
        requires
            old(self).wf(),
        ensures
            final(self).wf(),
            final(self).seen() == old(self).seen(),
            final(self).max() == old(self).max(),
            r is None ==> final(self).ids() == old(self).ids() && final(self).pages() == old(self).pages(),
            r is None <== !(spec_is_representation_limit(*error) && spec_rollback_allowed(*terminal)),
            r is None <== old(self).pages().len() == 0,
            r is None <== old(self).pages().len() > 0 && old(self).pages().last().1 == old(self).ids().len(),
            r is Some <== spec_is_representation_limit(*error) && spec_rollback_allowed(*terminal)
                && old(self).pages().len() > 0 && old(self).pages().last().1 != old(self).ids().len(),
            r matches Some(stop) ==> {
                let last = old(self).pages().last();
                let kept = old(self).ids().len() - last.1;
                &&& spec_is_representation_limit(*error) && spec_rollback_allowed(*terminal)
                &&& old(self).pages().len() > 0 && kept > 0
                &&& final(self).pages() == old(self).pages().drop_last()
                &&& final(self).ids() == old(self).ids().take(kept)
                &&& stop matches CollectionStop::Incomplete { local_limit, failure, resume_at }
                &&& failure is None
                &&& resume_at matches Some(u) && u@ == last.0
                &&& local_limit matches Some(l) && l.kind == AcquisitionLimitKind::RepresentationBytes && l.bound
                    == max_representation_bytes && l.observed == (match error.details {
                    Some(d) => match d.limit {
                        Some(x) => x.observed,
                        None => None,
                    },
                    None => None,
                })
            },
    {
        if !(is_representation_limit(error) && rollback_allowed(terminal)) {
            return None;
        }
        let n = self.pages.len();
        if n == 0 {
            return None;
        }
        let count = self.pages[n - 1].1;
        proof {
            assert(self.pages()[n - 1] == (self.pages@[n - 1].0@, self.pages@[n - 1].1 as nat));
            assert(self.pages().drop_last() =~= page_views(self.pages@.subrange(0, n - 1)));
        }
        let retained = self.ids.len() - count;
        if retained == 0 {
            return None;
        }
        let ghost old_ids = self.ids@;
        let page = self.pages.pop();
        self.ids.truncate(retained);
        let resume = match page {
            Some(p) => p.0,
            None => String::new(),
        };
        let observed = match error.details {
            Some(d) => match d.limit {
                Some(x) => x.observed,
                None => None,
            },
            None => None,
        };
        let limit = LimitDetail {
            kind: AcquisitionLimitKind::RepresentationBytes,
            bound: max_representation_bytes as u64,
            observed,
        };
        proof {
            assert(self.ids@ =~= old_ids.take(retained as int));
        }
        Some(CollectionStop::Incomplete { local_limit: Some(limit), failure: None, resume_at: Some(resume) })
    }
}

} // verus!
