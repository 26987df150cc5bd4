//! Workspace Root authority: the connection-owned root set a client may
//! replace at any time. A refresh is numbered by an epoch; only the newest
//! refresh can commit, a root identifier never changes its canonical URI,
//! and every committed change advances the generation reads are checked
//! against.
use vstd::prelude::*;
use crate::error::{is_refusal, ErrorCategory, ResourceError};
use sha2::Digest;
use crate::github::{parse_url, url_parse, ParsedUrl};
use crate::text::{chars_eq_str, chars_of, owned, push_char};

verus! {

broadcast use vstd::string::group_string_axioms;

/// A root a client names: its URI and optional display name.
#[derive(Debug, Clone)]
pub struct ClientRoot {
    pub uri: String,
    pub name: Option<String>,
}

/// Whether resources reveal the backing filesystem path.
#[derive(Debug, Clone, Copy, PartialEq, Eq, Structural)]
pub enum BackingPathVisibility {
    Hidden,
    Visible,
}

impl Default for BackingPathVisibility {
    fn default() -> (v: BackingPathVisibility)
        ensures
            v == BackingPathVisibility::Hidden,
    {
        BackingPathVisibility::Hidden
    }
}

/// A begun refresh, named by its epoch.
#[derive(Debug, Clone, Copy, PartialEq, Eq, Structural)]
pub struct RootRefresh {
    epoch: u64,
}

impl RootRefresh {
    pub closed spec fn spec_epoch(self) -> u64 {
        self.epoch
    }

    pub fn epoch(&self) -> (e: u64)
        ensures
            e == self.spec_epoch(),
    {
        self.epoch
    }
}

/// One root of a set: its identifier and canonical URI.
#[derive(Debug)]
pub struct RootEntry {
    pub id: String,
    pub uri: String,
}

pub type Entry = (Seq<char>, Seq<char>);

pub open spec fn entry_views(v: Seq<RootEntry>) -> Seq<Entry> {
    v.map_values(|e: RootEntry| (e.id@, e.uri@))
}

/// Who holds the root set: an active view, a refresh in progress (with the
/// view it replaces), or nobody after a failed refresh.
#[derive(Debug)]
pub enum AuthorityState {
    Active { epoch: u64, generation: u64, view: Vec<RootEntry> },
    Refreshing { epoch: u64, generation: u64, baseline: Option<Vec<RootEntry>> },
    Disabled { epoch: u64, generation: u64 },
}

/// The authority state as values.
pub enum AuthorityView {
    Active { epoch: u64, generation: u64, view: Seq<Entry> },
    Refreshing { epoch: u64, generation: u64, baseline: Option<Seq<Entry>> },
    Disabled { epoch: u64, generation: u64 },
}

impl AuthorityState {
    pub open spec fn view_state(&self) -> AuthorityView {
        match self {
            AuthorityState::Active { epoch, generation, view } => AuthorityView::Active {
                epoch: *epoch,
                generation: *generation,
                view: entry_views(view@),
            },
            AuthorityState::Refreshing { epoch, generation, baseline } => AuthorityView::Refreshing {
                epoch: *epoch,
                generation: *generation,
                baseline: match baseline {
                    Some(b) => Some(entry_views(b@)),
                    None => None,
                },
            },
            AuthorityState::Disabled { epoch, generation } => AuthorityView::Disabled {
                epoch: *epoch,
                generation: *generation,
            },
        }
    }
}

impl AuthorityView {
    pub open spec fn epoch(self) -> u64 {
        match self {
            AuthorityView::Active { epoch, .. } => epoch,
            AuthorityView::Refreshing { epoch, .. } => epoch,
            AuthorityView::Disabled { epoch, .. } => epoch,
        }
    }

    pub open spec fn generation(self) -> u64 {
        match self {
            AuthorityView::Active { generation, .. } => generation,
            AuthorityView::Refreshing { generation, .. } => generation,
            AuthorityView::Disabled { generation, .. } => generation,
        }
    }
}

/// The canonical URI last recorded for `id`.
pub open spec fn known_uri(h: Seq<Entry>, id: Seq<char>) -> Option<Seq<char>>
    decreases h.len(),
{
    if h.len() == 0 {
        None
    } else if h.last().0 == id {
        Some(h.last().1)
    } else {
        known_uri(h.drop_last(), id)
    }
}

/// Root `i` of `c` reuses a recorded identifier for another URI.
pub open spec fn conflict_at(h: Seq<Entry>, c: Seq<Entry>, i: int) -> bool {
    match known_uri(h, c[i].0) {
        Some(u) => u != c[i].1,
        None => false,
    }
}

/// Some root of `c` reuses a recorded identifier for another URI.
pub open spec fn conflicts(h: Seq<Entry>, c: Seq<Entry>) -> bool {
    exists|i: int| 0 <= i < c.len() && #[trigger] conflict_at(h, c, i)
}

/// The URI a root set gives `id`, if it holds it.
pub open spec fn uri_in(c: Seq<Entry>, id: Seq<char>) -> Option<Seq<char>>
    decreases c.len(),
{
    if c.len() == 0 {
        None
    } else if c[0].0 == id {
        Some(c[0].1)
    } else {
        uri_in(c.drop_first(), id)
    }
}

/// The roots of `baseline` the candidate no longer holds under the same URI.
pub open spec fn removed_ids(baseline: Seq<Entry>, candidate: Seq<Entry>) -> Seq<Seq<char>> {
    baseline.filter(|e: Entry| uri_in(candidate, e.0) != Some(e.1)).map_values(|e: Entry| e.0)
}

pub open spec fn ids(c: Seq<Entry>) -> Seq<Seq<char>> {
    c.map_values(|e: Entry| e.0)
}

pub open spec fn sat_inc(n: u64) -> u64 {
    if n == u64::MAX {
        n
    } else {
        (n + 1) as u64
    }
}

/// What a committed refresh reports.
#[derive(Debug)]
pub enum RootRefreshOutcome {
    Applied { generation: u64, removed: Vec<String>, active: Vec<String> },
    Unchanged { generation: u64 },
    Superseded,
}

pub open spec fn string_views(v: Seq<String>) -> Seq<Seq<char>> {
    v.map_values(|s: String| s@)
}

/// The connection's root authority and the URI every identifier has had.
#[derive(Debug)]
pub struct RootAuthority {
    pub state: AuthorityState,
    pub history: Vec<RootEntry>,
}

pub open spec fn unavailable(e: ResourceError, message: Seq<char>) -> bool {
    is_refusal(e, ErrorCategory::SourceUnavailable, message)
}

pub open spec fn expired_message() -> Seq<char> {
    "Workspace Root acquisition exceeded 5 seconds"@
}

/// The refresh `epoch` loses the authority: a refreshing state of that
/// epoch becomes disabled, anything else stays.
pub open spec fn disabled(s: AuthorityView, epoch: u64) -> AuthorityView {
    match s {
        AuthorityView::Refreshing { epoch: e, generation, .. } => if e == epoch {
            AuthorityView::Disabled { epoch, generation }
        } else {
            s
        },
        _ => s,
    }
}

/// What committing the candidate root set `c` for refresh `epoch` does:
/// the next state, the history after it, and the outcome (`Err` carries the
/// refusal's category and sentence).
pub open spec fn commit(s: AuthorityView, h: Seq<Entry>, epoch: u64, expired: bool, c: Seq<Entry>) -> (
    AuthorityView,
    Seq<Entry>,
    Result<(u64, Option<(Seq<Seq<char>>, Seq<Seq<char>>)>), Option<(ErrorCategory, Seq<char>)>>,
) {
    match s {
        AuthorityView::Refreshing { epoch: e, generation, baseline } => if e != epoch {
            (s, h, Err(None))
        } else if expired {
            (AuthorityView::Disabled { epoch, generation }, h, Err(Some((ErrorCategory::SourceUnavailable, expired_message()))))
        } else if conflicts(h, c) {
            (
                AuthorityView::Disabled { epoch, generation },
                h,
                Err(Some((ErrorCategory::InvalidReference, "Workspace Root identifier maps to a different canonical URI"@))),
            )
        } else {
            match baseline {
                Some(b) => if b == c {
                    (AuthorityView::Active { epoch, generation, view: b }, h + c, Ok((generation, None)))
                } else {
                    (
                        AuthorityView::Active { epoch, generation: sat_inc(generation), view: c },
                        h + c,
                        Ok((sat_inc(generation), Some((removed_ids(b, c), ids(c))))),
                    )
                },
                None => (
                    AuthorityView::Active { epoch, generation: sat_inc(generation), view: c },
                    h + c,
                    Ok((sat_inc(generation), Some((Seq::empty(), ids(c))))),
                ),
            }
        },
        _ => (s, h, Err(None)),
    }
}

/// Law: a refresh that is not the one in progress commits nothing: the
/// state and history stay and the outcome is `Superseded`.
pub proof fn lemma_stale_refresh_is_superseded(s: AuthorityView, h: Seq<Entry>, epoch: u64, expired: bool, c: Seq<Entry>)
    requires
        !(s is Refreshing) || s.epoch() != epoch,
    ensures
        commit(s, h, epoch, expired, c).0 == s,
        commit(s, h, epoch, expired, c).1 == h,
        commit(s, h, epoch, expired, c).2 == Err::<(u64, Option<(Seq<Seq<char>>, Seq<Seq<char>>)>), Option<(ErrorCategory, Seq<char>)>>(None),
{
}

/// Law: a commit never lowers the generation, and a committed change of
/// the root set raises it (short of the counter's end).
pub proof fn lemma_commit_generation(s: AuthorityView, h: Seq<Entry>, epoch: u64, expired: bool, c: Seq<Entry>)
    ensures
        commit(s, h, epoch, expired, c).0.generation() >= s.generation(),
        commit(s, h, epoch, expired, c).2 matches Ok((g, Some(_))) ==> g == sat_inc(s.generation()),
        commit(s, h, epoch, expired, c).2 matches Ok((g, None)) ==> g == s.generation(),
{
}

/// Law: a root identifier never changes its canonical URI: a commit that
/// succeeds found no conflict, and the history only grows.
pub proof fn lemma_commit_keeps_identities(s: AuthorityView, h: Seq<Entry>, epoch: u64, expired: bool, c: Seq<Entry>)
    ensures
        commit(s, h, epoch, expired, c).2 is Ok ==> !conflicts(h, c),
        commit(s, h, epoch, expired, c).1.take(h.len() as int) == h,
{
    assert((h + c).take(h.len() as int) =~= h);
    assert(h.take(h.len() as int) =~= h);
}

fn copy_entries(v: &Vec<RootEntry>) -> (r: Vec<RootEntry>)
    ensures
        entry_views(r@) == entry_views(v@),
{
    let mut r: Vec<RootEntry> = Vec::new();
    let mut i: usize = 0;
    while i < v.len()
        invariant
            i <= v@.len(),
            entry_views(r@) =~= entry_views(v@.take(i as int)),
        decreases v@.len() - i,
    {
        r.push(RootEntry { id: owned(v[i].id.as_str()), uri: owned(v[i].uri.as_str()) });
        proof {
            assert(entry_views(v@.take(i + 1)) =~= entry_views(v@.take(i as int)).push((v@[i as int].id@, v@[i as int].uri@)));
        }
        i = i + 1;
    }
    proof {
        assert(v@.take(i as int) =~= v@);
    }
    r
}

fn same_text(a: &String, b: &String) -> (r: bool)
    ensures
        r == (a@ == b@),
{
    let ac = chars_of(a.as_str());
    chars_eq_str(ac.as_slice(), b.as_str())
}

fn same_entries(a: &Vec<RootEntry>, b: &Vec<RootEntry>) -> (r: bool)
    ensures
        r == (entry_views(a@) == entry_views(b@)),
{
    if a.len() != b.len() {
        proof {
            assert(entry_views(a@).len() != entry_views(b@).len());
        }
        return false;
    }
    let mut i: usize = 0;
    while i < a.len()
        invariant
            i <= a@.len(),
            a@.len() == b@.len(),
            forall|k: int| 0 <= k < i ==> #[trigger] entry_views(a@)[k] == entry_views(b@)[k],
        decreases a@.len() - i,
    {
        if !same_text(&a[i].id, &b[i].id) || !same_text(&a[i].uri, &b[i].uri) {
            proof {
                assert(entry_views(a@)[i as int] != entry_views(b@)[i as int]);
            }
            return false;
        }
        i = i + 1;
    }
    proof {
        assert(entry_views(a@) =~= entry_views(b@));
    }
    true
}

fn lookup_known(h: &Vec<RootEntry>, id: &String) -> (r: Option<usize>)
    ensures
        match known_uri(entry_views(h@), id@) {
            Some(u) => r matches Some(k) && k < h@.len() && h@[k as int].uri@ == u,
            None => r is None,
        },
{
    let mut j: usize = h.len();
    proof {
        assert(h@.take(h@.len() as int) =~= h@);
    }
    while j > 0
        invariant
            j <= h@.len(),
            known_uri(entry_views(h@), id@) == known_uri(entry_views(h@.take(j as int)), id@),
            forall|k: int| j <= k < h@.len() ==> #[trigger] h@[k].id@ != id@,
        decreases j,
    {
        proof {
            assert(entry_views(h@.take(j as int)).drop_last() =~= entry_views(h@.take(j - 1)));
        }
        if same_text(&h[j - 1].id, id) {
            return Some(j - 1);
        }
        j = j - 1;
    }
    None
}

fn has_conflict(h: &Vec<RootEntry>, c: &Vec<RootEntry>) -> (r: bool)
    ensures
        r == conflicts(entry_views(h@), entry_views(c@)),
{
    let ghost hv = entry_views(h@);
    let ghost cv = entry_views(c@);
    let mut i: usize = 0;
    while i < c.len()
        invariant
            i <= c@.len(),
            hv == entry_views(h@),
            cv == entry_views(c@),
            forall|k: int| 0 <= k < i ==> !#[trigger] conflict_at(hv, cv, k),
        decreases c@.len() - i,
    {
        match lookup_known(h, &c[i].id) {
            Some(k) => {
                if !same_text(&h[k].uri, &c[i].uri) {
                    proof {
                        assert(cv[i as int].0 == c@[i as int].id@);
                        assert(conflict_at(hv, cv, i as int));
                    }
                    return true;
                }
            },
            None => {},
        }
        i = i + 1;
    }
    false
}

fn uri_of(c: &Vec<RootEntry>, id: &String) -> (r: Option<usize>)
    ensures
        match uri_in(entry_views(c@), id@) {
            Some(u) => r matches Some(k) && k < c@.len() && c@[k as int].uri@ == u,
            None => r is None,
        },
{
    let ghost cv = entry_views(c@);
    proof {
        assert(cv.skip(0) =~= cv);
    }
    let mut i: usize = 0;
    while i < c.len()
        invariant
            i <= c@.len(),
            cv == entry_views(c@),
            uri_in(cv, id@) == uri_in(cv.skip(i as int), id@),
        decreases c@.len() - i,
    {
        proof {
            assert(cv.skip(i as int)[0] == cv[i as int]);
            assert(cv.skip(i as int).drop_first() =~= cv.skip(i + 1));
        }
        if same_text(&c[i].id, id) {
            return Some(i);
        }
        i = i + 1;
    }
    proof {
        assert(cv.skip(i as int).len() == 0);
    }
    None
}

fn removed_of(baseline: &Vec<RootEntry>, c: &Vec<RootEntry>) -> (r: Vec<String>)
    ensures
        string_views(r@) == removed_ids(entry_views(baseline@), entry_views(c@)),
{
    let ghost bv = entry_views(baseline@);
    let ghost cv = entry_views(c@);
    let ghost pred = |e: Entry| uri_in(cv, e.0) != Some(e.1);
    let mut r: Vec<String> = Vec::new();
    let mut i: usize = 0;
    while i < baseline.len()
        invariant
            i <= baseline@.len(),
            bv == entry_views(baseline@),
            cv == entry_views(c@),
            pred == (|e: Entry| uri_in(cv, e.0) != Some(e.1)),
            string_views(r@) == bv.take(i as int).filter(pred).map_values(|e: Entry| e.0),
        decreases baseline@.len() - i,
    {
        let keep = match uri_of(c, &baseline[i].id) {
            Some(k) => !same_text(&c[k].uri, &baseline[i].uri),
            None => true,
        };
        let ghost before = r@;
        proof {
            reveal(Seq::filter);
            let t = bv.take(i + 1);
            assert(t.drop_last() =~= bv.take(i as int));
            assert(t.last() == bv[i as int]);
            assert(pred(bv[i as int]) == keep);
        }
        if keep {
            r.push(owned(baseline[i].id.as_str()));
        }
        proof {
            reveal(Seq::filter);
            let t = bv.take(i + 1);
            if keep {
                assert(string_views(r@) =~= string_views(before).push(bv[i as int].0));
                assert(t.filter(pred) == bv.take(i as int).filter(pred).push(bv[i as int]));
                assert(t.filter(pred).map_values(|e: Entry| e.0) =~= bv.take(i as int).filter(pred).map_values(
                    |e: Entry| e.0,
                ).push(bv[i as int].0));
            } else {
                assert(t.filter(pred) == bv.take(i as int).filter(pred));
            }
        }
        i = i + 1;
    }
    proof {
        assert(bv.take(i as int) =~= bv);
    }
    r
}

fn ids_of(c: &Vec<RootEntry>) -> (r: Vec<String>)
    ensures
        string_views(r@) == ids(entry_views(c@)),
{
    let mut r: Vec<String> = Vec::new();
    let mut i: usize = 0;
    while i < c.len()
        invariant
            i <= c@.len(),
            string_views(r@) =~= ids(entry_views(c@.take(i as int))),
        decreases c@.len() - i,
    {
        let ghost before = r@;
        let id = owned(c[i].id.as_str());
        let ghost idv = id@;
        r.push(id);
        proof {
            assert(string_views(r@) =~= string_views(before).push(idv));
            assert(entry_views(c@.take(i + 1)) =~= entry_views(c@.take(i as int)).push((c@[i as int].id@, c@[i as int].uri@)));
            assert(ids(entry_views(c@.take(i + 1))) =~= ids(entry_views(c@.take(i as int))).push(c@[i as int].id@));
        }
        i = i + 1;
    }
    proof {
        assert(c@.take(i as int) =~= c@);
    }
    r
}

fn authority_unavailable(message: &str) -> (e: ResourceError)
    ensures
        unavailable(e, message@),
{
    ResourceError::new(ErrorCategory::SourceUnavailable, message)
}

impl RootAuthority {
    pub open spec fn view_history(&self) -> Seq<Entry> {
        entry_views(self.history@)
    }

    /// The authority of a connection that starts on `launch`: active at
    /// epoch 0, generation 1.
    pub fn new(launch: Vec<RootEntry>) -> (a: RootAuthority)
        ensures
            a.state.view_state() == (AuthorityView::Active { epoch: 0, generation: 1, view: entry_views(launch@) }),
            a.view_history() == entry_views(launch@),
    {
        let history = copy_entries(&launch);
        RootAuthority { state: AuthorityState::Active { epoch: 0, generation: 1, view: launch }, history }
    }

    /// Begins a refresh: a new epoch supersedes any refresh in progress; the
    /// generation stays and the current view becomes the baseline.
    pub fn begin_client_root_refresh(&mut self) -> (r: RootRefresh)
        ensures
            r.spec_epoch() == sat_inc(old(self).state.view_state().epoch()),
            final(self).view_history() == old(self).view_history(),
            final(self).state.view_state() == (AuthorityView::Refreshing {
                epoch: r.spec_epoch(),
                generation: old(self).state.view_state().generation(),
                baseline: match old(self).state.view_state() {
                    AuthorityView::Active { view, .. } => Some(view),
                    AuthorityView::Refreshing { baseline, .. } => baseline,
                    AuthorityView::Disabled { .. } => None,
                },
            }),
    {
        let (epoch, generation, baseline) = match &self.state {
            AuthorityState::Active { epoch, generation, view } => (*epoch, *generation, Some(copy_entries(view))),
            AuthorityState::Refreshing { epoch, generation, baseline } => (
                *epoch,
                *generation,
                match baseline {
                    Some(b) => Some(copy_entries(b)),
                    None => None,
                },
            ),
            AuthorityState::Disabled { epoch, generation } => (*epoch, *generation, None),
        };
        let next = epoch.saturating_add(1);
        self.state = AuthorityState::Refreshing { epoch: next, generation, baseline };
        RootRefresh { epoch: next }
    }

    /// A refresh that failed or timed out disables the authority, unless a
    /// newer refresh has begun.
    pub fn disable_refresh(&mut self, refresh: RootRefresh)
        ensures
            final(self).state.view_state() == disabled(old(self).state.view_state(), refresh.spec_epoch()),
            final(self).view_history() == old(self).view_history(),
    {
        let next = match &self.state {
            AuthorityState::Refreshing { epoch, generation, .. } => if *epoch == refresh.epoch {
                Some(*generation)
            } else {
                None
            },
            _ => None,
        };
        match next {
            Some(generation) => {
                self.state = AuthorityState::Disabled { epoch: refresh.epoch, generation };
            },
            None => {},
        }
    }

    /// Completes refresh `refresh` once the candidate root set was built:
    /// `expired_after_build` and `expired_at_commit` say whether its deadline
    /// had passed after building and at commit, and `candidate` is the built
    /// set or the error building it.
    pub fn complete_client_root_refresh(
        &mut self,
        refresh: RootRefresh,
        expired_after_build: bool,
        candidate: Result<Vec<RootEntry>, ResourceError>,
        expired_at_commit: bool,
    ) -> (r: Result<RootRefreshOutcome, ResourceError>)
        ensures
            expired_after_build ==> (r matches Err(e) && unavailable(e, expired_message())
                && final(self).state.view_state() == disabled(old(self).state.view_state(), refresh.spec_epoch())
                && final(self).view_history() == old(self).view_history()),
            !expired_after_build ==> match candidate {
                Err(error) => r == Err::<RootRefreshOutcome, ResourceError>(error)
                    && final(self).state.view_state() == disabled(old(self).state.view_state(), refresh.spec_epoch())
                    && final(self).view_history() == old(self).view_history(),
                Ok(c) => {
                    let (s2, h2, out) = commit(
                        old(self).state.view_state(),
                        old(self).view_history(),
                        refresh.spec_epoch(),
                        expired_at_commit,
                        entry_views(c@),
                    );
                    &&& final(self).state.view_state() == s2
                    &&& final(self).view_history() == h2
                    &&& match out {
                        Err(None) => r matches Ok(RootRefreshOutcome::Superseded),
                        Err(Some((cat, m))) => r matches Err(e) && is_refusal(e, cat, m),
                        Ok((g, None)) => r matches Ok(RootRefreshOutcome::Unchanged { generation }) && generation == g,
                        Ok((g, Some((removed, active)))) => r matches Ok(
                            RootRefreshOutcome::Applied { generation, removed: rv, active: av },
                        ) && generation == g && string_views(rv@) == removed && string_views(av@) == active,
                    }
                },
            },
    {
        if expired_after_build {
            self.disable_refresh(refresh);
            return Err(authority_unavailable("Workspace Root acquisition exceeded 5 seconds"));
        }
        let c = match candidate {
            Ok(c) => c,
            Err(error) => {
                self.disable_refresh(refresh);
                return Err(error);
            },
        };
        let (epoch, generation) = match &self.state {
            AuthorityState::Refreshing { epoch, generation, .. } => (*epoch, *generation),
            _ => {
                return Ok(RootRefreshOutcome::Superseded);
            },
        };
        if epoch != refresh.epoch {
            return Ok(RootRefreshOutcome::Superseded);
        }
        if expired_at_commit {
            self.state = AuthorityState::Disabled { epoch: refresh.epoch, generation };
            return Err(authority_unavailable("Workspace Root acquisition exceeded 5 seconds"));
        }
        if has_conflict(&self.history, &c) {
            self.state = AuthorityState::Disabled { epoch: refresh.epoch, generation };
            return Err(
                ResourceError::new(
                    ErrorCategory::InvalidReference,
                    "Workspace Root identifier maps to a different canonical URI",
                ),
            );
        }
        let ghost h0 = self.view_history();
        let added = copy_entries(&c);
        let mut added = added;
        self.history.append(&mut added);
        proof {
            assert(self.view_history() =~= h0 + entry_views(c@));
        }
        let unchanged = match &self.state {
            AuthorityState::Refreshing { baseline: Some(b), .. } => if same_entries(b, &c) {
                Some(copy_entries(b))
            } else {
                None
            },
            _ => None,
        };
        match unchanged {
            Some(view) => {
                self.state = AuthorityState::Active { epoch: refresh.epoch, generation, view };
                return Ok(RootRefreshOutcome::Unchanged { generation });
            },
            None => {},
        }
        let removed = match &self.state {
            AuthorityState::Refreshing { baseline: Some(b), .. } => removed_of(b, &c),
            _ => {
                let none: Vec<String> = Vec::new();
                proof {
                    assert(string_views(none@) =~= Seq::<Seq<char>>::empty());
                }
                none
            },
        };
        let active = ids_of(&c);
        let next = generation.saturating_add(1);
        self.state = AuthorityState::Active { epoch: refresh.epoch, generation: next, view: c };
        Ok(RootRefreshOutcome::Applied { generation: next, removed, active })
    }

    /// The generation of an active authority, or the refusal of a read while
    /// it is refreshing or disabled.
    pub fn active_generation(&self) -> (r: Result<u64, ResourceError>)
        ensures
            match self.state.view_state() {
                AuthorityView::Active { generation, .. } => r == Ok::<u64, ResourceError>(generation),
                AuthorityView::Refreshing { .. } => r matches Err(e) && unavailable(
                    e,
                    "Workspace Root authority is refreshing"@,
                ),
                AuthorityView::Disabled { .. } => r matches Err(e) && unavailable(
                    e,
                    "Workspace Root authority is disabled"@,
                ),
            },
    {
        match &self.state {
            AuthorityState::Active { generation, .. } => Ok(*generation),
            AuthorityState::Refreshing { .. } => Err(authority_unavailable("Workspace Root authority is refreshing")),
            AuthorityState::Disabled { .. } => Err(authority_unavailable("Workspace Root authority is disabled")),
        }
    }

    /// Whether a read begun at `generation` against `root` may be delivered:
    /// the active view must be the same generation, or still hold the root
    /// under the same URI.
    pub fn validate_read_delivery(&self, generation: u64, root: &RootEntry) -> (r: Result<(), ResourceError>)
        ensures
            match self.state.view_state() {
                AuthorityView::Active { generation: current, view, .. } => if current == generation || uri_in(
                    view,
                    root.id@,
                ) == Some(root.uri@) {
                    r is Ok
                } else {
                    r matches Err(e) && is_refusal(
                        e,
                        ErrorCategory::InvalidReference,
                        "Workspace Root authority changed while reading"@,
                    )
                },
                _ => r matches Err(e) && unavailable(e, "Workspace Root authority changed while reading"@),
            },
    {
        match &self.state {
            AuthorityState::Active { generation: current, view, .. } => {
                let retains = match uri_of(view, &root.id) {
                    Some(k) => same_text(&view[k].uri, &root.uri),
                    None => false,
                };
                if *current == generation || retains {
                    Ok(())
                } else {
                    Err(
                        ResourceError::new(
                            ErrorCategory::InvalidReference,
                            "Workspace Root authority changed while reading",
                        ),
                    )
                }
            },
            _ => Err(authority_unavailable("Workspace Root authority changed while reading")),
        }
    }
}

/// A line range of a selection: a first line and an optional inclusive last.
pub open spec fn in_range(line: u64, r: (u64, Option<u64>)) -> bool {
    r.0 <= line && match r.1 {
        Some(end) => line <= end,
        None => true,
    }
}

fn any_range_contains(line: u64, ranges: &[(u64, Option<u64>)]) -> (b: bool)
    ensures
        b == exists|i: int| 0 <= i < ranges@.len() && #[trigger] in_range(line, ranges@[i]),
{
    let mut i: usize = 0;
    while i < ranges.len()
        invariant
            i <= ranges@.len(),
            forall|k: int| 0 <= k < i ==> !#[trigger] in_range(line, ranges@[k]),
        decreases ranges@.len() - i,
    {
        let (start, end) = ranges[i];
        let inside = start <= line && match end {
            Some(e) => line <= e,
            None => true,
        };
        if inside {
            proof {
                assert(in_range(line, ranges@[i as int]));
            }
            return true;
        }
        i = i + 1;
    }
    false
}

/// Whether `line` is selected: every line without a selection, else a line
/// inside one of its ranges.
pub fn line_is_selected(line: u64, selection: Option<&[(u64, Option<u64>)]>) -> (b: bool)
    ensures
        b == match selection {
            None => true,
            Some(ranges) => exists|i: int| 0 <= i < ranges@.len() && #[trigger] in_range(line, ranges@[i]),
        },
{
    match selection {
        None => true,
        Some(ranges) => any_range_contains(line, ranges),
    }
}

// ------------------------------------------------------------ client roots

pub open spec fn is_root_refusal(e: ResourceError, message: Seq<char>) -> bool {
    e.category == ErrorCategory::InvalidReference && e.message@ == message && e.details is None
}

/// Checks the URI a client names a root by: it must parse, and be a `file`
/// URI with neither query nor fragment.
pub fn client_root_uri(uri: &str) -> (r: Result<ParsedUrl, ResourceError>)
    ensures
        match url_parse(uri@) {
            None => r matches Err(e) && is_root_refusal(e, "client Workspace Root URI is invalid"@),
            Some(p) => if p.scheme == "file"@ && p.query_text is None && p.fragment is None {
                r matches Ok(u) && u.parts() == p
            } else {
                r matches Err(e) && is_root_refusal(e, "client Workspace Root must be a local file URI"@)
            },
        },
{
    let parsed = match parse_url(uri) {
        Some(p) => p,
        None => {
            return Err(ResourceError::new(ErrorCategory::InvalidReference, "client Workspace Root URI is invalid"));
        },
    };
    let scheme = chars_of(parsed.scheme.as_str());
    if !chars_eq_str(&scheme, "file") || parsed.query_text.is_some() || parsed.fragment.is_some() {
        return Err(
            ResourceError::new(ErrorCategory::InvalidReference, "client Workspace Root must be a local file URI"),
        );
    }
    Ok(parsed)
}

/// The SHA-256 digest of `data`.
pub uninterp spec fn sha256(data: Seq<u8>) -> Seq<u8>;

/// Hashes with `sha2::Sha256::digest`; the digest is named and is 32 bytes.
#[verifier::external_body]
fn sha256_digest(data: &[u8]) -> (r: Vec<u8>)
    ensures
        r@ == sha256(data@),
        r@.len() == 32,
{
    sha2::Sha256::digest(data).as_slice().to_vec()
}

pub open spec fn lower_hex_digit(n: u8) -> char
    recommends
        n < 16,
{
    if n < 10 {
        (n + 48) as char
    } else {
        (n + 87) as char
    }
}

/// Two lower-case hexadecimal digits per byte, most significant first.
pub open spec fn lower_hex(bytes: Seq<u8>) -> Seq<char>
    decreases bytes.len(),
{
    if bytes.len() == 0 {
        Seq::empty()
    } else {
        lower_hex(bytes.drop_last()) + seq![lower_hex_digit(bytes.last() / 16), lower_hex_digit(bytes.last() % 16)]
    }
}

fn hex_digit(n: u8) -> (c: char)
    requires
        n < 16,
    ensures
        c == lower_hex_digit(n),
{
    if n < 10 {
        (n + 48) as char
    } else {
        (n + 87) as char
    }
}

/// The identifier of a client root: `client-` and the lower-case hex
/// SHA-256 of its canonical URI.
pub fn client_root_id(canonical_uri: &str) -> (id: String)
    ensures
        id@ == "client-"@ + lower_hex(sha256(vstd::utf8::encode_utf8(canonical_uri@))),
{
    let digest = sha256_digest(canonical_uri.as_bytes());
    let mut id = owned("client-");
    let mut i: usize = 0;
    while i < digest.len()
        invariant
            i <= digest@.len(),
            id@ == "client-"@ + lower_hex(digest@.take(i as int)),
        decreases digest@.len() - i,
    {
        let b = digest[i];
        push_char(&mut id, hex_digit(b / 16));
        push_char(&mut id, hex_digit(b % 16));
        proof {
            assert(digest@.take(i + 1).drop_last() =~= digest@.take(i as int));
        }
        i = i + 1;
    }
    proof {
        assert(digest@.take(digest@.len() as int) =~= digest@);
    }
    id
}

} // verus!
