//! Filesystem path decisions that need no filesystem: normalizing a
//! relative symlink target inside its root, choosing the one root an
//! absolute path lies beneath, cutting a bounded line from buffered input,
//! the order and admission of entries in a workspace walk, and the reading
//! of a contained `.gitignore`.
use vstd::prelude::*;
use crate::error::{is_refusal, ErrorCategory, ResourceError};
use crate::http::utf8_string;
use crate::objects::{bytes_less, bytes_lt, lemma_bytes_lt_irreflexive, lemma_bytes_lt_transitive};
use crate::text::{chars_of, owned, string_of, trim_start_char, trim_start_char_chars};

verus! {

broadcast use vstd::string::group_string_axioms;

/// One component of a path, as `std::path::Path::components` yields it.
#[derive(Debug, Clone)]
pub enum PathComponent {
    Prefix,
    RootDir,
    CurDir,
    ParentDir,
    Normal(String),
}

pub open spec fn names(v: Seq<String>) -> Seq<Seq<char>> {
    v.map_values(|s: String| s@)
}

/// The names a relative target keeps once `.` is dropped and each `..`
/// removes the name before it; `None` when a `..` has no name to remove or
/// the target is rooted.
pub open spec fn normalized(components: Seq<PathComponent>) -> Option<Seq<Seq<char>>>
    decreases components.len(),
{
    if components.len() == 0 {
        Some(Seq::empty())
    } else {
        match normalized(components.drop_last()) {
            None => None,
            Some(kept) => match components.last() {
                PathComponent::Normal(name) => Some(kept.push(name@)),
                PathComponent::CurDir => Some(kept),
                PathComponent::ParentDir => if kept.len() > 0 {
                    Some(kept.drop_last())
                } else {
                    None
                },
                _ => None,
            },
        }
    }
}

/// A prefix that escapes its root makes the whole target escape.
proof fn lemma_escape_persists(components: Seq<PathComponent>, i: int)
    requires
        0 <= i <= components.len(),
        normalized(components.take(i)) is None,
    ensures
        normalized(components) is None,
    decreases components.len(),
{
    if i == components.len() {
        assert(components.take(i) =~= components);
    } else {
        assert(components.drop_last().take(i) =~= components.take(i));
        lemma_escape_persists(components.drop_last(), i);
    }
}

pub open spec fn escape_message() -> Seq<char> {
    "Resource symlink resolves outside the selected Workspace Root"@
}

/// Normalizes a relative symlink target so that it stays inside its root.
pub fn normalize_relative_symlink_target(components: &[PathComponent]) -> (r: Result<Vec<String>, ResourceError>)
    ensures
        match normalized(components@) {
            Some(kept) => r matches Ok(v) && names(v@) == kept,
            None => r matches Err(e) && is_refusal(e, ErrorCategory::PermissionDenied, escape_message()),
        },
{
    let mut kept: Vec<String> = Vec::new();
    let mut i: usize = 0;
    while i < components.len()
        invariant
            i <= components@.len(),
            normalized(components@.take(i as int)) == Some(names(kept@)),
        decreases components@.len() - i,
    {
        proof {
            assert(components@.take(i + 1).drop_last() =~= components@.take(i as int));
        }
        match &components[i] {
            PathComponent::Normal(name) => {
                kept.push(owned(name.as_str()));
                proof {
                    assert(names(kept@) =~= names(kept@.drop_last()).push(name@));
                }
            },
            PathComponent::CurDir => {},
            PathComponent::ParentDir => {
                if kept.len() == 0 {
                    proof {
                        lemma_escape_persists(components@, i + 1);
                    }
                    return Err(
                        ResourceError::new(
                            ErrorCategory::PermissionDenied,
                            "Resource symlink resolves outside the selected Workspace Root",
                        ),
                    );
                }
                let ghost before = kept@;
                kept.pop();
                proof {
                    assert(names(kept@) =~= names(before).drop_last());
                }
            },
            _ => {
                proof {
                    lemma_escape_persists(components@, i + 1);
                }
                return Err(
                    ResourceError::new(
                        ErrorCategory::PermissionDenied,
                        "Resource symlink resolves outside the selected Workspace Root",
                    ),
                );
            },
        }
        i = i + 1;
    }
    proof {
        assert(components@.take(components@.len() as int) =~= components@);
    }
    Ok(kept)
}

pub open spec fn all_normal(components: Seq<PathComponent>) -> bool {
    forall|i: int| 0 <= i < components.len() ==> #[trigger] components[i] is Normal
}

pub open spec fn normal_names(components: Seq<PathComponent>) -> Seq<Seq<char>> {
    components.map_values(|c: PathComponent| c->Normal_0@)
}

/// A target of names alone normalizes to those names: normalizing never
/// alters a path that is already inside its root.
pub proof fn lemma_names_are_kept(components: Seq<PathComponent>)
    requires
        all_normal(components),
    ensures
        normalized(components) == Some(normal_names(components)),
    decreases components.len(),
{
    if components.len() > 0 {
        let rest = components.drop_last();
        assert(all_normal(rest)) by {
            assert forall|i: int| 0 <= i < rest.len() implies #[trigger] rest[i] is Normal by {
                assert(rest[i] == components[i]);
            }
        }
        lemma_names_are_kept(rest);
        assert(components[components.len() - 1] is Normal);
        assert(normal_names(components) =~= normal_names(rest).push(components.last()->Normal_0@));
    }
}

/// A symlink's rewritten path: its normalized target, then the components
/// that followed the link.
pub fn rewritten_symlink_path(target: &[PathComponent], remainder: &[String]) -> (r: Result<
    Vec<String>,
    ResourceError,
>)
    ensures
        match normalized(target@) {
            Some(kept) => r matches Ok(v) && names(v@) == kept + names(remainder@),
            None => r matches Err(e) && is_refusal(e, ErrorCategory::PermissionDenied, escape_message()),
        },
{
    let mut path = normalize_relative_symlink_target(target)?;
    let ghost kept = names(path@);
    let mut i: usize = 0;
    while i < remainder.len()
        invariant
            i <= remainder@.len(),
            names(path@) == kept + names(remainder@.take(i as int)),
        decreases remainder@.len() - i,
    {
        let ghost before = path@;
        let name = owned(remainder[i].as_str());
        path.push(name);
        proof {
            assert(path@ == before.push(name));
            assert(names(path@) =~= names(before).push(name@));
            assert(remainder@.take(i + 1) =~= remainder@.take(i as int).push(remainder@[i as int]));
            assert(names(remainder@.take(i + 1)) =~= names(remainder@.take(i as int)).push(remainder@[i as int]@));
            assert(names(path@) =~= kept + names(remainder@.take(i + 1)));
        }
        i = i + 1;
    }
    proof {
        assert(remainder@.take(remainder@.len() as int) =~= remainder@);
    }
    Ok(path)
}

// ------------------------------------------------------------ absolute paths

/// Roots an absolute target lies strictly beneath: each root's relative
/// path, `None` when the target is not beneath it, empty when the target is
/// the root itself.
pub open spec fn resource_matches(beneath: Seq<Option<Vec<String>>>) -> nat
    decreases beneath.len(),
{
    if beneath.len() == 0 {
        0
    } else {
        resource_matches(beneath.drop_last()) + match beneath.last() {
            Some(v) => if v@.len() > 0 {
                1nat
            } else {
                0nat
            },
            None => 0nat,
        }
    }
}

pub open spec fn is_root_directory(beneath: Seq<Option<Vec<String>>>) -> bool {
    exists|i: int| 0 <= i < beneath.len() && (#[trigger] beneath[i] matches Some(v) && v@.len() == 0)
}

/// The root an absolute target resolves beneath, or why there is none.
pub open spec fn absolute_resolution(beneath: Seq<Option<Vec<String>>>) -> Result<
    int,
    (ErrorCategory, Seq<char>),
> {
    let count = resource_matches(beneath) + if is_root_directory(beneath) {
        1int
    } else {
        0int
    };
    if count > 1 {
        Err((ErrorCategory::AmbiguousReference, "absolute Resource resolves beneath multiple Workspace Roots"@))
    } else if is_root_directory(beneath) {
        Err((ErrorCategory::UnsupportedProjection, "Workspace Root directory is not a text file"@))
    } else if count == 0 {
        Err(
            (
                ErrorCategory::PermissionDenied,
                "absolute Resource resolves outside every configured Workspace Root"@,
            ),
        )
    } else {
        Ok(choose|i: int| 0 <= i < beneath.len() && (#[trigger] beneath[i] matches Some(v) && v@.len() > 0))
    }
}

proof fn lemma_one_match(beneath: Seq<Option<Vec<String>>>, i: int)
    requires
        0 <= i < beneath.len(),
        beneath[i] matches Some(v) && v@.len() > 0,
        resource_matches(beneath) == 1,
    ensures
        forall|j: int| 0 <= j < beneath.len() && j != i ==> !(#[trigger] beneath[j] matches Some(v) && v@.len()
            > 0),
    decreases beneath.len(),
{
    lemma_matches_at_least(beneath, i);
    assert forall|j: int| 0 <= j < beneath.len() && j != i implies !(#[trigger] beneath[j] matches Some(v)
        && v@.len() > 0) by {
        if beneath[j] matches Some(v) && v@.len() > 0 {
            lemma_two_matches(beneath, i, j);
        }
    }
}

proof fn lemma_matches_at_least(beneath: Seq<Option<Vec<String>>>, i: int)
    requires
        0 <= i < beneath.len(),
        beneath[i] matches Some(v) && v@.len() > 0,
    ensures
        resource_matches(beneath) >= 1,
    decreases beneath.len(),
{
    if i < beneath.len() - 1 {
        lemma_matches_at_least(beneath.drop_last(), i);
    }
}

proof fn lemma_two_matches(beneath: Seq<Option<Vec<String>>>, i: int, j: int)
    requires
        0 <= i < beneath.len(),
        0 <= j < beneath.len(),
        i != j,
        beneath[i] matches Some(v) && v@.len() > 0,
        beneath[j] matches Some(v) && v@.len() > 0,
    ensures
        resource_matches(beneath) >= 2,
    decreases beneath.len(),
{
    let last = beneath.len() - 1;
    if i == last {
        lemma_matches_at_least(beneath.drop_last(), j);
    } else if j == last {
        lemma_matches_at_least(beneath.drop_last(), i);
    } else {
        lemma_two_matches(beneath.drop_last(), i, j);
    }
}

/// Chooses the root an absolute target resolves beneath: exactly one root
/// may hold it, and the root directory itself is no resource.
pub fn resolve_absolute_match(beneath: &[Option<Vec<String>>]) -> (r: Result<usize, ResourceError>)
    ensures
        match absolute_resolution(beneath@) {
            Ok(i) => r matches Ok(k) && k == i,
            Err((category, message)) => r matches Err(e) && is_refusal(e, category, message),
        },
{
    let mut count: usize = 0;
    let mut root_directory = false;
    let mut found: usize = 0;
    let mut i: usize = 0;
    while i < beneath.len()
        invariant
            i <= beneath@.len(),
            count == resource_matches(beneath@.take(i as int)),
            count <= i,
            root_directory == is_root_directory(beneath@.take(i as int)),
            count > 0 ==> found < i && (beneath@[found as int] matches Some(v) && v@.len() > 0),
        decreases beneath@.len() - i,
    {
        proof {
            assert(beneath@.take(i + 1).drop_last() =~= beneath@.take(i as int));
        }
        match &beneath[i] {
            Some(v) => {
                if v.len() == 0 {
                    root_directory = true;
                    proof {
                        assert(beneath@.take(i + 1)[i as int] == beneath@[i as int]);
                    }
                } else {
                    count = count + 1;
                    found = i;
                }
            },
            None => {},
        }
        proof {
            let next = beneath@.take(i + 1);
            if is_root_directory(beneath@.take(i as int)) {
                let w = choose|k: int| 0 <= k < i && (#[trigger] beneath@.take(i as int)[k] matches Some(v) && v@.len() == 0);
                assert(next[w] == beneath@.take(i as int)[w]);
            }
            if is_root_directory(next) {
                let w = choose|k: int| 0 <= k < next.len() && (#[trigger] next[k] matches Some(v) && v@.len() == 0);
                if w < i {
                    assert(beneath@.take(i as int)[w] == next[w]);
                }
            }
        }
        i = i + 1;
    }
    proof {
        assert(beneath@.take(beneath@.len() as int) =~= beneath@);
    }
    if count > 1 || (root_directory && count > 0) {
        return Err(
            ResourceError::new(
                ErrorCategory::AmbiguousReference,
                "absolute Resource resolves beneath multiple Workspace Roots",
            ),
        );
    }
    if root_directory {
        return Err(ResourceError::new(ErrorCategory::UnsupportedProjection, "Workspace Root directory is not a text file"));
    }
    if count == 0 {
        return Err(
            ResourceError::new(
                ErrorCategory::PermissionDenied,
                "absolute Resource resolves outside every configured Workspace Root",
            ),
        );
    }
    proof {
        lemma_one_match(beneath@, found as int);
        let c = choose|k: int| 0 <= k < beneath@.len() && (#[trigger] beneath@[k] matches Some(v) && v@.len() > 0);
        assert(c == found);
    }
    Ok(found)
}

// ------------------------------------------------------------ bounded lines

/// One step of reading a line from buffered input.
#[derive(Debug, Clone, Copy, PartialEq, Eq, Structural)]
pub enum LineStep {
    /// The input is exhausted.
    End,
    /// Take `consumed` bytes; `terminated` when they end the line.
    Chunk { consumed: usize, terminated: bool },
}

/// The bytes a line takes from `available`: through its first newline, or
/// all of it when it has none.
pub open spec fn line_chunk(available: Seq<u8>, consumed: nat) -> bool {
    &&& 0 < consumed <= available.len()
    &&& forall|k: int| 0 <= k < consumed - 1 ==> available[k] != 10
    &&& (available[consumed - 1] == 10 || consumed == available.len())
}

/// The next step of a line read that already holds `line_len` bytes and may
/// hold at most `remaining`; a chunk that would cross the bound is refused.
pub fn line_step(available: &[u8], line_len: usize, remaining: usize, limit_message: &str) -> (r: Result<
    LineStep,
    ResourceError,
>)
    ensures
        available@.len() == 0 ==> r == Ok::<LineStep, ResourceError>(LineStep::End),
        available@.len() > 0 ==> match r {
            Ok(LineStep::Chunk { consumed, terminated }) => line_chunk(available@, consumed as nat) && line_len
                + consumed <= remaining && terminated == (available@[consumed - 1] == 10),
            Ok(LineStep::End) => false,
            Err(e) => is_refusal(e, ErrorCategory::LimitExceeded, limit_message@) && exists|n: nat|
                line_chunk(available@, n) && line_len + n > remaining,
        },
{
    if available.len() == 0 {
        return Ok(LineStep::End);
    }
    let mut consumed: usize = 0;
    while consumed < available.len()
        invariant
            consumed <= available@.len(),
            forall|k: int| 0 <= k < consumed ==> available@[k] != 10,
        ensures
            consumed <= available@.len(),
            forall|k: int| 0 <= k < consumed ==> available@[k] != 10,
            consumed < available@.len() ==> available@[consumed as int] == 10,
        decreases available@.len() - consumed,
    {
        if available[consumed] == 10 {
            break;
        }
        consumed = consumed + 1;
    }
    let consumed: usize = if consumed < available.len() { consumed + 1 } else { consumed };
    proof {
        assert(line_chunk(available@, consumed as nat));
    }
    if consumed > remaining || line_len > remaining - consumed {
        return Err(ResourceError::new(ErrorCategory::LimitExceeded, limit_message));
    }
    Ok(LineStep::Chunk { consumed, terminated: available[consumed - 1] == 10 })
}

// ------------------------------------------------------------ workspace walk

pub open spec fn byte_views(v: Seq<Vec<u8>>) -> Seq<Seq<u8>> {
    v.map_values(|b: Vec<u8>| b@)
}

/// Names in ascending bytewise order: no later name below an earlier one.
pub open spec fn names_sorted(s: Seq<Seq<u8>>) -> bool {
    forall|i: int, j: int| 0 <= i < j < s.len() ==> !bytes_lt(s[j], s[i])
}

/// A directory's entry names in the order a walk visits them: ascending by
/// their bytes.
pub fn sort_names(names: Vec<Vec<u8>>) -> (r: Vec<Vec<u8>>)
    ensures
        names_sorted(byte_views(r@)),
        byte_views(r@).to_multiset() == byte_views(names@).to_multiset(),
{
    let mut sorted: Vec<Vec<u8>> = Vec::new();
    let mut rest = names;
    let ghost all = byte_views(rest@);
    let mut i: usize = 0;
    let n = rest.len();
    proof {
        assert(byte_views(sorted@) =~= Seq::<Seq<u8>>::empty());
        assert(all.take(0) =~= Seq::<Seq<u8>>::empty());
        assert(all.skip(0) =~= all);
        assert(all.len() == n);
    }
    while rest.len() > 0
        invariant
            names_sorted(byte_views(sorted@)),
            i + rest@.len() == all.len(),
            all.len() <= usize::MAX,
            byte_views(rest@) =~= all.skip(i as int),
            byte_views(sorted@).to_multiset() == all.take(i as int).to_multiset(),
        decreases rest@.len(),
    {
        let ghost before_rest = rest@;
        let x = rest.remove(0);
        proof {
            assert(rest@ =~= before_rest.drop_first());
            assert(x == before_rest[0]);
            assert(byte_views(before_rest)[0] == all.skip(i as int)[0]);
            assert forall|k: int| 0 <= k < rest@.len() implies byte_views(rest@)[k] == all.skip(i + 1)[k] by {
                assert(rest@[k] == before_rest[k + 1]);
                assert(byte_views(before_rest)[k + 1] == all.skip(i as int)[k + 1]);
            }
            assert(byte_views(rest@) =~= all.skip(i + 1));
            assert(x@ == all[i as int]);
        }
        let mut p: usize = 0;
        while p < sorted.len() && !bytes_less(x.as_slice(), sorted[p].as_slice())
            invariant
                p <= sorted@.len(),
                forall|k: int| 0 <= k < p ==> !bytes_lt(x@, #[trigger] byte_views(sorted@)[k]),
            decreases sorted@.len() - p,
        {
            p = p + 1;
        }
        let ghost before = byte_views(sorted@);
        sorted.insert(p, x);
        proof {
            let after = byte_views(sorted@);
            assert(after =~= before.insert(p as int, x@));
            assert forall|a: int, b: int| 0 <= a < b < after.len() implies !bytes_lt(after[b], after[a]) by {
                if b < p {
                    assert(after[a] == before[a] && after[b] == before[b]);
                } else if b == p {
                    assert(after[a] == before[a] && after[b] == x@);
                    assert(!bytes_lt(x@, before[a]));
                } else if a < p {
                    assert(after[a] == before[a] && after[b] == before[b - 1]);
                } else if a == p {
                    assert(after[a] == x@ && after[b] == before[b - 1]);
                    assert(p < before.len());
                    assert(bytes_lt(x@, before[p as int]));
                    if bytes_lt(before[b - 1], x@) {
                        lemma_bytes_lt_transitive(before[b - 1], x@, before[p as int]);
                        if b - 1 == p {
                            lemma_bytes_lt_irreflexive(before[p as int]);
                        }
                    }
                } else {
                    assert(after[a] == before[a - 1] && after[b] == before[b - 1]);
                }
            }
            assert(all.take(i + 1) =~= all.take(i as int).push(x@));
            vstd::seq_lib::to_multiset_insert(before, p as int, x@);
            vstd::seq_lib::to_multiset_build(all.take(i as int), x@);
            assert(after.to_multiset() == before.to_multiset().insert(x@));
            assert(all.take(i + 1).to_multiset() == all.take(i as int).to_multiset().insert(x@));
        }
        i = i + 1;
    }
    proof {
        assert(all.take(i as int) =~= all);
    }
    sorted
}

/// What a walk shows: hidden names, and names its ignore rules exclude.
#[derive(Debug, Clone, Copy, PartialEq, Eq, Structural)]
pub struct WalkControls {
    pub hidden: bool,
    pub gitignore: bool,
}

/// What a walk has visited: each file and each directory once.
#[derive(Debug)]
pub struct WalkState {
    pub seen_files: Vec<String>,
    pub seen_directories: Vec<String>,
}

pub open spec fn string_views(v: Seq<String>) -> Seq<Seq<char>> {
    v.map_values(|s: String| s@)
}

/// What the walk does with one entry.
#[derive(Debug, Clone, Copy, PartialEq, Eq, Structural)]
pub enum WalkDecision {
    /// Leave it out: hidden, ignored, or visited already.
    Skip,
    /// Visit the file.
    VisitFile,
    /// Visit the directory and walk into it.
    VisitDirectory,
}

/// A name a walk treats as hidden: one that begins with `.`.
pub open spec fn is_hidden_name(name: Seq<u8>) -> bool {
    name.len() > 0 && name[0] == 46
}

pub fn hidden_name(name: &[u8]) -> (b: bool)
    ensures
        b == is_hidden_name(name@),
{
    name.len() > 0 && name[0] == 46
}

/// The walk's decision for entry `key` (its canonical reference, or its
/// path for a directory): hidden and ignored entries are left out when the
/// controls say so, and nothing is visited twice.
pub open spec fn walk_decision(state: (Seq<Seq<char>>, Seq<Seq<char>>), controls: WalkControls, key: Seq<char>, is_dir: bool, hidden: bool, ignored: bool) -> WalkDecision {
    if !controls.hidden && hidden {
        WalkDecision::Skip
    } else if controls.gitignore && ignored {
        WalkDecision::Skip
    } else if is_dir {
        if state.1.contains(key) {
            WalkDecision::Skip
        } else {
            WalkDecision::VisitDirectory
        }
    } else if state.0.contains(key) {
        WalkDecision::Skip
    } else {
        WalkDecision::VisitFile
    }
}

fn contains_string(v: &Vec<String>, key: &str) -> (b: bool)
    ensures
        b == string_views(v@).contains(key@),
{
    let k = chars_of(key);
    let mut i: usize = 0;
    while i < v.len()
        invariant
            i <= v@.len(),
            k@ == key@,
            forall|j: int| 0 <= j < i ==> (#[trigger] string_views(v@)[j]) != key@,
        decreases v@.len() - i,
    {
        let c = chars_of(v[i].as_str());
        if crate::github::same_chars(c.as_slice(), k.as_slice()) {
            proof {
                assert(string_views(v@)[i as int] == key@);
            }
            return true;
        }
        i = i + 1;
    }
    false
}

impl WalkState {
    pub open spec fn view(&self) -> (Seq<Seq<char>>, Seq<Seq<char>>) {
        (string_views(self.seen_files@), string_views(self.seen_directories@))
    }

    pub fn new() -> (s: WalkState)
        ensures
            s.view().0.len() == 0 && s.view().1.len() == 0,
    {
        let s = WalkState { seen_files: Vec::new(), seen_directories: Vec::new() };
        proof {
            assert(string_views(s.seen_files@) =~= Seq::<Seq<char>>::empty());
            assert(string_views(s.seen_directories@) =~= Seq::<Seq<char>>::empty());
        }
        s
    }

    /// Admits one entry of the walk: decides it, and records a visited
    /// entry so that it is never visited again.
    pub fn admit_walk_entry(&mut self, controls: WalkControls, key: &str, is_dir: bool, hidden: bool, ignored: bool) -> (d:
        WalkDecision)
        ensures
            d == walk_decision(old(self).view(), controls, key@, is_dir, hidden, ignored),
            d == WalkDecision::Skip ==> final(self).view() == old(self).view(),
            d == WalkDecision::VisitFile ==> final(self).view() == (old(self).view().0.push(key@), old(self).view().1),
            d == WalkDecision::VisitDirectory ==> final(self).view() == (old(self).view().0, old(self).view().1.push(
                key@,
            )),
    {
        if !controls.hidden && hidden {
            return WalkDecision::Skip;
        }
        if controls.gitignore && ignored {
            return WalkDecision::Skip;
        }
        if is_dir {
            if contains_string(&self.seen_directories, key) {
                return WalkDecision::Skip;
            }
            let ghost before = self.seen_directories@;
            self.seen_directories.push(owned(key));
            proof {
                assert(string_views(self.seen_directories@) =~= string_views(before).push(key@));
            }
            return WalkDecision::VisitDirectory;
        }
        if contains_string(&self.seen_files, key) {
            return WalkDecision::Skip;
        }
        let ghost before = self.seen_files@;
        self.seen_files.push(owned(key));
        proof {
            assert(string_views(self.seen_files@) =~= string_views(before).push(key@));
        }
        WalkDecision::VisitFile
    }
}

/// A walk visits each entry at most once: an entry admitted for a visit is
/// remembered, and admitting the same entry again leaves it out.
pub proof fn lemma_visited_once(state: (Seq<Seq<char>>, Seq<Seq<char>>), controls: WalkControls, key: Seq<char>, is_dir: bool, hidden: bool, ignored: bool)
    requires
        walk_decision(state, controls, key, is_dir, hidden, ignored) != WalkDecision::Skip,
    ensures
        ({
            let next = if is_dir {
                (state.0, state.1.push(key))
            } else {
                (state.0.push(key), state.1)
            };
            walk_decision(next, controls, key, is_dir, hidden, ignored) == WalkDecision::Skip
        }),
{
    if is_dir {
        assert(state.1.push(key)[state.1.len() as int] == key);
    } else {
        assert(state.0.push(key)[state.0.len() as int] == key);
    }
}

// ------------------------------------------------------------ contained .gitignore

/// How a walk consults the ignore files from a directory inward: the
/// innermost file that says anything about a path decides.
#[derive(Debug, Clone, Copy, PartialEq, Eq, Structural)]
pub enum IgnoreMatch {
    Silent,
    Ignore,
    Whitelist,
}

/// Whether the ignore files, innermost first, exclude a path.
pub open spec fn ignored_by(matches: Seq<IgnoreMatch>) -> bool
    decreases matches.len(),
{
    if matches.len() == 0 {
        false
    } else {
        match matches[0] {
            IgnoreMatch::Ignore => true,
            IgnoreMatch::Whitelist => false,
            IgnoreMatch::Silent => ignored_by(matches.drop_first()),
        }
    }
}

/// Whether the ignore stack excludes a path, given what each of its files
/// (innermost first) says of it.
pub fn ignored_by_stack(matches: &[IgnoreMatch]) -> (b: bool)
    ensures
        b == ignored_by(matches@),
{
    let mut i: usize = 0;
    proof {
        assert(matches@.skip(0) =~= matches@);
    }
    while i < matches.len()
        invariant
            i <= matches@.len(),
            ignored_by(matches@) == ignored_by(matches@.skip(i as int)),
        decreases matches@.len() - i,
    {
        proof {
            assert(matches@.skip(i as int).drop_first() =~= matches@.skip(i + 1));
            assert(matches@.skip(i as int)[0] == matches@[i as int]);
        }
        match matches[i] {
            IgnoreMatch::Ignore => {
                return true;
            },
            IgnoreMatch::Whitelist => {
                return false;
            },
            IgnoreMatch::Silent => {},
        }
        i = i + 1;
    }
    false
}

/// What opening a directory's `.gitignore` gave.
#[derive(Debug)]
pub enum GitignoreOpen {
    /// A text file to read.
    File,
    /// Not a file.
    NotAFile,
    /// Opening failed.
    Failed(ResourceError),
}

/// The step a walk takes for a directory's `.gitignore`: read it, keep the
/// parent rules silently (there is none), or keep them and report why the
/// file was not read.
#[derive(Debug)]
pub enum GitignoreStep {
    Read,
    KeepParent,
    Diagnose { category: ErrorCategory, message: String },
}

pub fn gitignore_open_step(opened: GitignoreOpen) -> (s: GitignoreStep)
    ensures
        match opened {
            GitignoreOpen::File => s matches GitignoreStep::Read,
            GitignoreOpen::NotAFile => s matches GitignoreStep::Diagnose { category, message }
                && category == ErrorCategory::UnsupportedProjection && message@
                == "contained .gitignore Resource is not a text file"@,
            GitignoreOpen::Failed(e) => if e.category == ErrorCategory::NotFound {
                s matches GitignoreStep::KeepParent
            } else {
                s matches GitignoreStep::Diagnose { category, message } && category == e.category && message@
                    == e.message@
            },
        },
{
    match opened {
        GitignoreOpen::File => GitignoreStep::Read,
        GitignoreOpen::NotAFile => GitignoreStep::Diagnose {
            category: ErrorCategory::UnsupportedProjection,
            message: owned("contained .gitignore Resource is not a text file"),
        },
        GitignoreOpen::Failed(e) => match e.category {
            ErrorCategory::NotFound => GitignoreStep::KeepParent,
            _ => GitignoreStep::Diagnose { category: e.category, message: e.message },
        },
    }
}

/// A failed line read of a `.gitignore`: a cancellation ends the walk
/// (`Err`); anything else is reported and the parent rules are kept.
pub fn gitignore_read_failure(error: ResourceError) -> (r: Result<(ErrorCategory, String), ResourceError>)
    ensures
        error.category == ErrorCategory::Cancelled ==> r == Err::<(ErrorCategory, String), ResourceError>(error),
        error.category != ErrorCategory::Cancelled ==> (r matches Ok((category, message)) && category == error.category
            && message@ == if error.category == ErrorCategory::LimitExceeded {
            "contained .gitignore exceeds the 64 MiB Resource ceiling"@
        } else {
            "contained .gitignore could not be read"@
        }),
{
    match error.category {
        ErrorCategory::Cancelled => Err(error),
        ErrorCategory::LimitExceeded => Ok(
            (error.category, owned("contained .gitignore exceeds the 64 MiB Resource ceiling")),
        ),
        _ => Ok((error.category, owned("contained .gitignore could not be read"))),
    }
}

/// `s` without one final `c`, if it ends with one.
pub open spec fn strip_last(s: Seq<char>, c: char) -> Seq<char> {
    if s.len() > 0 && s.last() == c {
        s.drop_last()
    } else {
        s
    }
}

/// The rule a `.gitignore` line holds: the line less its `\n`, then less a
/// `\r`, and on the first line less any leading byte-order marks; `None`
/// when the line is not UTF-8.
pub open spec fn gitignore_rule_spec(line: Seq<u8>, line_number: u64) -> Option<Seq<char>> {
    if !vstd::utf8::valid_utf8(line) {
        None
    } else {
        let rule = strip_last(strip_last(vstd::utf8::decode_utf8(line), '\n'), '\r');
        Some(
            if line_number == 1 {
                trim_start_char(rule, '\u{feff}')
            } else {
                rule
            },
        )
    }
}

fn strip_last_char(v: &Vec<char>, c: char) -> (r: Vec<char>)
    ensures
        r@ == strip_last(v@, c),
{
    if v.len() > 0 && v[v.len() - 1] == c {
        crate::text::sub_chars(v.as_slice(), 0, v.len() - 1)
    } else {
        crate::text::sub_chars(v.as_slice(), 0, v.len())
    }
}

/// The rule one `.gitignore` line holds.
pub fn gitignore_rule(line: &[u8], line_number: u64) -> (r: Option<String>)
    ensures
        match r {
            Some(s) => gitignore_rule_spec(line@, line_number) == Some(s@),
            None => gitignore_rule_spec(line@, line_number) is None,
        },
{
    let text = utf8_string(line)?;
    let chars = chars_of(text.as_str());
    let rule = strip_last_char(&strip_last_char(&chars, '\n'), '\r');
    proof {
        assert(rule@.subrange(0, rule@.len() as int) =~= rule@);
    }
    if line_number == 1 {
        Some(string_of(&trim_start_char_chars(rule.as_slice(), '\u{feff}')))
    } else {
        Some(string_of(&rule))
    }
}

/// What a `.gitignore` may still hold once `total` bytes are read: the rest
/// of the 64 MiB Resource ceiling.
pub fn gitignore_remaining(total: usize) -> (r: usize)
    ensures
        r == if total <= crate::workspace::MAX_ARTIFACT_BYTES {
            (crate::workspace::MAX_ARTIFACT_BYTES - total) as usize
        } else {
            0
        },
{
    crate::workspace::MAX_ARTIFACT_BYTES.saturating_sub(total)
}

/// The bytes read of a `.gitignore` after one more line of `read` bytes.
pub fn gitignore_total(total: usize, read: usize) -> (r: Result<usize, ResourceError>)
    ensures
        total + read <= usize::MAX ==> r == Ok::<usize, ResourceError>((total + read) as usize),
        total + read > usize::MAX ==> (r matches Err(e) && is_refusal(
            e,
            ErrorCategory::LimitExceeded,
            "contained .gitignore byte count is not representable"@,
        )),
{
    match total.checked_add(read) {
        Some(t) => Ok(t),
        None => Err(ResourceError::new(ErrorCategory::LimitExceeded, "contained .gitignore byte count is not representable")),
    }
}

/// The traversal state one kept rule retains: its bytes and the overhead
/// every rule of the file carries.
pub fn retained_rule_bytes(overhead: usize, rule_len: usize) -> (r: Result<usize, ResourceError>)
    ensures
        overhead + rule_len <= usize::MAX ==> r == Ok::<usize, ResourceError>((overhead + rule_len) as usize),
        overhead + rule_len > usize::MAX ==> (r matches Err(e) && is_refusal(
            e,
            ErrorCategory::LimitExceeded,
            "contained .gitignore state size is not representable"@,
        )),
{
    match overhead.checked_add(rule_len) {
        Some(t) => Ok(t),
        None => Err(ResourceError::new(ErrorCategory::LimitExceeded, "contained .gitignore state size is not representable")),
    }
}

} // verus!
