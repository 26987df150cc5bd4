//! The order in which aggregate renderings list comments and reviews: by an
//! optional timestamp text, then by numeric identity, keeping the input order
//! of records whose keys are equal.
use vstd::prelude::*;
use crate::text::{chars_lt, seq_lt};

verus! {

broadcast use vstd::seq_lib::group_to_multiset_ensures;

/// A record's sort key: whether the timestamp is present (absent sorts
/// first), the timestamp text, and the record's numeric id.
pub type StampKey = (bool, Seq<char>, u64);

/// `a` sorts strictly before `b`; with `desc` the timestamps compare in
/// descending order (ids always ascend).
pub open spec fn key_lt(desc: bool, a: StampKey, b: StampKey) -> bool {
    if a.0 != b.0 {
        !a.0
    } else if a.1 != b.1 {
        if desc {
            seq_lt(b.1, a.1)
        } else {
            seq_lt(a.1, b.1)
        }
    } else {
        a.2 < b.2
    }
}

/// Where a stable insertion puts `x` into `s`: before the first element whose
/// key is strictly greater than the key of `x`, else at the end.
pub open spec fn insert_point<T>(s: Seq<T>, key: spec_fn(T) -> StampKey, desc: bool, x: T) -> int
    decreases s.len(),
{
    if s.len() == 0 {
        0
    } else if key_lt(desc, key(x), key(s[0])) {
        0
    } else {
        1 + insert_point(s.drop_first(), key, desc, x)
    }
}

/// The stable sort of `s` by `key`: each element, in input order, goes after
/// every element already placed whose key is not greater than its own.
pub open spec fn stable_sorted<T>(s: Seq<T>, key: spec_fn(T) -> StampKey, desc: bool) -> Seq<T>
    decreases s.len(),
{
    if s.len() == 0 {
        s
    } else {
        let r = stable_sorted(s.drop_last(), key, desc);
        r.insert(insert_point(r, key, desc, s.last()), s.last())
    }
}

/// No element of `s` has a key strictly smaller than an element before it.
pub open spec fn ordered_by<T>(s: Seq<T>, key: spec_fn(T) -> StampKey, desc: bool) -> bool {
    forall|i: int, j: int| 0 <= i < j < s.len() ==> !key_lt(desc, #[trigger] key(s[j]), #[trigger] key(s[i]))
}

proof fn lemma_seq_lt_irreflexive(a: Seq<char>)
    ensures
        !seq_lt(a, a),
    decreases a.len(),
{
    if a.len() > 0 {
        lemma_seq_lt_irreflexive(a.drop_first());
    }
}

proof fn lemma_seq_lt_transitive(a: Seq<char>, b: Seq<char>, c: Seq<char>)
    requires
        seq_lt(a, b),
        seq_lt(b, c),
    ensures
        seq_lt(a, c),
    decreases a.len(),
{
    if a.len() > 0 && b.len() > 0 && c.len() > 0 && a[0] == b[0] && b[0] == c[0] {
        lemma_seq_lt_transitive(a.drop_first(), b.drop_first(), c.drop_first());
    }
}

pub proof fn lemma_key_lt_irreflexive(desc: bool, a: StampKey)
    ensures
        !key_lt(desc, a, a),
{
    lemma_seq_lt_irreflexive(a.1);
}

pub proof fn lemma_key_lt_transitive(desc: bool, a: StampKey, b: StampKey, c: StampKey)
    requires
        key_lt(desc, a, b),
        key_lt(desc, b, c),
    ensures
        key_lt(desc, a, c),
{
    if a.0 == b.0 && b.0 == c.0 {
        if a.1 != b.1 && b.1 != c.1 {
            if desc {
                lemma_seq_lt_transitive(c.1, b.1, a.1);
                if a.1 == c.1 {
                    lemma_seq_lt_irreflexive(a.1);
                }
            } else {
                lemma_seq_lt_transitive(a.1, b.1, c.1);
                if a.1 == c.1 {
                    lemma_seq_lt_irreflexive(a.1);
                }
            }
        }
    }
}

proof fn lemma_insert_point_bounds<T>(s: Seq<T>, key: spec_fn(T) -> StampKey, desc: bool, x: T)
    ensures
        0 <= insert_point(s, key, desc, x) <= s.len(),
        forall|m: int| 0 <= m < insert_point(s, key, desc, x) ==> !key_lt(desc, key(x), #[trigger] key(s[m])),
        insert_point(s, key, desc, x) < s.len() ==> key_lt(desc, key(x), key(s[insert_point(s, key, desc, x)])),
    decreases s.len(),
{
    if s.len() > 0 && !key_lt(desc, key(x), key(s[0])) {
        let t = s.drop_first();
        lemma_insert_point_bounds(t, key, desc, x);
        assert forall|m: int| 0 <= m < insert_point(s, key, desc, x) implies !key_lt(desc, key(x), #[trigger] key(s[m])) by {
            if m > 0 {
                assert(s[m] == t[m - 1]);
            }
        }
    }
}

proof fn lemma_insert_point_first<T>(s: Seq<T>, key: spec_fn(T) -> StampKey, desc: bool, x: T, j: int)
    requires
        0 <= j <= s.len(),
        forall|m: int| 0 <= m < j ==> !key_lt(desc, key(x), #[trigger] key(s[m])),
        j < s.len() ==> key_lt(desc, key(x), key(s[j])),
    ensures
        insert_point(s, key, desc, x) == j,
    decreases s.len(),
{
    if s.len() > 0 && j > 0 {
        let t = s.drop_first();
        assert(!key_lt(desc, key(x), key(s[0])));
        assert forall|m: int| 0 <= m < j - 1 implies !key_lt(desc, key(x), #[trigger] key(t[m])) by {
            assert(t[m] == s[m + 1]);
        }
        if j < s.len() {
            assert(t[j - 1] == s[j]);
        }
        lemma_insert_point_first(t, key, desc, x, j - 1);
    }
}

/// Law: the stable sort is a rearrangement of its input; every element occurs
/// in the result as often as in the input.
pub proof fn lemma_stable_sorted_permutes<T>(s: Seq<T>, key: spec_fn(T) -> StampKey, desc: bool)
    ensures
        stable_sorted(s, key, desc).to_multiset() == s.to_multiset(),
        stable_sorted(s, key, desc).len() == s.len(),
    decreases s.len(),
{
    if s.len() > 0 {
        let r = stable_sorted(s.drop_last(), key, desc);
        lemma_stable_sorted_permutes(s.drop_last(), key, desc);
        lemma_insert_point_bounds(r, key, desc, s.last());
        assert(s.drop_last().push(s.last()) =~= s);
    }
}

/// Law: the stable sort lists no element before one with a smaller key.
pub proof fn lemma_stable_sorted_ordered<T>(s: Seq<T>, key: spec_fn(T) -> StampKey, desc: bool)
    ensures
        ordered_by(stable_sorted(s, key, desc), key, desc),
    decreases s.len(),
{
    if s.len() > 0 {
        let r = stable_sorted(s.drop_last(), key, desc);
        let x = s.last();
        let p = insert_point(r, key, desc, x);
        lemma_stable_sorted_ordered(s.drop_last(), key, desc);
        lemma_insert_point_bounds(r, key, desc, x);
        let out = r.insert(p, x);
        assert(out == stable_sorted(s, key, desc));
        assert forall|i: int, j: int| 0 <= i < j < out.len() implies !key_lt(desc, #[trigger] key(out[j]), #[trigger] key(out[i])) by {
            if j < p {
                assert(out[i] == r[i] && out[j] == r[j]);
            } else if j == p {
                assert(out[i] == r[i] && out[j] == x);
            } else if i < p {
                assert(out[i] == r[i] && out[j] == r[j - 1]);
                // r[i] <= x < r[p] <= r[j-1]
                if key_lt(desc, key(r[j - 1]), key(r[i])) {
                    if key_lt(desc, key(x), key(r[j - 1])) {
                        lemma_key_lt_transitive(desc, key(x), key(r[j - 1]), key(r[i]));
                    } else {
                        assert(key_lt(desc, key(x), key(r[p])));
                        if j - 1 > p {
                            assert(!key_lt(desc, key(r[j - 1]), key(r[p])));
                        }
                        lemma_key_lt_transitive(desc, key(r[j - 1]), key(r[i]), key(r[p]));
                        if j - 1 > p {
                            assert(false);
                        } else {
                            lemma_key_lt_irreflexive(desc, key(r[p]));
                        }
                    }
                }
            } else if i == p {
                assert(out[i] == x && out[j] == r[j - 1]);
                assert(key_lt(desc, key(x), key(r[p])));
                if key_lt(desc, key(r[j - 1]), key(x)) {
                    if j - 1 == p {
                        lemma_key_lt_transitive(desc, key(x), key(r[p]), key(x));
                        lemma_key_lt_irreflexive(desc, key(x));
                    } else {
                        assert(!key_lt(desc, key(r[j - 1]), key(r[p])));
                        lemma_key_lt_transitive(desc, key(r[j - 1]), key(x), key(r[p]));
                    }
                }
            } else {
                assert(out[i] == r[i - 1] && out[j] == r[j - 1]);
            }
        }
    }
}

/// A sort key held in memory.
pub struct ExecStampKey {
    pub present: bool,
    pub stamp: Vec<char>,
    pub id: u64,
}

impl ExecStampKey {
    pub open spec fn key(&self) -> StampKey {
        (self.present, self.stamp@, self.id)
    }
}

/// `a == b` over two character slices.
pub fn chars_eq(a: &[char], b: &[char]) -> (r: bool)
    ensures
        r == (a@ == b@),
{
    if a.len() != b.len() {
        return false;
    }
    let mut i: usize = 0;
    while i < a.len()
        invariant
            i <= a@.len(),
            a@.len() == b@.len(),
            forall|m: int| 0 <= m < i ==> a@[m] == b@[m],
        decreases a@.len() - i,
    {
        if a[i] != b[i] {
            return false;
        }
        i = i + 1;
    }
    proof {
        assert(a@ =~= b@);
    }
    true
}

fn exec_key_lt(desc: bool, a: &ExecStampKey, b: &ExecStampKey) -> (r: bool)
    ensures
        r == key_lt(desc, a.key(), b.key()),
{
    if a.present != b.present {
        !a.present
    } else if !chars_eq(a.stamp.as_slice(), b.stamp.as_slice()) {
        if desc {
            chars_lt(b.stamp.as_slice(), a.stamp.as_slice())
        } else {
            chars_lt(a.stamp.as_slice(), b.stamp.as_slice())
        }
    } else {
        a.id < b.id
    }
}

/// Sorts `items` stably by the keys `keys`, where `keys[i]` is the key of
/// `items[i]`; `desc` orders the timestamps from latest to earliest.
pub fn sort_stable<T>(items: Vec<T>, keys: Vec<ExecStampKey>, desc: bool, Ghost(key): Ghost<spec_fn(T) -> StampKey>) -> (r: Vec<T>)
    requires
        keys@.len() == items@.len(),
        forall|i: int| 0 <= i < items@.len() ==> (#[trigger] keys@[i]).key() == key(items@[i]),
    ensures
        r@ == stable_sorted(items@, key, desc),
{
    let ghost orig = items@;
    let ghost n = items@.len();
    assert(items@.len() == items.len());
    let mut items = items;
    let mut keys = keys;
    let mut out: Vec<T> = Vec::new();
    let mut out_keys: Vec<ExecStampKey> = Vec::new();
    let mut done: usize = 0;
    while items.len() > 0
        invariant
            items@ == orig.skip(done as int),
            keys@.len() == items@.len(),
            forall|i: int| 0 <= i < items@.len() ==> (#[trigger] keys@[i]).key() == key(items@[i]),
            done <= n,
            n == orig.len(),
            n <= usize::MAX,
            out@ == stable_sorted(orig.take(done as int), key, desc),
            out_keys@.len() == out@.len(),
            forall|i: int| 0 <= i < out@.len() ==> (#[trigger] out_keys@[i]).key() == key(out@[i]),
        decreases items@.len(),
    {
        let ghost keys_before = keys@;
        assert(orig.skip(done as int).len() == n - done);
        let x = items.remove(0);
        let kx = keys.remove(0);
        proof {
            assert(keys@.len() == items@.len());
            assert forall|i: int| 0 <= i < items@.len() implies (#[trigger] keys@[i]).key() == key(items@[i]) by {
                assert(keys@[i] == keys_before[i + 1]);
            }
        }
        let mut j: usize = 0;
        while j < out.len() && !exec_key_lt(desc, &kx, &out_keys[j])
            invariant
                j <= out@.len(),
                out_keys@.len() == out@.len(),
                forall|i: int| 0 <= i < out@.len() ==> (#[trigger] out_keys@[i]).key() == key(out@[i]),
                kx.key() == key(x),
                forall|m: int| 0 <= m < j ==> !key_lt(desc, key(x), #[trigger] key(out@[m])),
            decreases out@.len() - j,
        {
            j = j + 1;
        }
        proof {
            if j < out@.len() {
                assert(out_keys@[j as int].key() == key(out@[j as int]));
            }
            lemma_insert_point_first(out@, key, desc, x, j as int);
            let t = orig.take(done + 1);
            assert(orig.skip(done as int)[0] == orig[done as int]);
            assert(t.drop_last() =~= orig.take(done as int));
            assert(t.last() == x);
        }
        let ghost prev = out@;
        out.insert(j, x);
        out_keys.insert(j, kx);
        done = done + 1;
        proof {
            assert(items@ =~= orig.skip(done as int));
            assert forall|i: int| 0 <= i < out@.len() implies (#[trigger] out_keys@[i]).key() == key(out@[i]) by {
                if i < j {
                } else if i == j {
                } else {
                    assert(out@[i] == prev[i - 1]);
                }
            }
        }
    }
    proof {
        assert(orig.take(n as int) =~= orig);
    }
    out
}

} // verus!
