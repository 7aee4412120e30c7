//! Maps keyed by text whose entries stay in key order, with the key order of `str`.
use vstd::prelude::*;

use crate::text::{chars_lt, spec_chars_lt};

verus! {

/// Number of leading keys that sort before `k`: where `k` goes in a key-ordered list.
pub open spec fn lower_bound(keys: Seq<Seq<char>>, k: Seq<char>) -> int
    decreases keys.len(),
{
    if keys.len() == 0 {
        0
    } else if spec_chars_lt(keys[0], k) {
        1 + lower_bound(keys.drop_first(), k)
    } else {
        0
    }
}

pub proof fn lemma_lower_bound_range(keys: Seq<Seq<char>>, k: Seq<char>)
    ensures
        0 <= lower_bound(keys, k) <= keys.len(),
    decreases keys.len(),
{
    if keys.len() > 0 && spec_chars_lt(keys[0], k) {
        lemma_lower_bound_range(keys.drop_first(), k);
    }
}

/// No key sorts before itself.
pub proof fn lemma_lt_irreflexive(a: Seq<char>)
    ensures
        !spec_chars_lt(a, a),
    decreases a.len(),
{
    if a.len() > 0 {
        lemma_lt_irreflexive(a.drop_first());
    }
}

/// The key order is transitive.
pub proof fn lemma_lt_transitive(a: Seq<char>, b: Seq<char>, c: Seq<char>)
    requires
        spec_chars_lt(a, b),
        spec_chars_lt(b, c),
    ensures
        spec_chars_lt(a, c),
    decreases a.len(),
{
    if a.len() > 0 && b.len() > 0 && c.len() > 0 && a[0] == b[0] && b[0] == c[0] {
        lemma_lt_transitive(a.drop_first(), b.drop_first(), c.drop_first());
    }
}

/// Two different keys are ordered one way or the other.
pub proof fn lemma_lt_total(a: Seq<char>, b: Seq<char>)
    ensures
        a == b || spec_chars_lt(a, b) || spec_chars_lt(b, a),
    decreases a.len(),
{
    if a.len() == 0 && b.len() == 0 {
        assert(a =~= b);
    } else if a.len() > 0 && b.len() > 0 && a[0] == b[0] {
        lemma_lt_total(a.drop_first(), b.drop_first());
        assert(a.drop_first().len() == a.len() - 1);
        assert(b.drop_first().len() == b.len() - 1);
        if a.drop_first() == b.drop_first() {
            assert(a.len() == b.len());
            assert forall|i: int| 0 <= i < a.len() implies a[i] == b[i] by {
                if i > 0 {
                    assert(a[i] == a.drop_first()[i - 1]);
                    assert(b[i] == b.drop_first()[i - 1]);
                }
            }
            assert(a =~= b);
        }
    } else if a.len() > 0 && b.len() > 0 {
        assert((a[0] as int) != (b[0] as int));
    }
}

/// Keys in strictly increasing order.
pub open spec fn sorted_keys(keys: Seq<Seq<char>>) -> bool {
    forall|i: int, j: int| 0 <= i < j < keys.len() ==> spec_chars_lt(#[trigger] keys[i], #[trigger] keys[j])
}

/// The keys before the lower bound of `k` sort before it; the key at the bound does not.
pub proof fn lemma_lower_bound_split(keys: Seq<Seq<char>>, k: Seq<char>)
    ensures
        forall|i: int| 0 <= i < lower_bound(keys, k) ==> spec_chars_lt(#[trigger] keys[i], k),
        lower_bound(keys, k) < keys.len() ==> !spec_chars_lt(keys[lower_bound(keys, k)], k),
    decreases keys.len(),
{
    lemma_lower_bound_range(keys, k);
    if keys.len() > 0 && spec_chars_lt(keys[0], k) {
        lemma_lower_bound_split(keys.drop_first(), k);
        assert forall|i: int| 0 <= i < lower_bound(keys, k) implies spec_chars_lt(#[trigger] keys[i], k) by {
            if i > 0 {
                assert(keys[i] == keys.drop_first()[i - 1]);
            }
        }
        lemma_lower_bound_range(keys.drop_first(), k);
        assert(lower_bound(keys, k) == 1 + lower_bound(keys.drop_first(), k));
        assert(keys.drop_first().len() == keys.len() - 1);
        if lower_bound(keys, k) < keys.len() {
            assert(keys[lower_bound(keys, k)] == keys.drop_first()[lower_bound(keys.drop_first(), k)]);
        }
    }
}

/// In sorted keys, a key that `key_index` does not find is absent, and inserting it at its
/// lower bound keeps the keys sorted.
pub proof fn lemma_insert_sorted(keys: Seq<Seq<char>>, k: Seq<char>)
    requires
        sorted_keys(keys),
        key_index(keys, k) is None,
    ensures
        !keys.contains(k),
        sorted_keys(keys.insert(lower_bound(keys, k), k)),
{
    let p = lower_bound(keys, k);
    lemma_lower_bound_range(keys, k);
    lemma_lower_bound_split(keys, k);
    // every key from the bound on sorts after k
    assert forall|i: int| p <= i < keys.len() implies spec_chars_lt(k, #[trigger] keys[i]) by {
        lemma_lt_total(keys[p], k);
        if i > p {
            lemma_lt_transitive(k, keys[p], keys[i]);
        }
    }
    assert forall|i: int| 0 <= i < keys.len() implies #[trigger] keys[i] != k by {
        if i < p {
            lemma_lt_irreflexive(k);
        } else {
            lemma_lt_irreflexive(k);
        }
    }
    let r = keys.insert(p, k);
    assert forall|i: int, j: int| 0 <= i < j < r.len() implies spec_chars_lt(#[trigger] r[i], #[trigger] r[j]) by {
        if j < p {
        } else if j == p {
        } else if i < p {
            lemma_lt_transitive(keys[i], k, keys[j - 1]);
        } else if i == p {
        } else {
        }
    }
}

/// Removing a key keeps sorted keys sorted.
pub proof fn lemma_remove_sorted(keys: Seq<Seq<char>>, k: int)
    requires
        sorted_keys(keys),
        0 <= k < keys.len(),
    ensures
        sorted_keys(keys.remove(k)),
{
    let r = keys.remove(k);
    assert forall|i: int, j: int| 0 <= i < j < r.len() implies spec_chars_lt(#[trigger] r[i], #[trigger] r[j]) by {
        let i0 = if i < k { i } else { i + 1 };
        let j0 = if j < k { j } else { j + 1 };
        assert(r[i] == keys[i0]);
        assert(r[j] == keys[j0]);
    }
}

/// In sorted keys, the key at a found position occurs nowhere else.
pub proof fn lemma_sorted_distinct(keys: Seq<Seq<char>>, i: int, j: int)
    requires
        sorted_keys(keys),
        0 <= i < keys.len(),
        0 <= j < keys.len(),
        i != j,
    ensures
        keys[i] != keys[j],
{
    if i < j {
        assert(spec_chars_lt(keys[i], keys[j]));
        lemma_lt_irreflexive(keys[i]);
    } else {
        assert(spec_chars_lt(keys[j], keys[i]));
        lemma_lt_irreflexive(keys[j]);
    }
}

/// Position of key `k`, if the list holds it.
pub open spec fn key_index(keys: Seq<Seq<char>>, k: Seq<char>) -> Option<int> {
    let p = lower_bound(keys, k);
    if p < keys.len() && keys[p] == k {
        Some(p)
    } else {
        None
    }
}

/// The keys after inserting `k` into a set kept in key order.
pub open spec fn set_insert(keys: Seq<Seq<char>>, k: Seq<char>) -> Seq<Seq<char>> {
    if key_index(keys, k) is Some {
        keys
    } else {
        keys.insert(lower_bound(keys, k), k)
    }
}

pub fn lower_bound_in(keys: &Vec<Vec<char>>, k: &Vec<char>) -> (res: usize)
    ensures
        res == lower_bound(keys@.map_values(|v: Vec<char>| v@), k@),
        res <= keys@.len(),
{
    let ghost kv = keys@.map_values(|v: Vec<char>| v@);
    let n = keys.len();
    let mut j: usize = 0;
    assert(kv.skip(0) =~= kv);
    while j < n
        invariant
            n == keys@.len() == kv.len(),
            kv == keys@.map_values(|v: Vec<char>| v@),
            j <= n,
            lower_bound(kv, k@) == j + lower_bound(kv.skip(j as int), k@),
        decreases n - j,
    {
        assert(kv.skip(j as int)[0] == keys@[j as int]@);
        if !chars_lt(&keys[j], k) {
            return j;
        }
        assert(kv.skip(j as int).drop_first() =~= kv.skip(j + 1));
        j = j + 1;
    }
    assert(kv.skip(n as int).len() == 0);
    n
}

/// Inserts `k` into a key-ordered set of keys.
pub fn set_insert_exec(keys: &mut Vec<Vec<char>>, k: &Vec<char>)
    ensures
        final(keys)@.map_values(|v: Vec<char>| v@) == set_insert(old(keys)@.map_values(|v: Vec<char>| v@), k@),
{
    let ghost kv = keys@.map_values(|v: Vec<char>| v@);
    let p = lower_bound_in(keys, k);
    if p < keys.len() && crate::text::chars_equal(&keys[p], k) {
        return;
    }
    keys.insert(p, crate::text::clone_chars(k));
    assert(keys@.map_values(|v: Vec<char>| v@) =~= kv.insert(p as int, k@));
}

/// Entries in key order: `keys[i]` maps to `values[i]`.
pub struct SortedMap<V> {
    pub keys: Vec<Vec<char>>,
    pub values: Vec<V>,
}

impl<V> SortedMap<V> {
    pub open spec fn key_view(&self) -> Seq<Seq<char>> {
        self.keys@.map_values(|k: Vec<char>| k@)
    }

    /// Each key has its value, and the keys are in strictly increasing order, so that no key
    /// occurs twice.
    pub open spec fn wf(&self) -> bool {
        &&& self.keys@.len() == self.values@.len()
        &&& sorted_keys(self.key_view())
    }

    pub fn new() -> (res: Self)
        ensures
            res.wf(),
            res.key_view() == Seq::<Seq<char>>::empty(),
            res.values@ == Seq::<V>::empty(),
    {
        let res = SortedMap { keys: Vec::new(), values: Vec::new() };
        assert(res.key_view() =~= Seq::<Seq<char>>::empty());
        res
    }

    pub fn lower_bound_of(&self, k: &Vec<char>) -> (res: usize)
        ensures
            res == lower_bound(self.key_view(), k@),
            res <= self.keys@.len(),
    {
        lower_bound_in(&self.keys, k)
    }

    pub fn find(&self, k: &Vec<char>) -> (res: Option<usize>)
        ensures
            match res {
                Some(p) => key_index(self.key_view(), k@) == Some(p as int) && p < self.keys@.len(),
                None => key_index(self.key_view(), k@) is None,
            },
    {
        let p = self.lower_bound_of(k);
        if p < self.keys.len() && crate::text::chars_equal(&self.keys[p], k) {
            Some(p)
        } else {
            None
        }
    }

    pub fn insert_at(&mut self, p: usize, k: Vec<char>, v: V)
        requires
            old(self).wf(),
            key_index(old(self).key_view(), k@) is None,
            p == lower_bound(old(self).key_view(), k@),
        ensures
            final(self).wf(),
            final(self).key_view() == old(self).key_view().insert(p as int, k@),
            final(self).values@ == old(self).values@.insert(p as int, v),
    {
        let ghost old_kv = self.key_view();
        proof {
            lemma_lower_bound_range(old_kv, k@);
            lemma_insert_sorted(old_kv, k@);
        }
        self.keys.insert(p, k);
        self.values.insert(p, v);
        assert(self.key_view() =~= old_kv.insert(p as int, k@));
    }

    pub fn remove_at(&mut self, p: usize) -> (res: (Vec<char>, V))
        requires
            old(self).wf(),
            p < old(self).keys@.len(),
        ensures
            final(self).wf(),
            final(self).key_view() == old(self).key_view().remove(p as int),
            final(self).values@ == old(self).values@.remove(p as int),
            res.0@ == old(self).key_view()[p as int],
            res.1 == old(self).values@[p as int],
    {
        let ghost old_kv = self.key_view();
        proof {
            lemma_remove_sorted(old_kv, p as int);
        }
        let k = self.keys.remove(p);
        let v = self.values.remove(p);
        assert(self.key_view() =~= old_kv.remove(p as int));
        (k, v)
    }
}

} // verus!
