//! A small association map with string keys and unique-key invariant.
//!
//! The engine's caches and sliding windows need maps they can also walk
//! entry by entry (to match every market of a condition, to sweep stale
//! windows); this one keeps keys and values in parallel vectors and exposes
//! both keyed lookup and positional access.

use vstd::prelude::*;

verus! {

/// Index of the first occurrence of `k` at or after `i`, or `-1`.
pub open spec fn key_index_from(keys: Seq<Seq<char>>, k: Seq<char>, i: int) -> int
    decreases keys.len() - i,
{
    if i < 0 || i >= keys.len() {
        -1
    } else if keys[i] == k {
        i
    } else {
        key_index_from(keys, k, i + 1)
    }
}

/// Index of `k` in `keys`, or `-1` when absent.
pub open spec fn key_index(keys: Seq<Seq<char>>, k: Seq<char>) -> int {
    key_index_from(keys, k, 0)
}

/// No key occurs twice.
pub open spec fn keys_unique(keys: Seq<Seq<char>>) -> bool {
    forall|i: int, j: int| 0 <= i < j < keys.len() ==> keys[i] != keys[j]
}

/// A found key lies in range, on the key, with no earlier occurrence.
pub proof fn lemma_key_index_found(keys: Seq<Seq<char>>, k: Seq<char>, i: int)
    requires
        0 <= i,
        key_index_from(keys, k, i) >= 0,
    ensures
        i <= key_index_from(keys, k, i) < keys.len(),
        keys[key_index_from(keys, k, i)] == k,
        forall|j: int| i <= j < key_index_from(keys, k, i) ==> keys[j] != k,
    decreases keys.len() - i,
{
    if i < keys.len() && keys[i] != k {
        lemma_key_index_found(keys, k, i + 1);
    }
}

/// A missing key occurs nowhere.
pub proof fn lemma_key_index_missing(keys: Seq<Seq<char>>, k: Seq<char>, i: int)
    requires
        0 <= i,
        key_index_from(keys, k, i) == -1,
    ensures
        forall|j: int| i <= j < keys.len() ==> keys[j] != k,
    decreases keys.len() - i,
{
    if i < keys.len() && keys[i] != k {
        lemma_key_index_missing(keys, k, i + 1);
    }
}

/// Conversely: a key that occurs somewhere is found.
pub proof fn lemma_key_index_occurs(keys: Seq<Seq<char>>, k: Seq<char>, j: int)
    requires
        0 <= j < keys.len(),
        keys[j] == k,
    ensures
        key_index(keys, k) >= 0,
{
    lemma_key_index_bounds(keys, k, 0);
    if key_index(keys, k) == -1 {
        lemma_key_index_missing(keys, k, 0);
    }
}

/// The search result is `-1` or a valid index.
pub proof fn lemma_key_index_bounds(keys: Seq<Seq<char>>, k: Seq<char>, i: int)
    requires
        0 <= i,
    ensures
        key_index_from(keys, k, i) == -1 || (i <= key_index_from(keys, k, i) < keys.len()),
    decreases keys.len() - i,
{
    if i < keys.len() && keys[i] != k {
        lemma_key_index_bounds(keys, k, i + 1);
    }
}

/// Appending a key leaves the position of every present key unchanged.
pub proof fn lemma_key_index_push_preserves(keys: Seq<Seq<char>>, x: Seq<char>, k: Seq<char>, i: int)
    requires
        0 <= i,
        key_index_from(keys, k, i) >= 0,
    ensures
        key_index_from(keys.push(x), k, i) == key_index_from(keys, k, i),
    decreases keys.len() - i,
{
    assert(keys.push(x)[i] == if i < keys.len() {
        keys[i]
    } else {
        x
    });
    if i < keys.len() && keys[i] != k {
        lemma_key_index_push_preserves(keys, x, k, i + 1);
    }
}

/// A key in a pushed list is the new key or was already present.
pub proof fn lemma_contains_push(keys: Seq<Seq<char>>, x: Seq<char>, k: Seq<char>)
    requires
        key_index(keys.push(x), k) >= 0,
    ensures
        k == x || key_index(keys, k) >= 0,
{
    lemma_key_index_found(keys.push(x), k, 0);
    let ix = key_index(keys.push(x), k);
    if ix < keys.len() {
        lemma_key_index_occurs(keys, k, ix);
    }
}

/// What removing one entry does to lookups: the removed key is gone, every
/// other key keeps its value.
pub proof fn lemma_remove_at_semantics<V>(pre: AssocMap<V>, post: AssocMap<V>, i: int, k: Seq<char>)
    requires
        pre.wf(),
        0 <= i < pre.spec_len(),
        post.skeys() == pre.skeys().remove(i),
        post.svals() == pre.svals().remove(i),
    ensures
        post.spec_contains(k) <==> (pre.spec_contains(k) && k != pre.skeys()[i]),
        post.spec_contains(k) ==> post.spec_get(k) == pre.spec_get(k),
{
    if post.spec_contains(k) {
        lemma_key_index_found(post.skeys(), k, 0);
        let ix = key_index(post.skeys(), k);
        let orig = if ix < i {
            ix
        } else {
            ix + 1
        };
        assert(pre.skeys()[orig] == k);
        lemma_key_index_occurs(pre.skeys(), k, orig);
        lemma_key_index_found(pre.skeys(), k, 0);
        assert(key_index(pre.skeys(), k) == orig);
        assert(orig != i);
        assert(k != pre.skeys()[i]);
        assert(post.svals()[ix] == pre.svals()[orig]);
    }
    if pre.spec_contains(k) && k != pre.skeys()[i] {
        lemma_key_index_found(pre.skeys(), k, 0);
        let j = key_index(pre.skeys(), k);
        assert(j != i);
        let ni = if j < i {
            j
        } else {
            j - 1
        };
        assert(post.skeys()[ni] == k);
        lemma_key_index_occurs(post.skeys(), k, ni);
    }
}

/// Removing an entry from a unique key list keeps it unique.
pub proof fn lemma_unique_remove(keys: Seq<Seq<char>>, i: int)
    requires
        keys_unique(keys),
        0 <= i < keys.len(),
    ensures
        keys_unique(keys.remove(i)),
{
    let r = keys.remove(i);
    assert forall|a: int, b: int| 0 <= a < b < r.len() implies r[a] != r[b] by {
        let oa = if a < i {
            a
        } else {
            a + 1
        };
        let ob = if b < i {
            b
        } else {
            b + 1
        };
        assert(r[a] == keys[oa]);
        assert(r[b] == keys[ob]);
    }
}

/// An association map from strings to values, keys unique, walkable by
/// position.
pub struct AssocMap<V> {
    pub keys: Vec<String>,
    pub vals: Vec<V>,
}

impl<V> AssocMap<V> {
    /// The keys, as character sequences, in insertion order.
    pub open spec fn skeys(&self) -> Seq<Seq<char>> {
        Seq::new(self.keys@.len(), |i: int| self.keys@[i]@)
    }

    /// The values, in insertion order.
    pub open spec fn svals(&self) -> Seq<V> {
        self.vals@
    }

    /// Parallel vectors of equal length, keys unique.
    pub open spec fn wf(&self) -> bool {
        &&& self.keys@.len() == self.vals@.len()
        &&& keys_unique(self.skeys())
    }

    pub open spec fn spec_len(&self) -> nat {
        self.skeys().len()
    }

    /// Whether `k` is present.
    pub open spec fn spec_contains(&self, k: Seq<char>) -> bool {
        key_index(self.skeys(), k) >= 0
    }

    /// The value stored under `k`; meaningful only when present.
    pub open spec fn spec_get(&self, k: Seq<char>) -> V {
        self.svals()[key_index(self.skeys(), k)]
    }

    pub fn new() -> (r: Self)
        ensures
            r.wf(),
            r.skeys() =~= Seq::<Seq<char>>::empty(),
            r.svals() =~= Seq::<V>::empty(),
    {
        AssocMap { keys: Vec::new(), vals: Vec::new() }
    }

    pub fn len(&self) -> (n: usize)
        requires
            self.wf(),
        ensures
            n == self.spec_len(),
    {
        self.keys.len()
    }

    pub fn key_at(&self, i: usize) -> (k: &String)
        requires
            self.wf(),
            i < self.spec_len(),
        ensures
            k@ == self.skeys()[i as int],
    {
        &self.keys[i]
    }

    pub fn val_at(&self, i: usize) -> (v: &V)
        requires
            self.wf(),
            i < self.spec_len(),
        ensures
            *v == self.svals()[i as int],
    {
        &self.vals[i]
    }

    /// Position of `k`, when present.
    pub fn index_of(&self, k: &str) -> (r: Option<usize>)
        requires
            self.wf(),
        ensures
            match r {
                Some(i) => i < self.spec_len() && key_index(self.skeys(), k@) == i as int
                    && self.skeys()[i as int] == k@,
                None => key_index(self.skeys(), k@) == -1 && !self.spec_contains(k@),
            },
    {
        let n = self.keys.len();
        let mut i: usize = 0;
        while i < n
            invariant
                self.wf(),
                n == self.spec_len(),
                i <= n,
                key_index(self.skeys(), k@) == key_index_from(self.skeys(), k@, i as int),
            decreases n - i,
        {
            if crate::text::str_eq(self.keys[i].as_str(), k) {
                proof {
                    assert(self.skeys()[i as int] == self.keys@[i as int]@);
                }
                return Some(i);
            }
            proof {
                assert(self.skeys()[i as int] == self.keys@[i as int]@);
            }
            i = i + 1;
        }
        None
    }

    pub fn contains(&self, k: &str) -> (r: bool)
        requires
            self.wf(),
        ensures
            r == self.spec_contains(k@),
    {
        self.index_of(k).is_some()
    }

    /// A reference to the value under `k`, when present.
    pub fn get(&self, k: &str) -> (r: Option<&V>)
        requires
            self.wf(),
        ensures
            match r {
                Some(v) => self.spec_contains(k@) && *v == self.spec_get(k@),
                None => !self.spec_contains(k@),
            },
    {
        match self.index_of(k) {
            Some(i) => Some(&self.vals[i]),
            None => None,
        }
    }

    /// Replaces the value at position `i`.
    pub fn set_val_at(&mut self, i: usize, v: V)
        requires
            old(self).wf(),
            i < old(self).spec_len(),
        ensures
            final(self).wf(),
            final(self).skeys() == old(self).skeys(),
            final(self).svals() == old(self).svals().update(i as int, v),
    {
        self.vals[i] = v;
        proof {
            assert(self.skeys() =~= old(self).skeys());
        }
    }

    /// Inserts `k = v`: replaces the value in place when the key is present,
    /// appends a new entry when it is not.
    pub fn insert(&mut self, k: String, v: V)
        requires
            old(self).wf(),
        ensures
            final(self).wf(),
            ({
                let i = key_index(old(self).skeys(), k@);
                if i >= 0 {
                    final(self).skeys() == old(self).skeys() && final(self).svals() == old(
                        self,
                    ).svals().update(i, v)
                } else {
                    final(self).skeys() == old(self).skeys().push(k@) && final(self).svals()
                        == old(self).svals().push(v)
                }
            }),
            final(self).spec_contains(k@),
            final(self).spec_get(k@) == v,
    {
        let ghost oldkeys = self.skeys();
        match self.index_of(k.as_str()) {
            Some(i) => {
                self.vals[i] = v;
                proof {
                    assert(self.skeys() =~= oldkeys);
                    lemma_key_index_found(oldkeys, k@, 0);
                }
            },
            None => {
                proof {
                    lemma_key_index_missing(oldkeys, k@, 0);
                }
                self.keys.push(k);
                self.vals.push(v);
                proof {
                    assert(self.skeys() =~= oldkeys.push(k@));
                    assert(keys_unique(self.skeys())) by {
                        assert(forall|j: int| 0 <= j < oldkeys.len() ==> oldkeys[j] != k@);
                    }
                    lemma_key_index_occurs(self.skeys(), k@, oldkeys.len() as int);
                    lemma_key_index_found(self.skeys(), k@, 0);
                }
            },
        }
    }

    /// Removes the entry at position `i`.
    pub fn remove_at(&mut self, i: usize)
        requires
            old(self).wf(),
            i < old(self).spec_len(),
        ensures
            final(self).wf(),
            final(self).skeys() == old(self).skeys().remove(i as int),
            final(self).svals() == old(self).svals().remove(i as int),
    {
        self.keys.remove(i);
        self.vals.remove(i);
        proof {
            assert(self.skeys() =~= old(self).skeys().remove(i as int));
            lemma_unique_remove(old(self).skeys(), i as int);
        }
    }
}

impl<V> AssocMap<Vec<V>> {
    /// Appends `x` to the vector stored at position `i`.
    pub fn push_at(&mut self, i: usize, x: V)
        requires
            old(self).wf(),
            i < old(self).spec_len(),
        ensures
            final(self).wf(),
            final(self).skeys() == old(self).skeys(),
            final(self).svals() == old(self).svals().update(
                i as int,
                final(self).svals()[i as int],
            ),
            final(self).svals()[i as int]@ == old(self).svals()[i as int]@.push(x),
    {
        self.vals[i].push(x);
        proof {
            assert(self.skeys() =~= old(self).skeys());
            assert(self.svals() =~= old(self).svals().update(i as int, self.svals()[i as int]));
        }
    }
}

} // verus!
