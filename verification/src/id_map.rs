//! A map from numeric identifiers to records, backed by a vector of pairs.

use vstd::prelude::*;

verus! {

/// First-match lookup in a sequence of identifier/record pairs.
pub open spec fn assoc_get<V>(s: Seq<(u32, V)>, k: u32) -> Option<V>
    decreases s.len(),
{
    if s.len() == 0 {
        None
    } else if s[0].0 == k {
        Some(s[0].1)
    } else {
        assoc_get(s.drop_first(), k)
    }
}

/// The mathematical map that a sequence of pairs stands for, under
/// first-match lookup.
pub open spec fn assoc_map<V>(s: Seq<(u32, V)>) -> Map<u32, V> {
    Map::new(|k: u32| assoc_get(s, k) is Some, |k: u32| assoc_get(s, k).unwrap())
}

/// Appending a pair binds its identifier only where it was unbound before.
pub proof fn lemma_assoc_get_push<V>(s: Seq<(u32, V)>, k: u32, v: V, j: u32)
    ensures
        assoc_get(s.push((k, v)), j) == (if assoc_get(s, j) is Some {
            assoc_get(s, j)
        } else if j == k {
            Some(v)
        } else {
            None::<V>
        }),
    decreases s.len(),
{
    if s.len() == 0 {
        assert(s.push((k, v))[0] == (k, v));
        assert(s.push((k, v)).drop_first() =~= Seq::<(u32, V)>::empty());
    } else {
        assert(s.push((k, v))[0] == s[0]);
        assert(s.push((k, v)).drop_first() =~= s.drop_first().push((k, v)));
        lemma_assoc_get_push(s.drop_first(), k, v, j);
    }
}

/// Overwriting the record at the first occurrence of an identifier changes
/// the lookup of that identifier alone.
pub proof fn lemma_assoc_get_update_first<V>(s: Seq<(u32, V)>, i: int, v: V, j: u32)
    requires
        0 <= i < s.len(),
        forall|m: int| 0 <= m < i ==> s[m].0 != s[i].0,
    ensures
        assoc_get(s.update(i, (s[i].0, v)), j) == (if j == s[i].0 {
            Some(v)
        } else {
            assoc_get(s, j)
        }),
    decreases s.len(),
{
    let t = s.update(i, (s[i].0, v));
    if i == 0 {
        assert(t[0] == (s[0].0, v));
        if j != s[0].0 {
            assert(t.drop_first() =~= s.drop_first());
        }
    } else {
        assert(t[0] == s[0]);
        assert(t.drop_first() =~= s.drop_first().update(i - 1, (s.drop_first()[i - 1].0, v)));
        if j == s[0].0 {
            assert(s[0].0 != s[i].0);
        } else {
            assert(forall|m: int| 0 <= m < i - 1 ==> (#[trigger] s.drop_first()[m]).0 != s.drop_first()[i - 1].0);
            lemma_assoc_get_update_first(s.drop_first(), i - 1, v, j);
        }
    }
}

/// Lookup commutes with a record-by-record transformation that keeps every
/// identifier in place.
pub proof fn lemma_assoc_get_pointwise<V>(s: Seq<(u32, V)>, t: Seq<(u32, V)>, f: spec_fn(V) -> V, k: u32)
    requires
        t.len() == s.len(),
        forall|i: int| 0 <= i < s.len() ==> t[i].0 == s[i].0 && t[i].1 == f(s[i].1),
    ensures
        assoc_get(t, k) == (match assoc_get(s, k) {
            Some(v) => Some(f(v)),
            None => None::<V>,
        }),
    decreases s.len(),
{
    if s.len() > 0 {
        assert(t[0].0 == s[0].0 && t[0].1 == f(s[0].1));
        if s[0].0 != k {
            assert(forall|i: int|
                0 <= i < s.drop_first().len() ==> t.drop_first()[i].0 == s.drop_first()[i].0
                    && t.drop_first()[i].1 == f(s.drop_first()[i].1));
            lemma_assoc_get_pointwise(s.drop_first(), t.drop_first(), f, k);
        }
    }
}

/// Does one of the first `n` pairs of `s` bind the identifier `k`?
pub open spec fn seq_has_key<V>(s: Seq<(u32, V)>, n: int, k: u32) -> bool {
    exists|j: int| 0 <= j < n && (#[trigger] s[j]).0 == k
}

/// An identifier is bound exactly when some pair carries it.
pub proof fn lemma_has_key<V>(s: Seq<(u32, V)>, k: u32)
    ensures
        seq_has_key(s, s.len() as int, k) <==> assoc_get(s, k) is Some,
    decreases s.len(),
{
    if s.len() > 0 {
        lemma_has_key(s.drop_first(), k);
        assert(forall|j: int|
            0 <= j < s.drop_first().len() ==> #[trigger] s.drop_first()[j] == s[j + 1]);
        if s[0].0 == k {
            assert(seq_has_key(s, s.len() as int, k));
        } else {
            if seq_has_key(s, s.len() as int, k) {
                let j = choose|j: int| 0 <= j < s.len() && (#[trigger] s[j]).0 == k;
                assert(s.drop_first()[j - 1].0 == k);
                assert(seq_has_key(s.drop_first(), s.drop_first().len() as int, k));
            }
            if seq_has_key(s.drop_first(), s.drop_first().len() as int, k) {
                let j = choose|j: int|
                    0 <= j < s.drop_first().len() && (#[trigger] s.drop_first()[j]).0 == k;
                assert(s[j + 1].0 == k);
                assert(seq_has_key(s, s.len() as int, k));
            }
        }
    }
}

/// Extending the searched prefix by one pair adds that pair's identifier.
pub proof fn lemma_has_key_step<V>(s: Seq<(u32, V)>, i: int, x: u32)
    requires
        0 <= i < s.len(),
    ensures
        seq_has_key(s, i + 1, x) == (seq_has_key(s, i, x) || s[i].0 == x),
{
    if seq_has_key(s, i + 1, x) {
        let j = choose|j: int| 0 <= j < i + 1 && (#[trigger] s[j]).0 == x;
        if j < i {
            assert(seq_has_key(s, i, x));
        }
    }
    if s[i].0 == x {
        assert(seq_has_key(s, i + 1, x));
    }
    if seq_has_key(s, i, x) {
        let j = choose|j: int| 0 <= j < i && (#[trigger] s[j]).0 == x;
        assert(seq_has_key(s, i + 1, x));
    }
}

/// A map from `u32` identifiers to records, stored as a vector of pairs and
/// looked up by first match.  The operations below never create a second
/// pair for an identifier that is already bound, so lookups stay linear in
/// the number of bound identifiers.
///
/// The backing vector is exposed so that owners can walk or rebuild it; the
/// map a value stands for is always [`assoc_map`] of that vector, whatever
/// is done to it.
#[derive(Debug)]
pub struct IdMap<V> {
    /// The stored pairs, looked up by first match.
    pub entries: Vec<(u32, V)>,
}

impl<V> View for IdMap<V> {
    type V = Map<u32, V>;

    open spec fn view(&self) -> Map<u32, V> {
        assoc_map(self.entries@)
    }
}

impl<V> IdMap<V> {
    /// An empty map.
    pub fn new() -> (r: Self)
        ensures
            r@ == Map::<u32, V>::empty(),
            r.entries@.len() == 0,
    {
        let r = IdMap { entries: Vec::new() };
        proof {
            assert(r@ =~= Map::<u32, V>::empty());
        }
        r
    }

    /// The position of the first pair bound to `k`, if any.
    pub(crate) fn index_of(&self, k: u32) -> (r: Option<usize>)
        ensures
            match r {
                Some(i) => i < self.entries@.len() && self.entries@[i as int].0 == k
                    && (forall|m: int| 0 <= m < i ==> self.entries@[m].0 != k),
                None => forall|m: int|
                    0 <= m < self.entries@.len() ==> self.entries@[m].0 != k,
            },
    {
        let n = self.entries.len();
        let mut i: usize = 0;
        while i < n
            invariant
                i <= n,
                n == self.entries@.len(),
                forall|m: int| 0 <= m < i ==> self.entries@[m].0 != k,
            decreases n - i,
        {
            if self.entries[i].0 == k {
                return Some(i);
            }
            i = i + 1;
        }
        None
    }

    /// The first occurrence wins: lookup agrees with the map view.
    pub proof fn lemma_get_at_index(s: Seq<(u32, V)>, i: int)
        requires
            0 <= i < s.len(),
            forall|m: int| 0 <= m < i ==> s[m].0 != s[i].0,
        ensures
            assoc_get(s, s[i].0) == Some(s[i].1),
        decreases i,
    {
        if i > 0 {
            assert(s.drop_first()[i - 1] == s[i]);
            assert(forall|m: int| 0 <= m < i - 1 ==> (#[trigger] s.drop_first()[m]).0 != s.drop_first()[i - 1].0);
            Self::lemma_get_at_index(s.drop_first(), i - 1);
        }
    }

    /// No occurrence at all: lookup fails.
    pub proof fn lemma_get_absent(s: Seq<(u32, V)>, k: u32)
        requires
            forall|m: int| 0 <= m < s.len() ==> s[m].0 != k,
        ensures
            assoc_get(s, k) is None,
        decreases s.len(),
    {
        if s.len() > 0 {
            Self::lemma_get_absent(s.drop_first(), k);
        }
    }

    /// The record bound to `k`, if any.
    pub fn get(&self, k: u32) -> (r: Option<&V>)
        ensures
            r == (if self@.dom().contains(k) {
                Some(&self@[k])
            } else {
                None::<&V>
            }),
    {
        match self.index_of(k) {
            Some(i) => {
                proof {
                    Self::lemma_get_at_index(self.entries@, i as int);
                }
                Some(&self.entries[i].1)
            }
            None => {
                proof {
                    Self::lemma_get_absent(self.entries@, k);
                }
                None
            }
        }
    }

    /// Bind `k` to `v`, replacing any earlier binding.
    pub fn set(&mut self, k: u32, v: V)
        ensures
            final(self)@ == old(self)@.insert(k, v),
    {
        let ghost s = self.entries@;
        match self.index_of(k) {
            Some(i) => {
                self.entries[i] = (k, v);
                proof {
                    assert(self.entries@ =~= s.update(i as int, (s[i as int].0, v)));
                    assert forall|j: u32| true implies assoc_get(self.entries@, j) == (if j == k {
                        Some(v)
                    } else {
                        assoc_get(s, j)
                    }) by {
                        lemma_assoc_get_update_first(s, i as int, v, j);
                    }
                    assert(self@ =~= old(self)@.insert(k, v));
                }
            }
            None => {
                self.entries.push((k, v));
                proof {
                    Self::lemma_get_absent(s, k);
                    assert forall|j: u32| true implies assoc_get(self.entries@, j) == (if j == k {
                        Some(v)
                    } else {
                        assoc_get(s, j)
                    }) by {
                        lemma_assoc_get_push(s, k, v, j);
                    }
                    assert(self@ =~= old(self)@.insert(k, v));
                }
            }
        }
    }

    /// The number of stored pairs.
    pub fn len(&self) -> (r: usize)
        ensures
            r == self.entries@.len(),
    {
        self.entries.len()
    }
}

} // verus!
