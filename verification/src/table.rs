//! A map keyed by 32-byte digests.

use crate::digest::same;
use std::collections::HashMap;
use vstd::prelude::*;
use vstd::std_specs::iter::IteratorSpec;

verus! {

/// A map from digests to values. Each digest occurs once; entries keep the
/// order in which their digests first came.
pub struct DigestMap<V> {
    entries: Vec<([u8; 32], V)>,
}

/// No digest occurs twice in `s`.
spec fn distinct_keys<V>(s: Seq<([u8; 32], V)>) -> bool {
    forall|i: int, j: int| 0 <= i < j < s.len() ==> (#[trigger] s[i]).0 != (#[trigger] s[j]).0
}

/// Whether the digest `k` occurs in `s`.
spec fn has_key<V>(s: Seq<([u8; 32], V)>, k: [u8; 32]) -> bool {
    exists|i: int| 0 <= i < s.len() && (#[trigger] s[i]).0 == k
}

/// Where the digest `k` stands in `s`.
spec fn index_of_key<V>(s: Seq<([u8; 32], V)>, k: [u8; 32]) -> int {
    choose|i: int| 0 <= i < s.len() && (#[trigger] s[i]).0 == k
}

/// The map that lists its entries in `s`.
spec fn map_of<V>(s: Seq<([u8; 32], V)>) -> Map<[u8; 32], V> {
    Map::new(|k: [u8; 32]| has_key(s, k), |k: [u8; 32]| s[index_of_key(s, k)].1)
}

proof fn lemma_entry<V>(s: Seq<([u8; 32], V)>, i: int)
    requires
        distinct_keys(s),
        0 <= i < s.len(),
    ensures
        map_of(s).contains_key(s[i].0),
        map_of(s)[s[i].0] == s[i].1,
{
    let k = s[i].0;
    assert(has_key(s, k));
    let j = index_of_key(s, k);
    assert(0 <= j < s.len() && s[j].0 == k);
    if i < j {
        assert(s[i].0 != s[j].0);
    }
    if j < i {
        assert(s[j].0 != s[i].0);
    }
}

impl<V> View for DigestMap<V> {
    type V = Map<[u8; 32], V>;

    closed spec fn view(&self) -> Map<[u8; 32], V> {
        map_of(self.entries@)
    }
}

impl<V> DigestMap<V> {
    #[verifier::type_invariant]
    spec fn inv(self) -> bool {
        distinct_keys(self.entries@)
    }

    /// A map without entries.
    pub fn new() -> (r: Self)
        ensures
            r@ == Map::<[u8; 32], V>::empty(),
    {
        let r = DigestMap { entries: Vec::new() };
        assert(r@ =~= Map::<[u8; 32], V>::empty());
        r
    }

    /// Where `k` stands, or the number of entries where it does not occur.
    fn position(&self, k: &[u8; 32]) -> (r: usize)
        ensures
            r <= self.entries@.len(),
            r < self.entries@.len() ==> self.entries@[r as int].0 == *k,
            r == self.entries@.len() ==> !has_key(self.entries@, *k),
    {
        let mut i: usize = 0;
        while i < self.entries.len()
            invariant
                i <= self.entries@.len(),
                forall|j: int| 0 <= j < i ==> (#[trigger] self.entries@[j]).0 != *k,
            decreases self.entries@.len() - i,
        {
            if same(&self.entries[i].0, k) {
                return i;
            }
            i += 1;
        }
        i
    }

    /// How many entries there are.
    pub fn len(&self) -> (r: usize)
        ensures
            self@.dom().finite(),
            r == self@.dom().len(),
    {
        proof {
            use_type_invariant(self);
            let keys = Seq::new(self.entries@.len(), |i: int| self.entries@[i].0);
            assert(keys.no_duplicates());
            keys.unique_seq_to_set();
            assert forall|k: [u8; 32]| keys.to_set().contains(k) <==> #[trigger] self@.dom().contains(
                k,
            ) by {
                if has_key(self.entries@, k) {
                    assert(keys[index_of_key(self.entries@, k)] == k);
                }
                if keys.to_set().contains(k) {
                    let i = choose|i: int| 0 <= i < keys.len() && keys[i] == k;
                    assert(self.entries@[i].0 == k);
                }
            }
            assert(keys.to_set() =~= self@.dom());
        }
        self.entries.len()
    }

    /// The value of `k`.
    pub fn get(&self, k: &[u8; 32]) -> (r: Option<&V>)
        ensures
            match r {
                Some(v) => self@.contains_key(*k) && *v == self@[*k],
                None => !self@.contains_key(*k),
            },
    {
        proof {
            use_type_invariant(self);
        }
        let i = self.position(k);
        if i < self.entries.len() {
            proof {
                lemma_entry(self.entries@, i as int);
            }
            Some(&self.entries[i].1)
        } else {
            None
        }
    }

    /// Whether `k` has a value.
    pub fn contains_key(&self, k: &[u8; 32]) -> (r: bool)
        ensures
            r == self@.contains_key(*k),
    {
        self.get(k).is_some()
    }

    /// Gives `k` the value `v`.
    pub fn insert(&mut self, k: [u8; 32], v: V)
        ensures
            final(self)@ == old(self)@.insert(k, v),
    {
        proof {
            use_type_invariant(&*self);
        }
        let ghost s = self.entries@;
        let i = self.position(&k);
        let mut entries: Vec<([u8; 32], V)> = Vec::new();
        std::mem::swap(&mut entries, &mut self.entries);
        if i < entries.len() {
            entries.set(i, (k, v));
        } else {
            entries.push((k, v));
        }
        proof {
            let t = entries@;
            assert forall|a: int, b: int| 0 <= a < b < t.len() implies (#[trigger] t[a]).0 != (
            #[trigger] t[b]).0 by {
                if a < s.len() && b < s.len() {
                    assert(s[a].0 != s[b].0);
                }
            }
            let m = map_of(s).insert(k, v);
            assert forall|x: [u8; 32]| #[trigger] map_of(t).contains_key(x) <==> m.contains_key(x) by {
                if has_key(t, x) {
                    let a = index_of_key(t, x);
                    if a < s.len() {
                        assert(s[a].0 == x);
                    }
                }
                if has_key(s, x) {
                    assert(t[index_of_key(s, x)].0 == x);
                }
                assert(t[i as int].0 == k);
            }
            assert forall|x: [u8; 32]| #[trigger] map_of(t).contains_key(x) implies map_of(t)[x]
                == m[x] by {
                let a = index_of_key(t, x);
                lemma_entry(t, a);
                if a != i {
                    assert(s[a].0 == x);
                    lemma_entry(s, a);
                    assert(t[a].0 != t[i as int].0) by {
                        if a < i {
                            assert(t[a].0 != t[i as int].0);
                        } else {
                            assert(t[i as int].0 != t[a].0);
                        }
                    }
                }
            }
            assert(map_of(t) =~= m);
        }
        self.entries = entries;
    }

    /// Takes the value of `k` out of the map.
    pub fn remove(&mut self, k: &[u8; 32]) -> (r: Option<V>)
        ensures
            final(self)@ == old(self)@.remove(*k),
            match r {
                Some(v) => old(self)@.contains_key(*k) && v == old(self)@[*k],
                None => !old(self)@.contains_key(*k),
            },
    {
        proof {
            use_type_invariant(&*self);
        }
        let ghost s = self.entries@;
        let i = self.position(k);
        if i >= self.entries.len() {
            assert(self@ =~= self@.remove(*k));
            return None;
        }
        let mut entries: Vec<([u8; 32], V)> = Vec::new();
        std::mem::swap(&mut entries, &mut self.entries);
        let e = entries.remove(i);
        proof {
            lemma_entry(s, i as int);
            let t = entries@;
            assert(t == s.remove(i as int));
            assert forall|a: int, b: int| 0 <= a < b < t.len() implies (#[trigger] t[a]).0 != (
            #[trigger] t[b]).0 by {
                let a2 = if a < i { a } else { a + 1 };
                let b2 = if b < i { b } else { b + 1 };
                assert(s[a2].0 != s[b2].0);
            }
            let m = map_of(s).remove(*k);
            assert forall|x: [u8; 32]| #[trigger] map_of(t).contains_key(x) <==> m.contains_key(x) by {
                if has_key(t, x) {
                    let a = index_of_key(t, x);
                    let a2 = if a < i { a } else { a + 1 };
                    assert(s[a2].0 == x);
                    if a2 < i {
                        assert(s[a2].0 != s[i as int].0);
                    } else {
                        assert(s[i as int].0 != s[a2].0);
                    }
                }
                if has_key(s, x) && x != *k {
                    let a = index_of_key(s, x);
                    let a2 = if a < i { a } else { a - 1 };
                    assert(t[a2].0 == x);
                }
            }
            assert forall|x: [u8; 32]| #[trigger] map_of(t).contains_key(x) implies map_of(t)[x]
                == m[x] by {
                let a = index_of_key(t, x);
                let a2 = if a < i { a } else { a + 1 };
                assert(s[a2] == t[a]);
                lemma_entry(s, a2);
            }
            assert(map_of(t) =~= m);
        }
        self.entries = entries;
        Some(e.1)
    }

    /// The digests that have a value, each once.
    pub fn keys(&self) -> (r: Vec<[u8; 32]>)
        ensures
            r@.no_duplicates(),
            forall|k: [u8; 32]| r@.contains(k) <==> #[trigger] self@.contains_key(k),
    {
        proof {
            use_type_invariant(self);
        }
        let mut out: Vec<[u8; 32]> = Vec::new();
        let mut i: usize = 0;
        while i < self.entries.len()
            invariant
                i <= self.entries@.len(),
                out.len() == i,
                forall|j: int| 0 <= j < i ==> #[trigger] out@[j] == self.entries@[j].0,
            decreases self.entries@.len() - i,
        {
            out.push(self.entries[i].0);
            i += 1;
        }
        proof {
            assert forall|a: int, b: int| 0 <= a < b < out@.len() implies out@[a] != out@[b] by {
                assert(self.entries@[a].0 != self.entries@[b].0);
            }
            assert forall|k: [u8; 32]| out@.contains(k) <==> #[trigger] self@.contains_key(k) by {
                if out@.contains(k) {
                    let a = choose|a: int| 0 <= a < out@.len() && out@[a] == k;
                    assert(self.entries@[a].0 == k);
                }
                if has_key(self.entries@, k) {
                    assert(out@[index_of_key(self.entries@, k)] == k);
                }
            }
        }
        out
    }
}

/// The keys of a map, each once.
pub fn key_list<V>(m: &HashMap<u32, V>) -> (r: Vec<u32>)
    ensures
        r@.no_duplicates(),
        r@.len() == m@.dom().len(),
        forall|k: u32| r@.contains(k) <==> #[trigger] m@.contains_key(k),
{
    let mut out: Vec<u32> = Vec::new();
    let iter = m.keys();
    let ghost all = iter.remaining();
    for k in it: iter
        invariant
            it.seq() == all,
            out.len() == it.index(),
            forall|i: int| 0 <= i < out.len() ==> #[trigger] out@[i] == *all[i],
    {
        out.push(*k);
    }
    proof {
        assert(out@ =~= all.unref());
        assert(all.unref().to_set() == m@.dom());
        assert forall|k: u32| out@.contains(k) <==> #[trigger] m@.contains_key(k) by {
            assert(out@.to_set().contains(k) <==> m@.dom().contains(k));
        }
        assert forall|i: int, j: int| 0 <= i < j < out@.len() implies out@[i] != out@[j] by {
            assert(all[i] != all[j]);
        }
    }
    out
}

} // verus!
