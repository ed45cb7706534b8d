//! Finite maps kept as lists of key-value pairs, no key twice.

use vstd::prelude::*;

use crate::oid::Oid;

verus! {

/// Keys that can be told apart at run time, exactly as their views are.
pub trait SameKey: View + Sized {
    /// Whether the two keys are the same.
    fn same_key(&self, other: &Self) -> (b: bool)
        ensures
            b == (self@ == other@),
    ;
}

impl SameKey for Oid {
    fn same_key(&self, other: &Oid) -> (b: bool) {
        self.same_as(other)
    }
}

impl SameKey for String {
    fn same_key(&self, other: &String) -> (b: bool) {
        *self == *other
    }
}

/// No two pairs share a key.
pub open spec fn keys_distinct<K: View, V>(v: Seq<(K, V)>) -> bool {
    forall|i: int, j: int| 0 <= i < j < v.len() ==> v[i].0@ != v[j].0@
}

/// `key` is the key of some pair.
pub open spec fn has_key<K: View, V>(v: Seq<(K, V)>, key: K::V) -> bool {
    exists|i: int| 0 <= i < v.len() && v[i].0@ == key
}

/// The map that the pairs spell out.
pub open spec fn pairs_map<K: View, V: View>(v: Seq<(K, V)>) -> Map<K::V, V::V> {
    Map::new(
        |k: K::V| has_key(v, k),
        |k: K::V| v[choose|i: int| 0 <= i < v.len() && v[i].0@ == k].1@,
    )
}

/// The value at a key that occurs once is the value of its pair.
pub proof fn lemma_pair_value<K: View, V: View>(v: Seq<(K, V)>, i: int)
    requires
        keys_distinct(v),
        0 <= i < v.len(),
    ensures
        pairs_map(v).contains_key(v[i].0@),
        pairs_map(v)[v[i].0@] == v[i].1@,
{
    let k = choose|j: int| 0 <= j < v.len() && v[j].0@ == v[i].0@;
    assert(0 <= k < v.len() && v[k].0@ == v[i].0@);
    if k < i {
        assert(v[k].0@ != v[i].0@);
    } else if i < k {
        assert(v[i].0@ != v[k].0@);
    }
}

/// Adding a pair with a new key adds that key to the map.
proof fn lemma_push_pair<K: View, V: View>(v: Seq<(K, V)>, p: (K, V))
    requires
        keys_distinct(v),
        !has_key(v, p.0@),
    ensures
        keys_distinct(v.push(p)),
        pairs_map(v.push(p)) == pairs_map(v).insert(p.0@, p.1@),
{
    let n = v.len() as int;
    let w = v.push(p);
    assert forall|a: int, b: int| 0 <= a < b < w.len() implies w[a].0@ != w[b].0@ by {
        if b == n {
            assert(v[a].0@ != p.0@);
        } else {
            assert(v[a].0@ != v[b].0@);
        }
    }
    assert forall|k: K::V| #![auto]
        pairs_map(w).contains_key(k) == pairs_map(v).insert(p.0@, p.1@).contains_key(k) by {
        if has_key(v, k) {
            let j = choose|j: int| 0 <= j < v.len() && v[j].0@ == k;
            assert(w[j].0@ == k);
        }
        if has_key(w, k) && k != p.0@ {
            let j = choose|j: int| 0 <= j < w.len() && w[j].0@ == k;
            assert(j < n);
            assert(v[j].0@ == k);
        }
        if k == p.0@ {
            assert(w[n].0@ == k);
        }
    }
    assert forall|k: K::V| #[trigger] pairs_map(w).contains_key(k) implies pairs_map(w)[k]
        == pairs_map(v).insert(p.0@, p.1@)[k] by {
        let j = choose|j: int| 0 <= j < w.len() && w[j].0@ == k;
        lemma_pair_value(w, j);
        if k != p.0@ {
            assert(j < n);
            assert(v[j] == w[j]);
            lemma_pair_value(v, j);
        }
    }
    assert(pairs_map(w) =~= pairs_map(v).insert(p.0@, p.1@));
}

/// Taking out the pair at `i` takes its key out of the map.
proof fn lemma_remove_pair<K: View, V: View>(v: Seq<(K, V)>, i: int)
    requires
        keys_distinct(v),
        0 <= i < v.len(),
    ensures
        keys_distinct(v.remove(i)),
        pairs_map(v.remove(i)) == pairs_map(v).remove(v[i].0@),
{
    let w = v.remove(i);
    let key = v[i].0@;
    assert forall|a: int, b: int| 0 <= a < b < w.len() implies w[a].0@ != w[b].0@ by {
        let a1 = if a < i { a } else { a + 1 };
        let b1 = if b < i { b } else { b + 1 };
        assert(v[a1].0@ != v[b1].0@);
    }
    assert forall|k: K::V| #![auto]
        pairs_map(w).contains_key(k) == pairs_map(v).remove(key).contains_key(k) by {
        if has_key(w, k) {
            let j = choose|j: int| 0 <= j < w.len() && w[j].0@ == k;
            let j1 = if j < i { j } else { j + 1 };
            assert(v[j1].0@ == k);
            assert(v[j1].0@ != v[i].0@);
        }
        if has_key(v, k) && k != key {
            let j = choose|j: int| 0 <= j < v.len() && v[j].0@ == k;
            assert(j != i);
            let j0 = if j < i { j } else { j - 1 };
            assert(w[j0].0@ == k);
        }
    }
    assert forall|k: K::V| #[trigger] pairs_map(w).contains_key(k) implies pairs_map(w)[k]
        == pairs_map(v).remove(key)[k] by {
        let j = choose|j: int| 0 <= j < w.len() && w[j].0@ == k;
        lemma_pair_value(w, j);
        let j1 = if j < i { j } else { j + 1 };
        assert(w[j] == v[j1]);
        lemma_pair_value(v, j1);
        assert(v[j1].0@ != v[i].0@);
    }
    assert(pairs_map(w) =~= pairs_map(v).remove(key));
}

/// A finite map kept as a list of key-value pairs in which no key occurs
/// twice.
pub struct PairMap<K: View, V: View> {
    pairs: Vec<(K, V)>,
}

impl<K: View, V: View> View for PairMap<K, V> {
    type V = Map<K::V, V::V>;

    closed spec fn view(&self) -> Map<K::V, V::V> {
        pairs_map(self.pairs@)
    }
}

impl<K: View, V: View> PairMap<K, V> {
    #[verifier::type_invariant]
    spec fn keys_unique(self) -> bool {
        keys_distinct(self.pairs@)
    }
}

impl<K: SameKey, V: View> PairMap<K, V> {
    /// The empty map.
    pub fn new() -> (m: PairMap<K, V>)
        ensures
            m@ == Map::<K::V, V::V>::empty(),
    {
        let m = PairMap { pairs: Vec::new() };
        assert(m@ =~= Map::<K::V, V::V>::empty());
        m
    }

    /// The map of `pairs`, in which no key occurs twice.
    pub fn from_pairs(pairs: Vec<(K, V)>) -> (m: PairMap<K, V>)
        requires
            keys_distinct(pairs@),
        ensures
            m@ == pairs_map(pairs@),
    {
        PairMap { pairs }
    }

    /// The position of the pair for `key`.
    fn position(&self, key: &K) -> (r: Option<usize>)
        ensures
            match r {
                Some(i) => i < self.pairs@.len() && self.pairs@[i as int].0@ == key@,
                None => !has_key(self.pairs@, key@),
            },
    {
        let mut i: usize = 0;
        while i < self.pairs.len()
            invariant
                i <= self.pairs@.len(),
                forall|j: int| 0 <= j < i ==> self.pairs@[j].0@ != key@,
            decreases self.pairs.len() - i,
        {
            if self.pairs[i].0.same_key(key) {
                return Some(i);
            }
            i += 1;
        }
        None
    }

    /// Whether the map has `key`.
    pub fn contains(&self, key: &K) -> (b: bool)
        ensures
            b == self@.contains_key(key@),
    {
        match self.position(key) {
            Some(_) => true,
            None => false,
        }
    }

    /// The value at `key`, if any.
    pub fn get(&self, key: &K) -> (r: Option<&V>)
        ensures
            match r {
                Some(v) => self@.contains_key(key@) && v@ == self@[key@],
                None => !self@.contains_key(key@),
            },
    {
        proof {
            use_type_invariant(self);
        }
        match self.position(key) {
            Some(i) => {
                proof {
                    lemma_pair_value(self.pairs@, i as int);
                }
                Some(&self.pairs[i].1)
            },
            None => None,
        }
    }

    /// Takes out the value at `key`, if any.
    pub fn remove(&mut self, key: &K) -> (r: Option<V>)
        ensures
            final(self)@ == old(self)@.remove(key@),
            match r {
                Some(v) => old(self)@.contains_key(key@) && v@ == old(self)@[key@],
                None => !old(self)@.contains_key(key@),
            },
    {
        proof {
            use_type_invariant(&*self);
        }
        let ghost before = self.pairs@;
        match self.position(key) {
            Some(i) => {
                proof {
                    lemma_pair_value(before, i as int);
                    lemma_remove_pair(before, i as int);
                }
                let mut pairs: Vec<(K, V)> = Vec::new();
                std::mem::swap(&mut pairs, &mut self.pairs);
                let (_, v) = pairs.remove(i);
                self.pairs = pairs;
                Some(v)
            },
            None => {
                assert(self@ =~= self@.remove(key@));
                None
            },
        }
    }

    /// Sets the value at `key` to `value`, in place of any value there.
    pub fn insert(&mut self, key: K, value: V)
        ensures
            final(self)@ == old(self)@.insert(key@, value@),
    {
        let _ = self.remove(&key);
        proof {
            use_type_invariant(&*self);
        }
        let ghost before = self.pairs@;
        proof {
            assert(!self@.contains_key(key@));
            assert(!pairs_map(before).contains_key(key@));
            lemma_push_pair(before, (key, value));
        }
        let mut pairs: Vec<(K, V)> = Vec::new();
        std::mem::swap(&mut pairs, &mut self.pairs);
        pairs.push((key, value));
        self.pairs = pairs;
    }
}

} // verus!
