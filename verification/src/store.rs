//! A verified key/value store backing the registry's ledger maps.
//!
//! The registry needs small mappings with exact mathematical views: token to
//! owner, token to approved delegate, account to token count, and so on. The
//! store keeps its entries in a vector with pairwise-distinct keys and is
//! specified against the `Map` it denotes.

use vstd::prelude::*;

verus! {

/// A key type of the ledger stores: a copyable value whose executable
/// equality test agrees with mathematical equality.
pub trait StoreKey: Sized + Copy {
    /// Decides whether two keys are equal.
    fn key_eq(&self, other: &Self) -> (r: bool)
        ensures
            r <==> *self == *other,
    ;
}

impl StoreKey for u32 {
    fn key_eq(&self, other: &Self) -> (r: bool) {
        *self == *other
    }
}

/// The mathematical map denoted by a sequence of key/value pairs, later
/// entries taking precedence.
pub open spec fn map_of<K, V>(s: Seq<(K, V)>) -> Map<K, V>
    decreases s.len(),
{
    if s.len() == 0 {
        Map::empty()
    } else {
        map_of(s.drop_last()).insert(s.last().0, s.last().1)
    }
}

/// No two entries of the sequence share a key.
pub open spec fn distinct_keys<K, V>(s: Seq<(K, V)>) -> bool {
    forall|i: int, j: int|
        0 <= i < j < s.len() ==> (#[trigger] s[i]).0 != (#[trigger] s[j]).0
}

proof fn lemma_map_of_finite<K, V>(s: Seq<(K, V)>)
    ensures
        map_of(s).dom().finite(),
    decreases s.len(),
{
    if s.len() != 0 {
        lemma_map_of_finite(s.drop_last());
    }
}

proof fn lemma_map_of_contains<K, V>(s: Seq<(K, V)>, k: K)
    ensures
        map_of(s).dom().contains(k) <==> exists|i: int|
            0 <= i < s.len() && (#[trigger] s[i]).0 == k,
    decreases s.len(),
{
    if s.len() != 0 {
        lemma_map_of_contains(s.drop_last(), k);
        if s.last().0 == k {
            assert((s[s.len() - 1]).0 == k);
        } else {
            if map_of(s).dom().contains(k) {
                let i = choose|i: int|
                    0 <= i < s.drop_last().len() && (#[trigger] s.drop_last()[i]).0 == k;
                assert((s[i]).0 == k);
            }
            if exists|i: int| 0 <= i < s.len() && (#[trigger] s[i]).0 == k {
                let i = choose|i: int| 0 <= i < s.len() && (#[trigger] s[i]).0 == k;
                assert((s.drop_last()[i]).0 == k);
            }
        }
    }
}

proof fn lemma_distinct_drop_last<K, V>(s: Seq<(K, V)>)
    requires
        distinct_keys(s),
        s.len() != 0,
    ensures
        distinct_keys(s.drop_last()),
{
    assert forall|i: int, j: int|
        0 <= i < j < s.drop_last().len() implies (#[trigger] s.drop_last()[i]).0
        != (#[trigger] s.drop_last()[j]).0 by {
        assert((s[i]).0 != (s[j]).0);
    }
}

proof fn lemma_map_of_index<K, V>(s: Seq<(K, V)>, i: int)
    requires
        distinct_keys(s),
        0 <= i < s.len(),
    ensures
        map_of(s).dom().contains(s[i].0),
        map_of(s)[s[i].0] == s[i].1,
    decreases s.len(),
{
    if i < s.len() - 1 {
        lemma_distinct_drop_last(s);
        lemma_map_of_index(s.drop_last(), i);
        assert((s[i]).0 != (s[s.len() - 1]).0);
    }
}

proof fn lemma_map_of_remove_at<K, V>(s: Seq<(K, V)>, i: int)
    requires
        distinct_keys(s),
        0 <= i < s.len(),
    ensures
        map_of(s.remove(i)) == map_of(s).remove(s[i].0),
        distinct_keys(s.remove(i)),
    decreases s.len(),
{
    s.remove_ensures(i);
    assert forall|a: int, b: int|
        0 <= a < b < s.remove(i).len() implies (#[trigger] s.remove(i)[a]).0
        != (#[trigger] s.remove(i)[b]).0 by {
        let a0: int = if a < i { a } else { a + 1 };
        let b0: int = if b < i { b } else { b + 1 };
        assert(s.remove(i)[a] == s[a0]);
        assert(s.remove(i)[b] == s[b0]);
        assert((s[a0]).0 != (s[b0]).0);
    }
    if i == s.len() - 1 {
        lemma_distinct_drop_last(s);
        assert(s.remove(i) =~= s.drop_last());
        lemma_map_of_contains(s.drop_last(), s[i].0);
        assert forall|j: int|
            0 <= j < s.drop_last().len() implies (#[trigger] s.drop_last()[j]).0 != s[i].0 by {
            assert((s[j]).0 != (s[i]).0);
        }
        assert(!map_of(s.drop_last()).dom().contains(s[i].0));
        assert(map_of(s).remove(s[i].0) =~= map_of(s.drop_last()));
    } else {
        lemma_distinct_drop_last(s);
        lemma_map_of_remove_at(s.drop_last(), i);
        let t = s.remove(i);
        assert(t.len() == s.len() - 1);
        assert(t.drop_last() =~= s.drop_last().remove(i)) by {
            s.drop_last().remove_ensures(i);
        }
        assert(t.last() == s.last());
        assert(map_of(t) == map_of(s.drop_last().remove(i)).insert(s.last().0, s.last().1));
        assert((s[i]).0 != (s[s.len() - 1]).0);
        assert(map_of(s.drop_last()).remove(s[i].0).insert(s.last().0, s.last().1) =~= map_of(
            s.drop_last(),
        ).insert(s.last().0, s.last().1).remove(s[i].0));
    }
}

/// A finite key/value store with pairwise-distinct keys, viewed as the
/// mathematical map of its entries.
pub struct KvStore<K, V> {
    entries: Vec<(K, V)>,
}

impl<K, V> View for KvStore<K, V> {
    type V = Map<K, V>;

    closed spec fn view(&self) -> Map<K, V> {
        map_of(self.entries@)
    }
}

impl<K, V> KvStore<K, V> {
    /// The store's entries hold pairwise-distinct keys.
    pub closed spec fn wf(&self) -> bool {
        distinct_keys(self.entries@)
    }

    /// A store's domain is always a finite set.
    pub proof fn lemma_dom_finite(&self)
        ensures
            self@.dom().finite(),
    {
        lemma_map_of_finite(self.entries@);
    }
}

impl<K: StoreKey, V> KvStore<K, V> {
    /// Creates an empty store.
    pub fn new() -> (s: Self)
        ensures
            s.wf(),
            s@ == Map::<K, V>::empty(),
    {
        KvStore { entries: Vec::new() }
    }

    /// Returns the position of the entry keyed `k`, if one exists.
    fn find(&self, k: &K) -> (r: Option<usize>)
        requires
            self.wf(),
        ensures
            match r {
                Some(i) => i < self.entries@.len() && (self.entries@[i as int]).0 == *k
                    && self@.dom().contains(*k) && self@[*k] == (self.entries@[i as int]).1,
                None => !self@.dom().contains(*k),
            },
    {
        let mut i: usize = 0;
        while i < self.entries.len()
            invariant
                self.wf(),
                i <= self.entries@.len(),
                forall|j: int| 0 <= j < i ==> (#[trigger] self.entries@[j]).0 != *k,
            decreases self.entries@.len() - i,
        {
            if self.entries[i].0.key_eq(k) {
                proof {
                    lemma_map_of_index(self.entries@, i as int);
                }
                return Some(i);
            }
            i = i + 1;
        }
        proof {
            lemma_map_of_contains(self.entries@, *k);
        }
        None
    }

    /// True exactly when the store holds an entry keyed `k`.
    pub fn contains(&self, k: &K) -> (r: bool)
        requires
            self.wf(),
        ensures
            r == self@.dom().contains(*k),
    {
        match self.find(k) {
            Some(_) => true,
            None => false,
        }
    }

    /// Returns the value stored under `k`, if any.
    pub fn get(&self, k: &K) -> (r: Option<&V>)
        requires
            self.wf(),
        ensures
            match r {
                Some(v) => self@.dom().contains(*k) && *v == self@[*k],
                None => !self@.dom().contains(*k),
            },
    {
        match self.find(k) {
            Some(i) => Some(&self.entries[i].1),
            None => None,
        }
    }

    /// Stores `v` under `k`, replacing any earlier entry for `k`.
    pub fn insert(&mut self, k: K, v: V)
        requires
            old(self).wf(),
        ensures
            final(self).wf(),
            final(self)@ == old(self)@.insert(k, v),
    {
        let ghost m0 = self@;
        match self.find(&k) {
            Some(i) => {
                proof {
                    lemma_map_of_remove_at(self.entries@, i as int);
                }
                self.entries.remove(i);
                proof {
                    lemma_map_of_contains(self.entries@, k);
                }
            },
            None => {},
        }
        let ghost s1 = self.entries@;
        proof {
            lemma_map_of_contains(s1, k);
        }
        self.entries.push((k, v));
        proof {
            assert(self.entries@.drop_last() =~= s1);
            assert(self.entries@.last() == (k, v));
            assert(self@ == map_of(s1).insert(k, v));
            assert(self@ =~= m0.insert(k, v));
            assert forall|a: int, b: int|
                0 <= a < b < self.entries@.len() implies (#[trigger] self.entries@[a]).0
                != (#[trigger] self.entries@[b]).0 by {
                if b == self.entries@.len() - 1 {
                    assert((s1[a]).0 != k);
                } else {
                    assert((s1[a]).0 != (s1[b]).0);
                }
            }
        }
    }

    /// Deletes the entry keyed `k`, if one exists.
    pub fn remove(&mut self, k: &K)
        requires
            old(self).wf(),
        ensures
            final(self).wf(),
            final(self)@ == old(self)@.remove(*k),
    {
        match self.find(k) {
            Some(i) => {
                proof {
                    lemma_map_of_remove_at(self.entries@, i as int);
                }
                self.entries.remove(i);
            },
            None => {
                proof {
                    assert(self@.remove(*k) =~= self@);
                }
            },
        }
    }
}

} // verus!
