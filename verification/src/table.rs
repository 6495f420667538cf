//! Keyed tables: each key at most once, entries kept in the order they came.
//!
//! A table stands for a map, and the map is what reading and comparing by
//! key go by. The order of the entries is kept all the same, because a table
//! is written entry by entry: a table built by the same insertions is always
//! written as the same bytes. Two tables that hold the same entries in
//! different orders are written as different bytes, which read back as the
//! same map. Who needs the same bytes for the same map inserts by sorted key.

use crate::primitives::FixedBytes;
use vstd::prelude::*;

verus! {

/// The map that a sequence of key-value pairs stands for: a later pair
/// replaces an earlier one with the same key.
pub open spec fn map_of<K, V>(pairs: Seq<(K, V)>) -> Map<K, V>
    decreases pairs.len(),
{
    if pairs.len() == 0 {
        Map::empty()
    } else {
        map_of(pairs.drop_last()).insert(pairs.last().0, pairs.last().1)
    }
}

/// The pairs of key bytes and value views that a sequence of entries holds.
pub open spec fn pairs_of<const N: usize, V: View>(entries: Seq<(FixedBytes<N>, V)>) -> Seq<
    (Seq<u8>, V::V),
> {
    entries.map_values(|e: (FixedBytes<N>, V)| (e.0@, e.1@))
}

/// Whether no key occurs twice in `pairs`.
pub open spec fn distinct_keys<K, V>(pairs: Seq<(K, V)>) -> bool {
    forall|i: int, j: int| 0 <= i < j < pairs.len() ==> pairs[i].0 != pairs[j].0
}

/// A key that no pair has is not in the map.
pub proof fn lemma_map_of_absent<K, V>(pairs: Seq<(K, V)>, key: K)
    requires
        forall|j: int| 0 <= j < pairs.len() ==> (#[trigger] pairs[j]).0 != key,
    ensures
        !map_of(pairs).contains_key(key),
    decreases pairs.len(),
{
    if pairs.len() > 0 {
        let front = pairs.drop_last();
        assert forall|j: int| 0 <= j < front.len() implies (#[trigger] front[j]).0 != key by {
            assert(pairs[j].0 != key);
        }
        lemma_map_of_absent(front, key);
        assert(pairs[pairs.len() - 1].0 != key);
    }
}

/// The map holds, under the key of pair `i`, the value of pair `i`, if no
/// later pair has the same key.
pub proof fn lemma_map_of_value<K, V>(pairs: Seq<(K, V)>, i: int)
    requires
        0 <= i < pairs.len(),
        forall|j: int| i < j < pairs.len() ==> (#[trigger] pairs[j]).0 != pairs[i].0,
    ensures
        map_of(pairs).contains_key(pairs[i].0),
        map_of(pairs)[pairs[i].0] == pairs[i].1,
    decreases pairs.len(),
{
    let n = pairs.len() - 1;
    if i < n {
        let front = pairs.drop_last();
        assert forall|j: int| i < j < front.len() implies (#[trigger] front[j]).0
            != front[i].0 by {
            assert(pairs[j].0 != pairs[i].0);
        }
        lemma_map_of_value(front, i);
        assert(pairs[n].0 != pairs[i].0);
    }
}

/// Replacing the value of the only pair with a given key is inserting into the map.
pub proof fn lemma_map_of_update<K, V>(pairs: Seq<(K, V)>, i: int, value: V)
    requires
        distinct_keys(pairs),
        0 <= i < pairs.len(),
    ensures
        distinct_keys(pairs.update(i, (pairs[i].0, value))),
        map_of(pairs.update(i, (pairs[i].0, value))) == map_of(pairs).insert(pairs[i].0, value),
    decreases pairs.len(),
{
    let n = pairs.len() - 1;
    let key = pairs[i].0;
    let after = pairs.update(i, (key, value));
    let front = pairs.drop_last();
    if i == n {
        assert(after.drop_last() =~= front);
        assert(map_of(after) =~= map_of(pairs).insert(key, value));
    } else {
        assert(after.drop_last() =~= front.update(i, (front[i].0, value)));
        lemma_map_of_update(front, i, value);
        assert(pairs[n].0 != key);
        assert(after.last() == pairs.last());
        assert(map_of(after) =~= map_of(pairs).insert(key, value));
    }
}

/// Pairs with distinct keys stand for a map with as many entries as there are pairs.
pub proof fn lemma_map_of_len<K, V>(pairs: Seq<(K, V)>)
    requires
        distinct_keys(pairs),
    ensures
        map_of(pairs).dom().finite(),
        map_of(pairs).len() == pairs.len(),
    decreases pairs.len(),
{
    if pairs.len() > 0 {
        let front = pairs.drop_last();
        let last = pairs.last();
        assert forall|i: int, j: int| 0 <= i < j < front.len() implies front[i].0
            != front[j].0 by {
            assert(pairs[i].0 != pairs[j].0);
        }
        lemma_map_of_len(front);
        assert forall|j: int| 0 <= j < front.len() implies (#[trigger] front[j]).0 != last.0 by {
            assert(pairs[j].0 != pairs[pairs.len() - 1].0);
        }
        lemma_map_of_absent(front, last.0);
        assert(map_of(pairs).dom() =~= map_of(front).dom().insert(last.0));
    }
}

/// Entries whose keys differ as byte strings are pairs with distinct keys.
proof fn lemma_distinct_pairs<const N: usize, V: View>(entries: Seq<(FixedBytes<N>, V)>)
    requires
        forall|i: int, j: int|
            0 <= i < j < entries.len() ==> (#[trigger] entries[i]).0@ != (#[trigger] entries[j]).0@,
    ensures
        distinct_keys(pairs_of(entries)),
{
    assert forall|i: int, j: int| 0 <= i < j < entries.len() implies pairs_of(entries)[i].0
        != pairs_of(entries)[j].0 by {
        assert(entries[i].0@ != entries[j].0@);
    }
}

/// A table from `N`-byte keys to values. No key occurs twice; the entries
/// stand in the order in which their keys were first inserted.
///
/// Two tables are `==` when they hold the same entries in the same order.
#[derive(Debug, PartialEq, Eq)]
pub struct Table<const N: usize, V> {
    entries: Vec<(FixedBytes<N>, V)>,
}

impl<const N: usize, V: View> View for Table<N, V> {
    type V = Map<Seq<u8>, V::V>;

    open spec fn view(&self) -> Map<Seq<u8>, V::V> {
        map_of(self.pairs())
    }
}

impl<const N: usize, V> Table<N, V> {
    #[verifier::type_invariant]
    closed spec fn keys_are_distinct(self) -> bool {
        forall|i: int, j: int|
            0 <= i < j < self.entries@.len() ==> (#[trigger] self.entries@[i]).0@ != (
            #[trigger] self.entries@[j]).0@
    }
}

impl<const N: usize, V: View> Default for Table<N, V> {
    fn default() -> (r: Self)
        ensures
            r@ == Map::<Seq<u8>, V::V>::empty(),
    {
        Table::new()
    }
}

impl<const N: usize, V: Clone> Clone for Table<N, V> {
    fn clone(&self) -> (r: Self) {
        proof {
            use_type_invariant(self);
        }
        let mut entries: Vec<(FixedBytes<N>, V)> = Vec::new();
        let mut i: usize = 0;
        while i < self.entries.len()
            invariant
                i <= self.entries@.len(),
                entries@.len() == i,
                forall|j: int| 0 <= j < i ==> (#[trigger] entries@[j]).0 == self.entries@[j].0,
            decreases self.entries@.len() - i,
        {
            let key = self.entries[i].0;
            let value = self.entries[i].1.clone();
            entries.push((key, value));
            i += 1;
        }
        Table { entries }
    }
}

impl<const N: usize, V: View> Table<N, V> {
    /// The entries, in order.
    pub closed spec fn spec_entries(self) -> Seq<(FixedBytes<N>, V)> {
        self.entries@
    }

    /// The entries as pairs of key bytes and value views, in order.
    pub closed spec fn pairs(self) -> Seq<(Seq<u8>, V::V)> {
        pairs_of(self.entries@)
    }

    /// The pairs are those of the entries.
    pub proof fn lemma_pairs(self)
        ensures
            self.pairs() == pairs_of(self.spec_entries()),
    {
    }

    /// The table without entries.
    pub fn new() -> (r: Self)
        ensures
            r.pairs() == Seq::<(Seq<u8>, V::V)>::empty(),
            r@ == Map::<Seq<u8>, V::V>::empty(),
    {
        let r = Table { entries: Vec::new() };
        assert(r.pairs() =~= Seq::<(Seq<u8>, V::V)>::empty());
        r
    }

    /// Number of entries.
    pub fn len(&self) -> (n: usize)
        ensures
            n == self.pairs().len(),
            n == self@.len(),
            self@.dom().finite(),
    {
        proof {
            use_type_invariant(self);
            lemma_distinct_pairs(self.entries@);
            lemma_map_of_len(self.pairs());
        }
        self.entries.len()
    }

    /// The entries, in order.
    pub fn entries(&self) -> (r: &Vec<(FixedBytes<N>, V)>)
        ensures
            r@ == self.spec_entries(),
            pairs_of(r@) == self.pairs(),
            distinct_keys(self.pairs()),
    {
        proof {
            use_type_invariant(self);
            lemma_distinct_pairs(self.entries@);
        }
        &self.entries
    }

    /// Position of `key` among the entries.
    fn position(&self, key: &FixedBytes<N>) -> (r: Option<usize>)
        ensures
            match r {
                Some(i) => i < self.pairs().len() && self.pairs()[i as int].0 == key@,
                None => forall|j: int|
                    0 <= j < self.pairs().len() ==> (#[trigger] self.pairs()[j]).0 != key@,
            },
    {
        let mut i: usize = 0;
        while i < self.entries.len()
            invariant
                i <= self.entries@.len(),
                forall|j: int| 0 <= j < i ==> (#[trigger] self.pairs()[j]).0 != key@,
            decreases self.entries@.len() - i,
        {
            if self.entries[i].0.is_equal(key) {
                return Some(i);
            }
            i += 1;
        }
        None
    }

    /// The value stored under `key`, if there is one.
    pub fn get(&self, key: &FixedBytes<N>) -> (r: Option<&V>)
        ensures
            match r {
                Some(v) => self@.contains_key(key@) && self@[key@] == v@,
                None => !self@.contains_key(key@),
            },
    {
        proof {
            use_type_invariant(self);
            lemma_distinct_pairs(self.entries@);
        }
        match self.position(key) {
            Some(i) => {
                proof {
                    lemma_map_of_value(self.pairs(), i as int);
                }
                Some(&self.entries[i].1)
            },
            None => {
                proof {
                    lemma_map_of_absent(self.pairs(), key@);
                }
                None
            },
        }
    }

    /// Stores `value` under `key`. A key that is already there keeps its place
    /// and takes the new value; a new key goes to the end.
    pub fn insert(&mut self, key: FixedBytes<N>, value: V)
        ensures
            final(self)@ == old(self)@.insert(key@, value@),
            forall|i: int|
                0 <= i < old(self).pairs().len() && (#[trigger] old(self).pairs()[i]).0 == key@
                    ==> final(self).pairs() == old(self).pairs().update(i, (key@, value@)),
            !old(self)@.contains_key(key@) ==> final(self).pairs() == old(self).pairs().push(
                (key@, value@),
            ),
    {
        proof {
            use_type_invariant(&*self);
            lemma_distinct_pairs(self.entries@);
        }
        let found = self.position(&key);
        let ghost before = self.pairs();
        let mut entries: Vec<(FixedBytes<N>, V)> = Vec::new();
        core::mem::swap(&mut self.entries, &mut entries);
        assert(pairs_of(entries@) == before);
        match found {
            Some(i) => {
                entries.set(i, (key, value));
                proof {
                    lemma_map_of_value(before, i as int);
                    lemma_map_of_update(before, i as int, value@);
                    assert(pairs_of(entries@) =~= before.update(i as int, (key@, value@)));
                    assert forall|j: int|
                        0 <= j < before.len() && (#[trigger] before[j]).0 == key@ implies j
                        == i by {
                        if j != i {
                            assert(before[j].0 != before[i as int].0);
                        }
                    }
                }
            },
            None => {
                entries.push((key, value));
                proof {
                    lemma_map_of_absent(before, key@);
                    assert(pairs_of(entries@) =~= before.push((key@, value@)));
                    assert(pairs_of(entries@).drop_last() =~= before);
                }
            },
        }
        proof {
            assert forall|i: int, j: int| 0 <= i < j < entries@.len() implies (
            #[trigger] entries@[i]).0@ != (#[trigger] entries@[j]).0@ by {
                assert(pairs_of(entries@)[i].0 != pairs_of(entries@)[j].0);
            }
        }
        core::mem::swap(&mut self.entries, &mut entries);
    }
}

} // verus!
