//! A map keyed by block hash that remembers the order in which keys came.
//!
//! The map is small (one entry per fork head), so it is kept as a list of
//! entries in which no key occurs twice. Its view is a `Map`; `keys` gives the
//! order in which a walk by index meets the entries.

use vstd::prelude::*;
use crate::hash::BlockHash;

verus! {

/// Whether entry `i` of `entries` is stored under `key`.
spec fn stored_at<V>(entries: Seq<(BlockHash, V)>, key: BlockHash, i: int) -> bool {
    0 <= i < entries.len() && entries[i].0 == key
}

/// The map that a list of entries stands for: a key is bound to the value of an
/// entry stored under it.
spec fn entries_to_map<V>(entries: Seq<(BlockHash, V)>) -> Map<BlockHash, V> {
    Map::new(
        |key: BlockHash| exists|i: int| stored_at(entries, key, i),
        |key: BlockHash| entries[choose|i: int| stored_at(entries, key, i)].1,
    )
}

/// The keys of a list of entries, in order.
pub open spec fn entry_keys<V>(entries: Seq<(BlockHash, V)>) -> Seq<BlockHash> {
    Seq::new(entries.len(), |i: int| entries[i].0)
}

/// In a list without repeated keys, the entry at `i` is what the map binds to its key.
proof fn lemma_entry_is_bound<V>(entries: Seq<(BlockHash, V)>, i: int)
    requires
        entry_keys(entries).no_duplicates(),
        0 <= i < entries.len(),
    ensures
        entries_to_map(entries).contains_key(entries[i].0),
        entries_to_map(entries)[entries[i].0] == entries[i].1,
{
    let key = entries[i].0;
    assert(stored_at(entries, key, i));
    let j = choose|j: int| stored_at(entries, key, j);
    assert(entry_keys(entries)[i] == entry_keys(entries)[j]);
}

/// Taking entry `i` out of a list without repeated keys unbinds its key and nothing else.
proof fn lemma_remove_entry<V>(entries: Seq<(BlockHash, V)>, i: int)
    requires
        entry_keys(entries).no_duplicates(),
        0 <= i < entries.len(),
    ensures
        entry_keys(entries.remove(i)) == entry_keys(entries).remove(i),
        entry_keys(entries.remove(i)).no_duplicates(),
        entries_to_map(entries.remove(i)) == entries_to_map(entries).remove(entries[i].0),
{
    let rest = entries.remove(i);
    let key = entries[i].0;
    assert(entry_keys(rest) =~= entry_keys(entries).remove(i));
    assert forall|a: int, b: int|
        0 <= a < rest.len() && 0 <= b < rest.len() && a != b implies entry_keys(rest)[a]
        != entry_keys(rest)[b] by {
        let a0 = if a < i { a } else { a + 1 };
        let b0 = if b < i { b } else { b + 1 };
        assert(entry_keys(entries)[a0] != entry_keys(entries)[b0]);
    }
    assert forall|k: BlockHash| #[trigger]
        entries_to_map(rest).contains_key(k) <==> entries_to_map(entries).remove(
            key,
        ).contains_key(k) by {
        if entries_to_map(rest).contains_key(k) {
            let j = choose|j: int| stored_at(rest, k, j);
            let j0 = if j < i { j } else { j + 1 };
            assert(stored_at(entries, k, j0));
            assert(entry_keys(entries)[j0] != entry_keys(entries)[i]);
        }
        if entries_to_map(entries).contains_key(k) && k != key {
            let j = choose|j: int| stored_at(entries, k, j);
            let j1 = if j < i { j } else { j - 1 };
            assert(stored_at(rest, k, j1));
        }
    }
    assert forall|k: BlockHash| #[trigger]
        entries_to_map(rest).contains_key(k) implies entries_to_map(rest)[k] == entries_to_map(
        entries,
    ).remove(key)[k] by {
        let j = choose|j: int| stored_at(rest, k, j);
        let j0 = if j < i { j } else { j + 1 };
        lemma_entry_is_bound(rest, j);
        assert(stored_at(entries, k, j0));
        lemma_entry_is_bound(entries, j0);
    }
    assert(entries_to_map(rest) =~= entries_to_map(entries).remove(key));
}

/// The map that comes of binding the pairs one after the other: where a key
/// occurs twice, the later pair wins.
pub open spec fn pairs_to_map<V>(pairs: Seq<(BlockHash, V)>) -> Map<BlockHash, V>
    decreases pairs.len(),
{
    if pairs.len() == 0 {
        Map::empty()
    } else {
        pairs_to_map(pairs.drop_last()).insert(pairs.last().0, pairs.last().1)
    }
}

/// Pairs with distinct keys give a map with one entry for each pair.
pub proof fn lemma_pairs_to_map<V>(pairs: Seq<(BlockHash, V)>)
    requires
        entry_keys(pairs).no_duplicates(),
    ensures
        pairs_to_map(pairs).dom().finite(),
        pairs_to_map(pairs).dom().len() == pairs.len(),
        pairs_to_map(pairs).dom() == entry_keys(pairs).to_set(),
        forall|i: int|
            0 <= i < pairs.len() ==> pairs_to_map(pairs).contains_key(#[trigger] pairs[i].0)
                && pairs_to_map(pairs)[pairs[i].0] == pairs[i].1,
    decreases pairs.len(),
{
    if pairs.len() == 0 {
        assert(pairs_to_map(pairs).dom() =~= entry_keys(pairs).to_set());
    } else {
        let earlier = pairs.drop_last();
        let last = pairs.last();
        assert(entry_keys(earlier) =~= entry_keys(pairs).drop_last());
        assert forall|a: int, b: int|
            0 <= a < earlier.len() && 0 <= b < earlier.len() && a != b implies entry_keys(
            earlier,
        )[a] != entry_keys(earlier)[b] by {
            assert(entry_keys(pairs)[a] != entry_keys(pairs)[b]);
        }
        lemma_pairs_to_map(earlier);
        assert(!entry_keys(earlier).contains(last.0)) by {
            if entry_keys(earlier).contains(last.0) {
                let j = choose|j: int| 0 <= j < earlier.len() && entry_keys(earlier)[j] == last.0;
                assert(entry_keys(pairs)[j] == entry_keys(pairs)[pairs.len() - 1]);
            }
        }
        assert(entry_keys(pairs) =~= entry_keys(earlier).push(last.0));
        assert(entry_keys(pairs).to_set() =~= entry_keys(earlier).to_set().insert(last.0)) by {
            assert forall|k: BlockHash|
                entry_keys(pairs).contains(k) <==> entry_keys(earlier).contains(k) || k
                    == last.0 by {
                if entry_keys(pairs).contains(k) {
                    let j = choose|j: int| 0 <= j < pairs.len() && entry_keys(pairs)[j] == k;
                    if j < earlier.len() {
                        assert(entry_keys(earlier)[j] == k);
                    }
                }
                if entry_keys(earlier).contains(k) {
                    let j = choose|j: int| 0 <= j < earlier.len() && entry_keys(earlier)[j] == k;
                    assert(entry_keys(pairs)[j] == k);
                }
                if k == last.0 {
                    assert(entry_keys(pairs)[pairs.len() - 1] == k);
                }
            }
        }
        assert forall|i: int| 0 <= i < pairs.len() implies pairs_to_map(pairs).contains_key(
            #[trigger] pairs[i].0,
        ) && pairs_to_map(pairs)[pairs[i].0] == pairs[i].1 by {
            if i < earlier.len() {
                assert(earlier[i] == pairs[i]);
                assert(entry_keys(earlier)[i] == pairs[i].0);
                assert(entry_keys(earlier).contains(pairs[i].0));
            }
        }
    }
}

/// A map from block hashes to values of type `V`.
pub struct BlockMap<V> {
    entries: Vec<(BlockHash, V)>,
}

impl<V> View for BlockMap<V> {
    type V = Map<BlockHash, V>;

    closed spec fn view(&self) -> Map<BlockHash, V> {
        entries_to_map(self.entries@)
    }
}

impl<V> BlockMap<V> {
    /// The keys in the order in which `key_at` and `value_at` number them.
    pub closed spec fn keys(&self) -> Seq<BlockHash> {
        entry_keys(self.entries@)
    }

    /// No key is stored twice.
    pub closed spec fn wf(&self) -> bool {
        self.keys().no_duplicates()
    }

    /// `keys` lists the domain of the view, each key once.
    pub proof fn lemma_keys(&self)
        requires
            self.wf(),
        ensures
            self.keys().no_duplicates(),
            forall|key: BlockHash| self.keys().contains(key) <==> self@.contains_key(key),
            self@.dom().finite(),
            self@.dom().len() == self.keys().len(),
            self@.dom() == self.keys().to_set(),
    {
        let keys = self.keys();
        assert forall|key: BlockHash| keys.contains(key) <==> self@.contains_key(key) by {
            if keys.contains(key) {
                let i = choose|i: int| 0 <= i < keys.len() && keys[i] == key;
                assert(stored_at(self.entries@, key, i));
            }
            if self@.contains_key(key) {
                let i = choose|i: int| stored_at(self.entries@, key, i);
                assert(keys[i] == key);
            }
        }
        assert(self@.dom() =~= keys.to_set());
        keys.unique_seq_to_set();
    }

    /// An empty map.
    pub fn new() -> (map: BlockMap<V>)
        ensures
            map.wf(),
            map@ == Map::<BlockHash, V>::empty(),
            map.keys() == Seq::<BlockHash>::empty(),
    {
        let map = BlockMap { entries: Vec::new() };
        proof {
            assert(map@ =~= Map::<BlockHash, V>::empty());
            assert(map.keys() =~= Seq::<BlockHash>::empty());
        }
        map
    }

    /// The number of entries.
    pub fn len(&self) -> (n: usize)
        requires
            self.wf(),
        ensures
            n == self.keys().len(),
            n == self@.dom().len(),
    {
        proof {
            self.lemma_keys();
        }
        self.entries.len()
    }

    /// Whether the map has no entry.
    pub fn is_empty(&self) -> (empty: bool)
        requires
            self.wf(),
        ensures
            empty <==> self@ == Map::<BlockHash, V>::empty(),
            empty <==> self.keys().len() == 0,
    {
        proof {
            self.lemma_keys();
            if self.entries@.len() == 0 {
                assert(self@ =~= Map::<BlockHash, V>::empty());
            } else {
                assert(self.keys().contains(self.keys()[0]));
            }
        }
        self.entries.len() == 0
    }

    /// The position at which `key` is stored, if it is.
    fn position(&self, key: &BlockHash) -> (found: Option<usize>)
        requires
            self.wf(),
        ensures
            match found {
                Some(i) => stored_at(self.entries@, *key, i as int),
                None => !self@.contains_key(*key),
            },
            found is Some <==> self@.contains_key(*key),
    {
        let mut i: usize = 0;
        while i < self.entries.len()
            invariant
                i <= self.entries@.len(),
                forall|j: int| 0 <= j < i ==> self.entries@[j].0 != *key,
            decreases self.entries@.len() - i,
        {
            if self.entries[i].0 == *key {
                assert(stored_at(self.entries@, *key, i as int));
                return Some(i);
            }
            i += 1;
        }
        None
    }

    /// Whether `key` is bound.
    pub fn contains_key(&self, key: &BlockHash) -> (found: bool)
        requires
            self.wf(),
        ensures
            found == self@.contains_key(*key),
    {
        self.position(key).is_some()
    }

    /// The value bound to `key`, if any.
    pub fn get(&self, key: &BlockHash) -> (value: Option<&V>)
        requires
            self.wf(),
        ensures
            match value {
                Some(v) => self@.contains_key(*key) && *v == self@[*key],
                None => !self@.contains_key(*key),
            },
    {
        match self.position(key) {
            Some(i) => {
                proof {
                    lemma_entry_is_bound(self.entries@, i as int);
                }
                Some(&self.entries[i].1)
            },
            None => None,
        }
    }

    /// Binds `key` to `value` and hands back what `key` was bound to before.
    /// A new key goes to the end of `keys`; a key that was bound keeps its place.
    pub fn insert(&mut self, key: BlockHash, value: V) -> (previous: Option<V>)
        requires
            old(self).wf(),
        ensures
            final(self).wf(),
            final(self)@ == old(self)@.insert(key, value),
            previous == old(self)@.get(key),
            final(self).keys() == if old(self)@.contains_key(key) {
                old(self).keys()
            } else {
                old(self).keys().push(key)
            },
    {
        let found = self.position(&key);
        let ghost before = self.entries@;
        match found {
            Some(i) => {
                self.entries.push((key, value));
                let replaced = self.entries.swap_remove(i);
                proof {
                    let after = self.entries@;
                    lemma_entry_is_bound(before, i as int);
                    assert(entry_keys(after) =~= entry_keys(before));
                    assert forall|k: BlockHash| #[trigger]
                        entries_to_map(after).contains_key(k) <==> entries_to_map(
                            before,
                        ).insert(key, value).contains_key(k) by {
                        if entries_to_map(after).contains_key(k) {
                            let j = choose|j: int| stored_at(after, k, j);
                            assert(stored_at(before, k, j));
                        }
                        if entries_to_map(before).contains_key(k) {
                            let j = choose|j: int| stored_at(before, k, j);
                            assert(stored_at(after, k, j));
                        }
                    }
                    assert forall|k: BlockHash| #[trigger]
                        entries_to_map(after).contains_key(k) implies entries_to_map(after)[k]
                        == entries_to_map(before).insert(key, value)[k] by {
                        let j = choose|j: int| stored_at(after, k, j);
                        lemma_entry_is_bound(after, j);
                        if k != key {
                            assert(stored_at(before, k, j));
                            lemma_entry_is_bound(before, j);
                        } else {
                            assert(entry_keys(after)[j] == entry_keys(after)[i as int]);
                        }
                    }
                    assert(entries_to_map(after) =~= entries_to_map(before).insert(key, value));
                }
                Some(replaced.1)
            },
            None => {
                self.entries.push((key, value));
                proof {
                    let after = self.entries@;
                    let last = before.len() as int;
                    assert(entry_keys(after) =~= entry_keys(before).push(key));
                    assert forall|a: int, b: int|
                        0 <= a < after.len() && 0 <= b < after.len() && a != b implies entry_keys(
                        after,
                    )[a] != entry_keys(after)[b] by {
                        if a < last && b < last {
                            assert(entry_keys(before)[a] != entry_keys(before)[b]);
                        } else if a < last {
                            assert(stored_at(before, entry_keys(before)[a], a));
                        } else {
                            assert(stored_at(before, entry_keys(before)[b], b));
                        }
                    }
                    assert forall|k: BlockHash| #[trigger]
                        entries_to_map(after).contains_key(k) <==> entries_to_map(
                            before,
                        ).insert(key, value).contains_key(k) by {
                        if entries_to_map(after).contains_key(k) {
                            let j = choose|j: int| stored_at(after, k, j);
                            if j < last {
                                assert(stored_at(before, k, j));
                            }
                        }
                        if entries_to_map(before).contains_key(k) {
                            let j = choose|j: int| stored_at(before, k, j);
                            assert(stored_at(after, k, j));
                        }
                        if k == key {
                            assert(stored_at(after, k, last));
                        }
                    }
                    assert forall|k: BlockHash| #[trigger]
                        entries_to_map(after).contains_key(k) implies entries_to_map(after)[k]
                        == entries_to_map(before).insert(key, value)[k] by {
                        let j = choose|j: int| stored_at(after, k, j);
                        lemma_entry_is_bound(after, j);
                        if j < last {
                            assert(stored_at(before, k, j));
                            lemma_entry_is_bound(before, j);
                        }
                    }
                    assert(entries_to_map(after) =~= entries_to_map(before).insert(key, value));
                }
                None
            },
        }
    }

    /// Unbinds `key` and hands back what it was bound to. The other keys keep
    /// their order.
    pub fn remove(&mut self, key: &BlockHash) -> (removed: Option<V>)
        requires
            old(self).wf(),
        ensures
            final(self).wf(),
            final(self)@ == old(self)@.remove(*key),
            removed == old(self)@.get(*key),
    {
        match self.position(key) {
            Some(i) => {
                proof {
                    lemma_entry_is_bound(self.entries@, i as int);
                    lemma_remove_entry(self.entries@, i as int);
                }
                let entry = self.entries.remove(i);
                Some(entry.1)
            },
            None => {
                assert(self@ =~= self@.remove(*key));
                None
            },
        }
    }

    /// The key at position `i`.
    pub fn key_at(&self, i: usize) -> (key: BlockHash)
        requires
            self.wf(),
            i < self.keys().len(),
        ensures
            key == self.keys()[i as int],
            self@.contains_key(key),
    {
        proof {
            lemma_entry_is_bound(self.entries@, i as int);
        }
        self.entries[i].0
    }

    /// The value bound to the key at position `i`.
    pub fn value_at(&self, i: usize) -> (value: &V)
        requires
            self.wf(),
            i < self.keys().len(),
        ensures
            self@.contains_key(self.keys()[i as int]),
            *value == self@[self.keys()[i as int]],
    {
        proof {
            lemma_entry_is_bound(self.entries@, i as int);
        }
        &self.entries[i].1
    }

    /// Takes out the entry at position `i`. The other keys keep their order.
    pub fn remove_at(&mut self, i: usize) -> (removed: (BlockHash, V))
        requires
            old(self).wf(),
            i < old(self).keys().len(),
        ensures
            final(self).wf(),
            removed.0 == old(self).keys()[i as int],
            old(self)@.contains_key(removed.0),
            removed.1 == old(self)@[removed.0],
            final(self)@ == old(self)@.remove(removed.0),
            final(self).keys() == old(self).keys().remove(i as int),
    {
        proof {
            lemma_entry_is_bound(self.entries@, i as int);
            lemma_remove_entry(self.entries@, i as int);
        }
        self.entries.remove(i)
    }

    /// The keys, in order.
    pub fn key_list(&self) -> (list: Vec<BlockHash>)
        requires
            self.wf(),
        ensures
            list@ == self.keys(),
    {
        let mut list: Vec<BlockHash> = Vec::new();
        let mut i: usize = 0;
        while i < self.entries.len()
            invariant
                i <= self.entries@.len(),
                list@ == self.keys().subrange(0, i as int),
            decreases self.entries@.len() - i,
        {
            list.push(self.entries[i].0);
            proof {
                assert(list@ =~= self.keys().subrange(0, i + 1));
            }
            i += 1;
        }
        proof {
            assert(list@ =~= self.keys());
        }
        list
    }

    /// The map that binds each key of `pairs` to the value that comes with it.
    /// Where a key comes twice, the later value is kept.
    pub fn from_pairs(pairs: Vec<(BlockHash, V)>) -> (map: BlockMap<V>)
        ensures
            map.wf(),
            map@ == pairs_to_map(pairs@),
            entry_keys(pairs@).no_duplicates() ==> map.keys() == entry_keys(pairs@),
    {
        let mut map: BlockMap<V> = BlockMap::new();
        let ghost all = pairs@;
        proof {
            assert(all.subrange(0, 0) =~= Seq::<(BlockHash, V)>::empty());
            assert(entry_keys(all.subrange(0, 0)) =~= Seq::<BlockHash>::empty());
        }
        for pair in it: pairs
            invariant
                all == it.seq(),
                map.wf(),
                map@ == pairs_to_map(all.subrange(0, it.index() as int)),
                entry_keys(all).no_duplicates() ==> map.keys() == entry_keys(
                    all.subrange(0, it.index() as int),
                ),
        {
            let ghost done = all.subrange(0, it.index() as int);
            let ghost next = all.subrange(0, it.index() + 1);
            proof {
                assert(next.drop_last() =~= done);
                assert(next.last() == pair);
                if entry_keys(all).no_duplicates() {
                    map.lemma_keys();
                    if map@.contains_key(pair.0) {
                        let j = choose|j: int|
                            0 <= j < done.len() && entry_keys(done)[j] == pair.0;
                        assert(entry_keys(all)[j] == entry_keys(all)[it.index() as int]);
                    }
                    assert(entry_keys(next) =~= entry_keys(done).push(pair.0));
                }
            }
            map.insert(pair.0, pair.1);
        }
        proof {
            assert(all.subrange(0, all.len() as int) =~= all);
        }
        map
    }
}

} // verus!
