//! A map that hands out its entries in ascending order of their keys.
use crate::primitives::{Ranked, H256};
use vstd::prelude::*;

verus! {

/// `entries` are in strictly ascending order of their keys.
pub open spec fn ascending<K: Ranked, W>(entries: Seq<(K, W)>) -> bool {
    forall|i: int, j: int|
        0 <= i < j < entries.len() ==> (#[trigger] entries[i]).0.rank() < (
        #[trigger] entries[j]).0.rank()
}

/// `key` stands in `entries`.
pub open spec fn has_key<K, W>(entries: Seq<(K, W)>, key: K) -> bool {
    exists|i: int| 0 <= i < entries.len() && (#[trigger] entries[i]).0 == key
}

/// `entries` are the entries of `map`, each once, in ascending order.
pub open spec fn lists<K: Ranked, W>(entries: Seq<(K, W)>, map: Map<K, W>) -> bool {
    &&& ascending(entries)
    &&& forall|i: int|
        0 <= i < entries.len() ==> map.contains_key((#[trigger] entries[i]).0)
            && map[entries[i].0] == entries[i].1
    &&& forall|key: K| #[trigger] map.contains_key(key) ==> has_key(entries, key)
}

/// The entries of `map` in ascending order of their keys.
pub open spec fn listing<K: Ranked, W>(map: Map<K, W>) -> Seq<(K, W)> {
    choose|entries: Seq<(K, W)>| lists(entries, map)
}

/// The map that results when `entries` are inserted one after the other.
pub open spec fn collected<K, W>(entries: Seq<(K, W)>) -> Map<K, W>
    decreases entries.len(),
{
    if entries.len() == 0 {
        Map::empty()
    } else {
        collected(entries.drop_last()).insert(entries.last().0, entries.last().1)
    }
}

/// A map is listed in one way only.
pub proof fn lemma_listing_unique<K: Ranked, W>(
    a: Seq<(K, W)>,
    b: Seq<(K, W)>,
    map: Map<K, W>,
)
    requires
        lists(a, map),
        lists(b, map),
    ensures
        a == b,
    decreases a.len(),
{
    if a.len() == 0 {
        if b.len() > 0 {
            assert(map.contains_key(b[0].0));
            assert(has_key(a, b[0].0));
        }
        assert(a =~= b);
    } else {
        assert(map.contains_key(a.last().0));
        assert(has_key(b, a.last().0));
        let j = choose|j: int| 0 <= j < b.len() && (#[trigger] b[j]).0 == a.last().0;
        assert(map.contains_key(b.last().0));
        assert(has_key(a, b.last().0));
        let i = choose|i: int| 0 <= i < a.len() && (#[trigger] a[i]).0 == b.last().0;
        assert(a.last().0 == b.last().0) by {
            if i < a.len() - 1 {
                assert(a[i].0.rank() < a[a.len() - 1].0.rank());
                assert(b[j].0.rank() <= b[b.len() - 1].0.rank());
            }
        }
        let key = a.last().0;
        let rest = map.remove(key);
        lemma_lists_without_last(a, map);
        lemma_lists_without_last(b, map);
        lemma_listing_unique(a.drop_last(), b.drop_last(), rest);
        assert(a =~= a.drop_last().push(a.last()));
        assert(b =~= b.drop_last().push(b.last()));
    }
}

/// Without its last entry a listing lists the map without the last key.
proof fn lemma_lists_without_last<K: Ranked, W>(a: Seq<(K, W)>, map: Map<K, W>)
    requires
        lists(a, map),
        a.len() > 0,
    ensures
        lists(a.drop_last(), map.remove(a.last().0)),
{
    let rest = map.remove(a.last().0);
    let shorter = a.drop_last();
    assert forall|i: int| 0 <= i < shorter.len() implies rest.contains_key(
        (#[trigger] shorter[i]).0,
    ) && rest[shorter[i].0] == shorter[i].1 by {
        assert(shorter[i] == a[i]);
        assert(a[i].0.rank() < a[a.len() - 1].0.rank());
    }
    assert forall|key: K| #[trigger] rest.contains_key(key) implies has_key(shorter, key) by {
        assert(map.contains_key(key));
        let i = choose|i: int| 0 <= i < a.len() && (#[trigger] a[i]).0 == key;
        assert(shorter[i] == a[i]);
    }
}

/// Entries in ascending order list what they collect to.
pub proof fn lemma_ascending_lists_collected<K: Ranked, W>(entries: Seq<(K, W)>)
    requires
        ascending(entries),
    ensures
        lists(entries, collected(entries)),
    decreases entries.len(),
{
    if entries.len() > 0 {
        let shorter = entries.drop_last();
        lemma_ascending_lists_collected(shorter);
        let map = collected(entries);
        assert forall|i: int| 0 <= i < entries.len() implies map.contains_key(
            (#[trigger] entries[i]).0,
        ) && map[entries[i].0] == entries[i].1 by {
            if i < entries.len() - 1 {
                assert(shorter[i] == entries[i]);
                assert(entries[i].0.rank() < entries[entries.len() - 1].0.rank());
            }
        }
        assert forall|key: K| #[trigger] map.contains_key(key) implies has_key(entries, key) by {
            if key == entries.last().0 {
                assert(entries[entries.len() - 1].0 == key);
            } else {
                assert(collected(shorter).contains_key(key));
                let i = choose|i: int| 0 <= i < shorter.len() && (#[trigger] shorter[i]).0 == key;
                assert(entries[i] == shorter[i]);
            }
        }
    }
}

/// A listing determines the map that it lists.
pub proof fn lemma_lists_determines<K: Ranked, W>(entries: Seq<(K, W)>, a: Map<K, W>, b: Map<K, W>)
    requires
        lists(entries, a),
        lists(entries, b),
    ensures
        a == b,
{
    assert forall|key: K| a.contains_key(key) <==> b.contains_key(key) by {
        if a.contains_key(key) {
            assert(has_key(entries, key));
        }
        if b.contains_key(key) {
            assert(has_key(entries, key));
        }
    }
    assert forall|key: K| a.contains_key(key) implies a[key] == b[key] by {
        let i = choose|i: int| 0 <= i < entries.len() && (#[trigger] entries[i]).0 == key;
        assert(a.contains_key(entries[i].0));
    }
    assert(a =~= b);
}

/// What lists a map is its listing.
pub proof fn lemma_listing<K: Ranked, W>(entries: Seq<(K, W)>, map: Map<K, W>)
    requires
        lists(entries, map),
    ensures
        listing(map) == entries,
{
    lemma_listing_unique(listing(map), entries, map);
}

/// What is collected from entries is finite, has exactly their keys, and of two
/// entries with one key holds the later.
pub proof fn law_later_entry_counts<K, W>(entries: Seq<(K, W)>)
    ensures
        collected(entries).dom().finite(),
        forall|key: K| #[trigger]
            collected(entries).contains_key(key) <==> exists|i: int|
                0 <= i < entries.len() && (#[trigger] entries[i]).0 == key,
        forall|i: int|
            0 <= i < entries.len() && (forall|j: int|
                i < j < entries.len() ==> (#[trigger] entries[j]).0 != entries[i].0)
                ==> collected(entries)[(#[trigger] entries[i]).0] == entries[i].1,
    decreases entries.len(),
{
    if entries.len() > 0 {
        let shorter = entries.drop_last();
        let last = entries.len() - 1;
        law_later_entry_counts(shorter);
        assert forall|key: K| #[trigger] collected(entries).contains_key(key) <==> exists|i: int|
            0 <= i < entries.len() && (#[trigger] entries[i]).0 == key by {
            if key == entries.last().0 {
                assert(entries[last].0 == key);
            } else if collected(shorter).contains_key(key) {
                let i = choose|i: int| 0 <= i < shorter.len() && (#[trigger] shorter[i]).0 == key;
                assert(entries[i].0 == key);
            } else if exists|i: int| 0 <= i < entries.len() && (#[trigger] entries[i]).0 == key {
                let i = choose|i: int| 0 <= i < entries.len() && (#[trigger] entries[i]).0 == key;
                assert(shorter[i].0 == key);
            }
        }
        assert forall|i: int|
            0 <= i < entries.len() && (forall|j: int|
                i < j < entries.len() ==> (#[trigger] entries[j]).0
                    != entries[i].0) implies collected(entries)[(#[trigger] entries[i]).0]
            == entries[i].1 by {
            if i < last {
                assert(entries[last].0 != entries[i].0);
                assert(shorter[i] == entries[i]);
                assert forall|j: int| i < j < shorter.len() implies (#[trigger] shorter[j]).0
                    != shorter[i].0 by {
                    assert(shorter[j] == entries[j]);
                }
            }
        }
    }
}

/// Among finitely many keys one is last.
proof fn lemma_last_key<K: Ranked, W>(map: Map<K, W>) -> (last: K)
    requires
        map.dom().finite(),
        map.dom().len() > 0,
    ensures
        map.contains_key(last),
        forall|key: K| #[trigger] map.contains_key(key) ==> key.rank() <= last.rank(),
    decreases map.dom().len(),
{
    let some = map.dom().choose();
    let rest = map.remove(some);
    if rest.dom().len() == 0 {
        assert forall|key: K| #[trigger] map.contains_key(key) implies key.rank()
            <= some.rank() by {
            if key != some {
                assert(rest.contains_key(key));
                assert(rest.dom().contains(key));
                assert(rest.dom() =~= Set::<K>::empty());
            }
        }
        some
    } else {
        let other = lemma_last_key(rest);
        assert forall|key: K| #[trigger] map.contains_key(key) && key != some implies key.rank()
            <= other.rank() by {
            assert(rest.contains_key(key));
        }
        if some.rank() <= other.rank() {
            other
        } else {
            some
        }
    }
}

/// Finitely many keys can be listed.
proof fn lemma_listing_exists<K: Ranked, W>(map: Map<K, W>) -> (entries: Seq<(K, W)>)
    requires
        map.dom().finite(),
    ensures
        lists(entries, map),
        entries.len() == map.dom().len(),
    decreases map.dom().len(),
{
    if map.dom().len() == 0 {
        assert(map.dom() =~= Set::<K>::empty());
        assert forall|key: K| !(#[trigger] map.contains_key(key)) by {
            assert(!map.dom().contains(key));
        }
        Seq::empty()
    } else {
        let last = lemma_last_key(map);
        let rest = map.remove(last);
        let shorter = lemma_listing_exists(rest);
        let entries = shorter.push((last, map[last]));
        assert forall|i: int, j: int| 0 <= i < j < entries.len() implies (
        #[trigger] entries[i]).0.rank() < (#[trigger] entries[j]).0.rank() by {
            assert(entries[i] == shorter[i]);
            assert(rest.contains_key(shorter[i].0));
            if j < shorter.len() {
                assert(entries[j] == shorter[j]);
            } else {
                assert(map.contains_key(shorter[i].0));
                if shorter[i].0.rank() == last.rank() {
                    K::lemma_rank_injective(shorter[i].0, last);
                }
            }
        }
        assert forall|i: int| 0 <= i < entries.len() implies map.contains_key(
            (#[trigger] entries[i]).0,
        ) && map[entries[i].0] == entries[i].1 by {
            if i < shorter.len() {
                assert(entries[i] == shorter[i]);
                assert(rest.contains_key(shorter[i].0));
            }
        }
        assert forall|key: K| #[trigger] map.contains_key(key) implies has_key(entries, key) by {
            if key == last {
                assert(entries[shorter.len() as int].0 == key);
            } else {
                assert(rest.contains_key(key));
                let i = choose|i: int| 0 <= i < shorter.len() && (#[trigger] shorter[i]).0 == key;
                assert(entries[i] == shorter[i]);
            }
        }
        entries
    }
}

/// The entries of a finite map are listed in strictly ascending order of their
/// keys: every key once, with its value, and no other.
pub proof fn law_listing_in_order<K: Ranked, W>(map: Map<K, W>)
    requires
        map.dom().finite(),
    ensures
        listing(map).len() == map.dom().len(),
        forall|i: int, j: int|
            0 <= i < j < listing(map).len() ==> (#[trigger] listing(map)[i]).0.rank() < (
            #[trigger] listing(map)[j]).0.rank(),
        forall|i: int|
            0 <= i < listing(map).len() ==> map.contains_key((#[trigger] listing(map)[i]).0)
                && map[listing(map)[i].0] == listing(map)[i].1,
        forall|key: K| #[trigger]
            map.contains_key(key) ==> exists|i: int|
                0 <= i < listing(map).len() && (#[trigger] listing(map)[i]).0 == key,
        lists(listing(map), map),
{
    let entries = lemma_listing_exists(map);
    lemma_listing(entries, map);
    assert forall|key: K| #[trigger] map.contains_key(key) implies exists|i: int|
        0 <= i < listing(map).len() && (#[trigger] listing(map)[i]).0 == key by {
        assert(has_key(listing(map), key));
    }
}

/// Values of which a second one can be made that shows the same.
pub trait Duplicate: View + Sized {
    /// A second value with the same view.
    fn duplicate(&self) -> (copy: Self)
        ensures
            copy@ == self@,
    ;
}

/// A map from keys with an order to values, kept in ascending order of the keys.
#[derive(Debug, PartialEq)]
pub struct SortedMap<K: Ranked, V: View> {
    entries: Vec<(K, V)>,
}

/// Entries with each value replaced by its view.
pub open spec fn shown<K, V: View>(entries: Seq<(K, V)>) -> Seq<(K, V::V)> {
    entries.map_values(|entry: (K, V)| (entry.0, entry.1@))
}

impl<K: Ranked, V: View> View for SortedMap<K, V> {
    type V = Map<K, V::V>;

    closed spec fn view(&self) -> Map<K, V::V> {
        collected(shown(self.entries@))
    }
}

impl<K: Ranked, V: View> SortedMap<K, V> {
    #[verifier::type_invariant]
    spec fn in_order(self) -> bool {
        ascending(shown(self.entries@))
    }

    /// A map holds finitely many entries.
    pub proof fn lemma_finite(self)
        ensures
            self@.dom().finite(),
    {
        law_later_entry_counts(shown(self.entries@));
    }

    /// The map without entries.
    pub fn new() -> (map: Self)
        ensures
            map@ == Map::<K, V::V>::empty(),
    {
        SortedMap { entries: Vec::new() }
    }

    /// The number of entries.
    pub fn len(&self) -> (count: usize)
        ensures
            count == listing(self@).len(),
            lists(listing(self@), self@),
            self@.dom().finite(),
            count == self@.dom().len(),
    {
        proof {
            self.lemma_finite();
            law_listing_in_order(self@);
            use_type_invariant(self);
            lemma_ascending_lists_collected(shown(self.entries@));
            lemma_listing(shown(self.entries@), self@);
        }
        self.entries.len()
    }

    /// Whether the map has no entries.
    pub fn is_empty(&self) -> (empty: bool)
        ensures
            empty == (self@ == Map::<K, V::V>::empty()),
    {
        let count = self.len();
        proof {
            if count > 0 {
                assert(self@.contains_key(listing(self@)[0].0));
            } else {
                assert forall|key: K| !(#[trigger] self@.contains_key(key)) by {
                    if self@.contains_key(key) {
                        assert(has_key(listing(self@), key));
                    }
                }
                assert(self@ =~= Map::<K, V::V>::empty());
            }
        }
        count == 0
    }

    /// The `i`-th entry in ascending order of the keys.
    pub fn entry(&self, i: usize) -> (entry: (K, &V))
        requires
            i < listing(self@).len(),
        ensures
            (entry.0, entry.1@) == listing(self@)[i as int],
            self@.contains_key(entry.0),
            self@[entry.0] == entry.1@,
            lists(listing(self@), self@),
    {
        proof {
            self.lemma_finite();
            law_listing_in_order(self@);
            use_type_invariant(self);
            lemma_ascending_lists_collected(shown(self.entries@));
            lemma_listing(shown(self.entries@), self@);
        }
        (self.entries[i].0, &self.entries[i].1)
    }

    /// The number of keys that come before `key`, which is where it stands or
    /// belongs.
    fn position(entries: &Vec<(K, V)>, key: &K) -> (at: usize)
        requires
            ascending(shown(entries@)),
        ensures
            at <= entries@.len(),
            forall|i: int| 0 <= i < at ==> entries@[i].0.rank() < key.rank(),
            forall|i: int| at <= i < entries@.len() ==> key.rank() <= entries@[i].0.rank(),
    {
        let mut low: usize = 0;
        let mut high: usize = entries.len();
        while low < high
            invariant
                low <= high <= entries@.len(),
                ascending(shown(entries@)),
                forall|i: int| 0 <= i < low ==> entries@[i].0.rank() < key.rank(),
                forall|i: int| high <= i < entries@.len() ==> key.rank() <= entries@[i].0.rank(),
            decreases high - low,
        {
            let middle: usize = low + (high - low) / 2;
            assert(forall|i: int|
                0 <= i < entries@.len() ==> (#[trigger] shown(entries@)[i]).0 == entries@[i].0);
            if entries[middle].0.precedes(key) {
                assert forall|i: int| 0 <= i < middle + 1 implies entries@[i].0.rank()
                    < key.rank() by {
                    if i < middle {
                        assert(shown(entries@)[i].0.rank() < shown(entries@)[middle as int].0.rank());
                    }
                }
                low = middle + 1;
            } else {
                assert forall|i: int| middle <= i < entries@.len() implies key.rank()
                    <= entries@[i].0.rank() by {
                    if i > middle {
                        assert(shown(entries@)[middle as int].0.rank() < shown(entries@)[i].0.rank());
                    }
                }
                high = middle;
            }
        }
        low
    }

    /// The value that `key` leads to.
    pub fn get(&self, key: &K) -> (value: Option<&V>)
        ensures
            match value {
                Some(found) => self@.contains_key(*key) && self@[*key] == found@,
                None => !self@.contains_key(*key),
            },
    {
        let ghost entries = shown(self.entries@);
        proof {
            use_type_invariant(self);
            lemma_ascending_lists_collected(entries);
        }
        let at = Self::position(&self.entries, key);
        if at < self.entries.len() && self.entries[at].0.same(key) {
            assert(entries[at as int].0 == *key);
            Some(&self.entries[at].1)
        } else {
            proof {
                if self@.contains_key(*key) {
                    let i = choose|i: int|
                        0 <= i < entries.len() && (#[trigger] entries[i]).0 == *key;
                    assert(self.entries@[i].0 == *key);
                    if i > at {
                        assert(entries[at as int].0.rank() < entries[i].0.rank());
                        assert(self.entries@[at as int].0.rank() >= key.rank());
                    }
                }
            }
            None
        }
    }

    /// Lets `key` lead to `value`, in place of what it led to before.
    pub fn insert(&mut self, key: K, value: V)
        ensures
            final(self)@ == old(self)@.insert(key, value@),
    {
        proof {
            use_type_invariant(&*self);
        }
        let mut entries: Vec<(K, V)> = Vec::new();
        std::mem::swap(&mut entries, &mut self.entries);
        let ghost before = shown(entries@);
        let ghost target = collected(before).insert(key, value@);
        proof {
            lemma_ascending_lists_collected(before);
        }
        let at = Self::position(&entries, &key);
        if at < entries.len() && entries[at].0.same(&key) {
            entries[at] = (key, value);
            proof {
                let after = shown(entries@);
                assert(after =~= before.update(at as int, (key, value@)));
                assert forall|k: K| #[trigger] target.contains_key(k) implies has_key(after, k) by {
                    if k == key {
                        assert(after[at as int].0 == k);
                    } else {
                        assert(collected(before).contains_key(k));
                        let i = choose|i: int|
                            0 <= i < before.len() && (#[trigger] before[i]).0 == k;
                        assert(after[i] == before[i]);
                    }
                }
                assert forall|i: int| 0 <= i < after.len() implies target.contains_key(
                    (#[trigger] after[i]).0,
                ) && target[after[i].0] == after[i].1 by {
                    if i != at {
                        assert(after[i] == before[i]);
                        if i < at {
                            assert(before[i].0.rank() < before[at as int].0.rank());
                        } else {
                            assert(before[at as int].0.rank() < before[i].0.rank());
                        }
                    }
                }
                assert forall|i: int, j: int| 0 <= i < j < after.len() implies (
                #[trigger] after[i]).0.rank() < (#[trigger] after[j]).0.rank() by {
                    assert(before[i].0.rank() < before[j].0.rank());
                }
                assert(lists(after, target));
                lemma_ascending_lists_collected(after);
                lemma_lists_determines(after, target, collected(after));
            }
        } else {
            let ghost old_entries = entries@;
            entries.insert(at, (key, value));
            proof {
                let after = shown(entries@);
                assert(after =~= before.insert(at as int, (key, value@)));
                assert forall|i: int| 0 <= i < before.len() implies (#[trigger] before[i]).0
                    != key by {
                    assert(before[i].0 == old_entries[i].0);
                    if i > at {
                        assert(before[at as int].0.rank() < before[i].0.rank());
                        assert(before[at as int].0 == old_entries[at as int].0);
                    }
                }
                assert forall|i: int, j: int| 0 <= i < j < after.len() implies (
                #[trigger] after[i]).0.rank() < (#[trigger] after[j]).0.rank() by {
                    if i < at {
                        assert(after[i] == before[i]);
                        assert(before[i].0 == old_entries[i].0);
                        if j > at {
                            assert(after[j] == before[j - 1]);
                            assert(before[i].0.rank() < before[j - 1].0.rank());
                        } else if j < at {
                            assert(after[j] == before[j]);
                        }
                    } else if i == at {
                        assert(after[j] == before[j - 1]);
                        assert(before[j - 1].0 == old_entries[j - 1].0);
                        if before[j - 1].0.rank() == key.rank() {
                            K::lemma_rank_injective(before[j - 1].0, key);
                        }
                    } else {
                        assert(after[i] == before[i - 1]);
                        assert(after[j] == before[j - 1]);
                    }
                }
                assert forall|i: int| 0 <= i < after.len() implies target.contains_key(
                    (#[trigger] after[i]).0,
                ) && target[after[i].0] == after[i].1 by {
                    if i < at {
                        assert(after[i] == before[i]);
                    } else if i > at {
                        assert(after[i] == before[i - 1]);
                    }
                }
                assert forall|k: K| #[trigger] target.contains_key(k) implies has_key(after, k) by {
                    if k == key {
                        assert(after[at as int].0 == k);
                    } else {
                        assert(collected(before).contains_key(k));
                        let i = choose|i: int|
                            0 <= i < before.len() && (#[trigger] before[i]).0 == k;
                        if i < at {
                            assert(after[i] == before[i]);
                        } else {
                            assert(after[i + 1] == before[i]);
                        }
                    }
                }
                assert(lists(after, target));
                lemma_ascending_lists_collected(after);
                lemma_lists_determines(after, target, collected(after));
            }
        }
        self.entries = entries;
    }

    /// The map of the pairs, where a later pair replaces an earlier one with the
    /// same key.
    pub fn from_pairs(pairs: Vec<(K, V)>) -> (map: Self)
        ensures
            map@ == collected(shown(pairs@)),
            forall|key: K| #[trigger]
                map@.contains_key(key) <==> exists|i: int|
                    0 <= i < pairs@.len() && (#[trigger] pairs@[i]).0 == key,
            forall|i: int|
                0 <= i < pairs@.len() && (forall|j: int|
                    i < j < pairs@.len() ==> (#[trigger] pairs@[j]).0 != pairs@[i].0)
                    ==> map@[(#[trigger] pairs@[i]).0] == pairs@[i].1@,
    {
        let ghost given = pairs@;
        let ghost all = shown(pairs@);
        let mut rest = pairs;
        let mut map: SortedMap<K, V> = SortedMap::new();
        let mut reversed: Vec<(K, V)> = Vec::new();
        let ghost total = all.len();
        while rest.len() > 0
            invariant
                total == all.len(),
                rest@.len() + reversed@.len() == total,
                shown(rest@) =~= all.subrange(0, rest@.len() as int),
                forall|i: int|
                    0 <= i < reversed@.len() ==> shown(reversed@)[i] == all[total - 1 - i],
            decreases rest@.len(),
        {
            let ghost before = rest@;
            let ghost held = reversed@;
            match rest.pop() {
                Some(pair) => {
                    assert(shown(before)[before.len() - 1] == (pair.0, pair.1@));
                    reversed.push(pair);
                    assert(shown(reversed@) =~= shown(held).push((pair.0, pair.1@)));
                    assert(shown(rest@) =~= shown(before).drop_last());
                },
                None => {},
            }
        }
        while reversed.len() > 0
            invariant
                total == all.len(),
                reversed@.len() <= total,
                map@ == collected(all.subrange(0, total - reversed@.len())),
                forall|i: int|
                    0 <= i < reversed@.len() ==> shown(reversed@)[i] == all[total - 1 - i],
            decreases reversed@.len(),
        {
            let ghost held = reversed@;
            match reversed.pop() {
                Some(pair) => {
                    let ghost done = total - held.len();
                    assert(shown(held)[held.len() - 1] == (pair.0, pair.1@));
                    assert(all[done] == (pair.0, pair.1@));
                    map.insert(pair.0, pair.1);
                    assert(all.subrange(0, done + 1).drop_last() =~= all.subrange(0, done));
                    assert(shown(reversed@) =~= shown(held).drop_last());
                    assert forall|i: int| 0 <= i < reversed@.len() implies shown(reversed@)[i]
                        == all[total - 1 - i] by {
                        assert(shown(held)[i] == all[total - 1 - i]);
                    }
                },
                None => {},
            }
        }
        proof {
            assert(all.subrange(0, total as int) =~= all);
            law_later_entry_counts(all);
            assert(forall|i: int|
                0 <= i < given.len() ==> (#[trigger] all[i]) == (given[i].0, given[i].1@));
            assert forall|key: K| #[trigger] map@.contains_key(key) <==> exists|i: int|
                0 <= i < given.len() && (#[trigger] given[i]).0 == key by {
                if map@.contains_key(key) {
                    let i = choose|i: int| 0 <= i < all.len() && (#[trigger] all[i]).0 == key;
                    assert(given[i].0 == key);
                }
                if exists|i: int| 0 <= i < given.len() && (#[trigger] given[i]).0 == key {
                    let i = choose|i: int| 0 <= i < given.len() && (#[trigger] given[i]).0 == key;
                    assert(all[i].0 == key);
                }
            }
            assert forall|i: int|
                0 <= i < given.len() && (forall|j: int|
                    i < j < given.len() ==> (#[trigger] given[j]).0
                        != given[i].0) implies map@[(#[trigger] given[i]).0] == given[i].1@ by {
                assert(all[i] == (given[i].0, given[i].1@));
                assert forall|j: int| i < j < all.len() implies (#[trigger] all[j]).0
                    != all[i].0 by {
                    assert(given[j].0 != given[i].0);
                }
            }
        }
        map
    }
}

impl<K: Ranked, V: Duplicate> Duplicate for SortedMap<K, V> {
    fn duplicate(&self) -> (copy: Self) {
        proof {
            use_type_invariant(self);
        }
        let mut entries: Vec<(K, V)> = Vec::new();
        let mut i: usize = 0;
        while i < self.entries.len()
            invariant
                i <= self.entries@.len(),
                shown(entries@) =~= shown(self.entries@).subrange(0, i as int),
            decreases self.entries@.len() - i,
        {
            let ghost before = entries@;
            let value = self.entries[i].1.duplicate();
            entries.push((self.entries[i].0, value));
            assert(shown(entries@) =~= shown(before).push((self.entries@[i as int].0, value@)));
            assert(shown(self.entries@)[i as int] == (
                self.entries@[i as int].0,
                self.entries@[i as int].1@,
            ));
            i = i + 1;
        }
        assert(shown(entries@) =~= shown(self.entries@));
        SortedMap { entries }
    }
}

impl View for H256 {
    type V = H256;

    open spec fn view(&self) -> H256 {
        *self
    }
}

impl Duplicate for H256 {
    fn duplicate(&self) -> (copy: Self) {
        *self
    }
}

} // verus!
