//! A hash map from keys to items.
use vstd::prelude::*;

use crate::key::{hash_of, AssetKey, BorrowedKey, OwnedKey};
use std::collections::HashMap;

verus! {

broadcast use vstd::std_specs::hash::group_hash_axioms;

/// An item with the key that it is kept under.
pub struct Slot<T> {
    key: OwnedKey,
    item: T,
}

/// A map from keys to items. The items are kept in buckets, one for each hash
/// that some key of the map has.
pub struct KeyMap<T> {
    buckets: HashMap<u64, Vec<Slot<T>>>,
}

spec fn holds<T>(slots: Seq<Slot<T>>, i: int, key: AssetKey) -> bool {
    0 <= i < slots.len() && slots[i].key@ == key
}

spec fn stored<T>(slots: Seq<Slot<T>>, key: AssetKey) -> bool {
    exists|i: int| holds(slots, i, key)
}

spec fn item_at<T>(slots: Seq<Slot<T>>, key: AssetKey) -> T {
    slots[choose|i: int| holds(slots, i, key)].item
}

/// Every key of a bucket has the bucket's hash, and none occurs twice.
spec fn bucket_wf<T>(slots: Seq<Slot<T>>, hash: u64) -> bool {
    &&& forall|i: int| 0 <= i < slots.len() ==> hash_of(#[trigger] slots[i].key@) == hash
    &&& forall|i: int, j: int|
        0 <= i < slots.len() && 0 <= j < slots.len() && #[trigger] slots[i].key@
            == #[trigger] slots[j].key@ ==> i == j
}

/// Whether a key is in a list.
pub open spec fn listed(keys: Seq<&OwnedKey>, key: AssetKey) -> bool {
    exists|i: int| 0 <= i < keys.len() && (#[trigger] keys[i])@ == key
}

/// Whether no key is in a list twice.
pub open spec fn distinct(keys: Seq<&OwnedKey>) -> bool {
    forall|i: int, j: int|
        0 <= i < keys.len() && 0 <= j < keys.len() && (#[trigger] keys[i])@ == (#[trigger] keys[j])@
            ==> i == j
}

/// Whether the bucket of a hash is among the first `n`.
spec fn visited<T>(buckets: Seq<(&u64, &Vec<Slot<T>>)>, n: int, hash: u64) -> bool {
    exists|b: int| 0 <= b < n && *(#[trigger] buckets[b]).0 == hash
}

/// Finds the slot of a key in a bucket.
fn find<T>(slots: &Vec<Slot<T>>, key: BorrowedKey<'_>) -> (r: Option<usize>)
    ensures
        match r {
            Some(i) => holds(slots@, i as int, key@),
            None => !stored(slots@, key@),
        },
{
    let mut i: usize = 0;
    while i < slots.len()
        invariant
            i <= slots@.len(),
            forall|j: int| 0 <= j < i ==> !holds(slots@, j, key@),
        decreases slots@.len() - i,
    {
        if key.same(&slots[i].key) {
            return Some(i);
        }
        i += 1;
    }
    None
}

impl<T> View for KeyMap<T> {
    type V = Map<AssetKey, T>;

    closed spec fn view(&self) -> Map<AssetKey, T> {
        Map::new(
            |k: AssetKey|
                self.buckets@.contains_key(hash_of(k)) && stored(self.buckets@[hash_of(k)]@, k),
            |k: AssetKey| item_at(self.buckets@[hash_of(k)]@, k),
        )
    }
}

impl<T> KeyMap<T> {
    /// Every bucket stands under the hash of its keys.
    pub closed spec fn wf(&self) -> bool {
        forall|h: u64| #[trigger]
            self.buckets@.contains_key(h) ==> bucket_wf(self.buckets@[h]@, h)
    }

    /// An empty map.
    pub fn new() -> (r: Self)
        ensures
            r.wf(),
            r@ == Map::<AssetKey, T>::empty(),
    {
        let r = KeyMap { buckets: HashMap::new() };
        assert(r@ =~= Map::<AssetKey, T>::empty());
        r
    }

    /// The item under a key.
    pub fn get(&self, key: BorrowedKey<'_>) -> (r: Option<&T>)
        requires
            self.wf(),
        ensures
            match r {
                Some(item) => self@.contains_key(key@) && *item == self@[key@],
                None => !self@.contains_key(key@),
            },
    {
        match self.buckets.get(&key.hash()) {
            None => None,
            Some(slots) => match find(slots, key) {
                None => None,
                Some(i) => {
                    assert(holds(slots@, i as int, key@));
                    Some(&slots[i].item)
                },
            },
        }
    }

    /// Whether there is an item under a key.
    pub fn contains_key(&self, key: BorrowedKey<'_>) -> (r: bool)
        requires
            self.wf(),
        ensures
            r == self@.contains_key(key@),
    {
        self.get(key).is_some()
    }

    /// Adds an item under a key that has none.
    pub fn add(&mut self, key: OwnedKey, item: T)
        requires
            old(self).wf(),
            !old(self)@.contains_key(key@),
        ensures
            final(self).wf(),
            final(self)@ == old(self)@.insert(key@, item),
    {
        let hash = key.borrow().hash();
        let ghost k = key@;
        let ghost before = self.buckets@;
        let mut slots = match self.buckets.remove(&hash) {
            Some(slots) => slots,
            None => Vec::new(),
        };
        let ghost kept = slots@;
        slots.push(Slot { key, item });
        let ghost now = slots@;
        self.buckets.insert(hash, slots);
        proof {
            assert(self.buckets@ =~= before.insert(hash, slots));
            assert(!stored(kept, k));
            assert forall|i: int| 0 <= i < kept.len() implies #[trigger] kept[i].key@ != k by {
                if kept[i].key@ == k {
                    assert(holds(kept, i, k));
                }
            }
            assert(bucket_wf(now, hash));
            assert(holds(now, kept.len() as int, k));
            lemma_same_item(now, k, kept.len() as int, hash);
            assert forall|q: AssetKey| q != k implies stored(now, q) == stored(kept, q) && (stored(kept, q)
                ==> item_at(now, q) == item_at(kept, q)) by {
                if stored(kept, q) {
                    let i = choose|i: int| holds(kept, i, q);
                    assert(holds(now, i, q));
                    lemma_same_item(now, q, i, hash);
                    lemma_same_item(kept, q, i, hash);
                }
                if stored(now, q) {
                    let i = choose|i: int| holds(now, i, q);
                    assert(holds(kept, i, q));
                }
            }
            assert(self@ =~= old(self)@.insert(k, item));
        }
    }

    /// Takes the item under a key out of the map.
    pub fn remove(&mut self, key: BorrowedKey<'_>) -> (r: Option<T>)
        requires
            old(self).wf(),
        ensures
            final(self).wf(),
            final(self)@ == old(self)@.remove(key@),
            match r {
                Some(item) => old(self)@.contains_key(key@) && item == old(self)@[key@],
                None => !old(self)@.contains_key(key@),
            },
    {
        let hash = key.hash();
        let ghost before = self.buckets@;
        match self.buckets.remove(&hash) {
            None => {
                assert(self@ =~= old(self)@.remove(key@));
                None
            },
            Some(mut slots) => {
                let ghost all = slots@;
                match find(&slots, key) {
                    None => {
                        self.buckets.insert(hash, slots);
                        assert(self.buckets@ =~= before);
                        assert(self@ =~= old(self)@.remove(key@));
                        None
                    },
                    Some(i) => {
                        proof {
                            lemma_same_item(all, key@, i as int, hash);
                        }
                        let slot = slots.remove(i);
                        let ghost kept = slots@;
                        proof {
                            lemma_without_slot(all, i as int, hash);
                        }
                        if slots.len() > 0 {
                            self.buckets.insert(hash, slots);
                        } else {
                            assert forall|q: AssetKey| !stored(kept, q) by {
                            }
                        }
                        assert(self@ =~= old(self)@.remove(key@));
                        Some(slot.item)
                    },
                }
            },
        }
    }

    /// The keys of the map, each once, in no particular order.
    pub fn keys(&self) -> (r: Vec<&OwnedKey>)
        requires
            self.wf(),
        ensures
            distinct(r@),
            forall|k: AssetKey| #[trigger] listed(r@, k) <==> self@.contains_key(k),
    {
        let mut r: Vec<&OwnedKey> = Vec::new();
        for bucket in it: self.buckets.iter()
            invariant
                self.wf(),
                it.seq().no_duplicates(),
                forall|b: int|
                    0 <= b < it.seq().len() ==> self.buckets@.contains_key(
                        *(#[trigger] it.seq()[b]).0,
                    ) && self.buckets@[*it.seq()[b].0] == *it.seq()[b].1,
                forall|h: u64|
                    self.buckets@.contains_key(h) ==> #[trigger] visited(
                        it.seq(),
                        it.seq().len() as int,
                        h,
                    ),
                distinct(r@),
                forall|k: AssetKey| #[trigger]
                    listed(r@, k) <==> self@.contains_key(k) && visited(
                        it.seq(),
                        it.index(),
                        hash_of(k),
                    ),
        {
            let ghost n = it.index();
            let ghost hash = *bucket.0;
            let ghost before = r@;
            proof {
                assert(bucket == it.seq()[n]);
                assert(!visited(it.seq(), n, hash)) by {
                    if visited(it.seq(), n, hash) {
                        let b = choose|b: int| 0 <= b < n && *(#[trigger] it.seq()[b]).0 == hash;
                        assert(it.seq()[b] == it.seq()[n]);
                    }
                }
                assert forall|h: u64| #[trigger] visited(it.seq(), n + 1, h) <==> visited(
                    it.seq(),
                    n,
                    h,
                ) || h == hash by {
                    if h == hash {
                        assert(*it.seq()[n].0 == h);
                    }
                }
            }
            list_slots(bucket.1, &mut r);
            proof {
                assert forall|k: AssetKey| #[trigger] listed(r@, k) <==> self@.contains_key(k)
                    && visited(it.seq(), n + 1, hash_of(k)) by {
                    if stored(bucket.1@, k) {
                        let i = choose|i: int| holds(bucket.1@, i, k);
                        assert(hash_of(bucket.1@[i].key@) == hash);
                    }
                }
            }
        }
        r
    }

    /// Takes every item out of the map.
    pub fn clear(&mut self)
        ensures
            final(self).wf(),
            final(self)@ == Map::<AssetKey, T>::empty(),
    {
        self.buckets.clear();
        assert(self@ =~= Map::<AssetKey, T>::empty());
    }
}

/// Adds the keys of a bucket to a list that has none of them.
fn list_slots<'a, T>(slots: &'a Vec<Slot<T>>, keys: &mut Vec<&'a OwnedKey>)
    requires
        exists|h: u64| bucket_wf(slots@, h),
        distinct(old(keys)@),
        forall|k: AssetKey| #[trigger] listed(old(keys)@, k) ==> !stored(slots@, k),
    ensures
        distinct(final(keys)@),
        forall|k: AssetKey| #[trigger]
            listed(final(keys)@, k) <==> listed(old(keys)@, k) || stored(slots@, k),
{
    let ghost before = keys@;
    let mut i: usize = 0;
    while i < slots.len()
        invariant
            i <= slots@.len(),
            keys@.len() == before.len() + i,
            forall|j: int| 0 <= j < before.len() ==> keys@[j] == before[j],
            forall|j: int| 0 <= j < i ==> #[trigger] keys@[before.len() + j] == &slots@[j].key,
        decreases slots@.len() - i,
    {
        keys.push(&slots[i].key);
        i += 1;
    }
    proof {
        let now = keys@;
        assert forall|k: AssetKey| #[trigger] listed(now, k) <==> listed(before, k) || stored(
            slots@,
            k,
        ) by {
            if listed(before, k) {
                let j = choose|j: int| 0 <= j < before.len() && (#[trigger] before[j])@ == k;
                assert(now[j]@ == k);
            }
            if stored(slots@, k) {
                let j = choose|j: int| holds(slots@, j, k);
                assert(now[before.len() + j]@ == k);
            }
            if listed(now, k) {
                let j = choose|j: int| 0 <= j < now.len() && (#[trigger] now[j])@ == k;
                if j < before.len() {
                    assert(before[j]@ == k);
                } else {
                    assert(now[before.len() + (j - before.len())]@ == k);
                    assert(holds(slots@, j - before.len(), k));
                }
            }
        }
        assert forall|a: int, b: int|
            0 <= a < now.len() && 0 <= b < now.len() && (#[trigger] now[a])@ == (
            #[trigger] now[b])@ implies a == b by {
            let n = before.len() as int;
            if a >= n {
                assert(now[n + (a - n)] == &slots@[a - n].key);
                assert(holds(slots@, a - n, now[a]@));
            } else {
                assert(before[a]@ == now[a]@);
                assert(listed(before, now[a]@));
            }
            if b >= n {
                assert(now[n + (b - n)] == &slots@[b - n].key);
                assert(holds(slots@, b - n, now[b]@));
            } else {
                assert(before[b]@ == now[b]@);
                assert(listed(before, now[b]@));
            }
        }
    }
}

/// A key stands in one slot only, so any slot that holds it gives its item.
proof fn lemma_same_item<T>(slots: Seq<Slot<T>>, key: AssetKey, i: int, hash: u64)
    requires
        bucket_wf(slots, hash),
        holds(slots, i, key),
    ensures
        stored(slots, key),
        item_at(slots, key) == slots[i].item,
{
    let j = choose|j: int| holds(slots, j, key);
    assert(holds(slots, j, key));
    assert(slots[i].key@ == slots[j].key@);
}

/// A bucket without one of its slots holds the other keys with their items.
proof fn lemma_without_slot<T>(slots: Seq<Slot<T>>, i: int, hash: u64)
    requires
        bucket_wf(slots, hash),
        0 <= i < slots.len(),
    ensures
        bucket_wf(slots.remove(i), hash),
        !stored(slots.remove(i), slots[i].key@),
        forall|q: AssetKey|
            q != slots[i].key@ ==> #[trigger] stored(slots.remove(i), q) == stored(slots, q) && (stored(
                slots,
                q,
            ) ==> item_at(slots.remove(i), q) == item_at(slots, q)),
{
    let kept = slots.remove(i);
    assert forall|j: int| 0 <= j < kept.len() implies #[trigger] kept[j] == slots[if j < i {
        j
    } else {
        j + 1
    }] by {
    }
    assert(bucket_wf(kept, hash));
    if stored(kept, slots[i].key@) {
        let j = choose|j: int| holds(kept, j, slots[i].key@);
        assert(holds(kept, j, slots[i].key@));
        let m = if j < i { j } else { j + 1 };
        assert(slots[m].key@ == slots[i].key@);
    }
    assert forall|q: AssetKey| q != slots[i].key@ implies #[trigger] stored(kept, q) == stored(slots, q)
        && (stored(slots, q) ==> item_at(kept, q) == item_at(slots, q)) by {
        if stored(slots, q) {
            let j = choose|j: int| holds(slots, j, q);
            assert(holds(slots, j, q));
            let m = if j < i { j } else { j - 1 };
            assert(holds(kept, m, q));
            lemma_same_item(slots, q, j, hash);
            lemma_same_item(kept, q, m, hash);
        }
        if stored(kept, q) {
            let j = choose|j: int| holds(kept, j, q);
            assert(holds(kept, j, q));
            let m = if j < i { j } else { j + 1 };
            assert(holds(slots, m, q));
        }
    }
}

} // verus!
