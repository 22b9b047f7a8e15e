//! The sharded map that holds the assets of a cache.
use vstd::arithmetic::power2::is_pow2;
use vstd::prelude::*;

use crate::asset::Value;
use crate::compound::Compound;
use crate::entry::{borrowed_key, key_of, CacheEntry, Handle};
use crate::key::{hash_of, AssetKey, BorrowedKey, OwnedKey};
use crate::keymap::{distinct, listed, KeyMap};
use crate::source::Source;

verus! {

/// The shard, of `count`, that a key belongs to.
pub open spec fn shard_of(key: AssetKey, count: nat) -> int {
    ((hash_of(key) as usize) & ((count - 1) as usize)) as int
}

/// The smallest power of two that is not below `n`.
fn next_power_of_two(n: usize) -> (r: usize)
    requires
        n <= usize::MAX / 2 + 1,
    ensures
        is_pow2(r as int),
        r >= 1,
        n <= r,
        r == 1 || r / 2 < n,
{
    reveal(is_pow2);
    let mut p: usize = 1;
    while p < n
        invariant
            n <= usize::MAX / 2 + 1,
            is_pow2(p as int),
            p >= 1,
            p == 1 || p / 2 < n,
        decreases if p < n { n - p } else { 0 },
    {
        assert(is_pow2(2 * p as int)) by {
            reveal(is_pow2);
            assert((2 * p as int) / 2 == p);
        }
        p = p * 2;
    }
    p
}

/// A map from keys to entries, in shards. A key's shard is picked by its
/// hash; the number of shards is a power of two.
pub struct AssetMap<V> {
    shards: Vec<KeyMap<CacheEntry<V>>>,
}

impl<V: Value> View for AssetMap<V> {
    type V = Map<AssetKey, V>;

    closed spec fn view(&self) -> Map<AssetKey, V> {
        Map::new(
            |k: AssetKey|
                self.shards@[shard_of(k, self.shards@.len())]@.contains_key(k),
            |k: AssetKey| self.shards@[shard_of(k, self.shards@.len())]@[k].value,
        )
    }
}

/// Whether each of the entries of the shard `i`, of `count`, belongs there
/// and fits its key.
spec fn shard_wf<V: Value>(shard: KeyMap<CacheEntry<V>>, i: int, count: nat) -> bool {
    &&& shard.wf()
    &&& forall|k: AssetKey| #[trigger]
        shard@.contains_key(k) ==> shard_of(k, count) == i && shard@[k].fits(k)
}

impl<V: Value> AssetMap<V> {
    /// The number of shards is a power of two; every entry is in the shard of
    /// its key, and fits it.
    pub closed spec fn wf(&self) -> bool {
        &&& self.shards@.len() >= 1
        &&& is_pow2(self.shards@.len() as int)
        &&& forall|i: int|
            0 <= i < self.shards@.len() ==> shard_wf(#[trigger] self.shards@[i], i, self.shards@.len())
    }

    /// The number of shards.
    pub closed spec fn shard_count(&self) -> nat {
        self.shards@.len()
    }

    /// The shard of a key.
    pub closed spec fn shard(&self, key: AssetKey) -> KeyMap<CacheEntry<V>> {
        self.shards@[shard_of(key, self.shards@.len())]
    }

    /// A key is in the map exactly if it is in its shard, with the same value.
    pub proof fn law_keys_are_in_their_shard(&self, key: AssetKey)
        requires
            self.wf(),
        ensures
            0 <= shard_of(key, self.shard_count()) < self.shard_count(),
            self@.contains_key(key) == self.shard(key)@.contains_key(key),
            self@.contains_key(key) ==> self@[key] == self.shard(key)@[key].value,
    {
        law_keys_have_one_shard(key, self.shards.len());
    }

    /// What is found under a key has the key's type.
    pub proof fn lemma_kinds(&self, key: AssetKey)
        requires
            self.wf(),
            self@.contains_key(key),
        ensures
            self@[key].kind() == key.type_id,
    {
        let i = shard_of(key, self.shards@.len());
        law_keys_have_one_shard(key, self.shards.len());
        assert(shard_wf(self.shards@[i], i, self.shards@.len()));
    }

    /// An empty map with at least `min_shards` shards.
    pub fn new(min_shards: usize) -> (r: Self)
        requires
            min_shards <= usize::MAX / 2 + 1,
        ensures
            r.wf(),
            r@ == Map::<AssetKey, V>::empty(),
            is_pow2(r.shard_count() as int),
            min_shards <= r.shard_count(),
            r.shard_count() == 1 || r.shard_count() / 2 < min_shards,
    {
        let count = next_power_of_two(min_shards);
        let mut shards: Vec<KeyMap<CacheEntry<V>>> = Vec::new();
        while shards.len() < count
            invariant
                shards@.len() <= count,
                forall|i: int|
                    0 <= i < shards@.len() ==> (#[trigger] shards@[i]).wf() && shards@[i]@ == Map::<
                        AssetKey,
                        CacheEntry<V>,
                    >::empty(),
            decreases count - shards@.len(),
        {
            shards.push(KeyMap::new());
        }
        let r = AssetMap { shards };
        proof {
            assert forall|k: AssetKey| !r@.contains_key(k) by {
                law_keys_have_one_shard(k, count);
            }
            assert(r@ =~= Map::<AssetKey, V>::empty());
        }
        r
    }

    /// The shard of a key.
    fn get_shard(&self, key: BorrowedKey<'_>) -> (r: &KeyMap<CacheEntry<V>>)
        requires
            self.wf(),
        ensures
            *r == self.shard(key@),
            shard_wf(*r, shard_of(key@, self.shards@.len()), self.shards@.len()),
    {
        proof {
            law_keys_have_one_shard(key@, self.shards.len());
        }
        let i = (key.hash() as usize) & (self.shards.len() - 1);
        &self.shards[i]
    }

    /// The shard of a key, to be changed.
    fn get_shard_mut(&mut self, key: BorrowedKey<'_>) -> (r: &mut KeyMap<CacheEntry<V>>)
        requires
            old(self).wf(),
        ensures
            0 <= shard_of(key@, old(self).shards@.len()) < old(self).shards@.len(),
            *r == old(self).shard(key@),
            shard_wf(*r, shard_of(key@, old(self).shards@.len()), old(self).shards@.len()),
            final(self).shards@ == old(self).shards@.update(
                shard_of(key@, old(self).shards@.len()),
                *final(r),
            ),
    {
        proof {
            law_keys_have_one_shard(key@, self.shards.len());
        }
        let i = (key.hash() as usize) & (self.shards.len() - 1);
        &mut self.shards[i]
    }

    /// The entry under a key.
    pub fn entry(&self, key: BorrowedKey<'_>) -> (r: Option<&CacheEntry<V>>)
        requires
            self.wf(),
        ensures
            match r {
                Some(entry) => self@.contains_key(key@) && entry.value == self@[key@] && entry.fits(
                    key@,
                ),
                None => !self@.contains_key(key@),
            },
    {
        self.get_shard(key).get(key)
    }

    /// A handle to the asset `id`, if it is there.
    pub fn get<S: Source, A: Compound<S, V>>(&self, id: &str) -> (r: Option<Handle<A>>)
        requires
            self.wf(),
        ensures
            match r {
                Some(handle) => self@.contains_key(key_of::<S, V, A>(id@)) && handle@ == id@,
                None => !self@.contains_key(key_of::<S, V, A>(id@)),
            },
    {
        match self.entry(borrowed_key::<S, V, A>(id)) {
            Some(entry) => Some(Handle::new(entry.id.clone())),
            None => None,
        }
    }

    /// The key of the asset `id` and a handle to it, if it is there.
    pub fn get_key_value<S: Source, A: Compound<S, V>>(&self, id: &str) -> (r: Option<
        (OwnedKey, Handle<A>),
    >)
        requires
            self.wf(),
        ensures
            match r {
                Some((key, handle)) => self@.contains_key(key_of::<S, V, A>(id@)) && key@ == key_of::<
                    S,
                    V,
                    A,
                >(id@) && handle@ == id@,
                None => !self@.contains_key(key_of::<S, V, A>(id@)),
            },
    {
        let key = borrowed_key::<S, V, A>(id);
        match self.entry(key) {
            Some(entry) => Some((key.to_owned_key(), Handle::new(entry.id.clone()))),
            None => None,
        }
    }

    /// Adds an entry under a key that has none.
    fn add(&mut self, key: OwnedKey, entry: CacheEntry<V>)
        requires
            old(self).wf(),
            !old(self)@.contains_key(key@),
            entry.fits(key@),
        ensures
            final(self).wf(),
            final(self)@ == old(self)@.insert(key@, entry.value),
            final(self).shard_count() == old(self).shard_count(),
    {
        let ghost k = key@;
        let shard = self.get_shard_mut(key.borrow());
        shard.add(key, entry);
        proof {
            lemma_one_shard_changed(*old(self), *self, k);
            assert(self@ =~= old(self)@.insert(k, entry.value));
        }
    }

    /// Keeps `asset` under `id`, unless an asset of its type is there
    /// already. Either way the handle leads to what is there.
    pub fn insert<S: Source, A: Compound<S, V>>(&mut self, id: String, asset: A) -> (r: Handle<A>)
        requires
            old(self).wf(),
        ensures
            final(self).wf(),
            final(self)@ == if old(self)@.contains_key(key_of::<S, V, A>(id@)) {
                old(self)@
            } else {
                old(self)@.insert(key_of::<S, V, A>(id@), asset.stored())
            },
            final(self).shard_count() == old(self).shard_count(),
            r@ == id@,
    {
        let handle = Handle::new(id.clone());
        let key = borrowed_key::<S, V, A>(id.as_str()).to_owned_key();
        if !self.contains_key(key.borrow()) {
            self.add(key, CacheEntry::new::<S, A>(asset, id));
        }
        handle
    }

    /// Lets `f` change the entry under a key, if there is one.
    pub fn with_cache_entry(
        &mut self,
        key: BorrowedKey<'_>,
        f: impl FnOnce(CacheEntry<V>) -> CacheEntry<V>,
    )
        requires
            old(self).wf(),
            forall|entry: CacheEntry<V>|
                old(self)@.contains_key(key@) && entry.value == old(self)@[key@] && entry.fits(key@)
                    ==> #[trigger] call_requires(f, (entry,)),
            forall|entry: CacheEntry<V>, changed: CacheEntry<V>|
                entry.fits(key@) && #[trigger] call_ensures(f, (entry,), changed) ==> changed.fits(
                    key@,
                ),
        ensures
            final(self).wf(),
            final(self).shard_count() == old(self).shard_count(),
            if old(self)@.contains_key(key@) {
                exists|entry: CacheEntry<V>, changed: CacheEntry<V>| #[trigger]
                    call_ensures(f, (entry,), changed) && entry.fits(key@) && entry.value == old(
                        self,
                    )@[key@] && final(self)@ == old(self)@.insert(key@, changed.value)
            } else {
                final(self)@ == old(self)@
            },
    {
        match self.take(key) {
            Some(entry) => {
                let changed = f(entry);
                self.add(key.to_owned_key(), changed);
                assert(self@ =~= old(self)@.insert(key@, changed.value));
            },
            None => {
                assert(self@ =~= old(self)@);
            },
        }
    }

    /// Changes the entry under a key with `on_occupied`, or, where there is
    /// none, makes one with `on_vacant`.
    pub fn update_or_insert<T>(
        &mut self,
        key: OwnedKey,
        val: T,
        on_occupied: impl FnOnce(T, CacheEntry<V>) -> CacheEntry<V>,
        on_vacant: impl FnOnce(T, String) -> CacheEntry<V>,
    )
        requires
            old(self).wf(),
            forall|entry: CacheEntry<V>|
                old(self)@.contains_key(key@) && entry.value == old(self)@[key@] && entry.fits(key@)
                    ==> #[trigger] call_requires(on_occupied, (val, entry)),
            forall|entry: CacheEntry<V>, changed: CacheEntry<V>|
                entry.fits(key@) && #[trigger] call_ensures(on_occupied, (val, entry), changed)
                    ==> changed.fits(key@),
            forall|id: String|
                !old(self)@.contains_key(key@) && id@ == key@.id ==> #[trigger] call_requires(
                    on_vacant,
                    (val, id),
                ),
            forall|id: String, made: CacheEntry<V>|
                id@ == key@.id && #[trigger] call_ensures(on_vacant, (val, id), made) ==> made.fits(
                    key@,
                ),
        ensures
            final(self).wf(),
            final(self).shard_count() == old(self).shard_count(),
            if old(self)@.contains_key(key@) {
                exists|entry: CacheEntry<V>, changed: CacheEntry<V>| #[trigger]
                    call_ensures(on_occupied, (val, entry), changed) && entry.fits(key@)
                        && entry.value == old(self)@[key@] && final(self)@ == old(self)@.insert(
                        key@,
                        changed.value,
                    )
            } else {
                exists|id: String, made: CacheEntry<V>| #[trigger]
                    call_ensures(on_vacant, (val, id), made) && id@ == key@.id && final(self)@
                        == old(self)@.insert(key@, made.value)
            },
    {
        match self.take(key.borrow()) {
            Some(entry) => {
                let changed = on_occupied(val, entry);
                let ghost value = changed.value;
                let ghost k = key@;
                self.add(key, changed);
                assert(self@ =~= old(self)@.insert(k, value));
            },
            None => {
                let id = key.id.clone();
                let made = on_vacant(val, id);
                let ghost value = made.value;
                let ghost k = key@;
                self.add(key, made);
                assert(self@ =~= old(self)@.insert(k, value));
            },
        }
    }

    /// Whether there is an entry under a key.
    pub fn contains_key(&self, key: BorrowedKey<'_>) -> (r: bool)
        requires
            self.wf(),
        ensures
            r == self@.contains_key(key@),
    {
        self.get_shard(key).contains_key(key)
    }

    /// Takes the entry under a key out of the map.
    pub fn take(&mut self, key: BorrowedKey<'_>) -> (r: Option<CacheEntry<V>>)
        requires
            old(self).wf(),
        ensures
            final(self).wf(),
            final(self)@ == old(self)@.remove(key@),
            final(self).shard_count() == old(self).shard_count(),
            match r {
                Some(entry) => old(self)@.contains_key(key@) && entry.value == old(self)@[key@]
                    && entry.fits(key@),
                None => !old(self)@.contains_key(key@),
            },
    {
        let r = self.get_shard_mut(key).remove(key);
        proof {
            lemma_one_shard_changed(*old(self), *self, key@);
            assert(self@ =~= old(self)@.remove(key@));
        }
        r
    }

    /// Drops the entry under a key, and says whether there was one.
    pub fn remove(&mut self, key: BorrowedKey<'_>) -> (r: bool)
        requires
            old(self).wf(),
        ensures
            final(self).wf(),
            final(self)@ == old(self)@.remove(key@),
            final(self).shard_count() == old(self).shard_count(),
            r == old(self)@.contains_key(key@),
    {
        self.take(key).is_some()
    }

    /// Drops every entry.
    pub fn clear(&mut self)
        requires
            old(self).wf(),
        ensures
            final(self).wf(),
            final(self)@ == Map::<AssetKey, V>::empty(),
            final(self).shard_count() == old(self).shard_count(),
    {
        let count = self.shards.len();
        let mut i: usize = 0;
        while i < count
            invariant
                i <= count,
                self.shards@.len() == count,
                forall|j: int|
                    0 <= j < i ==> (#[trigger] self.shards@[j]).wf() && self.shards@[j]@ == Map::<
                        AssetKey,
                        CacheEntry<V>,
                    >::empty(),
            decreases count - i,
        {
            self.shards[i].clear();
            i += 1;
        }
        proof {
            assert forall|k: AssetKey| !self@.contains_key(k) by {
                law_keys_have_one_shard(k, count);
            }
            assert(self@ =~= Map::<AssetKey, V>::empty());
        }
    }

    /// The keys of the map, each once, in no particular order.
    pub fn keys(&self) -> (r: Vec<&OwnedKey>)
        requires
            self.wf(),
        ensures
            distinct(r@),
            forall|k: AssetKey| #[trigger] listed(r@, k) <==> self@.contains_key(k),
    {
        let mut r: Vec<&OwnedKey> = Vec::new();
        let count = self.shards.len();
        let mut i: usize = 0;
        while i < count
            invariant
                i <= count,
                count == self.shards@.len(),
                self.wf(),
                distinct(r@),
                forall|k: AssetKey| #[trigger]
                    listed(r@, k) <==> self@.contains_key(k) && shard_of(k, count as nat) < i,
            decreases count - i,
        {
            let ghost before = r@;
            let mut more = self.shards[i].keys();
            let ghost added = more@;
            proof {
                assert(shard_wf(self.shards@[i as int], i as int, count as nat));
            }
            r.append(&mut more);
            proof {
                assert forall|k: AssetKey| #[trigger] listed(added, k) implies shard_of(
                    k,
                    count as nat,
                ) == i && self@.contains_key(k) by {
                }
                lemma_lists_joined(before, added);
                assert(r@ =~= before + added);
                assert forall|k: AssetKey| #[trigger] listed(r@, k) <==> self@.contains_key(k)
                    && shard_of(k, count as nat) < i + 1 by {
                    assert(listed(r@, k) <==> listed(before, k) || listed(added, k));
                }
            }
            i += 1;
        }
        proof {
            assert forall|k: AssetKey| #[trigger] listed(r@, k) <==> self@.contains_key(k) by {
                law_keys_have_one_shard(k, count);
            }
        }
        r
    }
}

/// Two lists without a key in common list together what each lists.
proof fn lemma_lists_joined(a: Seq<&OwnedKey>, b: Seq<&OwnedKey>)
    requires
        distinct(a),
        distinct(b),
        forall|k: AssetKey| #[trigger] listed(a, k) ==> !listed(b, k),
    ensures
        distinct(a + b),
        forall|k: AssetKey| #[trigger] listed(a + b, k) <==> listed(a, k) || listed(b, k),
{
    let joined = a + b;
    assert forall|k: AssetKey| #[trigger] listed(joined, k) <==> listed(a, k) || listed(b, k) by {
        if listed(a, k) {
            let i = choose|i: int| 0 <= i < a.len() && (#[trigger] a[i])@ == k;
            assert(joined[i]@ == k);
        }
        if listed(b, k) {
            let i = choose|i: int| 0 <= i < b.len() && (#[trigger] b[i])@ == k;
            assert(joined[a.len() + i]@ == k);
        }
        if listed(joined, k) {
            let i = choose|i: int| 0 <= i < joined.len() && (#[trigger] joined[i])@ == k;
            if i < a.len() {
                assert(a[i]@ == k);
            } else {
                assert(b[i - a.len()]@ == k);
            }
        }
    }
    assert forall|i: int, j: int|
        0 <= i < joined.len() && 0 <= j < joined.len() && (#[trigger] joined[i])@ == (
        #[trigger] joined[j])@ implies i == j by {
        let n = a.len() as int;
        if i < n {
            assert(a[i]@ == joined[i]@);
            assert(listed(a, joined[i]@));
        } else {
            assert(b[i - n]@ == joined[i]@);
            assert(listed(b, joined[i]@));
        }
        if j < n {
            assert(a[j]@ == joined[j]@);
            assert(listed(a, joined[j]@));
        } else {
            assert(b[j - n]@ == joined[j]@);
            assert(listed(b, joined[j]@));
        }
    }
}

/// A key has one shard, which is one of the shards. Looking a key up and
/// changing what stands under it both go by `shard_of`, which takes nothing of
/// the key but its identifier and type, and every operation keeps
/// `shard_count`: so the same key always leads to the same shard.
pub proof fn law_keys_have_one_shard(key: AssetKey, count: usize)
    requires
        count >= 1,
    ensures
        0 <= shard_of(key, count as nat) < count,
{
    let hash = hash_of(key) as usize;
    let mask = (count - 1) as usize;
    assert(hash & mask <= mask) by (bit_vector);
}

/// A change in the shard of `key` alone, at `key` alone, is a change of the
/// map at `key` alone.
proof fn lemma_one_shard_changed<V: Value>(before: AssetMap<V>, after: AssetMap<V>, key: AssetKey)
    requires
        before.wf(),
        before.shards@.len() == after.shards@.len(),
        0 <= shard_of(key, before.shards@.len()) < before.shards@.len(),
        ({
            let i = shard_of(key, before.shards@.len());
            let old_shard = before.shards@[i];
            let new_shard = after.shards@[i];
            &&& after.shards@ == before.shards@.update(i, new_shard)
            &&& new_shard.wf()
            &&& new_shard@.contains_key(key) ==> new_shard@[key].fits(key)
            &&& forall|k: AssetKey|
                k != key ==> #[trigger] new_shard@.contains_key(k) == old_shard@.contains_key(k)
            &&& forall|k: AssetKey|
                k != key && #[trigger] new_shard@.contains_key(k) ==> new_shard@[k] == old_shard@[k]
        }),
    ensures
        after.wf(),
        forall|k: AssetKey| k != key ==> #[trigger] after@.contains_key(k) == before@.contains_key(k),
        forall|k: AssetKey| k != key && #[trigger] after@.contains_key(k) ==> after@[k] == before@[k],
        after@.contains_key(key) == after.shards@[shard_of(
            key,
            before.shards@.len(),
        )]@.contains_key(key),
{
    let count = before.shards@.len();
    let i = shard_of(key, count);
    assert(shard_wf(before.shards@[i], i, count));
    assert forall|j: int| 0 <= j < count implies shard_wf(#[trigger] after.shards@[j], j, count) by {
        assert(shard_wf(before.shards@[j], j, count));
    }
    assert forall|k: AssetKey| k != key implies #[trigger] after@.contains_key(k)
        == before@.contains_key(k) by {
        law_keys_have_one_shard(k, before.shards.len());
    }
    assert forall|k: AssetKey| k != key && #[trigger] after@.contains_key(k) implies after@[k]
        == before@[k] by {
        law_keys_have_one_shard(k, before.shards.len());
    }
}

} // verus!
