//! What a cache and a recorder hold, as mathematical values.
use vstd::map_lib::lemma_submap_of_trans;
use vstd::prelude::*;

use crate::key::AssetKey;

verus! {

/// What a cache tells those who follow the changes of its source.
pub enum NoticeState {
    /// The asset `key` has been loaded; it was made from the assets `deps`.
    AddAsset { key: AssetKey, deps: Set<AssetKey> },
    /// The directory `key` is about to be loaded.
    AddDir { key: AssetKey },
    /// Everything has been dropped.
    Clear,
}

/// What loading through a cache does not change: where its data comes from,
/// and the number that tells it from the other caches.
pub struct Identity<S> {
    pub source: S,
    pub number: u64,
}

/// What a recorder holds: where something is recorded, the number of the
/// cache whose lookups are recorded, and the keys recorded so far.
pub type Recording = Option<(u64, Set<AssetKey>)>;

/// Whether `now` is `earlier` with perhaps more keys.
pub open spec fn recording_extends(now: Recording, earlier: Recording) -> bool {
    match (earlier, now) {
        (Some((owner, before)), Some((cache, after))) => owner == cache && before.subset_of(after),
        (None, None) => true,
        _ => false,
    }
}

/// What a cache holds.
#[verifier::ext_equal]
#[verifier::reject_recursive_types(V)]
pub struct CacheState<V> {
    /// The cached assets.
    pub assets: Map<AssetKey, V>,
    /// The identifiers in each cached directory.
    pub dirs: Map<AssetKey, Seq<Seq<char>>>,
    /// The notices that were not fetched yet, the oldest first.
    pub notices: Seq<NoticeState>,
}

impl<V> CacheState<V> {
    /// A cache that holds nothing.
    pub open spec fn empty() -> Self {
        CacheState { assets: Map::empty(), dirs: Map::empty(), notices: Seq::empty() }
    }

    /// With a notice more.
    pub open spec fn noticed(self, notice: NoticeState) -> Self {
        CacheState { notices: self.notices.push(notice), ..self }
    }

    /// With `value` under `key`, unless something stands there already.
    pub open spec fn with_asset(self, key: AssetKey, value: V) -> Self {
        if self.assets.contains_key(key) {
            self
        } else {
            CacheState { assets: self.assets.insert(key, value), ..self }
        }
    }

    /// Without what stands under `key`.
    pub open spec fn without_asset(self, key: AssetKey) -> Self {
        CacheState { assets: self.assets.remove(key), ..self }
    }

    /// Without any asset or directory.
    pub open spec fn emptied(self) -> Self {
        CacheState { assets: Map::empty(), dirs: Map::empty(), ..self }
    }

    /// With the directory `ids` under `key`, unless one stands there already.
    pub open spec fn with_dir(self, key: AssetKey, ids: Seq<Seq<char>>) -> Self {
        if self.dirs.contains_key(key) {
            self
        } else {
            CacheState { dirs: self.dirs.insert(key, ids), ..self }
        }
    }

    /// Whether `self` is `earlier` with something added and nothing lost: the
    /// assets and directories of `earlier` are unchanged, and its notices come
    /// first.
    pub open spec fn extends(self, earlier: Self) -> bool {
        &&& earlier.assets.submap_of(self.assets)
        &&& earlier.dirs.submap_of(self.dirs)
        &&& earlier.notices.is_prefix_of(self.notices)
    }
}

/// What a cache holds, and what the recorder that it is used with.
#[verifier::ext_equal]
#[verifier::reject_recursive_types(V)]
pub struct LoadState<V> {
    pub cache: CacheState<V>,
    pub recording: Recording,
}

impl<V> LoadState<V> {
    /// With another recording.
    pub open spec fn recording_to(self, recording: Recording) -> Self {
        LoadState { recording, ..self }
    }

    /// With `key` recorded, if the lookups of the cache `number` are.
    pub open spec fn recorded(self, number: u64, key: AssetKey) -> Self {
        match self.recording {
            Some((owner, keys)) => if owner == number {
                self.recording_to(Some((owner, keys.insert(key))))
            } else {
                self
            },
            None => self,
        }
    }

    /// With a notice more.
    pub open spec fn noticed(self, notice: NoticeState) -> Self {
        LoadState { cache: self.cache.noticed(notice), ..self }
    }

    /// With `value` under `key`, unless something stands there already.
    pub open spec fn with_asset(self, key: AssetKey, value: V) -> Self {
        LoadState { cache: self.cache.with_asset(key, value), ..self }
    }

    /// With the directory `ids` under `key`, unless one stands there already.
    pub open spec fn with_dir(self, key: AssetKey, ids: Seq<Seq<char>>) -> Self {
        LoadState { cache: self.cache.with_dir(key, ids), ..self }
    }

    /// Whether `self` is `earlier` with something added and nothing lost.
    pub open spec fn extends(self, earlier: Self) -> bool {
        &&& self.cache.extends(earlier.cache)
        &&& recording_extends(self.recording, earlier.recording)
    }

    /// Every state extends itself.
    pub proof fn lemma_extends_itself(self)
        ensures
            self.extends(self),
    {
        assert(self.cache.assets.submap_of(self.cache.assets));
        assert(self.cache.dirs.submap_of(self.cache.dirs));
        assert(self.cache.notices =~= self.cache.notices.subrange(
            0,
            self.cache.notices.len() as int,
        ));
    }

    /// What extends an extension extends the first state.
    pub proof fn lemma_extends_on(first: Self, second: Self, third: Self)
        requires
            second.extends(first),
            third.extends(second),
        ensures
            third.extends(first),
    {
        let (a, b, c) = (first.cache, second.cache, third.cache);
        lemma_submap_of_trans(a.assets, b.assets, c.assets);
        lemma_submap_of_trans(a.dirs, b.dirs, c.dirs);
        assert(a.notices =~= c.notices.subrange(0, a.notices.len() as int));
    }
}

} // verus!
