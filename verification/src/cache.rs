//! The cache.
use vstd::prelude::*;

use crate::asset::{Asset, Value};
use crate::compound::Compound;
use crate::dirs::{dir_ids, reader_ids, CachedDir, DirReader};
use crate::entry::{borrowed_key, key_of, CacheEntry, Handle};
use crate::error::{Error, IoError};
use crate::key::{AssetKey, BorrowedKey, OwnedKey};
use crate::keymap::{distinct, listed, KeyMap};
use crate::loading::{looked_up, may_add_asset, may_add_dir, may_load_dir, may_load_itself, may_load_noticed, may_load_owned, may_load_through, may_read_dir, may_record_load, handle_id, with_keys};
use crate::map::AssetMap;
use crate::notice::{KeySet, Notice};
use crate::recorder::{Record, Recorder};
use crate::reload::{updated, updated_by, FileSystem, Reloading, Update};
use crate::source::Source;
use crate::state::{CacheState, Identity, LoadState, NoticeState};

verus! {

/// The cache of the assets of a program.
///
/// Within the cache, assets are identified with their type and a string. `S`
/// is where their data comes from, `V` the type that has room for all of
/// them. A number tells the cache from the others, so that a recorder knows
/// whose lookups it records.
pub struct AssetCache<S, V> {
    source: S,
    assets: AssetMap<V>,
    dirs: KeyMap<CachedDir>,
    number: u64,
    notices: Vec<Notice>,
}

impl<S: Source, V: Value> View for AssetCache<S, V> {
    type V = CacheState<V>;

    closed spec fn view(&self) -> CacheState<V> {
        CacheState {
            assets: self.assets@,
            dirs: self.dirs@.map_values(|dir: CachedDir| dir@),
            notices: self.notices@.map_values(|notice: Notice| notice@),
        }
    }
}

impl<S: Source, V: Value> AssetCache<S, V> {
    /// The parts of the cache are well-formed: in particular what stands
    /// under a key has the key's type.
    pub closed spec fn wf(&self) -> bool {
        &&& self.assets.wf()
        &&& self.dirs.wf()
        &&& forall|i: int| 0 <= i < self.notices@.len() ==> (#[trigger] self.notices@[i]).wf()
    }

    /// What stands under a key is an asset of the key's type.
    pub proof fn law_assets_have_the_type_of_their_key(&self, key: AssetKey)
        requires
            self.wf(),
            self@.assets.contains_key(key),
        ensures
            self@.assets[key].kind() == key.type_id,
    {
        self.assets.lemma_kinds(key);
    }

    /// The source of the cache.
    pub closed spec fn spec_source(&self) -> S {
        self.source
    }

    /// The number of the cache.
    pub closed spec fn number(&self) -> u64 {
        self.number
    }

    /// The source and the number of the cache.
    pub open spec fn identity(&self) -> Identity<S> {
        Identity { source: self.spec_source(), number: self.number() }
    }

    /// What the cache holds, together with what a recorder holds.
    pub open spec fn at(&self, rec: Recorder) -> LoadState<V> {
        LoadState { cache: self@, recording: rec@ }
    }

    /// Creates a cache that loads assets from the given source. No other
    /// cache of the program should have the same number.
    pub fn with_source(source: S, number: u64) -> (r: Self)
        ensures
            r.wf(),
            r.spec_source() == source,
            r.number() == number,
            r@ == CacheState::<V>::empty(),
    {
        let r = AssetCache {
            source,
            assets: AssetMap::new(32),
            dirs: KeyMap::new(),
            number,
            notices: Vec::new(),
        };
        assert(r@ =~= CacheState::<V>::empty());
        r
    }

    /// Returns a reference to the cache's source.
    pub fn source(&self) -> (r: &S)
        ensures
            *r == self.spec_source(),
    {
        &self.source
    }

    /// Loads an asset and records which assets it looks up on the way.
    ///
    /// Where the source is not followed nothing is recorded for it.
    pub fn record_load<A: Compound<S, V>>(&mut self, rec: &mut Recorder, id: &str) -> (r: Result<
        (A, KeySet),
        Error,
    >)
        requires
            old(self).wf(),
            old(rec).wf(),
        ensures
            final(self).wf(),
            final(rec).wf(),
            final(self).identity() == old(self).identity(),
            final(self).at(*final(rec)).extends(old(self).at(*old(rec))),
            old(self).spec_source().hot_reloading() ==> final(rec)@ == old(rec)@,
            r matches Ok((_, deps)) ==> deps.wf(),
            may_record_load::<S, V, A>(
                old(self).identity(),
                old(self).at(*old(rec)),
                id@,
                final(self).at(*final(rec)),
                with_keys(r),
            ),
    {
        if self.source.support_hot_reloading() {
            let records = KeySet::new();
            assert(records@.dom() =~= Set::<AssetKey>::empty());
            let outer = rec.replace(Some(Record { cache: self.number, records }));
            let ghost start = self.at(*rec);
            let loaded = A::load(self, rec, id);
            let ghost during = self.at(*rec);
            let deps = match rec.replace(outer) {
                Some(record) => record.records,
                None => KeySet::new(),
            };
            assert(start == old(self).at(*old(rec)).recording_to(
                Some((self.number, Set::empty())),
            ));
            assert(may_load_itself::<S, V, A>(self.identity(), start, id@, during, loaded));
            assert(self.at(*rec) == during.recording_to(old(rec)@));
            proof {
                old(self).at(*old(rec)).lemma_extends_itself();
            }
            match loaded {
                Ok(asset) => Ok((asset, deps)),
                Err(e) => Err(e),
            }
        } else {
            let loaded = A::load(self, rec, id);
            assert(may_load_itself::<S, V, A>(
                self.identity(),
                old(self).at(*old(rec)),
                id@,
                self.at(*rec),
                loaded,
            ));
            let deps = KeySet::new();
            assert(deps@.dom() =~= Set::<AssetKey>::empty());
            match loaded {
                Ok(asset) => Ok((asset, deps)),
                Err(e) => Err(e),
            }
        }
    }

    /// Records a key as looked up in this cache. It is dropped where the
    /// source is not followed, where nothing is recorded, and where the
    /// lookups of another cache are.
    pub fn add_record(&self, rec: &mut Recorder, key: BorrowedKey<'_>)
        requires
            old(rec).wf(),
        ensures
            final(rec).wf(),
            final(rec)@ == match old(rec)@ {
                Some((cache, keys)) => if self.spec_source().hot_reloading() && cache
                    == self.number() {
                    Some((cache, keys.insert(key@)))
                } else {
                    old(rec)@
                },
                None => None,
            },
    {
        if self.source.support_hot_reloading() {
            rec.add(self.number, key);
        }
    }

    /// Temporarily disables dependencies recording.
    ///
    /// What is looked up by `f`, in this cache or another, is not recorded.
    /// Where the source is not followed, this function only calls `f`.
    pub fn no_record<T, F: FnOnce(&mut Self, &mut Recorder) -> T>(
        &mut self,
        rec: &mut Recorder,
        f: F,
    ) -> (r: T)
        requires
            old(self).wf(),
            old(rec).wf(),
            forall|cache: &mut Self, inner: &mut Recorder|
                (*cache).wf() && (*inner).wf() && (*cache).identity() == old(self).identity()
                    && (*cache).at(*inner) == old(self).unrecorded(*old(rec))
                    ==> #[trigger] call_requires(f, (cache, inner)),
            forall|cache: &mut Self, inner: &mut Recorder, t: T|
                (*cache).wf() && (*inner).wf() && #[trigger] call_ensures(f, (cache, inner), t) ==> (
                *final(cache)).wf() && (*final(inner)).wf() && (*final(cache)).identity()
                    == (*cache).identity(),
        ensures
            final(self).wf(),
            final(rec).wf(),
            final(self).identity() == old(self).identity(),
            old(self).spec_source().hot_reloading() ==> final(rec)@ == old(rec)@,
            exists|cache: &mut Self, inner: &mut Recorder| #[trigger]
                call_ensures(f, (cache, inner), r) && (*cache).wf() && (*inner).wf()
                    && (*cache).identity() == old(self).identity() && (*cache).at(*inner) == old(
                    self,
                ).unrecorded(*old(rec)) && final(self)@ == (*final(cache))@ && (!old(
                    self,
                ).spec_source().hot_reloading() ==> final(rec)@ == (*final(inner))@),
    {
        if self.source.support_hot_reloading() {
            let outer = rec.replace(None);
            let result = f(self, rec);
            rec.replace(outer);
            result
        } else {
            f(self, rec)
        }
    }

    /// The state in which `no_record` calls its argument: where the source is
    /// followed, nothing is recorded, of whichever cache.
    pub open spec fn unrecorded(&self, rec: Recorder) -> LoadState<V> {
        if self.spec_source().hot_reloading() {
            self.at(rec).recording_to(None)
        } else {
            self.at(rec)
        }
    }

    /// Whether lookups are being recorded, of whichever cache.
    pub fn is_recording(&self, rec: &Recorder) -> (r: bool)
        ensures
            r == (rec@ is Some),
    {
        rec.is_active()
    }

    /// Loads an asset and, if it is hot-reloaded, tells of it with the assets
    /// that it was made from.
    fn load_noticed<A: Compound<S, V>>(&mut self, rec: &mut Recorder, id: &str) -> (r: Result<A, Error>)
        requires
            old(self).wf(),
            old(rec).wf(),
        ensures
            final(self).wf(),
            final(rec).wf(),
            final(self).identity() == old(self).identity(),
            final(self).at(*final(rec)).extends(old(self).at(*old(rec))),
            may_load_noticed::<S, V, A>(
                old(self).identity(),
                old(self).at(*old(rec)),
                id@,
                final(self).at(*final(rec)),
                r,
            ),
    {
        if A::HOT_RELOADED {
            let got = self.record_load::<A>(rec, id);
            let ghost then = self.at(*rec);
            let ghost seen = with_keys(got);
            assert(may_record_load::<S, V, A>(
                self.identity(),
                old(self).at(*old(rec)),
                id@,
                then,
                seen,
            ));
            match got {
                Ok((asset, deps)) => {
                    if self.source.support_hot_reloading() {
                        let key = borrowed_key::<S, V, A>(id).to_owned_key();
                        self.notices.push(Notice::AddAsset { key, deps });
                        assert(self.at(*rec) =~= then.noticed(
                            NoticeState::AddAsset {
                                key: key_of::<S, V, A>(id@),
                                deps: deps@.dom(),
                            },
                        ));
                    }
                    Ok(asset)
                },
                Err(e) => Err(e),
            }
        } else {
            A::load(self, rec, id)
        }
    }

    /// Adds an asset to the cache.
    fn add_asset<A: Compound<S, V>>(&mut self, rec: &mut Recorder, id: &str) -> (r: Result<Handle<A>, Error>)
        requires
            old(self).wf(),
            old(rec).wf(),
        ensures
            final(self).wf(),
            final(rec).wf(),
            final(self).identity() == old(self).identity(),
            final(self).at(*final(rec)).extends(old(self).at(*old(rec))),
            may_add_asset::<S, V, A>(
                old(self).identity(),
                old(self).at(*old(rec)),
                id@,
                final(self).at(*final(rec)),
                handle_id(r),
            ),
            r is Ok ==> final(self)@.assets.contains_key(key_of::<S, V, A>(id@)),
    {
        let loaded = self.load_noticed::<A>(rec, id);
        let ghost then = self.at(*rec);
        assert(may_load_noticed::<S, V, A>(
            self.identity(),
            old(self).at(*old(rec)),
            id@,
            then,
            loaded,
        ));
        self.keep::<A>(id, loaded)
    }

    /// Keeps a loaded asset, unless one of its type is there already, or
    /// passes the failure on.
    pub fn keep<A: Compound<S, V>>(&mut self, id: &str, loaded: Result<A, Error>) -> (r: Result<
        Handle<A>,
        Error,
    >)
        requires
            old(self).wf(),
        ensures
            final(self).wf(),
            final(self).identity() == old(self).identity(),
            match loaded {
                Ok(asset) => handle_id(r) == Ok::<Seq<char>, Error>(id@) && final(self)@ == old(
                    self,
                )@.with_asset(key_of::<S, V, A>(id@), asset.stored()),
                Err(e) => r == Err::<Handle<A>, Error>(e) && final(self)@ == old(self)@,
            },
    {
        match loaded {
            Ok(asset) => {
                let handle = self.assets.insert::<S, A>(id.to_owned(), asset);
                assert(self@ =~= old(self)@.with_asset(key_of::<S, V, A>(id@), asset.stored()));
                Ok(handle)
            },
            Err(e) => Err(e),
        }
    }

    /// Loads an asset.
    ///
    /// If the asset is not found in the cache, it is loaded from the source.
    pub fn load<A: Compound<S, V>>(&mut self, rec: &mut Recorder, id: &str) -> (r: Result<Handle<A>, Error>)
        requires
            old(self).wf(),
            old(rec).wf(),
        ensures
            final(self).wf(),
            final(rec).wf(),
            final(self).identity() == old(self).identity(),
            final(self).at(*final(rec)).extends(old(self).at(*old(rec))),
            may_load_through::<S, V, A>(
                old(self).identity(),
                old(self).at(*old(rec)),
                id@,
                final(self).at(*final(rec)),
                handle_id(r),
            ),
            r is Ok ==> final(self)@.assets.contains_key(key_of::<S, V, A>(id@)),
    {
        match self.load_cached::<A>(rec, id) {
            Some(handle) => Ok(handle),
            None => {
                let ghost looked = self.at(*rec);
                let r = self.add_asset::<A>(rec, id);
                proof {
                    LoadState::lemma_extends_on(old(self).at(*old(rec)), looked, self.at(*rec));
                }
                r
            },
        }
    }

    /// Loads an asset from the cache.
    ///
    /// This function does not attempt to load the asset from the source if it
    /// is not found in the cache.
    pub fn load_cached<A: Compound<S, V>>(&self, rec: &mut Recorder, id: &str) -> (r: Option<
        Handle<A>,
    >)
        requires
            self.wf(),
            old(rec).wf(),
        ensures
            final(rec).wf(),
            self.at(*final(rec)) == looked_up::<S, V, A>(self.identity(), self.at(*old(rec)), id@),
            self.at(*final(rec)).extends(self.at(*old(rec))),
            match r {
                Some(handle) => self@.assets.contains_key(key_of::<S, V, A>(id@)) && handle@ == id@,
                None => !self@.assets.contains_key(key_of::<S, V, A>(id@)),
            },
    {
        proof {
            self.at(*rec).lemma_extends_itself();
        }
        if A::HOT_RELOADED {
            match self.assets.get_key_value::<S, A>(id) {
                Some((key, handle)) => {
                    self.add_record(rec, key.borrow());
                    Some(handle)
                },
                None => {
                    self.add_record(rec, borrowed_key::<S, V, A>(id));
                    None
                },
            }
        } else {
            self.assets.get::<S, A>(id)
        }
    }

    /// Returns `true` if the cache contains the specified asset.
    pub fn contains<A: Compound<S, V>>(&self, id: &str) -> (r: bool)
        requires
            self.wf(),
        ensures
            r == self@.assets.contains_key(key_of::<S, V, A>(id@)),
    {
        self.assets.contains_key(borrowed_key::<S, V, A>(id))
    }

    /// Removes an asset from the cache, and returns whether it was present in
    /// the cache.
    pub fn remove<A: Compound<S, V>>(&mut self, id: &str) -> (r: bool)
        requires
            old(self).wf(),
        ensures
            final(self).wf(),
            final(self).identity() == old(self).identity(),
            r == old(self)@.assets.contains_key(key_of::<S, V, A>(id@)),
            final(self)@ == old(self)@.without_asset(key_of::<S, V, A>(id@)),
    {
        self.assets.remove(borrowed_key::<S, V, A>(id))
    }

    /// Takes ownership on a cached asset.
    ///
    /// The corresponding asset is removed from the cache.
    pub fn take<A: Compound<S, V>>(&mut self, id: &str) -> (r: Option<A>)
        requires
            old(self).wf(),
        ensures
            final(self).wf(),
            final(self).identity() == old(self).identity(),
            match r {
                Some(asset) => old(self)@.assets.contains_key(key_of::<S, V, A>(id@))
                    && asset.stored() == old(self)@.assets[key_of::<S, V, A>(id@)] && (forall|
                    a: A,
                | #[trigger]
                    a.stored() == asset.stored() ==> a == asset),
                None => !old(self)@.assets.contains_key(key_of::<S, V, A>(id@)),
            },
            final(self)@ == old(self)@.without_asset(key_of::<S, V, A>(id@)),
    {
        match self.assets.take(borrowed_key::<S, V, A>(id)) {
            Some(entry) => Some(entry.into_inner::<S, A>()),
            None => None,
        }
    }

    /// Clears the cache.
    ///
    /// Removes all cached assets and directories.
    pub fn clear(&mut self)
        requires
            old(self).wf(),
        ensures
            final(self).wf(),
            final(self).identity() == old(self).identity(),
            final(self)@ == if old(self).spec_source().hot_reloading() {
                old(self)@.emptied().noticed(NoticeState::Clear)
            } else {
                old(self)@.emptied()
            },
    {
        self.assets.clear();
        self.dirs.clear();
        if self.source.support_hot_reloading() {
            self.notices.push(Notice::Clear);
        }
        assert(self@ =~= if old(self).spec_source().hot_reloading() {
            old(self)@.emptied().noticed(NoticeState::Clear)
        } else {
            old(self)@.emptied()
        });
    }

    /// Loads an asset that is known to load.
    ///
    /// No outcome of loading the asset may be a failure (see [`Self::load`]).
    pub fn load_expect<A: Compound<S, V>>(&mut self, rec: &mut Recorder, id: &str) -> (r: Handle<A>)
        requires
            old(self).wf(),
            old(rec).wf(),
            forall|after: LoadState<V>, outcome: Result<Seq<char>, Error>| #[trigger]
                may_load_through::<S, V, A>(
                    old(self).identity(),
                    old(self).at(*old(rec)),
                    id@,
                    after,
                    outcome,
                ) ==> outcome is Ok,
        ensures
            final(self).wf(),
            final(rec).wf(),
            final(self).identity() == old(self).identity(),
            final(self).at(*final(rec)).extends(old(self).at(*old(rec))),
            r@ == id@,
            may_load_through::<S, V, A>(
                old(self).identity(),
                old(self).at(*old(rec)),
                id@,
                final(self).at(*final(rec)),
                Ok(id@),
            ),
            final(self)@.assets.contains_key(key_of::<S, V, A>(id@)),
    {
        match self.load::<A>(rec, id) {
            Ok(handle) => handle,
            Err(_) => {
                assert(false);
                Handle::new(id.to_owned())
            },
        }
    }

    /// Loads an owned version of an asset.
    ///
    /// Note that the asset will not be fetched from the cache nor will it be
    /// cached. Where the lookups of this cache are being recorded, it is still
    /// recorded as one.
    pub fn load_owned<A: Compound<S, V>>(&mut self, rec: &mut Recorder, id: &str) -> (r: Result<A, Error>)
        requires
            old(self).wf(),
            old(rec).wf(),
        ensures
            final(self).wf(),
            final(rec).wf(),
            final(self).identity() == old(self).identity(),
            final(self).at(*final(rec)).extends(old(self).at(*old(rec))),
            may_load_owned::<S, V, A>(
                old(self).identity(),
                old(self).at(*old(rec)),
                id@,
                final(self).at(*final(rec)),
                r,
            ),
    {
        if A::HOT_RELOADED && self.is_recording(rec) {
            self.add_record(rec, borrowed_key::<S, V, A>(id));
            let ghost looked = self.at(*rec);
            let r = self.load_noticed::<A>(rec, id);
            proof {
                old(self).at(*old(rec)).lemma_extends_itself();
                LoadState::lemma_extends_on(old(self).at(*old(rec)), looked, self.at(*rec));
            }
            return r;
        }
        A::load(self, rec, id)
    }

    /// Adds a directory to the cache.
    fn add_dir<A: Asset<V>>(&mut self, rec: &mut Recorder, id: &str) -> (r: Result<DirReader<A>, IoError>)
        requires
            old(self).wf(),
            old(rec).wf(),
        ensures
            final(self).wf(),
            final(rec).wf(),
            final(self).identity() == old(self).identity(),
            final(self).at(*final(rec)).extends(old(self).at(*old(rec))),
            may_add_dir::<S, V, A>(
                old(self).identity(),
                old(self).at(*old(rec)),
                id@,
                final(self).at(*final(rec)),
                reader_ids(r),
            ),
            r is Ok ==> final(self)@.dirs.contains_key(key_of::<S, V, A>(id@)),
    {
        let key = borrowed_key::<S, V, A>(id);
        if self.source.support_hot_reloading() {
            self.notices.push(Notice::AddDir { key: key.to_owned_key() });
            assert(self@ =~= old(self)@.noticed(NoticeState::AddDir { key: key@ }));
        }
        let read = self.no_record(
            rec,
            |cache: &mut Self, inner: &mut Recorder| -> (t: Result<CachedDir, IoError>)
                requires
                    old(cache).wf(),
                    old(inner).wf(),
                ensures
                    final(cache).wf(),
                    final(inner).wf(),
                    final(cache).identity() == old(cache).identity(),
                    final(cache).at(*final(inner)).extends(old(cache).at(*old(inner))),
                    may_read_dir::<S, V, A>(
                        old(cache).identity(),
                        old(cache).at(*old(inner)),
                        id@,
                        final(cache).at(*final(inner)),
                        dir_ids(t),
                    )
            {
                CachedDir::load::<S, V, A>(cache, inner, id)
            },
        );
        let ghost then = self.at(*rec);
        match read {
            Ok(dir) => {
                if !self.dirs.contains_key(key) {
                    self.dirs.add(key.to_owned_key(), dir);
                }
                assert(self.at(*rec) =~= then.with_dir(key@, dir@));
                let kept = self.dirs.get(key).unwrap();
                Ok(kept.read())
            },
            Err(e) => Err(e),
        }
    }

    /// Loads all assets of a given type in a directory.
    ///
    /// The directory's id is constructed the same way as assets. To specify
    /// the cache's root, give the empty string (`""`) as id.
    pub fn load_dir<A: Asset<V>>(&mut self, rec: &mut Recorder, id: &str) -> (r: Result<DirReader<A>, IoError>)
        requires
            old(self).wf(),
            old(rec).wf(),
        ensures
            final(self).wf(),
            final(rec).wf(),
            final(self).identity() == old(self).identity(),
            final(self).at(*final(rec)).extends(old(self).at(*old(rec))),
            may_load_dir::<S, V, A>(
                old(self).identity(),
                old(self).at(*old(rec)),
                id@,
                final(self).at(*final(rec)),
                reader_ids(r),
            ),
            r is Ok ==> final(self)@.dirs.contains_key(key_of::<S, V, A>(id@)),
    {
        match self.load_cached_dir::<A>(id) {
            Some(dir) => {
                proof {
                    self.at(*rec).lemma_extends_itself();
                }
                Ok(dir)
            },
            None => self.add_dir::<A>(rec, id),
        }
    }

    /// Loads a directory from the cache.
    ///
    /// This function does not attempt to load the directory from the source
    /// if it is not found in the cache.
    pub fn load_cached_dir<A: Asset<V>>(&self, id: &str) -> (r: Option<DirReader<A>>)
        requires
            self.wf(),
        ensures
            match r {
                Some(dir) => self@.dirs.contains_key(key_of::<S, V, A>(id@)) && dir@
                    == self@.dirs[key_of::<S, V, A>(id@)],
                None => !self@.dirs.contains_key(key_of::<S, V, A>(id@)),
            },
    {
        match self.dirs.get(borrowed_key::<S, V, A>(id)) {
            Some(dir) => Some(dir.read()),
            None => None,
        }
    }

    /// Returns `true` if the cache contains the specified directory.
    pub fn contains_dir<A: Asset<V>>(&self, id: &str) -> (r: bool)
        requires
            self.wf(),
        ensures
            r == self@.dirs.contains_key(key_of::<S, V, A>(id@)),
    {
        self.dirs.contains_key(borrowed_key::<S, V, A>(id))
    }

    /// Fetches the notices that have not been fetched yet, the oldest first.
    pub fn take_notices(&mut self) -> (r: Vec<Notice>)
        requires
            old(self).wf(),
        ensures
            final(self).wf(),
            final(self).identity() == old(self).identity(),
            r@.map_values(|notice: Notice| notice@) == old(self)@.notices,
            forall|i: int| 0 <= i < r@.len() ==> (#[trigger] r@[i]).wf(),
            final(self)@ == (CacheState { notices: Seq::empty(), ..old(self)@ }),
    {
        let mut r: Vec<Notice> = Vec::new();
        r.append(&mut self.notices);
        assert(r@ =~= old(self).notices@);
        assert(self@ =~= CacheState { notices: Seq::empty(), ..old(self)@ });
        r
    }

    /// The keys of the cached assets, each once, in no particular order.
    pub fn keys(&self) -> (r: Vec<&OwnedKey>)
        requires
            self.wf(),
        ensures
            distinct(r@),
            forall|k: AssetKey| #[trigger] listed(r@, k) <==> self@.assets.contains_key(k),
    {
        self.assets.keys()
    }

    /// The keys of the cached directories, each once, in no particular order.
    pub fn dir_keys(&self) -> (r: Vec<&OwnedKey>)
        requires
            self.wf(),
        ensures
            distinct(r@),
            forall|k: AssetKey| #[trigger] listed(r@, k) <==> self@.dirs.contains_key(k),
    {
        self.dirs.keys()
    }

    /// The entry of an asset.
    pub fn entry(&self, key: BorrowedKey<'_>) -> (r: Option<&CacheEntry<V>>)
        requires
            self.wf(),
        ensures
            match r {
                Some(entry) => self@.assets.contains_key(key@) && entry.value
                    == self@.assets[key@] && entry.fits(key@),
                None => !self@.assets.contains_key(key@),
            },
    {
        self.assets.entry(key)
    }

    /// A cached directory.
    pub fn dir(&self, key: BorrowedKey<'_>) -> (r: Option<&CachedDir>)
        requires
            self.wf(),
        ensures
            match r {
                Some(dir) => self@.dirs.contains_key(key@) && dir@ == self@.dirs[key@],
                None => !self@.dirs.contains_key(key@),
            },
    {
        self.dirs.get(key)
    }

    /// Makes an update.
    fn apply(&mut self, update: Update<V>)
        requires
            old(self).wf(),
        ensures
            final(self).wf(),
            final(self).identity() == old(self).identity(),
            final(self)@ == (CacheState {
                assets: updated(old(self)@.assets, update),
                ..old(self)@
            }),
    {
        let (key, loaded) = update.into_parts();
        match loaded {
            Ok(value) => {
                self.assets.update_or_insert(
                    key,
                    value,
                    |value: V, entry: CacheEntry<V>| -> (r: CacheEntry<V>)
                        ensures
                            r.id == entry.id,
                            r.value == value
                    {
                        CacheEntry { id: entry.id, value }
                    },
                    |value: V, id: String| -> (r: CacheEntry<V>)
                        ensures
                            r.id == id,
                            r.value == value
                    {
                        CacheEntry { id, value }
                    },
                );
            },
            Err(_) => {},
        }
    }
}

impl<A> Handle<A> {
    /// Looks at the asset, if it is still in the cache.
    pub fn read<'a, S: Source, V: Value>(&self, cache: &'a AssetCache<S, V>) -> (r: Option<
        &'a A,
    >) where A: Compound<S, V>
        requires
            cache.wf(),
        ensures
            match r {
                Some(asset) => cache@.assets.contains_key(key_of::<S, V, A>(self@))
                    && asset.stored() == cache@.assets[key_of::<S, V, A>(self@)] && (forall|a: A|
                    #[trigger] a.stored() == asset.stored() ==> a == *asset),
                None => !cache@.assets.contains_key(key_of::<S, V, A>(self@)),
            },
    {
        match cache.entry(borrowed_key::<S, V, A>(self.id())) {
            Some(entry) => Some(A::peek(&entry.value)),
            None => None,
        }
    }
}

impl<F: Source, V: Value> AssetCache<FileSystem<F, V>, V> {
    /// Creates a cache that loads assets from the given directory, if it
    /// could be opened.
    pub fn new(opened: Result<FileSystem<F, V>, IoError>, number: u64) -> (r: Result<Self, IoError>)
        ensures
            match opened {
                Ok(source) => r matches Ok(cache) && cache.wf() && cache.spec_source() == source
                    && cache.number() == number && cache@ == CacheState::<V>::empty(),
                Err(e) => r == Err::<Self, IoError>(e),
            },
    {
        match opened {
            Ok(source) => Ok(Self::with_source(source, number)),
            Err(e) => Err(e),
        }
    }

    /// The file system and the assets of the cache.
    pub open spec fn reloading(&self) -> Reloading<F, V> {
        Reloading { source: self.spec_source()@, assets: self@.assets }
    }

    /// Makes the updates that wait, the oldest first.
    fn flush(&mut self)
        requires
            old(self).wf(),
        ensures
            final(self).wf(),
            final(self).number() == old(self).number(),
            final(self).reloading() == old(self).reloading().flushed(),
            final(self)@ == (CacheState {
                assets: final(self)@.assets,
                ..old(self)@
            }),
    {
        if let Some(mut reloader) = self.source.reloader.take() {
            let updates = reloader.drain();
            self.source.reloader = Some(reloader);
            let ghost all = updates@;
            let ghost source = self.source;
            for update in it: updates
                invariant
                    self.wf(),
                    self.source == source,
                    self.number == old(self).number,
                    it.seq() == all,
                    self@ == (CacheState {
                        assets: updated_by(old(self)@.assets, all.take(it.index())),
                        ..old(self)@
                    }),
            {
                let ghost n = it.index();
                self.apply(update);
                assert(all.take(n + 1).drop_last() =~= all.take(n));
            }
            assert(all.take(all.len() as int) =~= all);
        }
    }

    /// Reloads changed assets.
    ///
    /// If an error occurs while reloading an asset, the asset is left
    /// unchanged. If the source has no reloader, or since
    /// [`Self::enhance_hot_reloading`], this function does nothing.
    pub fn hot_reload(&mut self)
        requires
            old(self).wf(),
        ensures
            final(self).wf(),
            final(self).number() == old(self).number(),
            final(self).reloading() == old(self).reloading().reloaded(),
            final(self)@ == (CacheState {
                assets: final(self)@.assets,
                ..old(self)@
            }),
    {
        if let Some(reloader) = &self.source.reloader {
            if !reloader.is_shared() {
                self.flush();
            }
        }
    }

    /// Enhances hot-reloading: reloads changed assets now, and from now on as
    /// soon as they have changed.
    ///
    /// You only have to call this function once for it to take effect. After
    /// calling this function, subsequent calls to `hot_reload` and to this
    /// function have no effect.
    pub fn enhance_hot_reloading(&mut self)
        requires
            old(self).wf(),
        ensures
            final(self).wf(),
            final(self).number() == old(self).number(),
            final(self).reloading() == old(self).reloading().enhanced(),
            final(self)@ == (CacheState {
                assets: final(self)@.assets,
                ..old(self)@
            }),
    {
        self.hot_reload();
        if let Some(reloader) = &mut self.source.reloader {
            reloader.share();
        }
    }

    /// Takes in what came of loading a changed asset anew.
    pub fn deliver(&mut self, update: Update<V>)
        requires
            old(self).wf(),
        ensures
            final(self).wf(),
            final(self).number() == old(self).number(),
            final(self).reloading() == old(self).reloading().delivered(update),
            final(self)@ == (CacheState {
                assets: final(self)@.assets,
                ..old(self)@
            }),
    {
        if let Some(reloader) = &mut self.source.reloader {
            if reloader.is_shared() {
                self.apply(update);
            } else {
                reloader.push(update);
            }
        }
    }
}

} // verus!
