//! Directories of assets.
use core::marker::PhantomData;
use vstd::prelude::*;

use crate::asset::{Asset, Value};
use crate::cache::AssetCache;
use crate::compound::Compound;
use crate::entry::{key_of, Handle};
use crate::error::IoError;
use crate::loading::{child_ids, may_leave, may_load_each, may_read_dir};
use crate::recorder::Recorder;
use crate::source::{names, names_read, Source};
use crate::state::LoadState;
use crate::text::join_id;

verus! {

/// A cached directory: the identifiers of the assets in it.
pub struct CachedDir {
    pub ids: Vec<String>,
}

impl View for CachedDir {
    type V = Seq<Seq<char>>;

    open spec fn view(&self) -> Seq<Seq<char>> {
        names(self.ids@)
    }
}

/// The assets of the type `A` in a directory.
pub struct DirReader<A> {
    ids: Vec<String>,
    asset: PhantomData<A>,
}

impl<A> View for DirReader<A> {
    type V = Seq<Seq<char>>;

    closed spec fn view(&self) -> Seq<Seq<char>> {
        names(self.ids@)
    }
}

/// The identifiers that a directory reader gives, or the failure to get one.
pub open spec fn reader_ids<A>(r: Result<DirReader<A>, IoError>) -> Result<
    Seq<Seq<char>>,
    IoError,
> {
    match r {
        Ok(reader) => Ok(reader@),
        Err(e) => Err(e),
    }
}

/// The identifiers in a loaded directory, or the failure to load it.
pub open spec fn dir_ids(r: Result<CachedDir, IoError>) -> Result<Seq<Seq<char>>, IoError> {
    match r {
        Ok(dir) => Ok(dir@),
        Err(e) => Err(e),
    }
}

impl CachedDir {
    /// Lists the directory `id` and loads the assets in it. An asset that
    /// cannot be loaded is listed all the same.
    pub fn load<S: Source, V: Value, A: Asset<V>>(
        cache: &mut AssetCache<S, V>,
        rec: &mut Recorder,
        id: &str,
    ) -> (r: Result<CachedDir, IoError>)
        requires
            old(cache).wf(),
            old(rec).wf(),
        ensures
            final(cache).wf(),
            final(rec).wf(),
            final(cache).identity() == old(cache).identity(),
            final(cache).at(*final(rec)).extends(old(cache).at(*old(rec))),
            may_read_dir::<S, V, A>(
                old(cache).identity(),
                old(cache).at(*old(rec)),
                id@,
                final(cache).at(*final(rec)),
                dir_ids(r),
            ),
    {
        let extensions = A::extensions();
        let listing = cache.source().read_dir(id, extensions.as_slice());
        let ghost heard = names_read(listing);
        assert(cache.identity().source.may_read_dir(id@, A::spec_extensions(), heard));
        proof {
            cache.at(*rec).lemma_extends_itself();
        }
        let found = match listing {
            Ok(found) => found,
            Err(e) => {
                return Err(e);
            },
        };
        let ghost all = child_ids(id@, names(found@));
        let ghost mut states: Seq<LoadState<V>> = seq![cache.at(*rec)];
        let mut ids: Vec<String> = Vec::new();
        let mut i: usize = 0;
        while i < found.len()
            invariant
                i <= found@.len(),
                all == child_ids(id@, names(found@)),
                cache.wf(),
                rec.wf(),
                cache.identity() == old(cache).identity(),
                cache.at(*rec).extends(old(cache).at(*old(rec))),
                ids@.len() == i,
                names(ids@) =~= all.take(i as int),
                states.len() == i + 1,
                states.first() == old(cache).at(*old(rec)),
                states.last() == cache.at(*rec),
                may_load_each::<S, V, A>(cache.identity(), all.take(i as int), states),
            decreases found@.len() - i,
        {
            let child = join_id(id, found[i].as_str());
            let ghost before = cache.at(*rec);
            let loaded = cache.load::<A>(rec, child.as_str());
            proof {
                LoadState::lemma_extends_on(old(cache).at(*old(rec)), before, cache.at(*rec));
                assert(child@ == all[i as int]);
                assert(may_leave::<S, V, A>(cache.identity(), before, child@, cache.at(*rec)));
                states = states.push(cache.at(*rec));
                let done = all.take(i as int);
                let more = all.take(i + 1);
                assert forall|j: int| 0 <= j < more.len() implies may_leave::<S, V, A>(
                    cache.identity(),
                    states[j],
                    #[trigger] more[j],
                    states[j + 1],
                ) by {
                    if j < i {
                        assert(done[j] == more[j]);
                    }
                }
            }
            ids.push(child);
            i += 1;
        }
        assert(all.take(i as int) =~= all);
        Ok(CachedDir { ids })
    }

    /// A reader of the directory.
    pub fn read<A>(&self) -> (r: DirReader<A>)
        ensures
            r@ == self@,
    {
        let ids = self.ids.clone();
        assert(names(ids@) =~= names(self.ids@));
        DirReader { ids, asset: PhantomData }
    }
}

impl<A> DirReader<A> {
    /// The identifiers of the assets.
    pub fn ids(&self) -> (r: &Vec<String>)
        ensures
            names(r@) == self@,
    {
        &self.ids
    }

    /// Handles to the assets that are in the cache, in the order of the
    /// directory.
    pub fn iter<S: Source, V: Value>(&self, cache: &AssetCache<S, V>) -> (r: Vec<Handle<A>>) where
        A: Compound<S, V>,

        requires
            cache.wf(),
        ensures
            r@.map_values(|handle: Handle<A>| handle@) == self@.filter(
                |id: Seq<char>| cache@.assets.contains_key(key_of::<S, V, A>(id)),
            ),
    {
        let ghost cached = |id: Seq<char>| cache@.assets.contains_key(key_of::<S, V, A>(id));
        let ghost lead = |handle: Handle<A>| handle@;
        let mut r: Vec<Handle<A>> = Vec::new();
        let mut i: usize = 0;
        assert(r@.map_values(lead) =~= self@.take(0).filter(cached)) by {
            reveal(Seq::filter);
        }
        while i < self.ids.len()
            invariant
                i <= self.ids@.len(),
                cache.wf(),
                cached == (|id: Seq<char>| cache@.assets.contains_key(key_of::<S, V, A>(id))),
                lead == (|handle: Handle<A>| handle@),
                r@.map_values(lead) == self@.take(i as int).filter(cached),
            decreases self.ids@.len() - i,
        {
            let ghost before = r@;
            let id = self.ids[i].as_str();
            proof {
                reveal(Seq::filter);
                assert(self@.take(i + 1).drop_last() =~= self@.take(i as int));
                assert(self@.take(i + 1).last() == id@);
            }
            if cache.contains::<A>(id) {
                r.push(Handle::new(id.to_owned()));
                assert(r@.map_values(lead) =~= before.map_values(lead).push(id@));
            }
            i += 1;
        }
        assert(self@.take(i as int) =~= self@);
        r
    }
}

} // verus!
