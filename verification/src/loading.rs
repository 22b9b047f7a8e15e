//! What loading through a cache can come to.
use vstd::prelude::*;

use crate::asset::{Asset, Value};
use crate::compound::Compound;
use crate::entry::{key_of, Handle};
use crate::error::{Error, IoError};
use crate::key::AssetKey;
use crate::notice::KeySet;
use crate::source::Source;
use crate::state::{Identity, LoadState, NoticeState};
use crate::text::child_id;

verus! {

/// The identifier that a handle leads to, or the failure to get one.
pub open spec fn handle_id<A>(r: Result<Handle<A>, Error>) -> Result<Seq<char>, Error> {
    match r {
        Ok(handle) => Ok(handle@),
        Err(e) => Err(e),
    }
}

/// A loaded asset with the keys it was made from, or the failure.
pub open spec fn with_keys<A>(r: Result<(A, KeySet), Error>) -> Result<
    (A, Set<AssetKey>),
    Error,
> {
    match r {
        Ok((asset, deps)) => Ok((asset, deps@.dom())),
        Err(e) => Err(e),
    }
}

/// A loaded asset joined with the keys it was made from.
pub open spec fn with_deps<A>(r: Result<A, Error>, deps: Set<AssetKey>) -> Result<
    (A, Set<AssetKey>),
    Error,
> {
    match r {
        Ok(asset) => Ok((asset, deps)),
        Err(e) => Err(e),
    }
}

/// Whether the asset's own loading can give `r` and leave `after`.
pub open spec fn may_load_itself<S: Source, V: Value, A: Compound<S, V>>(
    cache: Identity<S>,
    before: LoadState<V>,
    id: Seq<char>,
    after: LoadState<V>,
    r: Result<A, Error>,
) -> bool {
    A::may_load(cache, before, id, after, r) && after.extends(before)
}

/// Whether loading an asset and recording what it is made from can give `r`
/// and leave `after`. Where the source is followed, the asset loads itself
/// with a record of this cache in place of the former one, whichever cache
/// that was of, and the former one is back afterwards.
pub open spec fn may_record_load<S: Source, V: Value, A: Compound<S, V>>(
    cache: Identity<S>,
    before: LoadState<V>,
    id: Seq<char>,
    after: LoadState<V>,
    r: Result<(A, Set<AssetKey>), Error>,
) -> bool {
    if cache.source.hot_reloading() {
        exists|during: LoadState<V>, loaded: Result<A, Error>| #[trigger]
            may_load_itself::<S, V, A>(
                cache,
                before.recording_to(Some((cache.number, Set::empty()))),
                id,
                during,
                loaded,
            ) && after == during.recording_to(before.recording) && r == with_deps(
                loaded,
                during.recording.unwrap().1,
            )
    } else {
        exists|loaded: Result<A, Error>| #[trigger]
            may_load_itself::<S, V, A>(cache, before, id, after, loaded) && r == with_deps(
                loaded,
                Set::empty(),
            )
    }
}

/// Whether loading an asset and telling of it can give `r` and leave `after`.
/// Only assets that are hot-reloaded are told of, and only where the source
/// is followed.
pub open spec fn may_load_noticed<S: Source, V: Value, A: Compound<S, V>>(
    cache: Identity<S>,
    before: LoadState<V>,
    id: Seq<char>,
    after: LoadState<V>,
    r: Result<A, Error>,
) -> bool {
    if A::HOT_RELOADED {
        exists|then: LoadState<V>, got: Result<(A, Set<AssetKey>), Error>| #[trigger]
            may_record_load::<S, V, A>(cache, before, id, then, got) && match got {
                Ok((asset, deps)) => r == Ok::<A, Error>(asset) && after == if cache.source.hot_reloading() {
                    then.noticed(NoticeState::AddAsset { key: key_of::<S, V, A>(id), deps })
                } else {
                    then
                },
                Err(e) => r == Err::<A, Error>(e) && after == then,
            }
    } else {
        may_load_itself::<S, V, A>(cache, before, id, after, r)
    }
}

/// What looking an asset up leaves: it is recorded as a dependency, if it is
/// hot-reloaded, the source is followed and the record is of this cache.
pub open spec fn looked_up<S: Source, V: Value, A: Compound<S, V>>(
    cache: Identity<S>,
    before: LoadState<V>,
    id: Seq<char>,
) -> LoadState<V> {
    if A::HOT_RELOADED && cache.source.hot_reloading() {
        before.recorded(cache.number, key_of::<S, V, A>(id))
    } else {
        before
    }
}

/// Whether adding an asset to a cache can give `r` and leave `after`. What
/// stands under its key already stays there.
pub open spec fn may_add_asset<S: Source, V: Value, A: Compound<S, V>>(
    cache: Identity<S>,
    before: LoadState<V>,
    id: Seq<char>,
    after: LoadState<V>,
    r: Result<Seq<char>, Error>,
) -> bool {
    exists|then: LoadState<V>, loaded: Result<A, Error>| #[trigger]
        may_load_noticed::<S, V, A>(cache, before, id, then, loaded) && match loaded {
            Ok(asset) => r == Ok::<Seq<char>, Error>(id) && after == then.with_asset(
                key_of::<S, V, A>(id),
                asset.stored(),
            ),
            Err(e) => r == Err::<Seq<char>, Error>(e) && after == then,
        }
}

/// Whether loading through a cache can give `r` and leave `after`. A cached
/// asset is only looked up; another is loaded and added.
pub open spec fn may_load_through<S: Source, V: Value, A: Compound<S, V>>(
    cache: Identity<S>,
    before: LoadState<V>,
    id: Seq<char>,
    after: LoadState<V>,
    r: Result<Seq<char>, Error>,
) -> bool {
    if before.cache.assets.contains_key(key_of::<S, V, A>(id)) {
        r == Ok::<Seq<char>, Error>(id) && after == looked_up::<S, V, A>(cache, before, id)
    } else {
        may_add_asset::<S, V, A>(cache, looked_up::<S, V, A>(cache, before, id), id, after, r)
    }
}

/// Whether loading an asset without caching it can give `r` and leave
/// `after`. While lookups are recorded, of whichever cache, it is looked up
/// and told of like one that is cached.
pub open spec fn may_load_owned<S: Source, V: Value, A: Compound<S, V>>(
    cache: Identity<S>,
    before: LoadState<V>,
    id: Seq<char>,
    after: LoadState<V>,
    r: Result<A, Error>,
) -> bool {
    if A::HOT_RELOADED && before.recording is Some {
        may_load_noticed::<S, V, A>(cache, looked_up::<S, V, A>(cache, before, id), id, after, r)
    } else {
        may_load_itself::<S, V, A>(cache, before, id, after, r)
    }
}

/// Whether loading through a cache, whatever comes of it, can leave `after`.
pub open spec fn may_leave<S: Source, V: Value, A: Compound<S, V>>(
    cache: Identity<S>,
    before: LoadState<V>,
    id: Seq<char>,
    after: LoadState<V>,
) -> bool {
    exists|r: Result<Seq<char>, Error>| may_load_through::<S, V, A>(cache, before, id, after, r)
}

/// Whether loading one asset after the other through a cache, whatever comes
/// of each, can lead from the first of `states` to the last.
pub open spec fn may_load_each<S: Source, V: Value, A: Compound<S, V>>(
    cache: Identity<S>,
    ids: Seq<Seq<char>>,
    states: Seq<LoadState<V>>,
) -> bool {
    &&& states.len() == ids.len() + 1
    &&& forall|i: int|
        0 <= i < ids.len() ==> may_leave::<S, V, A>(
            cache,
            states[i],
            #[trigger] ids[i],
            states[i + 1],
        )
}

/// The identifiers of the entries of a directory.
pub open spec fn child_ids(dir: Seq<char>, names: Seq<Seq<char>>) -> Seq<Seq<char>> {
    names.map_values(|name: Seq<char>| child_id(dir, name))
}

/// Whether listing a directory and loading the assets in it can give `r`, the
/// identifiers of those assets, and leave `after`.
pub open spec fn may_read_dir<S: Source, V: Value, A: Asset<V>>(
    cache: Identity<S>,
    before: LoadState<V>,
    id: Seq<char>,
    after: LoadState<V>,
    r: Result<Seq<Seq<char>>, IoError>,
) -> bool {
    exists|listing: Result<Seq<Seq<char>>, IoError>| #[trigger]
        cache.source.may_read_dir(id, A::spec_extensions(), listing) && match listing {
            Ok(names) => r == Ok::<Seq<Seq<char>>, IoError>(child_ids(id, names)) && exists|
                states: Seq<LoadState<V>>,
            | #[trigger]
                may_load_each::<S, V, A>(cache, child_ids(id, names), states) && states.first()
                    == before && states.last() == after,
            Err(e) => r == Err::<Seq<Seq<char>>, IoError>(e) && after == before,
        }
}

/// The state in which the entries of a directory are loaded: where the source
/// is followed, the directory has been told of and nothing is recorded.
pub open spec fn dir_start<S: Source, V>(
    cache: Identity<S>,
    before: LoadState<V>,
    key: AssetKey,
) -> LoadState<V> {
    if cache.source.hot_reloading() {
        before.noticed(NoticeState::AddDir { key }).recording_to(None)
    } else {
        before
    }
}

/// Whether adding a directory to a cache can give `r` and leave `after`.
/// The former record is back afterwards, and what stands under the key
/// already stays there.
pub open spec fn may_add_dir<S: Source, V: Value, A: Asset<V>>(
    cache: Identity<S>,
    before: LoadState<V>,
    id: Seq<char>,
    after: LoadState<V>,
    r: Result<Seq<Seq<char>>, IoError>,
) -> bool {
    let key = key_of::<S, V, A>(id);
    exists|during: LoadState<V>, read: Result<Seq<Seq<char>>, IoError>| #[trigger]
        may_read_dir::<S, V, A>(cache, dir_start(cache, before, key), id, during, read) && ({
            let then = if cache.source.hot_reloading() {
                during.recording_to(before.recording)
            } else {
                during
            };
            match read {
                Ok(ids) => after == then.with_dir(key, ids) && r == Ok::<
                    Seq<Seq<char>>,
                    IoError,
                >(after.cache.dirs[key]),
                Err(e) => after == then && r == Err::<Seq<Seq<char>>, IoError>(e),
            }
        })
}

/// Whether loading a directory through a cache can give `r` and leave
/// `after`. A cached directory is only looked up.
pub open spec fn may_load_dir<S: Source, V: Value, A: Asset<V>>(
    cache: Identity<S>,
    before: LoadState<V>,
    id: Seq<char>,
    after: LoadState<V>,
    r: Result<Seq<Seq<char>>, IoError>,
) -> bool {
    let key = key_of::<S, V, A>(id);
    if before.cache.dirs.contains_key(key) {
        after == before && r == Ok::<Seq<Seq<char>>, IoError>(before.cache.dirs[key])
    } else {
        may_add_dir::<S, V, A>(cache, before, id, after, r)
    }
}

} // verus!
