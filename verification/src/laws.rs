//! What holds of the cache as a whole.
use vstd::prelude::*;

use crate::asset::{may_have_failed, may_load_from_source, may_load_single, Asset, Value};
use crate::compound::{law_assets_are_compounds, Compound};
use crate::entry::key_of;
use crate::error::{combined, Error, IoError};
use crate::key::AssetKey;
use crate::loading::{
    child_ids,
    dir_start,
    looked_up,
    may_add_dir,
    may_leave,
    may_load_dir,
    may_load_each,
    may_load_itself,
    may_load_noticed,
    may_load_owned,
    may_load_through,
    may_read_dir,
    may_record_load,
    with_deps,
};
use crate::reload::{updated, updated_by, ReloaderState, Reloading, Update};
use crate::source::Source;
use crate::state::{CacheState, Identity, LoadState, NoticeState, Recording};

verus! {

/// Assets are identified with their type and a string: two assets have the
/// same key exactly if they have the same identifier and the same type.
pub proof fn law_keys_tell_assets_apart<
    S: Source,
    V: Value,
    A: Compound<S, V>,
    B: Compound<S, V>,
>(a: Seq<char>, b: Seq<char>)
    ensures
        key_of::<S, V, A>(a) == key_of::<S, V, B>(b) <==> a == b && A::TYPE_ID == B::TYPE_ID,
{
}

/// Adding or removing an asset leaves every other asset as it is, also those
/// with the same identifier and another type.
pub proof fn law_other_assets_stay<V>(
    state: CacheState<V>,
    key: AssetKey,
    value: V,
    other: AssetKey,
)
    requires
        other != key,
    ensures
        state.with_asset(key, value).assets.contains_key(other) == state.assets.contains_key(other),
        state.without_asset(key).assets.contains_key(other) == state.assets.contains_key(other),
        state.assets.contains_key(other) ==> state.with_asset(key, value).assets[other]
            == state.assets[other] && state.without_asset(key).assets[other]
            == state.assets[other],
{
}

/// What was put under a free key is found there.
pub proof fn law_what_is_kept_is_found<V>(state: CacheState<V>, key: AssetKey, value: V)
    requires
        !state.assets.contains_key(key),
    ensures
        state.with_asset(key, value).assets.contains_key(key),
        state.with_asset(key, value).assets[key] == value,
        state.with_asset(key, value).without_asset(key) =~= state,
{
    assert(state.assets.insert(key, value).remove(key) =~= state.assets);
}

/// The first asset under a key stays: adding another one changes nothing.
pub proof fn law_first_asset_stays<V>(state: CacheState<V>, key: AssetKey, first: V, second: V)
    ensures
        state.with_asset(key, first).with_asset(key, second) == state.with_asset(key, first),
{
}

/// A removed asset is gone, and removing it again changes nothing.
pub proof fn law_removed_assets_are_gone<V>(state: CacheState<V>, key: AssetKey)
    ensures
        !state.without_asset(key).assets.contains_key(key),
        state.without_asset(key).without_asset(key) =~= state.without_asset(key),
{
    assert(state.assets.remove(key).remove(key) =~= state.assets.remove(key));
}

/// A cleared cache holds no asset and no directory.
pub proof fn law_cleared_caches_are_empty<V>(state: CacheState<V>, key: AssetKey)
    ensures
        !state.emptied().assets.contains_key(key),
        !state.emptied().dirs.contains_key(key),
{
}

/// Looking an asset up only adds to what is recorded.
proof fn lemma_looking_up_extends<S: Source, V: Value, A: Compound<S, V>>(
    cache: Identity<S>,
    before: LoadState<V>,
    id: Seq<char>,
)
    ensures
        looked_up::<S, V, A>(cache, before, id).extends(before),
{
    before.lemma_extends_itself();
}

/// Loading and recording only adds, and gives the recording back as it was.
proof fn lemma_recorded_load_extends<S: Source, V: Value, A: Compound<S, V>>(
    cache: Identity<S>,
    before: LoadState<V>,
    id: Seq<char>,
    after: LoadState<V>,
    r: Result<(A, Set<AssetKey>), Error>,
)
    requires
        may_record_load::<S, V, A>(cache, before, id, after, r),
    ensures
        after.extends(before),
        cache.source.hot_reloading() ==> after.recording == before.recording,
{
    before.lemma_extends_itself();
}

/// Loading and telling of it only adds. Of an asset that is hot-reloaded it
/// gives the recording back as it was, where the source is followed.
proof fn lemma_noticed_load_extends<S: Source, V: Value, A: Compound<S, V>>(
    cache: Identity<S>,
    before: LoadState<V>,
    id: Seq<char>,
    after: LoadState<V>,
    r: Result<A, Error>,
)
    requires
        may_load_noticed::<S, V, A>(cache, before, id, after, r),
    ensures
        after.extends(before),
        A::HOT_RELOADED && cache.source.hot_reloading() ==> after.recording == before.recording,
{
    if A::HOT_RELOADED {
        let (then, got) = choose|then: LoadState<V>, got: Result<(A, Set<AssetKey>), Error>|
            #[trigger] may_record_load::<S, V, A>(cache, before, id, then, got) && match got {
                Ok((asset, deps)) => r == Ok::<A, Error>(asset) && after == if cache.source.hot_reloading() {
                    then.noticed(NoticeState::AddAsset { key: key_of::<S, V, A>(id), deps })
                } else {
                    then
                },
                Err(e) => r == Err::<A, Error>(e) && after == then,
            };
        lemma_recorded_load_extends::<S, V, A>(cache, before, id, then, got);
    }
}

/// Loading through a cache only adds to it: whatever comes of it, the cached
/// assets and directories stay as they are.
pub proof fn law_loading_only_adds<S: Source, V: Value, A: Compound<S, V>>(
    cache: Identity<S>,
    before: LoadState<V>,
    id: Seq<char>,
    after: LoadState<V>,
    r: Result<Seq<char>, Error>,
)
    requires
        may_load_through::<S, V, A>(cache, before, id, after, r),
    ensures
        after.extends(before),
{
    let key = key_of::<S, V, A>(id);
    let looked = looked_up::<S, V, A>(cache, before, id);
    lemma_looking_up_extends::<S, V, A>(cache, before, id);
    if !before.cache.assets.contains_key(key) {
        let (then, loaded) = choose|then: LoadState<V>, loaded: Result<A, Error>| #[trigger]
            may_load_noticed::<S, V, A>(cache, looked, id, then, loaded) && match loaded {
                Ok(asset) => r == Ok::<Seq<char>, Error>(id) && after == then.with_asset(
                    key,
                    asset.stored(),
                ),
                Err(e) => r == Err::<Seq<char>, Error>(e) && after == then,
            };
        lemma_noticed_load_extends::<S, V, A>(cache, looked, id, then, loaded);
        then.lemma_extends_itself();
        assert(after.extends(then));
        LoadState::lemma_extends_on(looked, then, after);
        LoadState::lemma_extends_on(before, looked, after);
    }
}

/// A cached asset is handed out, and nothing is loaded: loading it comes to a
/// handle, and to no change but that it may be recorded as a dependency.
pub proof fn law_cached_assets_are_not_loaded_again<S: Source, V: Value, A: Compound<S, V>>(
    cache: Identity<S>,
    before: LoadState<V>,
    id: Seq<char>,
    after: LoadState<V>,
    r: Result<Seq<char>, Error>,
)
    requires
        before.cache.assets.contains_key(key_of::<S, V, A>(id)),
        may_load_through::<S, V, A>(cache, before, id, after, r),
    ensures
        r == Ok::<Seq<char>, Error>(id),
        after == looked_up::<S, V, A>(cache, before, id),
        after.cache == before.cache,
{
}

/// A loaded asset is in the cache.
pub proof fn law_loaded_assets_are_cached<S: Source, V: Value, A: Compound<S, V>>(
    cache: Identity<S>,
    before: LoadState<V>,
    id: Seq<char>,
    after: LoadState<V>,
    r: Result<Seq<char>, Error>,
)
    requires
        may_load_through::<S, V, A>(cache, before, id, after, r),
        r is Ok,
    ensures
        r == Ok::<Seq<char>, Error>(id),
        after.cache.assets.contains_key(key_of::<S, V, A>(id)),
{
}

/// An asset is loaded once: after it was loaded, loading it again comes to a
/// handle to what is there.
pub proof fn law_assets_are_loaded_once<S: Source, V: Value, A: Compound<S, V>>(
    cache: Identity<S>,
    before: LoadState<V>,
    id: Seq<char>,
    between: LoadState<V>,
    first: Result<Seq<char>, Error>,
    after: LoadState<V>,
    second: Result<Seq<char>, Error>,
)
    requires
        may_load_through::<S, V, A>(cache, before, id, between, first),
        first is Ok,
        may_load_through::<S, V, A>(cache, between, id, after, second),
    ensures
        second == Ok::<Seq<char>, Error>(id),
        after.cache == between.cache,
{
    law_loaded_assets_are_cached::<S, V, A>(cache, before, id, between, first);
}

/// What a single asset's loading leaves: it is looked up and, if it could be
/// loaded, cached and, if it is followed, told of as made from no other.
pub open spec fn asset_loaded<S: Source, V: Value, A: Asset<V>>(
    cache: Identity<S>,
    before: LoadState<V>,
    id: Seq<char>,
    loaded: Result<A, Error>,
) -> LoadState<V> {
    let key = key_of::<S, V, A>(id);
    let looked = looked_up::<S, V, A>(cache, before, id);
    match loaded {
        Ok(asset) => if <A as Asset<V>>::HOT_RELOADED && cache.source.hot_reloading() {
            looked.noticed(NoticeState::AddAsset { key, deps: Set::empty() }).with_asset(
                key,
                <A as Asset<V>>::stored(asset),
            )
        } else {
            looked.with_asset(key, <A as Asset<V>>::stored(asset))
        },
        Err(_) => looked,
    }
}

/// Loading a single asset and recording it leaves the state as it is: the
/// asset is made from no other.
proof fn lemma_asset_recorded<S: Source, V: Value, A: Asset<V>>(
    cache: Identity<S>,
    before: LoadState<V>,
    id: Seq<char>,
    after: LoadState<V>,
    r: Result<(A, Set<AssetKey>), Error>,
)
    requires
        may_record_load::<S, V, A>(cache, before, id, after, r),
    ensures
        after == before,
        exists|loaded: Result<A, Error>| #[trigger]
            may_load_from_source::<S, V, A>(cache.source, id, loaded) && match loaded {
                Ok(asset) => r == Ok::<(A, Set<AssetKey>), Error>((asset, Set::empty())),
                Err(e) => r == Err::<(A, Set<AssetKey>), Error>(e),
            },
{
}

/// The same with telling of it.
proof fn lemma_asset_noticed<S: Source, V: Value, A: Asset<V>>(
    cache: Identity<S>,
    before: LoadState<V>,
    id: Seq<char>,
    after: LoadState<V>,
    r: Result<A, Error>,
)
    requires
        may_load_noticed::<S, V, A>(cache, before, id, after, r),
    ensures
        may_load_from_source::<S, V, A>(cache.source, id, r),
        after == if r is Ok && <A as Asset<V>>::HOT_RELOADED && cache.source.hot_reloading() {
            before.noticed(
                NoticeState::AddAsset { key: key_of::<S, V, A>(id), deps: Set::empty() },
            )
        } else {
            before
        },
{
    law_assets_are_compounds::<S, V, A>();
    if <A as Asset<V>>::HOT_RELOADED {
        let (then, got) = choose|then: LoadState<V>, got: Result<(A, Set<AssetKey>), Error>|
            #[trigger] may_record_load::<S, V, A>(cache, before, id, then, got) && match got {
                Ok((asset, deps)) => r == Ok::<A, Error>(asset) && after == if cache.source.hot_reloading() {
                    then.noticed(NoticeState::AddAsset { key: key_of::<S, V, A>(id), deps })
                } else {
                    then
                },
                Err(e) => r == Err::<A, Error>(e) && after == then,
            };
        lemma_asset_recorded::<S, V, A>(cache, before, id, then, got);
    }
}

/// If a single asset is not found in the cache, it is loaded from the source:
/// what the source gives is cached, and its failure is the failure.
pub proof fn law_other_assets_come_from_the_source<S: Source, V: Value, A: Asset<V>>(
    cache: Identity<S>,
    before: LoadState<V>,
    id: Seq<char>,
    after: LoadState<V>,
    r: Result<Seq<char>, Error>,
)
    requires
        !before.cache.assets.contains_key(key_of::<S, V, A>(id)),
        may_load_through::<S, V, A>(cache, before, id, after, r),
    ensures
        exists|loaded: Result<A, Error>| #[trigger]
            may_load_from_source::<S, V, A>(cache.source, id, loaded) && after == asset_loaded::<
                S,
                V,
                A,
            >(cache, before, id, loaded) && match loaded {
                Ok(_) => r == Ok::<Seq<char>, Error>(id),
                Err(e) => r == Err::<Seq<char>, Error>(e),
            },
{
    let key = key_of::<S, V, A>(id);
    let looked = looked_up::<S, V, A>(cache, before, id);
    let (then, loaded) = choose|then: LoadState<V>, loaded: Result<A, Error>| #[trigger]
        may_load_noticed::<S, V, A>(cache, looked, id, then, loaded) && match loaded {
            Ok(asset) => r == Ok::<Seq<char>, Error>(id) && after == then.with_asset(
                key,
                <A as Compound<S, V>>::stored(asset),
            ),
            Err(e) => r == Err::<Seq<char>, Error>(e) && after == then,
        };
    lemma_asset_noticed::<S, V, A>(cache, looked, id, then, loaded);
}

/// An owned asset is never fetched from the cache, cached or not, and it is
/// not cached: it comes of the asset's own loading, which finds the assets
/// that were cached before, and nothing is cached but by that loading.
pub proof fn law_owned_assets_bypass_the_cache<S: Source, V: Value, A: Compound<S, V>>(
    cache: Identity<S>,
    before: LoadState<V>,
    id: Seq<char>,
    after: LoadState<V>,
    r: Result<A, Error>,
)
    requires
        may_load_owned::<S, V, A>(cache, before, id, after, r),
    ensures
        exists|start: LoadState<V>, during: LoadState<V>| #[trigger]
            may_load_itself::<S, V, A>(cache, start, id, during, r) && start.cache.assets
                == before.cache.assets && start.cache.dirs == before.cache.dirs && after.cache.assets == during.cache.assets
                && after.cache.dirs == during.cache.dirs,
{
    if A::HOT_RELOADED && before.recording is Some {
        let looked = looked_up::<S, V, A>(cache, before, id);
        let (then, got) = choose|then: LoadState<V>, got: Result<(A, Set<AssetKey>), Error>|
            #[trigger] may_record_load::<S, V, A>(cache, looked, id, then, got) && match got {
                Ok((asset, deps)) => r == Ok::<A, Error>(asset) && after == if cache.source.hot_reloading() {
                    then.noticed(NoticeState::AddAsset { key: key_of::<S, V, A>(id), deps })
                } else {
                    then
                },
                Err(e) => r == Err::<A, Error>(e) && after == then,
            };
        if cache.source.hot_reloading() {
            let start = looked.recording_to(Some((cache.number, Set::empty())));
            let (during, loaded) = choose|during: LoadState<V>, loaded: Result<A, Error>|
                #[trigger] may_load_itself::<S, V, A>(cache, start, id, during, loaded) && then
                    == during.recording_to(looked.recording) && got == with_deps(
                    loaded,
                    during.recording.unwrap().1,
                );
            assert(may_load_itself::<S, V, A>(cache, start, id, during, r));
        } else {
            let loaded = choose|loaded: Result<A, Error>| #[trigger]
                may_load_itself::<S, V, A>(cache, looked, id, then, loaded) && got
                    == with_deps(loaded, Set::empty());
            assert(may_load_itself::<S, V, A>(cache, looked, id, then, r));
        }
    } else {
        assert(may_load_itself::<S, V, A>(cache, before, id, after, r));
    }
}

/// A single asset that is loaded as owned comes from the source, also where
/// it is cached, and the cached assets and directories stay the same.
pub proof fn law_owned_single_assets_are_not_cached<S: Source, V: Value, A: Asset<V>>(
    cache: Identity<S>,
    before: LoadState<V>,
    id: Seq<char>,
    after: LoadState<V>,
    r: Result<A, Error>,
)
    requires
        may_load_owned::<S, V, A>(cache, before, id, after, r),
    ensures
        may_load_from_source::<S, V, A>(cache.source, id, r),
        after.cache.assets == before.cache.assets,
        after.cache.dirs == before.cache.dirs,
{
    law_owned_assets_bypass_the_cache::<S, V, A>(cache, before, id, after, r);
}

/// What loading an asset leaves of a recording that is found on entry, where
/// the asset is hot-reloaded and the source is followed: the asset is added
/// if the record is of this cache, and nothing else is.
pub open spec fn recorded_by<S>(cache: Identity<S>, before: Recording, key: AssetKey) -> Recording {
    match before {
        Some((owner, keys)) => if owner == cache.number {
            Some((owner, keys.insert(key)))
        } else {
            before
        },
        None => None,
    }
}

/// What is loaded while the lookups of its cache are recorded becomes a
/// dependency, whether it was cached, could be loaded or not; what it was made
/// from does not. Nothing is recorded where the lookups of another cache are.
pub proof fn law_loaded_assets_become_dependencies<S: Source, V: Value, A: Compound<S, V>>(
    cache: Identity<S>,
    before: LoadState<V>,
    id: Seq<char>,
    after: LoadState<V>,
    r: Result<Seq<char>, Error>,
)
    requires
        A::HOT_RELOADED,
        cache.source.hot_reloading(),
        may_load_through::<S, V, A>(cache, before, id, after, r),
    ensures
        after.recording == recorded_by(cache, before.recording, key_of::<S, V, A>(id)),
{
    let key = key_of::<S, V, A>(id);
    let looked = looked_up::<S, V, A>(cache, before, id);
    if !before.cache.assets.contains_key(key) {
        let (then, loaded) = choose|then: LoadState<V>, loaded: Result<A, Error>| #[trigger]
            may_load_noticed::<S, V, A>(cache, looked, id, then, loaded) && match loaded {
                Ok(asset) => r == Ok::<Seq<char>, Error>(id) && after == then.with_asset(
                    key,
                    asset.stored(),
                ),
                Err(e) => r == Err::<Seq<char>, Error>(e) && after == then,
            };
        lemma_noticed_load_extends::<S, V, A>(cache, looked, id, then, loaded);
    }
}

/// What is loaded as owned while lookups are recorded becomes a dependency
/// all the same, of its own cache only.
pub proof fn law_owned_assets_become_dependencies<S: Source, V: Value, A: Compound<S, V>>(
    cache: Identity<S>,
    before: LoadState<V>,
    id: Seq<char>,
    after: LoadState<V>,
    r: Result<A, Error>,
)
    requires
        A::HOT_RELOADED,
        cache.source.hot_reloading(),
        may_load_owned::<S, V, A>(cache, before, id, after, r),
    ensures
        after.recording == recorded_by(cache, before.recording, key_of::<S, V, A>(id)),
{
    if before.recording is Some {
        let looked = looked_up::<S, V, A>(cache, before, id);
        lemma_noticed_load_extends::<S, V, A>(cache, looked, id, after, r);
    }
}

/// What is loaded as owned while lookups are recorded is told of, also where
/// they are the lookups of another cache.
pub proof fn law_owned_assets_are_told_of<S: Source, V: Value, A: Asset<V>>(
    cache: Identity<S>,
    before: LoadState<V>,
    id: Seq<char>,
    after: LoadState<V>,
    r: Result<A, Error>,
)
    requires
        <A as Asset<V>>::HOT_RELOADED,
        cache.source.hot_reloading(),
        before.recording is Some,
        r is Ok,
        may_load_owned::<S, V, A>(cache, before, id, after, r),
    ensures
        after.cache == before.cache.noticed(
            NoticeState::AddAsset { key: key_of::<S, V, A>(id), deps: Set::empty() },
        ),
{
    law_assets_are_compounds::<S, V, A>();
    let looked = looked_up::<S, V, A>(cache, before, id);
    lemma_asset_noticed::<S, V, A>(cache, looked, id, after, r);
}

/// Where the source is not followed, looking an asset up records nothing,
/// whichever cache's lookups are recorded.
pub proof fn law_recording_needs_a_followed_source<S: Source, V: Value, A: Compound<S, V>>(
    cache: Identity<S>,
    before: LoadState<V>,
    id: Seq<char>,
)
    requires
        !cache.source.hot_reloading(),
    ensures
        looked_up::<S, V, A>(cache, before, id) == before,
{
}

/// Loading and recording what the asset is made from leaves every recording
/// as it was, also that of another cache, and the keys that come with the
/// asset are those that its own loading, begun without any, has recorded.
pub proof fn law_recordings_are_put_back<S: Source, V: Value, A: Compound<S, V>>(
    cache: Identity<S>,
    before: LoadState<V>,
    id: Seq<char>,
    after: LoadState<V>,
    r: Result<(A, Set<AssetKey>), Error>,
)
    requires
        cache.source.hot_reloading(),
        may_record_load::<S, V, A>(cache, before, id, after, r),
    ensures
        after.recording == before.recording,
        r matches Ok((asset, deps)) ==> may_load_itself::<S, V, A>(
            cache,
            before.recording_to(Some((cache.number, Set::empty()))),
            id,
            after.recording_to(Some((cache.number, deps))),
            Ok(asset),
        ),
{
    let start = before.recording_to(Some((cache.number, Set::empty())));
    let (during, loaded) = choose|during: LoadState<V>, loaded: Result<A, Error>| #[trigger]
        may_load_itself::<S, V, A>(cache, start, id, during, loaded) && after
            == during.recording_to(before.recording) && r == with_deps(
            loaded,
            during.recording.unwrap().1,
        );
    if let Ok((asset, deps)) = r {
        assert(after.recording_to(Some((cache.number, deps))) == during);
    }
}

/// A single asset that is not hot-reloaded becomes no dependency, and is not
/// told of.
pub proof fn law_fixed_assets_become_no_dependencies<S: Source, V: Value, A: Asset<V>>(
    cache: Identity<S>,
    before: LoadState<V>,
    id: Seq<char>,
    after: LoadState<V>,
    r: Result<Seq<char>, Error>,
)
    requires
        !<A as Asset<V>>::HOT_RELOADED,
        may_load_through::<S, V, A>(cache, before, id, after, r),
    ensures
        after.recording == before.recording,
        after.cache.notices == before.cache.notices,
{
    law_assets_are_compounds::<S, V, A>();
    if !before.cache.assets.contains_key(key_of::<S, V, A>(id)) {
        law_other_assets_come_from_the_source::<S, V, A>(cache, before, id, after, r);
    }
}

/// Without an extension no data is looked for: what comes of loading is the
/// default value for the error that says so.
pub proof fn law_assets_without_extension_have_their_default<S: Source, V: Value, A: Asset<V>>(
    source: S,
    id: Seq<char>,
    r: Result<A, Error>,
)
    requires
        A::spec_extensions().len() == 0,
        may_load_from_source::<S, V, A>(source, id, r),
    ensures
        A::may_default(id, Error::NoDefaultValue, r),
{
    let failures = choose|failures: Seq<Error>| #[trigger]
        may_have_failed::<S, V, A>(source, id, failures) && if failures.len() < A::spec_extensions().len() {
            r is Ok && may_load_single::<S, V, A>(
                source,
                id,
                A::spec_extensions()[failures.len() as int],
                r,
            )
        } else {
            A::may_default(id, combined(failures), r)
        };
    assert(failures.len() == 0);
}

/// The first extension that works is the one that is used: where the earlier
/// ones can only fail and the next can only work, loading comes to what that
/// one gives.
pub proof fn law_first_working_extension_is_used<S: Source, V: Value, A: Asset<V>>(
    source: S,
    id: Seq<char>,
    n: int,
    r: Result<A, Error>,
)
    requires
        0 <= n < A::spec_extensions().len(),
        forall|i: int, attempt: Result<A, Error>|
            0 <= i < n && #[trigger] may_load_single::<S, V, A>(
                source,
                id,
                A::spec_extensions()[i],
                attempt,
            ) ==> attempt is Err,
        forall|attempt: Result<A, Error>| #[trigger]
            may_load_single::<S, V, A>(source, id, A::spec_extensions()[n], attempt)
                ==> attempt is Ok,
        may_load_from_source::<S, V, A>(source, id, r),
    ensures
        r is Ok,
        may_load_single::<S, V, A>(source, id, A::spec_extensions()[n], r),
{
    let failures = choose|failures: Seq<Error>| #[trigger]
        may_have_failed::<S, V, A>(source, id, failures) && if failures.len() < A::spec_extensions().len() {
            r is Ok && may_load_single::<S, V, A>(
                source,
                id,
                A::spec_extensions()[failures.len() as int],
                r,
            )
        } else {
            A::may_default(id, combined(failures), r)
        };
    if failures.len() > n {
        assert(may_load_single::<S, V, A>(
            source,
            id,
            A::spec_extensions()[n],
            Err(failures[n]),
        ));
    }
}

/// What is left of some failures is one of them, and none tells more.
pub proof fn law_the_most_telling_failure_is_left(errors: Seq<Error>)
    ensures
        errors.len() == 0 ==> combined(errors) == Error::NoDefaultValue,
        errors.len() > 0 ==> exists|i: int| 0 <= i < errors.len() && #[trigger] errors[i]
            == combined(errors),
        forall|i: int|
            0 <= i < errors.len() ==> (#[trigger] errors[i]).weight() <= combined(errors).weight(),
    decreases errors.len(),
{
    if errors.len() > 0 {
        let earlier = errors.drop_last();
        law_the_most_telling_failure_is_left(earlier);
        if combined(errors) == errors.last() {
            assert(errors[errors.len() - 1] == combined(errors));
        } else {
            assert(combined(errors) == combined(earlier));
            if earlier.len() > 0 {
                let i = choose|i: int| 0 <= i < earlier.len() && #[trigger] earlier[i] == combined(
                    earlier,
                );
                assert(errors[i] == combined(errors));
            }
        }
        assert forall|i: int| 0 <= i < errors.len() implies (#[trigger] errors[i]).weight()
            <= combined(errors).weight() by {
            if i < earlier.len() {
                assert(earlier[i] == errors[i]);
            }
        }
    }
}

/// Loading some assets one after the other only adds; what could be loaded is
/// there at the end; no directory is added; and nothing is recorded where
/// the source is not followed.
pub(crate) proof fn lemma_loading_each<S: Source, V: Value, A: Asset<V>>(
    cache: Identity<S>,
    ids: Seq<Seq<char>>,
    states: Seq<LoadState<V>>,
)
    requires
        may_load_each::<S, V, A>(cache, ids, states),
    ensures
        states.last().extends(states.first()),
        states.last().cache.dirs == states.first().cache.dirs,
        !cache.source.hot_reloading() ==> states.last().recording == states.first().recording,
        forall|i: int|
            0 <= i < ids.len() ==> states.last().cache.assets.contains_key(
                key_of::<S, V, A>(#[trigger] ids[i]),
            ) || may_fail::<S, V, A>(cache, states.first(), ids[i]),
    decreases ids.len(),
{
    if ids.len() == 0 {
        states.first().lemma_extends_itself();
    } else {
        let last = ids.len() - 1;
        let fewer = ids.drop_last();
        let earlier = states.drop_last();
        assert forall|i: int| 0 <= i < fewer.len() implies may_leave::<S, V, A>(
            cache,
            earlier[i],
            #[trigger] fewer[i],
            earlier[i + 1],
        ) by {
            assert(fewer[i] == ids[i]);
        }
        lemma_loading_each::<S, V, A>(cache, fewer, earlier);
        let start = states.first();
        let before = states[last];
        let after = states[last + 1];
        assert(earlier.last() == before);
        assert(may_leave::<S, V, A>(cache, before, ids[last], after));
        let r = choose|r: Result<Seq<char>, Error>|
            may_load_through::<S, V, A>(cache, before, ids[last], after, r);
        law_loading_only_adds::<S, V, A>(cache, before, ids[last], after, r);
        LoadState::lemma_extends_on(start, before, after);
        if !before.cache.assets.contains_key(key_of::<S, V, A>(ids[last])) {
            law_other_assets_come_from_the_source::<S, V, A>(cache, before, ids[last], after, r);
        }
        assert forall|i: int| 0 <= i < ids.len() implies after.cache.assets.contains_key(
            key_of::<S, V, A>(#[trigger] ids[i]),
        ) || may_fail::<S, V, A>(cache, start, ids[i]) by {
            if i < last {
                assert(fewer[i] == ids[i]);
                let key = key_of::<S, V, A>(ids[i]);
                if before.cache.assets.contains_key(key) {
                    assert(before.cache.assets.submap_of(after.cache.assets));
                    assert(before.cache.assets.dom().contains(key));
                    assert(after.cache.assets.dom().contains(key));
                }
            }
        }
    }
}

/// Whether loading the asset `id` from the source can fail, where it was not
/// cached before.
pub open spec fn may_fail<S: Source, V: Value, A: Asset<V>>(
    cache: Identity<S>,
    before: LoadState<V>,
    id: Seq<char>,
) -> bool {
    &&& !before.cache.assets.contains_key(key_of::<S, V, A>(id))
    &&& exists|e: Error| #[trigger] may_load_from_source::<S, V, A>(cache.source, id, Err(e))
}

/// Loading a directory only adds to the cache, and what is recorded stays the
/// same: the assets in the directory become no dependencies.
pub proof fn law_loading_directories_only_adds<S: Source, V: Value, A: Asset<V>>(
    cache: Identity<S>,
    before: LoadState<V>,
    id: Seq<char>,
    after: LoadState<V>,
    r: Result<Seq<Seq<char>>, IoError>,
)
    requires
        may_load_dir::<S, V, A>(cache, before, id, after, r),
    ensures
        after.extends(before),
        after.recording == before.recording,
{
    let key = key_of::<S, V, A>(id);
    before.lemma_extends_itself();
    if !before.cache.dirs.contains_key(key) {
        lemma_added_dir::<S, V, A>(cache, before, id, after, r);
    }
}

/// What adding a directory comes to.
proof fn lemma_added_dir<S: Source, V: Value, A: Asset<V>>(
    cache: Identity<S>,
    before: LoadState<V>,
    id: Seq<char>,
    after: LoadState<V>,
    r: Result<Seq<Seq<char>>, IoError>,
)
    requires
        !before.cache.dirs.contains_key(key_of::<S, V, A>(id)),
        may_add_dir::<S, V, A>(cache, before, id, after, r),
    ensures
        after.extends(before),
        after.recording == before.recording,
        r is Err ==> after.cache.dirs == before.cache.dirs && after.cache.assets == before.cache.assets,
        exists|listing: Result<Seq<Seq<char>>, IoError>| #[trigger]
            cache.source.may_read_dir(id, A::spec_extensions(), listing) && match listing {
                Ok(names) => {
                    &&& r == Ok::<Seq<Seq<char>>, IoError>(child_ids(id, names))
                    &&& after.cache.dirs == before.cache.dirs.insert(
                        key_of::<S, V, A>(id),
                        child_ids(id, names),
                    )
                    &&& forall|i: int|
                        0 <= i < names.len() ==> after.cache.assets.contains_key(
                            key_of::<S, V, A>(#[trigger] child_ids(id, names)[i]),
                        ) || may_fail::<S, V, A>(cache, before, child_ids(id, names)[i])
                },
                Err(e) => r == Err::<Seq<Seq<char>>, IoError>(e),
            },
{
    let key = key_of::<S, V, A>(id);
    let start = dir_start(cache, before, key);
    let (during, read) = choose|during: LoadState<V>, read: Result<Seq<Seq<char>>, IoError>|
        #[trigger] may_read_dir::<S, V, A>(cache, start, id, during, read) && ({
            let then = if cache.source.hot_reloading() {
                during.recording_to(before.recording)
            } else {
                during
            };
            match read {
                Ok(ids) => after == then.with_dir(key, ids) && r == Ok::<
                    Seq<Seq<char>>,
                    IoError,
                >(after.cache.dirs[key]),
                Err(e) => after == then && r == Err::<Seq<Seq<char>>, IoError>(e),
            }
        });
    let listing = choose|listing: Result<Seq<Seq<char>>, IoError>| #[trigger]
        cache.source.may_read_dir(id, A::spec_extensions(), listing) && match listing {
            Ok(names) => read == Ok::<Seq<Seq<char>>, IoError>(child_ids(id, names)) && exists|
                states: Seq<LoadState<V>>,
            | #[trigger]
                may_load_each::<S, V, A>(cache, child_ids(id, names), states) && states.first()
                    == start && states.last() == during,
            Err(e) => read == Err::<Seq<Seq<char>>, IoError>(e) && during == start,
        };
    start.lemma_extends_itself();
    if let Ok(names) = listing {
        let ids = child_ids(id, names);
        let states = choose|states: Seq<LoadState<V>>| #[trigger]
            may_load_each::<S, V, A>(cache, ids, states) && states.first() == start
                && states.last() == during;
        lemma_loading_each::<S, V, A>(cache, ids, states);
    }
    assert(during.extends(start));
    assert(before.cache.notices.is_prefix_of(start.cache.notices));
    assert(before.cache.notices.is_prefix_of(after.cache.notices));
}

/// A directory lists the entries that the source gave when it was loaded, and
/// each of them is cached unless it could not be loaded. An error comes of
/// the source alone, and then no asset and no directory is added.
pub proof fn law_directories_hold_their_entries<S: Source, V: Value, A: Asset<V>>(
    cache: Identity<S>,
    before: LoadState<V>,
    id: Seq<char>,
    after: LoadState<V>,
    r: Result<Seq<Seq<char>>, IoError>,
)
    requires
        !before.cache.dirs.contains_key(key_of::<S, V, A>(id)),
        may_load_dir::<S, V, A>(cache, before, id, after, r),
    ensures
        r is Err ==> after.cache.dirs == before.cache.dirs && after.cache.assets == before.cache.assets,
        exists|listing: Result<Seq<Seq<char>>, IoError>| #[trigger]
            cache.source.may_read_dir(id, A::spec_extensions(), listing) && match listing {
                Ok(names) => {
                    &&& r == Ok::<Seq<Seq<char>>, IoError>(child_ids(id, names))
                    &&& after.cache.dirs == before.cache.dirs.insert(
                        key_of::<S, V, A>(id),
                        child_ids(id, names),
                    )
                    &&& forall|i: int|
                        0 <= i < names.len() ==> after.cache.assets.contains_key(
                            key_of::<S, V, A>(#[trigger] child_ids(id, names)[i]),
                        ) || may_fail::<S, V, A>(cache, before, child_ids(id, names)[i])
                },
                Err(e) => r == Err::<Seq<Seq<char>>, IoError>(e),
            },
{
    lemma_added_dir::<S, V, A>(cache, before, id, after, r);
}

/// A directory is loaded once: after it was loaded, loading it again gives
/// the same entries and changes nothing.
pub proof fn law_directories_are_loaded_once<S: Source, V: Value, A: Asset<V>>(
    cache: Identity<S>,
    before: LoadState<V>,
    id: Seq<char>,
    between: LoadState<V>,
    first: Result<Seq<Seq<char>>, IoError>,
    after: LoadState<V>,
    second: Result<Seq<Seq<char>>, IoError>,
)
    requires
        may_load_dir::<S, V, A>(cache, before, id, between, first),
        first is Ok,
        may_load_dir::<S, V, A>(cache, between, id, after, second),
    ensures
        second == first,
        after == between,
{
}

/// Without a reloader, hot-reloading does nothing.
pub proof fn law_no_reloading_without_a_reloader<F, V: Value>(
    state: Reloading<F, V>,
    update: Update<V>,
)
    requires
        state.source.reloader is None,
    ensures
        state.reloaded() == state,
        state.enhanced() == state,
        state.delivered(update) == state,
{
}

/// An asset that could not be reloaded is left unchanged.
pub proof fn law_failed_reloads_change_nothing<V: Value>(
    assets: Map<AssetKey, V>,
    update: Update<V>,
)
    requires
        update.loaded() is Err,
    ensures
        updated(assets, update) == assets,
{
}

/// An asset that was reloaded has its new value, and the others stay the same.
pub proof fn law_reloads_change_their_asset<V: Value>(
    assets: Map<AssetKey, V>,
    update: Update<V>,
    other: AssetKey,
)
    requires
        other != update.key(),
    ensures
        update.loaded() matches Ok(value) ==> updated(assets, update).contains_key(update.key())
            && updated(assets, update)[update.key()] == value,
        updated(assets, update).contains_key(other) == assets.contains_key(other),
        assets.contains_key(other) ==> updated(assets, update)[other] == assets[other],
{
}

/// Reloading drops no asset.
pub proof fn law_reloads_drop_no_asset<V: Value>(
    assets: Map<AssetKey, V>,
    updates: Seq<Update<V>>,
    key: AssetKey,
)
    requires
        assets.contains_key(key),
    ensures
        updated_by(assets, updates).contains_key(key),
    decreases updates.len(),
{
    if updates.len() > 0 {
        law_reloads_drop_no_asset(assets, updates.drop_last(), key);
    }
}

/// Reloading again without another update does nothing.
pub proof fn law_reloading_again_changes_nothing<F, V: Value>(state: Reloading<F, V>)
    ensures
        state.reloaded().reloaded() == state.reloaded(),
{
}

/// After enhancing, subsequent calls to reload and to enhance have no effect.
pub proof fn law_enhancing_once_is_enough<F, V: Value>(state: Reloading<F, V>)
    ensures
        state.enhanced().reloaded() == state.enhanced(),
        state.enhanced().enhanced() == state.enhanced(),
{
}

/// Enhancing makes the updates that wait, as reloading does.
pub proof fn law_enhancing_reloads<F, V: Value>(state: Reloading<F, V>)
    ensures
        state.enhanced().assets == state.reloaded().assets,
{
}

/// No update is lost or made out of turn: where there is a reloader, an
/// update that arrives before reloading comes to the same as one that is made
/// right after it.
pub proof fn law_updates_are_made_in_turn<F, V: Value>(
    state: Reloading<F, V>,
    update: Update<V>,
)
    requires
        state.source.reloader is Some,
    ensures
        state.delivered(update).reloaded().assets == updated(state.reloaded().assets, update),
        state.enhanced().delivered(update).assets == updated(state.enhanced().assets, update),
{
    let pending = state.source.reloader->0.pending;
    assert(pending.push(update).drop_last() =~= pending);
}

/// After some updates, an asset has the value of the last one that is of it
/// and did not fail.
pub proof fn law_the_last_update_counts<V: Value>(
    assets: Map<AssetKey, V>,
    updates: Seq<Update<V>>,
    i: int,
)
    requires
        0 <= i < updates.len(),
        updates[i].loaded() is Ok,
        forall|j: int|
            i < j < updates.len() && (#[trigger] updates[j]).key() == updates[i].key()
                ==> updates[j].loaded() is Err,
    ensures
        updated_by(assets, updates).contains_key(updates[i].key()),
        updated_by(assets, updates)[updates[i].key()] == updates[i].loaded()->Ok_0,
    decreases updates.len(),
{
    if i < updates.len() - 1 {
        let fewer = updates.drop_last();
        assert(updates[updates.len() - 1] == updates.last());
        assert(fewer[i] == updates[i]);
        law_the_last_update_counts(assets, fewer, i);
    }
}

/// Updates that are of other assets, or failed, leave an asset as it is: there
/// with its value, or not there.
pub proof fn law_other_updates_do_not_count<V: Value>(
    assets: Map<AssetKey, V>,
    updates: Seq<Update<V>>,
    key: AssetKey,
)
    requires
        forall|j: int|
            0 <= j < updates.len() && (#[trigger] updates[j]).key() == key
                ==> updates[j].loaded() is Err,
    ensures
        updated_by(assets, updates).contains_key(key) == assets.contains_key(key),
        assets.contains_key(key) ==> updated_by(assets, updates)[key] == assets[key],
    decreases updates.len(),
{
    if updates.len() > 0 {
        assert(updates[updates.len() - 1] == updates.last());
        law_other_updates_do_not_count(assets, updates.drop_last(), key);
    }
}

/// An update that arrives changes one thing: while updates wait, it joins them
/// as the last one, and the assets stay; once they are let through, it is made
/// at once, and the reloader stays as it is. The files never change.
pub proof fn law_updates_wait_or_are_made<F, V: Value>(
    state: Reloading<F, V>,
    update: Update<V>,
    reloader: ReloaderState<V>,
)
    requires
        state.source.reloader == Some(reloader),
    ensures
        state.delivered(update).source.files == state.source.files,
        reloader.shared ==> state.delivered(update).source.reloader == Some(reloader)
            && state.delivered(update).assets == (match update.loaded() {
            Ok(value) => state.assets.insert(update.key(), value),
            Err(_) => state.assets,
        }),
        !reloader.shared ==> state.delivered(update).assets == state.assets
            && state.delivered(update).source.reloader == Some(
            ReloaderState { pending: reloader.pending.push(update), shared: false },
        ),
{
}

/// Reloading makes all the updates that wait and leaves none waiting; updates
/// that arrive later wait again. Once updates are let through it does nothing.
pub proof fn law_reloading_makes_what_waits<F, V: Value>(
    state: Reloading<F, V>,
    reloader: ReloaderState<V>,
)
    requires
        state.source.reloader == Some(reloader),
    ensures
        state.reloaded().source.files == state.source.files,
        reloader.shared ==> state.reloaded() == state,
        !reloader.shared ==> state.reloaded().assets == updated_by(state.assets, reloader.pending)
            && state.reloaded().source.reloader == Some(
            ReloaderState::<V> { pending: Seq::empty(), shared: false },
        ),
{
}

/// Enhancing makes all the updates that wait and lets later ones through.
pub proof fn law_enhancing_lets_updates_through<F, V: Value>(
    state: Reloading<F, V>,
    reloader: ReloaderState<V>,
)
    requires
        state.source.reloader == Some(reloader),
    ensures
        state.enhanced().source.files == state.source.files,
        state.enhanced().source.reloader matches Some(now) && now.shared,
        reloader.shared ==> state.enhanced() == state,
        !reloader.shared ==> state.enhanced().assets == updated_by(state.assets, reloader.pending)
            && state.enhanced().source.reloader == Some(
            ReloaderState::<V> { pending: Seq::empty(), shared: true },
        ),
{
}

/// Enhancing lasts: however many updates arrive one after the other from then
/// on, all of them are made, in their order and without asking, and reloading
/// or enhancing again still has no effect.
pub proof fn law_enhancing_lasts<F, V: Value>(
    state: Reloading<F, V>,
    updates: Seq<Update<V>>,
    states: Seq<Reloading<F, V>>,
)
    requires
        state.source.reloader is Some,
        states.len() == updates.len() + 1,
        states[0] == state.enhanced(),
        forall|i: int|
            0 <= i < updates.len() ==> states[i + 1] == states[i].delivered(#[trigger] updates[i]),
    ensures
        states.last().assets == updated_by(state.enhanced().assets, updates),
        states.last().source == state.enhanced().source,
        states.last().source.reloader matches Some(reloader) && reloader.shared,
        states.last().reloaded() == states.last(),
        states.last().enhanced() == states.last(),
    decreases updates.len(),
{
    if updates.len() > 0 {
        let fewer = updates.drop_last();
        let earlier = states.drop_last();
        assert forall|i: int| 0 <= i < fewer.len() implies earlier[i + 1] == earlier[i].delivered(
            #[trigger] fewer[i],
        ) by {
            assert(fewer[i] == updates[i]);
        }
        law_enhancing_lasts(state, fewer, earlier);
        let n = updates.len() - 1;
        assert(states[n + 1] == states[n].delivered(updates[n]));
    }
}

/// Waiting lasts too: however many updates arrive one after the other, asking
/// for them once makes all of them in their order.
pub proof fn law_waiting_updates_are_made_together<F, V: Value>(
    state: Reloading<F, V>,
    updates: Seq<Update<V>>,
    states: Seq<Reloading<F, V>>,
)
    requires
        state.source.reloader matches Some(reloader) && !reloader.shared,
        states.len() == updates.len() + 1,
        states[0] == state.reloaded(),
        forall|i: int|
            0 <= i < updates.len() ==> states[i + 1] == states[i].delivered(#[trigger] updates[i]),
    ensures
        states.last().assets == state.reloaded().assets,
        states.last().source.reloader == Some(ReloaderState { pending: updates, shared: false }),
        states.last().reloaded().assets == updated_by(state.reloaded().assets, updates),
    decreases updates.len(),
{
    if updates.len() > 0 {
        let fewer = updates.drop_last();
        let earlier = states.drop_last();
        assert forall|i: int| 0 <= i < fewer.len() implies earlier[i + 1] == earlier[i].delivered(
            #[trigger] fewer[i],
        ) by {
            assert(fewer[i] == updates[i]);
        }
        law_waiting_updates_are_made_together(state, fewer, earlier);
        let n = updates.len() - 1;
        assert(states[n + 1] == states[n].delivered(updates[n]));
        assert(fewer.push(updates[n]) =~= updates);
    } else {
        assert(updates =~= Seq::<Update<V>>::empty());
    }
}

} // verus!
