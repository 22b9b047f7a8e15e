//! What loading comes to, told by what the source, the loader and the asset
//! answer.
use vstd::prelude::*;

use crate::asset::{converted, may_have_failed, may_load_from_source, may_load_single, Asset, Loader, Value};
use crate::compound::Compound;
use crate::error::{combined, Error, IoError};
use crate::key::AssetKey;
use crate::laws::{
    law_loading_directories_only_adds,
    law_the_most_telling_failure_is_left,
    lemma_loading_each,
};
use crate::loading::{
    child_ids,
    dir_start,
    looked_up,
    may_leave,
    may_load_dir,
    may_load_each,
    may_load_itself,
    may_load_noticed,
    may_load_owned,
    may_load_through,
    may_read_dir,
    may_record_load,
    with_deps,
};
use crate::source::Source;
use crate::state::{CacheState, Identity, LoadState, NoticeState};
use crate::text::child_id;

verus! {

/// An asset that was loaded with one extension was decoded from all that one
/// read gave, and from nothing else; so was a refusal of the loader. A failed
/// read is told as the source told it, and there is no other failure.
pub proof fn law_what_was_read_is_decoded<S: Source, V: Value, A: Asset<V>>(
    source: S,
    id: Seq<char>,
    ext: Seq<char>,
    r: Result<A, Error>,
)
    requires
        may_load_single::<S, V, A>(source, id, ext, r),
    ensures
        r matches Ok(asset) ==> exists|content: Seq<u8>|
            source.may_read(id, ext, Ok(content)) && #[trigger] A::Loader::may_decode(
                content,
                ext,
                Ok(asset),
            ),
        r matches Err(Error::Conversion(m)) ==> exists|content: Seq<u8>|
            source.may_read(id, ext, Ok(content)) && #[trigger] A::Loader::may_decode(
                content,
                ext,
                Err(m),
            ),
        r matches Err(Error::Io(e)) ==> source.may_read(id, ext, Err(e)),
        !(r matches Err(Error::NoDefaultValue)),
{
    if r is Ok || r->Err_0 is Conversion {
        let (content, made) = choose|content: Seq<u8>, made: Result<A, String>|
            source.may_read(id, ext, Ok(content)) && #[trigger] A::Loader::may_decode(
                content,
                ext,
                made,
            ) && r == converted(made);
        if r is Ok {
            assert(made == Ok::<A, String>(r->Ok_0));
            assert(A::Loader::may_decode(content, ext, Ok(r->Ok_0)));
        } else {
            assert(made == Err::<A, String>(r->Err_0->Conversion_0));
            assert(A::Loader::may_decode(content, ext, Err(r->Err_0->Conversion_0)));
        }
    }
}

/// Where reading can only give `content`, the loader's answer to `content`,
/// whole and unchanged, is what comes of it.
pub proof fn law_contents_are_decoded_whole<S: Source, V: Value, A: Asset<V>>(
    source: S,
    id: Seq<char>,
    ext: Seq<char>,
    content: Seq<u8>,
    r: Result<A, Error>,
)
    requires
        forall|read: Result<Seq<u8>, IoError>| #[trigger]
            source.may_read(id, ext, read) ==> read == Ok::<Seq<u8>, IoError>(content),
        may_load_single::<S, V, A>(source, id, ext, r),
    ensures
        match r {
            Ok(asset) => A::Loader::may_decode(content, ext, Ok(asset)),
            Err(Error::Conversion(m)) => A::Loader::may_decode(content, ext, Err(m)),
            _ => false,
        },
{
    law_what_was_read_is_decoded::<S, V, A>(source, id, ext, r);
}

/// Where reading can only fail with `e`, that failure is what comes of it.
pub proof fn law_failed_reads_are_told<S: Source, V: Value, A: Asset<V>>(
    source: S,
    id: Seq<char>,
    ext: Seq<char>,
    e: IoError,
    r: Result<A, Error>,
)
    requires
        forall|read: Result<Seq<u8>, IoError>| #[trigger]
            source.may_read(id, ext, read) ==> read == Err::<Seq<u8>, IoError>(e),
        may_load_single::<S, V, A>(source, id, ext, r),
    ensures
        r == Err::<A, Error>(Error::Io(e)),
{
    law_what_was_read_is_decoded::<S, V, A>(source, id, ext, r);
}

/// The extensions are tried in their order, each at most once, until one
/// works; the asset is what that one gave. If none works, however many there
/// are, the default value is asked for, with what is left of the failures of
/// all of them.
pub proof fn law_extensions_are_tried_in_turn<S: Source, V: Value, A: Asset<V>>(
    source: S,
    id: Seq<char>,
    r: Result<A, Error>,
)
    requires
        may_load_from_source::<S, V, A>(source, id, r),
    ensures
        exists|failures: Seq<Error>|
            {
                &&& failures.len() <= A::spec_extensions().len()
                &&& forall|i: int|
                    0 <= i < failures.len() ==> may_load_single::<S, V, A>(
                        source,
                        id,
                        A::spec_extensions()[i],
                        Err(#[trigger] failures[i]),
                    )
                &&& failures.len() < A::spec_extensions().len() ==> r is Ok && may_load_single::<
                    S,
                    V,
                    A,
                >(source, id, A::spec_extensions()[failures.len() as int], r)
                &&& failures.len() == A::spec_extensions().len() ==> A::may_default(
                    id,
                    #[trigger] combined(failures),
                    r,
                )
            },
{
    let failures = choose|failures: Seq<Error>| #[trigger]
        may_have_failed::<S, V, A>(source, id, failures) && if failures.len()
            < A::spec_extensions().len() {
            r is Ok && may_load_single::<S, V, A>(
                source,
                id,
                A::spec_extensions()[failures.len() as int],
                r,
            )
        } else {
            A::may_default(id, combined(failures), r)
        };
    assert(combined(failures) == combined(failures));
}

/// Where every extension can only fail, the default value is what comes of
/// loading: it is asked for with one of the failures or, where there is no
/// extension, with the error that says so. Where it can only be a value, the
/// asset is loaded.
pub proof fn law_default_values_come_last<S: Source, V: Value, A: Asset<V>>(
    source: S,
    id: Seq<char>,
    r: Result<A, Error>,
)
    requires
        forall|i: int, attempt: Result<A, Error>|
            0 <= i < A::spec_extensions().len() && #[trigger] may_load_single::<S, V, A>(
                source,
                id,
                A::spec_extensions()[i],
                attempt,
            ) ==> attempt is Err,
        may_load_from_source::<S, V, A>(source, id, r),
    ensures
        exists|e: Error| #[trigger]
            A::may_default(id, e, r) && if A::spec_extensions().len() == 0 {
                e == Error::NoDefaultValue
            } else {
                exists|i: int|
                    0 <= i < A::spec_extensions().len() && #[trigger] may_load_single::<S, V, A>(
                        source,
                        id,
                        A::spec_extensions()[i],
                        Err(e),
                    )
            },
        (forall|e: Error, value: Result<A, Error>| #[trigger]
            A::may_default(id, e, value) ==> value is Ok) ==> r is Ok,
{
    law_extensions_are_tried_in_turn::<S, V, A>(source, id, r);
    let failures = choose|failures: Seq<Error>|
        {
            &&& failures.len() <= A::spec_extensions().len()
            &&& forall|i: int|
                0 <= i < failures.len() ==> may_load_single::<S, V, A>(
                    source,
                    id,
                    A::spec_extensions()[i],
                    Err(#[trigger] failures[i]),
                )
            &&& failures.len() < A::spec_extensions().len() ==> r is Ok && may_load_single::<
                S,
                V,
                A,
            >(source, id, A::spec_extensions()[failures.len() as int], r)
            &&& failures.len() == A::spec_extensions().len() ==> A::may_default(
                id,
                #[trigger] combined(failures),
                r,
            )
        };
    law_the_most_telling_failure_is_left(failures);
    let e = combined(failures);
    assert(A::may_default(id, e, r));
    if failures.len() > 0 {
        let i = choose|i: int| 0 <= i < failures.len() && #[trigger] failures[i] == e;
        assert(may_load_single::<S, V, A>(source, id, A::spec_extensions()[i], Err(e)));
    }
}

/// If some file was unfit, the last such failure is left.
pub proof fn law_the_last_unfit_file_is_told(errors: Seq<Error>, i: int)
    requires
        0 <= i < errors.len(),
        errors[i] is Conversion,
        forall|j: int| i < j < errors.len() ==> !(#[trigger] errors[j] is Conversion),
    ensures
        combined(errors) == errors[i],
    decreases errors.len(),
{
    if i < errors.len() - 1 {
        law_the_last_unfit_file_is_told(errors.drop_last(), i);
        assert(!(errors[errors.len() - 1] is Conversion));
    }
}

/// If no file was unfit but some could not be read though it was there, the
/// last such failure is left.
pub proof fn law_the_last_unreadable_file_is_told(errors: Seq<Error>, i: int)
    requires
        0 <= i < errors.len(),
        errors[i] matches Error::Io(e) && !e.not_found,
        forall|j: int| 0 <= j < errors.len() ==> !(#[trigger] errors[j] is Conversion),
        forall|j: int|
            i < j < errors.len() ==> (#[trigger] errors[j] matches Error::Io(e) ==> e.not_found),
    ensures
        combined(errors) == errors[i],
    decreases errors.len(),
{
    let earlier = errors.drop_last();
    if i < errors.len() - 1 {
        law_the_last_unreadable_file_is_told(earlier, i);
        assert(errors[errors.len() - 1] == errors.last());
    } else {
        law_the_most_telling_failure_is_left(earlier);
        if earlier.len() > 0 {
            let j = choose|j: int| 0 <= j < earlier.len() && #[trigger] earlier[j] == combined(
                earlier,
            );
            assert(errors[j] == combined(earlier));
        }
    }
}

/// If files were only missing, the first such failure is left.
pub proof fn law_the_first_missing_file_is_told(errors: Seq<Error>, i: int)
    requires
        0 <= i < errors.len(),
        errors[i] matches Error::Io(e) && e.not_found,
        forall|j: int|
            0 <= j < errors.len() ==> (#[trigger] errors[j] matches Error::Io(e) ==> e.not_found)
                && !(errors[j] is Conversion),
        forall|j: int| 0 <= j < i ==> #[trigger] errors[j] is NoDefaultValue,
    ensures
        combined(errors) == errors[i],
    decreases errors.len(),
{
    let earlier = errors.drop_last();
    assert(errors[errors.len() - 1] == errors.last());
    if i < errors.len() - 1 {
        law_the_first_missing_file_is_told(earlier, i);
    } else {
        law_the_most_telling_failure_is_left(earlier);
        if earlier.len() > 0 {
            let j = choose|j: int| 0 <= j < earlier.len() && #[trigger] earlier[j] == combined(
                earlier,
            );
            assert(errors[j] == combined(earlier));
        }
    }
}

/// Of two errors the one that tells more is kept, whichever comes first: an
/// unfit file, then one that cannot be read, then a missing one, then nothing
/// looked for. Of two unfit or two unreadable files the first is kept, of two
/// missing ones the second.
pub proof fn law_of_two_errors_one_is_kept(a: Error, b: Error)
    ensures
        a is Conversion ==> a.spec_or(b) == a,
        b is Conversion && !(a is Conversion) ==> a.spec_or(b) == b,
        a is NoDefaultValue ==> a.spec_or(b) == b,
        b is NoDefaultValue ==> a.spec_or(b) == a,
        a matches Error::Io(x) ==> (b matches Error::Io(y) ==> a.spec_or(b) == (if x.not_found {
            b
        } else {
            a
        })),
{
}

/// Looking an asset up changes nothing in the cache. Its key is recorded
/// exactly if it is hot-reloaded, the source is followed and the record is of
/// this cache.
pub proof fn law_lookups_are_recorded<S: Source, V: Value, A: Compound<S, V>>(
    cache: Identity<S>,
    before: LoadState<V>,
    id: Seq<char>,
)
    ensures
        looked_up::<S, V, A>(cache, before, id).cache == before.cache,
        before.recording is None ==> looked_up::<S, V, A>(cache, before, id).recording is None,
        before.recording matches Some((owner, keys)) ==> looked_up::<S, V, A>(
            cache,
            before,
            id,
        ).recording == Some(
            (
                owner,
                if A::HOT_RELOADED && cache.source.hot_reloading() && owner == cache.number {
                    keys.insert(AssetKey { id, type_id: A::TYPE_ID })
                } else {
                    keys
                },
            ),
        ),
{
}

/// The asset's own loading is what its type allows, and takes nothing away.
pub proof fn law_assets_load_themselves<S: Source, V: Value, A: Compound<S, V>>(
    cache: Identity<S>,
    before: LoadState<V>,
    id: Seq<char>,
    after: LoadState<V>,
    r: Result<A, Error>,
)
    requires
        may_load_itself::<S, V, A>(cache, before, id, after, r),
    ensures
        A::may_load(cache, before, id, after, r),
        after.extends(before),
{
}

/// What extends an earlier state still has all of it: the same assets and
/// directories under their keys, the same notices in their places, and a
/// record of the same cache with the same keys.
pub proof fn law_nothing_is_lost<V>(later: LoadState<V>, earlier: LoadState<V>, key: AssetKey, n: int)
    requires
        later.extends(earlier),
    ensures
        earlier.cache.assets.contains_key(key) ==> later.cache.assets.contains_key(key)
            && later.cache.assets[key] == earlier.cache.assets[key],
        earlier.cache.dirs.contains_key(key) ==> later.cache.dirs.contains_key(key)
            && later.cache.dirs[key] == earlier.cache.dirs[key],
        earlier.cache.notices.len() <= later.cache.notices.len(),
        0 <= n < earlier.cache.notices.len() ==> later.cache.notices[n] == earlier.cache.notices[n],
        earlier.recording is None ==> later.recording is None,
        earlier.recording matches Some((owner, keys)) ==> (later.recording matches Some(
            (cache, more),
        ) && cache == owner && (keys.contains(key) ==> more.contains(key))),
{
    if earlier.cache.assets.contains_key(key) {
        assert(earlier.cache.assets.dom().contains(key));
        assert(later.cache.assets.dom().contains(key));
    }
    if earlier.cache.dirs.contains_key(key) {
        assert(earlier.cache.dirs.dom().contains(key));
        assert(later.cache.dirs.dom().contains(key));
    }
}

/// Where the source is followed, an asset that is loaded and recorded begins
/// with an empty record of its cache, whatever was recorded before, which is
/// back afterwards. The keys that come with it are all that this record then
/// holds.
pub proof fn law_each_load_has_a_record_of_its_own<S: Source, V: Value, A: Compound<S, V>>(
    cache: Identity<S>,
    before: LoadState<V>,
    id: Seq<char>,
    after: LoadState<V>,
    r: Result<(A, Set<AssetKey>), Error>,
)
    requires
        cache.source.hot_reloading(),
        may_record_load::<S, V, A>(cache, before, id, after, r),
    ensures
        after.recording == before.recording,
        exists|during: LoadState<V>, loaded: Result<A, Error>| #[trigger]
            A::may_load(
                cache,
                (LoadState { cache: before.cache, recording: Some((cache.number, Set::empty())) }),
                id,
                during,
                loaded,
            ) && after.cache == during.cache && during.recording is Some && during.recording.unwrap().0
                == cache.number && match loaded {
                Ok(asset) => r == Ok::<(A, Set<AssetKey>), Error>((asset, during.recording.unwrap().1)),
                Err(e) => r == Err::<(A, Set<AssetKey>), Error>(e),
            },
{
    let start = before.recording_to(Some((cache.number, Set::empty())));
    let (during, loaded) = choose|during: LoadState<V>, loaded: Result<A, Error>| #[trigger]
        may_load_itself::<S, V, A>(cache, start, id, during, loaded) && after
            == during.recording_to(before.recording) && r == with_deps(
            loaded,
            during.recording.unwrap().1,
        );
    assert(A::may_load(
        cache,
        LoadState { cache: before.cache, recording: Some((cache.number, Set::empty())) },
        id,
        during,
        loaded,
    ));
}

/// Where the source is not followed, an asset that is loaded and recorded
/// just loads itself, and no keys come with it.
pub proof fn law_unfollowed_loads_have_no_record<S: Source, V: Value, A: Compound<S, V>>(
    cache: Identity<S>,
    before: LoadState<V>,
    id: Seq<char>,
    after: LoadState<V>,
    r: Result<(A, Set<AssetKey>), Error>,
)
    requires
        !cache.source.hot_reloading(),
        may_record_load::<S, V, A>(cache, before, id, after, r),
    ensures
        match r {
            Ok((asset, keys)) => A::may_load(cache, before, id, after, Ok(asset)) && keys
                == Set::<AssetKey>::empty(),
            Err(e) => A::may_load(cache, before, id, after, Err(e)),
        },
{
}

/// What comes of a hot-reloaded asset that is loaded anew where the source is
/// followed, by loading and telling of it.
proof fn lemma_told_load<S: Source, V: Value, A: Compound<S, V>>(
    cache: Identity<S>,
    before: LoadState<V>,
    id: Seq<char>,
    after: LoadState<V>,
    r: Result<A, Error>,
)
    requires
        A::HOT_RELOADED,
        cache.source.hot_reloading(),
        may_load_noticed::<S, V, A>(cache, before, id, after, r),
    ensures
        after.recording == before.recording,
        exists|during: LoadState<V>| #[trigger]
            A::may_load(
                cache,
                (LoadState { cache: before.cache, recording: Some((cache.number, Set::empty())) }),
                id,
                during,
                r,
            ) && during.recording is Some && during.recording.unwrap().0
                == cache.number
                && after.cache == (CacheState {
                assets: during.cache.assets,
                dirs: during.cache.dirs,
                notices: if r is Ok {
                    during.cache.notices.push(
                        NoticeState::AddAsset {
                            key: AssetKey { id, type_id: A::TYPE_ID },
                            deps: during.recording.unwrap().1,
                        },
                    )
                } else {
                    during.cache.notices
                },
            }),
{
    let key = AssetKey { id, type_id: A::TYPE_ID };
    let (then, got) = choose|then: LoadState<V>, got: Result<(A, Set<AssetKey>), Error>| #[trigger]
        may_record_load::<S, V, A>(cache, before, id, then, got) && match got {
            Ok((asset, deps)) => r == Ok::<A, Error>(asset) && after == then.noticed(
                NoticeState::AddAsset { key, deps },
            ),
            Err(e) => r == Err::<A, Error>(e) && after == then,
        };
    law_each_load_has_a_record_of_its_own::<S, V, A>(cache, before, id, then, got);
}

/// A hot-reloaded asset that is not cached is, where the source is followed,
/// loaded with an empty record of its cache, whatever was recorded before. If
/// that works, the last notice tells exactly the keys that this record holds
/// in the end, and the asset is cached unless its own loading has put one
/// there. If it fails, the failure is the answer.
pub proof fn law_loads_are_told_with_what_they_are_made_from<S: Source, V: Value, A: Compound<S, V>>(
    cache: Identity<S>,
    before: LoadState<V>,
    id: Seq<char>,
    after: LoadState<V>,
    r: Result<Seq<char>, Error>,
)
    requires
        A::HOT_RELOADED,
        cache.source.hot_reloading(),
        !before.cache.assets.contains_key(AssetKey { id, type_id: A::TYPE_ID }),
        may_load_through::<S, V, A>(cache, before, id, after, r),
    ensures
        before.recording is None ==> after.recording is None,
        before.recording matches Some((owner, keys)) ==> after.recording == Some(
            (
                owner,
                if owner == cache.number {
                    keys.insert(AssetKey { id, type_id: A::TYPE_ID })
                } else {
                    keys
                },
            ),
        ),
        exists|during: LoadState<V>, loaded: Result<A, Error>| #[trigger]
            A::may_load(
                cache,
                (LoadState { cache: before.cache, recording: Some((cache.number, Set::empty())) }),
                id,
                during,
                loaded,
            ) && during.recording is Some && during.recording.unwrap().0
                == cache.number
                && match loaded {
                Ok(asset) => r == Ok::<Seq<char>, Error>(id) && after.cache == (CacheState {
                    assets: if during.cache.assets.contains_key(
                        AssetKey { id, type_id: A::TYPE_ID },
                    ) {
                        during.cache.assets
                    } else {
                        during.cache.assets.insert(
                            AssetKey { id, type_id: A::TYPE_ID },
                            asset.stored(),
                        )
                    },
                    dirs: during.cache.dirs,
                    notices: during.cache.notices.push(
                        NoticeState::AddAsset {
                            key: AssetKey { id, type_id: A::TYPE_ID },
                            deps: during.recording.unwrap().1,
                        },
                    ),
                }),
                Err(e) => r == Err::<Seq<char>, Error>(e) && after.cache == during.cache,
            },
{
    let key = AssetKey { id, type_id: A::TYPE_ID };
    let looked = looked_up::<S, V, A>(cache, before, id);
    law_lookups_are_recorded::<S, V, A>(cache, before, id);
    let (then, loaded) = choose|then: LoadState<V>, loaded: Result<A, Error>| #[trigger]
        may_load_noticed::<S, V, A>(cache, looked, id, then, loaded) && match loaded {
            Ok(asset) => r == Ok::<Seq<char>, Error>(id) && after == then.with_asset(
                key,
                asset.stored(),
            ),
            Err(e) => r == Err::<Seq<char>, Error>(e) && after == then,
        };
    lemma_told_load::<S, V, A>(cache, looked, id, then, loaded);
}

/// An asset that is not cached and is not hot-reloaded, or whose source is not
/// followed, just loads itself. If that works, it is cached unless its own
/// loading has put one there; nothing is told of it. If it fails, the failure
/// is the answer.
pub proof fn law_other_loads_are_not_told_of<S: Source, V: Value, A: Compound<S, V>>(
    cache: Identity<S>,
    before: LoadState<V>,
    id: Seq<char>,
    after: LoadState<V>,
    r: Result<Seq<char>, Error>,
)
    requires
        !(A::HOT_RELOADED && cache.source.hot_reloading()),
        !before.cache.assets.contains_key(AssetKey { id, type_id: A::TYPE_ID }),
        may_load_through::<S, V, A>(cache, before, id, after, r),
    ensures
        exists|during: LoadState<V>, loaded: Result<A, Error>| #[trigger]
            A::may_load(cache, before, id, during, loaded) && after.recording == during.recording
                && match loaded {
                Ok(asset) => r == Ok::<Seq<char>, Error>(id) && after.cache == (CacheState {
                    assets: if during.cache.assets.contains_key(
                        AssetKey { id, type_id: A::TYPE_ID },
                    ) {
                        during.cache.assets
                    } else {
                        during.cache.assets.insert(
                            AssetKey { id, type_id: A::TYPE_ID },
                            asset.stored(),
                        )
                    },
                    dirs: during.cache.dirs,
                    notices: during.cache.notices,
                }),
                Err(e) => r == Err::<Seq<char>, Error>(e) && after.cache == during.cache,
            },
{
    let key = AssetKey { id, type_id: A::TYPE_ID };
    let (then, loaded) = choose|then: LoadState<V>, loaded: Result<A, Error>| #[trigger]
        may_load_noticed::<S, V, A>(cache, before, id, then, loaded) && match loaded {
            Ok(asset) => r == Ok::<Seq<char>, Error>(id) && after == then.with_asset(
                key,
                asset.stored(),
            ),
            Err(e) => r == Err::<Seq<char>, Error>(e) && after == then,
        };
    lemma_untold_load::<S, V, A>(cache, before, id, then, loaded);
}

/// An asset that is not hot-reloaded, or whose source is not followed, just
/// loads itself, also where it would be told of.
proof fn lemma_untold_load<S: Source, V: Value, A: Compound<S, V>>(
    cache: Identity<S>,
    before: LoadState<V>,
    id: Seq<char>,
    after: LoadState<V>,
    r: Result<A, Error>,
)
    requires
        !(A::HOT_RELOADED && cache.source.hot_reloading()),
        may_load_noticed::<S, V, A>(cache, before, id, after, r),
    ensures
        A::may_load(cache, before, id, after, r),
{
    if A::HOT_RELOADED {
        let (then, got) = choose|then: LoadState<V>, got: Result<(A, Set<AssetKey>), Error>|
            #[trigger] may_record_load::<S, V, A>(cache, before, id, then, got) && match got {
                Ok((asset, deps)) => r == Ok::<A, Error>(asset) && after == then,
                Err(e) => r == Err::<A, Error>(e) && after == then,
            };
        law_unfollowed_loads_have_no_record::<S, V, A>(cache, before, id, then, got);
    }
}

/// A cached asset is handed out: nothing is loaded, nothing changes in the
/// cache, and it is recorded like any lookup.
pub proof fn law_cached_assets_are_handed_out<S: Source, V: Value, A: Compound<S, V>>(
    cache: Identity<S>,
    before: LoadState<V>,
    id: Seq<char>,
    after: LoadState<V>,
    r: Result<Seq<char>, Error>,
)
    requires
        before.cache.assets.contains_key(AssetKey { id, type_id: A::TYPE_ID }),
        may_load_through::<S, V, A>(cache, before, id, after, r),
    ensures
        r == Ok::<Seq<char>, Error>(id),
        after.cache == before.cache,
        before.recording is None ==> after.recording is None,
        before.recording matches Some((owner, keys)) ==> after.recording == Some(
            (
                owner,
                if A::HOT_RELOADED && cache.source.hot_reloading() && owner == cache.number {
                    keys.insert(AssetKey { id, type_id: A::TYPE_ID })
                } else {
                    keys
                },
            ),
        ),
{
}

/// A hot-reloaded asset that is loaded as owned while something is recorded
/// is, where the source is followed, loaded with an empty record of its cache
/// and told of with the keys that this record holds in the end. The asset is
/// what its own loading gave, and nothing is cached but by that loading.
pub proof fn law_owned_loads_are_told_with_what_they_are_made_from<
    S: Source,
    V: Value,
    A: Compound<S, V>,
>(
    cache: Identity<S>,
    before: LoadState<V>,
    id: Seq<char>,
    after: LoadState<V>,
    r: Result<A, Error>,
    owner: u64,
    keys: Set<AssetKey>,
)
    requires
        A::HOT_RELOADED,
        cache.source.hot_reloading(),
        before.recording == Some((owner, keys)),
        may_load_owned::<S, V, A>(cache, before, id, after, r),
    ensures
        after.recording == Some(
            (
                owner,
                if owner == cache.number {
                    keys.insert(AssetKey { id, type_id: A::TYPE_ID })
                } else {
                    keys
                },
            ),
        ),
        exists|during: LoadState<V>| #[trigger]
            A::may_load(
                cache,
                (LoadState { cache: before.cache, recording: Some((cache.number, Set::empty())) }),
                id,
                during,
                r,
            ) && during.recording is Some && during.recording.unwrap().0
                == cache.number
                && after.cache == (CacheState {
                assets: during.cache.assets,
                dirs: during.cache.dirs,
                notices: if r is Ok {
                    during.cache.notices.push(
                        NoticeState::AddAsset {
                            key: AssetKey { id, type_id: A::TYPE_ID },
                            deps: during.recording.unwrap().1,
                        },
                    )
                } else {
                    during.cache.notices
                },
            }),
{
    let looked = looked_up::<S, V, A>(cache, before, id);
    law_lookups_are_recorded::<S, V, A>(cache, before, id);
    lemma_told_load::<S, V, A>(cache, looked, id, after, r);
}

/// An asset that is loaded as owned and is not hot-reloaded, or whose source
/// is not followed, or while nothing is recorded, just loads itself.
pub proof fn law_other_owned_loads_are_not_told_of<S: Source, V: Value, A: Compound<S, V>>(
    cache: Identity<S>,
    before: LoadState<V>,
    id: Seq<char>,
    after: LoadState<V>,
    r: Result<A, Error>,
)
    requires
        !(A::HOT_RELOADED && cache.source.hot_reloading() && before.recording is Some),
        may_load_owned::<S, V, A>(cache, before, id, after, r),
    ensures
        A::may_load(cache, before, id, after, r),
{
    if A::HOT_RELOADED && before.recording is Some {
        lemma_untold_load::<S, V, A>(cache, before, id, after, r);
    }
}

/// The entries of a directory have one identifier each, in the order of their
/// names: the name itself in the root, and elsewhere the directory's
/// identifier, a dot and the name.
pub proof fn law_entries_are_named_after_their_directory(
    dir: Seq<char>,
    names: Seq<Seq<char>>,
    i: int,
    n: int,
)
    requires
        0 <= i < names.len(),
    ensures
        child_ids(dir, names).len() == names.len(),
        dir.len() == 0 ==> child_ids(dir, names)[i] == names[i],
        dir.len() > 0 ==> {
            &&& child_ids(dir, names)[i].len() == dir.len() + 1 + names[i].len()
            &&& 0 <= n < dir.len() ==> child_ids(dir, names)[i][n] == dir[n]
            &&& child_ids(dir, names)[i][dir.len() as int] == '.'
            &&& 0 <= n < names[i].len() ==> child_ids(dir, names)[i][dir.len() + 1 + n]
                == names[i][n]
        },
{
}

/// The same of the identifier of a single entry.
pub proof fn law_an_entry_is_named_after_its_directory(dir: Seq<char>, name: Seq<char>)
    ensures
        dir.len() == 0 ==> child_id(dir, name) == name,
        dir.len() > 0 ==> child_id(dir, name) == dir.push('.').add(name),
{
    assert(dir.len() > 0 ==> child_id(dir, name) =~= dir.push('.').add(name));
}

/// Entries with different names have different identifiers.
pub proof fn law_entries_are_told_apart(dir: Seq<char>, names: Seq<Seq<char>>, i: int, j: int)
    requires
        0 <= i < names.len(),
        0 <= j < names.len(),
    ensures
        child_ids(dir, names)[i] == child_ids(dir, names)[j] <==> names[i] == names[j],
{
    let a = child_ids(dir, names)[i];
    let b = child_ids(dir, names)[j];
    if a == b && dir.len() > 0 {
        assert(names[i] =~= a.skip(dir.len() as int + 1));
        assert(names[j] =~= b.skip(dir.len() as int + 1));
    }
}

/// Something that loading through a cache can have given where it leads from
/// `before` to `after`.
spec fn an_outcome<S: Source, V: Value, A: Compound<S, V>>(
    cache: Identity<S>,
    before: LoadState<V>,
    id: Seq<char>,
    after: LoadState<V>,
) -> Result<Seq<char>, Error> {
    choose|outcome: Result<Seq<char>, Error>|
        may_load_through::<S, V, A>(cache, before, id, after, outcome)
}

/// Reading a directory lists it once. If that works, the identifiers are those
/// of all the names that were listed, in their order, and each of them is
/// loaded in its turn, whatever came of the ones before. If it fails, the
/// failure is the answer and nothing is loaded.
pub proof fn law_all_entries_are_loaded_in_turn<S: Source, V: Value, A: Asset<V>>(
    cache: Identity<S>,
    before: LoadState<V>,
    id: Seq<char>,
    after: LoadState<V>,
    r: Result<Seq<Seq<char>>, IoError>,
)
    requires
        may_read_dir::<S, V, A>(cache, before, id, after, r),
    ensures
        match r {
            Ok(ids) => exists|
                names: Seq<Seq<char>>,
                states: Seq<LoadState<V>>,
                outcomes: Seq<Result<Seq<char>, Error>>,
            |
                {
                    &&& #[trigger] cache.source.may_read_dir(id, A::spec_extensions(), Ok(names))
                    &&& ids.len() == names.len()
                    &&& forall|i: int|
                        0 <= i < names.len() ==> #[trigger] ids[i] == (if id.len() == 0 {
                            names[i]
                        } else {
                            id.push('.').add(names[i])
                        })
                    &&& #[trigger] outcomes.len() == names.len()
                    &&& #[trigger] states.len() == names.len() + 1
                    &&& states[0] == before
                    &&& states[names.len() as int] == after
                    &&& forall|i: int|
                        0 <= i < names.len() ==> may_load_through::<S, V, A>(
                            cache,
                            states[i],
                            #[trigger] ids[i],
                            states[i + 1],
                            outcomes[i],
                        )
                },
            Err(e) => after == before && cache.source.may_read_dir(
                id,
                A::spec_extensions(),
                Err(e),
            ),
        },
{
    let listing = choose|listing: Result<Seq<Seq<char>>, IoError>| #[trigger]
        cache.source.may_read_dir(id, A::spec_extensions(), listing) && match listing {
            Ok(names) => r == Ok::<Seq<Seq<char>>, IoError>(child_ids(id, names)) && exists|
                states: Seq<LoadState<V>>,
            | #[trigger]
                may_load_each::<S, V, A>(cache, child_ids(id, names), states) && states.first()
                    == before && states.last() == after,
            Err(e) => r == Err::<Seq<Seq<char>>, IoError>(e) && after == before,
        };
    if let Ok(names) = listing {
        let ids = child_ids(id, names);
        let states = choose|states: Seq<LoadState<V>>| #[trigger]
            may_load_each::<S, V, A>(cache, ids, states) && states.first() == before
                && states.last() == after;
        assert forall|i: int| 0 <= i < names.len() implies #[trigger] ids[i] == (if id.len() == 0 {
            names[i]
        } else {
            id.push('.').add(names[i])
        }) by {
            law_an_entry_is_named_after_its_directory(id, names[i]);
        }
        let outcomes = Seq::new(
            names.len(),
            |i: int| an_outcome::<S, V, A>(cache, states[i], ids[i], states[i + 1]),
        );
        assert forall|i: int| 0 <= i < names.len() implies may_load_through::<S, V, A>(
            cache,
            states[i],
            #[trigger] ids[i],
            states[i + 1],
            outcomes[i],
        ) by {
            assert(may_leave::<S, V, A>(cache, states[i], ids[i], states[i + 1]));
        }
        assert(outcomes.len() == names.len());
        assert(states.len() == names.len() + 1);
    }
}

/// Reading a directory of single assets caches no directory.
proof fn lemma_reading_adds_no_directory<S: Source, V: Value, A: Asset<V>>(
    cache: Identity<S>,
    before: LoadState<V>,
    id: Seq<char>,
    after: LoadState<V>,
    r: Result<Seq<Seq<char>>, IoError>,
)
    requires
        may_read_dir::<S, V, A>(cache, before, id, after, r),
    ensures
        after.cache.dirs == before.cache.dirs,
{
    let listing = choose|listing: Result<Seq<Seq<char>>, IoError>| #[trigger]
        cache.source.may_read_dir(id, A::spec_extensions(), listing) && match listing {
            Ok(names) => r == Ok::<Seq<Seq<char>>, IoError>(child_ids(id, names)) && exists|
                states: Seq<LoadState<V>>,
            | #[trigger]
                may_load_each::<S, V, A>(cache, child_ids(id, names), states) && states.first()
                    == before && states.last() == after,
            Err(e) => r == Err::<Seq<Seq<char>>, IoError>(e) && after == before,
        };
    if let Ok(names) = listing {
        let states = choose|states: Seq<LoadState<V>>| #[trigger]
            may_load_each::<S, V, A>(cache, child_ids(id, names), states) && states.first()
                == before && states.last() == after;
        lemma_loading_each::<S, V, A>(cache, child_ids(id, names), states);
    }
}

/// A cached directory is handed out as it is, and nothing changes.
pub proof fn law_cached_directories_are_handed_out<S: Source, V: Value, A: Asset<V>>(
    cache: Identity<S>,
    before: LoadState<V>,
    id: Seq<char>,
    after: LoadState<V>,
    r: Result<Seq<Seq<char>>, IoError>,
)
    requires
        before.cache.dirs.contains_key(
            AssetKey { id, type_id: <A as Compound<S, V>>::TYPE_ID },
        ),
        may_load_dir::<S, V, A>(cache, before, id, after, r),
    ensures
        after == before,
        r == Ok::<Seq<Seq<char>>, IoError>(
            before.cache.dirs[AssetKey { id, type_id: <A as Compound<S, V>>::TYPE_ID }],
        ),
{
}

/// A directory that is not cached is told of first, where the source is
/// followed, and then read with nothing being recorded. What was read is
/// cached and given out; what was recorded before is back afterwards. The rest
/// of the cache is as reading the directory left it.
pub proof fn law_new_directories_are_read<S: Source, V: Value, A: Asset<V>>(
    cache: Identity<S>,
    before: LoadState<V>,
    id: Seq<char>,
    after: LoadState<V>,
    r: Result<Seq<Seq<char>>, IoError>,
)
    requires
        !before.cache.dirs.contains_key(
            AssetKey { id, type_id: <A as Compound<S, V>>::TYPE_ID },
        ),
        may_load_dir::<S, V, A>(cache, before, id, after, r),
    ensures
        after.recording == before.recording,
        after.cache.dirs == match r {
            Ok(ids) => before.cache.dirs.insert(
                AssetKey { id, type_id: <A as Compound<S, V>>::TYPE_ID },
                ids,
            ),
            Err(_) => before.cache.dirs,
        },
        exists|start: LoadState<V>, during: LoadState<V>| #[trigger]
            may_read_dir::<S, V, A>(cache, start, id, during, r) && start.cache.assets
                == before.cache.assets && start.cache.dirs == before.cache.dirs
                && start.cache.notices == (if cache.source.hot_reloading() {
                before.cache.notices.push(
                    NoticeState::AddDir {
                        key: AssetKey { id, type_id: <A as Compound<S, V>>::TYPE_ID },
                    },
                )
            } else {
                before.cache.notices
            }) && start.recording == (if cache.source.hot_reloading() {
                None
            } else {
                before.recording
            }) && after.cache.assets == during.cache.assets && after.cache.notices
                == during.cache.notices,
{
    let key = AssetKey { id, type_id: <A as Compound<S, V>>::TYPE_ID };
    law_loading_directories_only_adds::<S, V, A>(cache, before, id, after, r);
    let start = dir_start(cache, before, key);
    let (during, read) = choose|during: LoadState<V>, read: Result<Seq<Seq<char>>, IoError>|
        #[trigger] may_read_dir::<S, V, A>(cache, start, id, during, read) && ({
            let then = if cache.source.hot_reloading() {
                during.recording_to(before.recording)
            } else {
                during
            };
            match read {
                Ok(ids) => after == then.with_dir(key, ids) && r == Ok::<
                    Seq<Seq<char>>,
                    IoError,
                >(after.cache.dirs[key]),
                Err(e) => after == then && r == Err::<Seq<Seq<char>>, IoError>(e),
            }
        });
    lemma_reading_adds_no_directory::<S, V, A>(cache, start, id, during, read);
    assert(read == r);
}

} // verus!
