//! Specifications speak of executable values through views. A view shows all
//! of a value, unchanged.
use vstd::prelude::*;

use crate::asset::{converted, Value};
use crate::cache::AssetCache;
use crate::compound::Compound;
use crate::dirs::{dir_ids, reader_ids, CachedDir, DirReader};
use crate::entry::{key_of, CacheEntry, Handle};
use crate::error::{Error, IoError};
use crate::key::{AssetKey, BorrowedKey, OwnedKey};
use crate::keymap::{distinct, listed};
use crate::loading::{handle_id, with_keys};
use crate::notice::{KeySet, Notice};
use crate::recorder::{recording, Record, Recorder};
use crate::reload::FileSystem;
use crate::source::{bytes_read, names, names_read, texts, Source};
use crate::state::{CacheState, LoadState, NoticeState, Recording};

verus! {

/// A list of strings is seen string by string, each with all its characters.
pub proof fn law_lists_show_every_string(borrowed: Seq<&str>, owned: Seq<String>, i: int)
    ensures
        texts(borrowed).len() == borrowed.len(),
        0 <= i < borrowed.len() ==> texts(borrowed)[i] == borrowed[i]@,
        names(owned).len() == owned.len(),
        0 <= i < owned.len() ==> names(owned)[i] == owned[i]@,
{
}

/// What a source gave is seen as it is: all the bytes, all the names, or the
/// failure.
pub proof fn law_answers_of_sources_are_seen(
    read: Result<Vec<u8>, IoError>,
    listing: Result<Vec<String>, IoError>,
    i: int,
)
    ensures
        match read {
            Ok(content) => bytes_read(read) == Ok::<Seq<u8>, IoError>(content@),
            Err(e) => bytes_read(read) == Err::<Seq<u8>, IoError>(e),
        },
        match listing {
            Ok(found) => names_read(listing) matches Ok(seen) && seen.len() == found@.len() && (0 <= i
                < seen.len() ==> seen[i] == found@[i]@),
            Err(e) => names_read(listing) == Err::<Seq<Seq<char>>, IoError>(e),
        },
{
}

/// What a loader made is the asset, and why it made none is told as it said.
pub proof fn law_answers_of_loaders_are_seen<A>(made: Result<A, String>)
    ensures
        match made {
            Ok(asset) => converted(made) == Ok::<A, Error>(asset),
            Err(m) => converted(made) == Err::<A, Error>(Error::Conversion(m)),
        },
{
}

/// What loading gave is seen as it is: the identifier of the handle, the asset
/// with all the keys that came with it, or the failure.
pub proof fn law_loaded_assets_are_seen<A>(
    handle: Result<Handle<A>, Error>,
    recorded: Result<(A, KeySet), Error>,
)
    ensures
        match handle {
            Ok(found) => handle_id(handle) == Ok::<Seq<char>, Error>(found@),
            Err(e) => handle_id(handle) == Err::<Seq<char>, Error>(e),
        },
        match recorded {
            Ok((asset, keys)) => with_keys(recorded) == Ok::<(A, Set<AssetKey>), Error>(
                (asset, keys@.dom()),
            ),
            Err(e) => with_keys(recorded) == Err::<(A, Set<AssetKey>), Error>(e),
        },
{
}

/// What loading a directory gave is seen as it is: every identifier, or the
/// failure.
pub proof fn law_loaded_directories_are_seen<A>(
    read: Result<DirReader<A>, IoError>,
    loaded: Result<CachedDir, IoError>,
    i: int,
)
    ensures
        match read {
            Ok(reader) => reader_ids(read) == Ok::<Seq<Seq<char>>, IoError>(reader@),
            Err(e) => reader_ids(read) == Err::<Seq<Seq<char>>, IoError>(e),
        },
        match loaded {
            Ok(dir) => dir_ids(loaded) matches Ok(ids) && ids == dir@ && ids.len() == dir.ids@.len()
                && (0 <= i < ids.len() ==> ids[i] == dir.ids@[i]@),
            Err(e) => dir_ids(loaded) == Err::<Seq<Seq<char>>, IoError>(e),
        },
{
}

/// A key is seen with all of its identifier and with its type. The key of an
/// asset has the asset's identifier and the number of its type.
pub proof fn law_keys_are_seen<S: Source, V: Value, A: Compound<S, V>>(
    owned: OwnedKey,
    borrowed: BorrowedKey<'_>,
    id: Seq<char>,
)
    ensures
        owned@ == (AssetKey { id: owned.id@, type_id: owned.type_id }),
        borrowed@ == (AssetKey { id: borrowed.id@, type_id: borrowed.type_id }),
        key_of::<S, V, A>(id) == (AssetKey { id, type_id: A::TYPE_ID }),
{
}

/// A list of keys lists those that stand in it, and no other; it is distinct
/// if no two places hold the same.
pub proof fn law_lists_of_keys_are_seen(keys: Seq<&OwnedKey>, key: AssetKey)
    ensures
        listed(keys, key) ==> exists|i: int| 0 <= i < keys.len() && (#[trigger] keys[i])@ == key,
        forall|i: int| 0 <= i < keys.len() ==> listed(keys, (#[trigger] keys[i])@),
        distinct(keys) ==> forall|i: int, j: int|
            0 <= i < j < keys.len() ==> (#[trigger] keys[i])@ != (#[trigger] keys[j])@,
{
}

/// An entry fits the keys with its identifier and the type of its value only.
pub proof fn law_entries_fit_one_key<V: Value>(entry: CacheEntry<V>, key: AssetKey)
    ensures
        entry.fits(key) <==> key == (AssetKey { id: entry.id@, type_id: entry.value.kind() }),
{
}

/// A notice is seen with its key and all its dependencies.
pub proof fn law_notices_are_seen(notice: Notice)
    ensures
        match notice {
            Notice::AddAsset { key, deps } => notice@ == (NoticeState::AddAsset {
                key: key@,
                deps: deps@.dom(),
            }),
            Notice::AddDir { key } => notice@ == (NoticeState::AddDir { key: key@ }),
            Notice::Clear => notice@ == NoticeState::Clear,
        },
{
}

/// A record is seen with the number of its cache and all its keys.
pub proof fn law_records_are_seen(record: Record)
    ensures
        recording(Some(record)) == Some((record.cache, record.records@.dom())),
        recording(None) is None,
{
}

/// A cache and a recorder are seen together as each is seen alone. Where the
/// source is followed, what `no_record` calls sees nothing recorded, of
/// whichever cache; elsewhere it sees what is.
pub proof fn law_caches_and_recorders_are_seen<S: Source, V: Value>(
    cache: AssetCache<S, V>,
    rec: Recorder,
)
    ensures
        cache.at(rec).cache == cache@,
        cache.at(rec).recording == rec@,
        cache.identity().source == cache.spec_source(),
        cache.identity().number == cache.number(),
        cache.unrecorded(rec).cache == cache@,
        cache.spec_source().hot_reloading() ==> cache.unrecorded(rec).recording is None,
        !cache.spec_source().hot_reloading() ==> cache.unrecorded(rec).recording == rec@,
{
}

/// A file system reads what its files give, follows changes exactly if it has
/// a reloader, and is seen with both; so is the cache that reads from it.
pub proof fn law_file_systems_are_seen<F: Source, V: Value>(
    system: FileSystem<F, V>,
    cache: AssetCache<FileSystem<F, V>, V>,
    id: Seq<char>,
    ext: Seq<char>,
    exts: Seq<Seq<char>>,
    read: Result<Seq<u8>, IoError>,
    listing: Result<Seq<Seq<char>>, IoError>,
)
    ensures
        system.may_read(id, ext, read) == system.files.may_read(id, ext, read),
        system.may_read_dir(id, exts, listing) == system.files.may_read_dir(id, exts, listing),
        system.hot_reloading() == (system.reloader is Some),
        system@.files == system.files,
        match system.reloader {
            Some(reloader) => system@.reloader == Some(reloader@),
            None => system@.reloader is None,
        },
        cache.reloading().source == cache.spec_source()@,
        cache.reloading().assets == cache@.assets,
{
}

/// What the changes of a cache's contents come to: each changes one thing and
/// leaves the rest as it is.
pub proof fn law_changes_change_one_thing<V>(
    state: CacheState<V>,
    key: AssetKey,
    value: V,
    ids: Seq<Seq<char>>,
    notice: NoticeState,
)
    ensures
        CacheState::<V>::empty() == (CacheState::<V> {
            assets: Map::empty(),
            dirs: Map::empty(),
            notices: Seq::empty(),
        }),
        state.noticed(notice) == (CacheState {
            assets: state.assets,
            dirs: state.dirs,
            notices: state.notices.push(notice),
        }),
        state.assets.contains_key(key) ==> state.with_asset(key, value) == state,
        !state.assets.contains_key(key) ==> state.with_asset(key, value) == (CacheState {
            assets: state.assets.insert(key, value),
            dirs: state.dirs,
            notices: state.notices,
        }),
        state.without_asset(key) == (CacheState {
            assets: state.assets.remove(key),
            dirs: state.dirs,
            notices: state.notices,
        }),
        state.emptied() == (CacheState::<V> {
            assets: Map::empty(),
            dirs: Map::empty(),
            notices: state.notices,
        }),
        state.dirs.contains_key(key) ==> state.with_dir(key, ids) == state,
        !state.dirs.contains_key(key) ==> state.with_dir(key, ids) == (CacheState {
            assets: state.assets,
            dirs: state.dirs.insert(key, ids),
            notices: state.notices,
        }),
{
}

/// With a recorder beside it, a cache's contents change as they do alone, and
/// the recording changes only where it is said to.
pub proof fn law_recordings_change_alone<V>(
    state: LoadState<V>,
    key: AssetKey,
    value: V,
    ids: Seq<Seq<char>>,
    notice: NoticeState,
    other: Recording,
    number: u64,
)
    ensures
        state.recording_to(other) == (LoadState { cache: state.cache, recording: other }),
        state.recorded(number, key).cache == state.cache,
        state.recording is None ==> state.recorded(number, key).recording is None,
        state.recording matches Some((owner, keys)) ==> state.recorded(number, key).recording
            == Some(
            (
                owner,
                if owner == number {
                    keys.insert(key)
                } else {
                    keys
                },
            ),
        ),
        state.noticed(notice) == (LoadState {
            cache: state.cache.noticed(notice),
            recording: state.recording,
        }),
        state.with_asset(key, value) == (LoadState {
            cache: state.cache.with_asset(key, value),
            recording: state.recording,
        }),
        state.with_dir(key, ids) == (LoadState {
            cache: state.cache.with_dir(key, ids),
            recording: state.recording,
        }),
{
}

} // verus!
