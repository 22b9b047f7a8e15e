//! Hot-reloading: changed assets find their way back into a cache.
use vstd::prelude::*;

use crate::asset::Value;
use crate::compound::Compound;
use crate::entry::{borrowed_key, key_of};
use crate::error::{Error, IoError};
use crate::key::{AssetKey, OwnedKey};
use crate::source::Source;

verus! {

/// What came of loading a changed asset anew.
pub struct Update<V: Value> {
    key: OwnedKey,
    loaded: Result<V, Error>,
}

impl<V: Value> Update<V> {
    /// The new value has the type of its key.
    #[verifier::type_invariant]
    spec fn inv(self) -> bool {
        self.loaded matches Ok(value) ==> value.kind() == self.key@.type_id
    }

    /// The key of the asset.
    pub closed spec fn key(self) -> AssetKey {
        self.key@
    }

    /// The new value, or why there is none.
    pub closed spec fn loaded(self) -> Result<V, Error> {
        self.loaded
    }

    /// What came of loading the asset `id` of the type `A` anew.
    pub fn new<S: Source, A: Compound<S, V>>(id: &str, loaded: Result<A, Error>) -> (r: Self)
        ensures
            r.key() == key_of::<S, V, A>(id@),
            match loaded {
                Ok(asset) => r.loaded() == Ok::<V, Error>(asset.stored()),
                Err(e) => r.loaded() == Err::<V, Error>(e),
            },
    {
        let key = borrowed_key::<S, V, A>(id).to_owned_key();
        match loaded {
            Ok(asset) => Update { key, loaded: Ok(asset.into_value()) },
            Err(e) => Update { key, loaded: Err(e) },
        }
    }

    /// Takes the update apart.
    pub fn into_parts(self) -> (r: (OwnedKey, Result<V, Error>))
        ensures
            r.0@ == self.key(),
            r.1 == self.loaded(),
            r.1 matches Ok(value) ==> value.kind() == r.0@.type_id,
    {
        proof {
            use_type_invariant(&self);
        }
        (self.key, self.loaded)
    }
}

/// What an update makes of the assets of a cache: a new value takes the place
/// of the old one, a failure changes nothing.
pub open spec fn updated<V: Value>(assets: Map<AssetKey, V>, update: Update<V>) -> Map<
    AssetKey,
    V,
> {
    match update.loaded() {
        Ok(value) => assets.insert(update.key(), value),
        Err(_) => assets,
    }
}

/// What some updates, the first one first, make of the assets of a cache.
pub open spec fn updated_by<V: Value>(assets: Map<AssetKey, V>, updates: Seq<Update<V>>) -> Map<
    AssetKey,
    V,
>
    decreases updates.len(),
{
    if updates.len() == 0 {
        assets
    } else {
        updated(updated_by(assets, updates.drop_last()), updates.last())
    }
}

/// Collects the updates of a cache until they are asked for or, once the
/// cache stays for good, lets them through at once.
pub struct HotReloader<V: Value> {
    pending: Vec<Update<V>>,
    shared: bool,
}

/// What a reloader holds.
#[verifier::ext_equal]
#[verifier::reject_recursive_types(V)]
pub struct ReloaderState<V: Value> {
    /// The updates that wait, the oldest first.
    pub pending: Seq<Update<V>>,
    /// Whether updates are let through at once.
    pub shared: bool,
}

impl<V: Value> View for HotReloader<V> {
    type V = ReloaderState<V>;

    closed spec fn view(&self) -> ReloaderState<V> {
        ReloaderState { pending: self.pending@, shared: self.shared }
    }
}

impl<V: Value> HotReloader<V> {
    /// A reloader that waits to be asked.
    pub fn new() -> (r: Self)
        ensures
            r@ == (ReloaderState::<V> { pending: Seq::empty(), shared: false }),
    {
        HotReloader { pending: Vec::new(), shared: false }
    }

    /// Whether updates are let through at once.
    pub fn is_shared(&self) -> (r: bool)
        ensures
            r == self@.shared,
    {
        self.shared
    }

    /// Lets updates through at once from now on.
    pub fn share(&mut self)
        ensures
            final(self)@ == (ReloaderState { shared: true, ..old(self)@ }),
    {
        self.shared = true;
    }

    /// Takes another update in.
    pub fn push(&mut self, update: Update<V>)
        ensures
            final(self)@ == (ReloaderState { pending: old(self)@.pending.push(update), ..old(self)@ }),
    {
        self.pending.push(update);
    }

    /// Gives the waiting updates out, the oldest first.
    pub fn drain(&mut self) -> (r: Vec<Update<V>>)
        ensures
            r@ == old(self)@.pending,
            final(self)@ == (ReloaderState { pending: Seq::empty(), ..old(self)@ }),
    {
        let mut r: Vec<Update<V>> = Vec::new();
        r.append(&mut self.pending);
        assert(r@ =~= old(self)@.pending);
        r
    }
}

/// A directory of files, with a reloader if its changes are followed.
pub struct FileSystem<F, V: Value> {
    /// What reads the files.
    pub files: F,
    /// What collects the updates of changed files.
    pub reloader: Option<HotReloader<V>>,
}

/// What a directory of files holds.
#[verifier::reject_recursive_types(V)]
pub struct FileSystemState<F, V: Value> {
    pub files: F,
    pub reloader: Option<ReloaderState<V>>,
}

impl<F, V: Value> View for FileSystem<F, V> {
    type V = FileSystemState<F, V>;

    open spec fn view(&self) -> FileSystemState<F, V> {
        FileSystemState {
            files: self.files,
            reloader: match self.reloader {
                Some(reloader) => Some(reloader@),
                None => None,
            },
        }
    }
}

impl<F: Source, V: Value> Source for FileSystem<F, V> {
    open spec fn may_read(
        &self,
        id: Seq<char>,
        ext: Seq<char>,
        r: Result<Seq<u8>, IoError>,
    ) -> bool {
        self.files.may_read(id, ext, r)
    }

    open spec fn may_read_dir(
        &self,
        id: Seq<char>,
        exts: Seq<Seq<char>>,
        r: Result<Seq<Seq<char>>, IoError>,
    ) -> bool {
        self.files.may_read_dir(id, exts, r)
    }

    open spec fn hot_reloading(&self) -> bool {
        self.reloader is Some
    }

    fn read(&self, id: &str, ext: &str) -> (r: Result<Vec<u8>, IoError>) {
        self.files.read(id, ext)
    }

    fn read_dir(&self, id: &str, exts: &[&str]) -> (r: Result<Vec<String>, IoError>) {
        self.files.read_dir(id, exts)
    }

    fn support_hot_reloading(&self) -> (r: bool) {
        self.reloader.is_some()
    }
}

/// A file system and the assets of the cache that reads from it.
#[verifier::reject_recursive_types(V)]
pub struct Reloading<F, V: Value> {
    pub source: FileSystemState<F, V>,
    pub assets: Map<AssetKey, V>,
}

impl<F, V: Value> Reloading<F, V> {
    /// With another reloader.
    pub open spec fn reloader_to(self, reloader: ReloaderState<V>) -> Self {
        Reloading {
            source: FileSystemState { reloader: Some(reloader), ..self.source },
            assets: self.assets,
        }
    }

    /// With other assets.
    pub open spec fn assets_to(self, assets: Map<AssetKey, V>) -> Self {
        Reloading { assets, ..self }
    }

    /// With the waiting updates made.
    pub open spec fn flushed(self) -> Self {
        match self.source.reloader {
            Some(reloader) => self.reloader_to(
                ReloaderState { pending: Seq::empty(), ..reloader },
            ).assets_to(updated_by(self.assets, reloader.pending)),
            None => self,
        }
    }

    /// What asking for the updates comes to. It is nothing without a
    /// reloader, or with one that lets updates through at once.
    pub open spec fn reloaded(self) -> Self {
        match self.source.reloader {
            Some(reloader) => if reloader.shared {
                self
            } else {
                self.flushed()
            },
            None => self,
        }
    }

    /// What asking for the updates and for all later ones comes to.
    pub open spec fn enhanced(self) -> Self {
        match self.source.reloader {
            Some(reloader) => if reloader.shared {
                self
            } else {
                self.flushed().reloader_to(
                    ReloaderState { pending: Seq::empty(), shared: true },
                )
            },
            None => self,
        }
    }

    /// What the arrival of an update comes to.
    pub open spec fn delivered(self, update: Update<V>) -> Self {
        match self.source.reloader {
            Some(reloader) => if reloader.shared {
                self.assets_to(updated(self.assets, update))
            } else {
                self.reloader_to(
                    ReloaderState { pending: reloader.pending.push(update), ..reloader },
                )
            },
            None => self,
        }
    }
}

} // verus!
