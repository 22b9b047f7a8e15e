//! Assets that are made from other assets.
use vstd::prelude::*;

use crate::asset::{load_from_source, may_load_from_source, Asset, Value};
use crate::cache::AssetCache;
use crate::error::Error;
use crate::recorder::Recorder;
use crate::source::Source;
use crate::state::{Identity, LoadState};

verus! {

/// An asset that loads itself through a cache, and so can be made from other
/// assets of that cache. Every [`Asset`] is one, made from no other.
pub trait Compound<S: Source, V: Value>: Sized {
    /// The number of the type. Different types have different numbers.
    const TYPE_ID: u64;

    /// Whether a change of what it was made from makes the asset load anew.
    const HOT_RELOADED: bool = true;

    /// The value that stands for the asset in a cache.
    open spec fn stored(self) -> V {
        arbitrary()
    }

    /// Whether loading the asset `id` through `cache`, which holds `before`
    /// together with the recorder, can give `r` and leave `after`.
    open spec fn may_load(
        cache: Identity<S>,
        before: LoadState<V>,
        id: Seq<char>,
        after: LoadState<V>,
        r: Result<Self, Error>,
    ) -> bool {
        true
    }

    /// Turns the asset into the value that stands for it.
    fn into_value(self) -> (r: V)
        ensures
            r == self.stored(),
            r.kind() == Self::TYPE_ID,
    ;

    /// Turns such a value back into the asset that it stands for.
    fn from_value(value: V) -> (r: Self)
        requires
            value.kind() == Self::TYPE_ID,
        ensures
            r.stored() == value,
            forall|asset: Self| #[trigger] asset.stored() == value ==> asset == r,
    ;

    /// Looks at the asset that such a value stands for.
    fn peek(value: &V) -> (r: &Self)
        requires
            value.kind() == Self::TYPE_ID,
        ensures
            r.stored() == *value,
            forall|asset: Self| #[trigger] asset.stored() == *value ==> asset == *r,
    ;

    /// Loads the asset `id`. It may load other assets through `cache`, and
    /// takes nothing out of it. `rec` goes on to whatever it loads, through
    /// this cache or another.
    fn load(cache: &mut AssetCache<S, V>, rec: &mut Recorder, id: &str) -> (r: Result<Self, Error>)
        requires
            old(cache).wf(),
            old(rec).wf(),
        ensures
            final(cache).wf(),
            final(rec).wf(),
            final(cache).identity() == old(cache).identity(),
            final(cache).at(*final(rec)).extends(old(cache).at(*old(rec))),
            Self::may_load(
                old(cache).identity(),
                old(cache).at(*old(rec)),
                id@,
                final(cache).at(*final(rec)),
                r,
            ),
    ;
}

impl<S: Source, V: Value, A: Asset<V>> Compound<S, V> for A {
    const TYPE_ID: u64 = <A as Asset<V>>::TYPE_ID;

    const HOT_RELOADED: bool = <A as Asset<V>>::HOT_RELOADED;

    open spec fn stored(self) -> V {
        <A as Asset<V>>::stored(self)
    }

    open spec fn may_load(
        cache: Identity<S>,
        before: LoadState<V>,
        id: Seq<char>,
        after: LoadState<V>,
        r: Result<Self, Error>,
    ) -> bool {
        after == before && may_load_from_source::<S, V, A>(cache.source, id, r)
    }

    fn into_value(self) -> (r: V) {
        <A as Asset<V>>::into_value(self)
    }

    fn from_value(value: V) -> (r: Self) {
        <A as Asset<V>>::from_value(value)
    }

    fn peek(value: &V) -> (r: &Self) {
        <A as Asset<V>>::peek(value)
    }

    fn load(cache: &mut AssetCache<S, V>, rec: &mut Recorder, id: &str) -> (r: Result<
        Self,
        Error,
    >) {
        proof {
            cache.at(*rec).lemma_extends_itself();
        }
        load_from_source::<S, V, A>(cache.source(), id)
    }
}

/// As a compound, an asset has the number and the reloading that it has as an
/// asset.
pub proof fn law_assets_are_compounds<S: Source, V: Value, A: Asset<V>>()
    ensures
        <A as Compound<S, V>>::TYPE_ID == <A as Asset<V>>::TYPE_ID,
        <A as Compound<S, V>>::HOT_RELOADED == <A as Asset<V>>::HOT_RELOADED,
{
}

/// As a compound, an asset is stored as the same value, and its loading comes
/// to what its source gives and leaves the cache and the recorder as they are.
pub proof fn law_assets_load_from_their_source<S: Source, V: Value, A: Asset<V>>(
    asset: A,
    cache: Identity<S>,
    before: LoadState<V>,
    id: Seq<char>,
    after: LoadState<V>,
    r: Result<A, Error>,
)
    ensures
        <A as Compound<S, V>>::stored(asset) == <A as Asset<V>>::stored(asset),
        <A as Compound<S, V>>::may_load(cache, before, id, after, r) ==> after == before
            && may_load_from_source::<S, V, A>(cache.source, id, r),
{
}

} // verus!
