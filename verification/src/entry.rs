//! The entries of a cache, and the handles that lead to them.
use core::marker::PhantomData;
use vstd::prelude::*;

use crate::asset::Value;
use crate::compound::Compound;
use crate::key::{AssetKey, BorrowedKey};
use crate::source::Source;

verus! {

/// A cached asset.
pub struct CacheEntry<V> {
    /// The identifier that the asset is kept under.
    pub id: String,
    /// The value that stands for the asset.
    pub value: V,
}

impl<V: Value> CacheEntry<V> {
    /// Whether the entry can stand under `key`: its identifier is the key's,
    /// and its value holds an asset of the key's type.
    pub open spec fn fits(self, key: AssetKey) -> bool {
        self.id@ == key.id && self.value.kind() == key.type_id
    }

    /// An entry for an asset.
    pub fn new<S: Source, A: Compound<S, V>>(asset: A, id: String) -> (r: Self)
        ensures
            r.id == id,
            r.value == asset.stored(),
            r.fits(key_of::<S, V, A>(id@)),
    {
        CacheEntry { id, value: asset.into_value() }
    }

    /// Gives up the entry for its asset.
    pub fn into_inner<S: Source, A: Compound<S, V>>(self) -> (r: A)
        requires
            self.value.kind() == A::TYPE_ID,
        ensures
            r.stored() == self.value,
            forall|asset: A| #[trigger] asset.stored() == self.value ==> asset == r,
    {
        A::from_value(self.value)
    }
}

/// The key of the asset `id` of the type `A`.
pub open spec fn key_of<S: Source, V: Value, A: Compound<S, V>>(id: Seq<char>) -> AssetKey {
    AssetKey { id, type_id: A::TYPE_ID }
}

/// Makes the key of the asset `id` of the type `A`.
pub fn borrowed_key<'a, S: Source, V: Value, A: Compound<S, V>>(id: &'a str) -> (r: BorrowedKey<'a>)
    ensures
        r@ == key_of::<S, V, A>(id@),
{
    BorrowedKey { id, type_id: A::TYPE_ID }
}

/// Leads to a cached asset. A handle stays good while its asset is in the
/// cache, and leads to the new value after the asset was reloaded.
pub struct Handle<A> {
    id: String,
    asset: PhantomData<A>,
}

impl<A> View for Handle<A> {
    type V = Seq<char>;

    closed spec fn view(&self) -> Seq<char> {
        self.id@
    }
}

impl<A> Handle<A> {
    /// A handle to the asset `id`.
    pub(crate) fn new(id: String) -> (r: Self)
        ensures
            r@ == id@,
    {
        Handle { id, asset: PhantomData }
    }

    /// The identifier of the asset.
    pub fn id(&self) -> (r: &str)
        ensures
            r@ == self@,
    {
        self.id.as_str()
    }
}

} // verus!
