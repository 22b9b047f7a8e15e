//! The keys under which a cache keeps its entries.
use vstd::bytes::*;
use vstd::prelude::*;
use vstd::std_specs::hash::DefaultHasherAdditionalSpecFns;
use vstd::string::*;
use vstd::utf8::*;

use crate::text::str_eq;
use std::collections::hash_map::DefaultHasher;
use std::hash::Hasher;

verus! {

/// What names an entry: an identifier, and the number of the type that is
/// stored there. Entries of different types may share an identifier.
pub struct AssetKey {
    pub id: Seq<char>,
    pub type_id: u64,
}

/// The hash of a key.
pub open spec fn hash_of(key: AssetKey) -> u64 {
    DefaultHasher::spec_finish(seq![encode_utf8(key.id), spec_u64_to_le_bytes(key.type_id)])
}

/// A key that owns its identifier.
pub struct OwnedKey {
    pub id: String,
    pub type_id: u64,
}

/// A key that borrows its identifier.
#[derive(Clone, Copy)]
pub struct BorrowedKey<'a> {
    pub id: &'a str,
    pub type_id: u64,
}

impl View for OwnedKey {
    type V = AssetKey;

    open spec fn view(&self) -> AssetKey {
        AssetKey { id: self.id@, type_id: self.type_id }
    }
}

impl<'a> View for BorrowedKey<'a> {
    type V = AssetKey;

    open spec fn view(&self) -> AssetKey {
        AssetKey { id: self.id@, type_id: self.type_id }
    }
}

impl OwnedKey {
    /// Borrows the key.
    pub fn borrow(&self) -> (r: BorrowedKey<'_>)
        ensures
            r@ == self@,
    {
        BorrowedKey { id: self.id.as_str(), type_id: self.type_id }
    }
}

impl<'a> BorrowedKey<'a> {
    /// Copies the identifier into a key that owns it.
    pub fn to_owned_key(&self) -> (r: OwnedKey)
        ensures
            r@ == self@,
    {
        OwnedKey { id: self.id.to_owned(), type_id: self.type_id }
    }

    /// Whether an owned key is the same key.
    pub fn same(&self, other: &OwnedKey) -> (r: bool)
        ensures
            r == (self@ == other@),
    {
        self.type_id == other.type_id && str_eq(self.id, other.id.as_str())
    }

    /// Hashes the key.
    pub fn hash(&self) -> (r: u64)
        ensures
            r == hash_of(self@),
    {
        let mut hasher = DefaultHasher::new();
        hasher.write(self.id.as_bytes());
        let number = u64_to_le_bytes(self.type_id);
        hasher.write(number.as_slice());
        assert(hasher@ =~= seq![encode_utf8(self.id@), spec_u64_to_le_bytes(self.type_id)]);
        hasher.finish()
    }
}

} // verus!
