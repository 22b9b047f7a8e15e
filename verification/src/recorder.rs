//! Recording which assets are looked up while another one is loaded.
use vstd::prelude::*;

use crate::key::{AssetKey, BorrowedKey};
use crate::notice::KeySet;
use crate::state::Recording;

verus! {

/// The keys that were looked up in one cache.
pub struct Record {
    /// The number of the cache.
    pub cache: u64,
    /// The keys.
    pub records: KeySet,
}

impl View for Record {
    type V = (u64, Set<AssetKey>);

    open spec fn view(&self) -> (u64, Set<AssetKey>) {
        (self.cache, self.records@.dom())
    }
}

/// What a record, if there is one, holds.
pub open spec fn recording(record: Option<Record>) -> Recording {
    match record {
        Some(record) => Some(record@),
        None => None,
    }
}

/// Whether a record, if there is one, is well-formed.
pub open spec fn record_wf(record: Option<Record>) -> bool {
    record matches Some(record) ==> record.records.wf()
}

/// The place where lookups are recorded. All caches that a thread uses share
/// one, which holds at most one record, and a record is of one cache only.
pub struct Recorder {
    active: Option<Record>,
}

impl View for Recorder {
    type V = Recording;

    closed spec fn view(&self) -> Recording {
        recording(self.active)
    }
}

impl Recorder {
    /// The record, if there is one, is well-formed.
    pub closed spec fn wf(&self) -> bool {
        record_wf(self.active)
    }

    /// A recorder without a record.
    pub fn new() -> (r: Self)
        ensures
            r.wf(),
            r@ is None,
    {
        Recorder { active: None }
    }

    /// Whether there is a record, of whichever cache.
    pub fn is_active(&self) -> (r: bool)
        ensures
            r == (self@ is Some),
    {
        self.active.is_some()
    }

    /// Puts another record, or none, in place of the present one.
    pub(crate) fn replace(&mut self, record: Option<Record>) -> (r: Option<Record>)
        requires
            old(self).wf(),
            record_wf(record),
        ensures
            final(self).wf(),
            final(self)@ == recording(record),
            record_wf(r),
            recording(r) == old(self)@,
    {
        let r = self.active.take();
        self.active = record;
        r
    }

    /// Adds a key to the record, if there is one and it is of the cache with
    /// the number `cache`.
    pub(crate) fn add(&mut self, cache: u64, key: BorrowedKey<'_>)
        requires
            old(self).wf(),
        ensures
            final(self).wf(),
            final(self)@ == match old(self)@ {
                Some((owner, keys)) => if owner == cache {
                    Some((owner, keys.insert(key@)))
                } else {
                    old(self)@
                },
                None => None,
            },
    {
        if let Some(mut record) = self.active.take() {
            if record.cache == cache {
                let ghost before = record.records@;
                if !record.records.contains_key(key) {
                    record.records.add(key.to_owned_key(), ());
                }
                assert(record.records@.dom() =~= before.dom().insert(key@));
            }
            self.active = Some(record);
        }
    }
}

} // verus!
