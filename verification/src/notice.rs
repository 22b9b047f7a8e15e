//! What a cache tells those who follow the changes of its source.
use vstd::prelude::*;

use crate::key::OwnedKey;
use crate::keymap::KeyMap;
use crate::state::NoticeState;

verus! {

/// A set of keys.
pub type KeySet = KeyMap<()>;

/// Something that the cache did and that matters to hot-reloading.
pub enum Notice {
    /// The asset `key` has been loaded; it was made from the assets `deps`.
    AddAsset { key: OwnedKey, deps: KeySet },
    /// The directory `key` is about to be loaded.
    AddDir { key: OwnedKey },
    /// Everything has been dropped.
    Clear,
}

impl Notice {
    /// The set of keys, if the notice has one, is well-formed.
    pub open spec fn wf(&self) -> bool {
        self matches Notice::AddAsset { deps, .. } ==> deps.wf()
    }
}

impl View for Notice {
    type V = NoticeState;

    open spec fn view(&self) -> NoticeState {
        match *self {
            Notice::AddAsset { key, deps } => NoticeState::AddAsset {
                key: key@,
                deps: deps@.dom(),
            },
            Notice::AddDir { key } => NoticeState::AddDir { key: key@ },
            Notice::Clear => NoticeState::Clear,
        }
    }
}

} // verus!
