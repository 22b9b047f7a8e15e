//! A cache of assets: each asset is loaded from its source once, kept under
//! its identifier and its type, and handed out from there.
pub mod asset;
pub mod cache;
pub mod compound;
pub mod dirs;
pub mod entry;
pub mod error;
pub mod key;
pub mod keymap;
pub mod laws;
pub mod loading;
pub mod map;
pub mod notice;
pub mod outcomes;
pub mod path;
pub mod recorder;
pub mod reload;
pub mod source;
pub mod state;
pub mod text;
pub mod views;

pub use crate::asset::{Asset, Loader, Value};
pub use crate::cache::AssetCache;
pub use crate::compound::Compound;
pub use crate::dirs::DirReader;
pub use crate::entry::Handle;
pub use crate::error::{Error, IoError};
pub use crate::recorder::Recorder;
pub use crate::reload::{FileSystem, HotReloader, Update};
pub use crate::source::Source;
