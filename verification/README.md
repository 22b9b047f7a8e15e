# assets_manager

A cache of assets, verified with Verus. Each asset is loaded from its source
once, kept under its identifier and its type, and handed out from there.

- `src/` is the library. `cache.rs` holds `AssetCache`; `map.rs` and
  `keymap.rs` the maps under it; `asset.rs`, `compound.rs` and `dirs.rs` how
  single assets, assets made from others and directories are loaded;
  `reload.rs` how changed assets get back into a cache; `recorder.rs` how the
  assets that another one is made from are recorded. A thread has one recorder,
  which it hands to every cache that it uses.
- `src/state.rs` and `src/loading.rs` say what a cache holds and what loading
  through it can come to; the contracts speak in their terms. `src/laws.rs`
  proves what follows for the cache as a whole.
- `tests/` runs the library on sources in memory.
- `app/` reads assets from a directory on disk.

The types of assets of a program share one type, `V`, which has room for all
of them: an enumeration with a variant for each, say. What a source, a loader
or an asset of the program's own can answer is described by its `may_..`
functions.
