use assets_manager::asset::Value;
use assets_manager::entry::CacheEntry;
use assets_manager::error::{Error, IoError};
use assets_manager::key::{BorrowedKey, OwnedKey};
use assets_manager::keymap::KeyMap;
use assets_manager::map::AssetMap;
use assets_manager::path::{asset_id, asset_path};
use assets_manager::text::{join_id, str_eq};

struct Num(i32);

impl Value for Num {}

fn key(id: &str, type_id: u64) -> OwnedKey {
    OwnedKey { id: id.to_string(), type_id }
}

fn io(not_found: bool, message: &str) -> Error {
    Error::Io(IoError { not_found, message: message.to_string() })
}

fn show(e: &Error) -> String {
    match e {
        Error::Io(e) => format!("io {} {}", e.not_found, e.message),
        Error::Conversion(m) => format!("conversion {}", m),
        Error::NoDefaultValue => "none".to_string(),
    }
}

#[test]
fn strings_compare_by_their_characters() {
    assert!(str_eq("", ""));
    assert!(str_eq("caf\u{e9}", "caf\u{e9}"));
    assert!(!str_eq("cafe", "caf\u{e9}"));
    assert!(!str_eq("ab", "abc"));
    assert!(!str_eq("abc", "abd"));
}

#[test]
fn children_of_the_root_have_no_dot_in_front() {
    assert_eq!(join_id("", "a"), "a");
    assert_eq!(join_id("common", "a"), "common.a");
    assert_eq!(join_id("a.b", "c"), "a.b.c");
}

#[test]
fn paths_have_slashes_for_dots() {
    assert_eq!(asset_path("common.position", "ron"), "common/position.ron");
    assert_eq!(asset_path("top", "tar.gz"), "top.tar.gz");
    assert_eq!(asset_path("a.b.c", ""), "a/b/c");
    assert_eq!(asset_path("", ""), "");
    assert_eq!(asset_path("d\u{e9}.x", "y"), "d\u{e9}/x.y");
}

#[test]
fn identifiers_have_dots_for_slashes() {
    assert_eq!(asset_id("common/position"), "common.position");
    assert_eq!(asset_id("d\u{e9}/x"), "d\u{e9}.x");
    assert_eq!(asset_id("top"), "top");
    assert_eq!(asset_id(""), "");
}

#[test]
fn keys_compare_by_identifier_and_type() {
    let k = key("a", 1);
    assert!(k.borrow().same(&key("a", 1)));
    assert!(!k.borrow().same(&key("a", 2)));
    assert!(!k.borrow().same(&key("b", 1)));
    assert_eq!(k.borrow().hash(), key("a", 1).borrow().hash());
    let b = BorrowedKey { id: "z", type_id: 9 };
    assert!(b.same(&b.to_owned_key()));
}

#[test]
fn key_maps_give_back_what_was_added() {
    let mut map: KeyMap<usize> = KeyMap::new();
    for i in 0..200 {
        map.add(key(&format!("id{}", i / 2), (i % 2) as u64), i);
    }
    for i in 0..200 {
        let k = key(&format!("id{}", i / 2), (i % 2) as u64);
        assert_eq!(map.get(k.borrow()), Some(&i));
        assert!(map.contains_key(k.borrow()));
    }
    assert_eq!(map.keys().len(), 200);
    assert_eq!(map.remove(key("id7", 1).borrow()), Some(15));
    assert_eq!(map.remove(key("id7", 1).borrow()), None);
    assert_eq!(map.get(key("id7", 1).borrow()), None);
    assert_eq!(map.get(key("id7", 0).borrow()), Some(&14));
    assert_eq!(map.keys().len(), 199);
    map.clear();
    assert_eq!(map.get(key("id7", 0).borrow()), None);
    assert!(map.keys().is_empty());
}

#[test]
fn update_or_insert_updates_or_inserts() {
    let mut map: AssetMap<Num> = AssetMap::new(5);
    map.update_or_insert(
        key("a", 0),
        3,
        |_, _| unreachable!(),
        |n, id| CacheEntry { id, value: Num(n) },
    );
    assert_eq!(map.entry(key("a", 0).borrow()).unwrap().value.0, 3);
    assert_eq!(map.entry(key("a", 0).borrow()).unwrap().id, "a");
    map.update_or_insert(
        key("a", 0),
        4,
        |n, entry| CacheEntry { id: entry.id, value: Num(n + 10 * entry.value.0) },
        |_, _| unreachable!(),
    );
    assert_eq!(map.entry(key("a", 0).borrow()).unwrap().value.0, 34);
    assert_eq!(map.keys().len(), 1);
}

#[test]
fn with_cache_entry_changes_what_is_there() {
    let mut map: AssetMap<Num> = AssetMap::new(32);
    map.with_cache_entry(key("a", 0).borrow(), |_| unreachable!());
    assert!(!map.contains_key(key("a", 0).borrow()));
    map.update_or_insert(
        key("a", 0),
        (),
        |_, _| unreachable!(),
        |_, id| CacheEntry { id, value: Num(1) },
    );
    map.with_cache_entry(key("a", 0).borrow(), |entry| CacheEntry {
        id: entry.id,
        value: Num(entry.value.0 + 1),
    });
    assert_eq!(map.entry(key("a", 0).borrow()).unwrap().value.0, 2);
}

#[test]
fn asset_maps_hold_entries_in_every_shard() {
    for min_shards in [0, 1, 3, 32] {
        let mut map: AssetMap<Num> = AssetMap::new(min_shards);
        for i in 0..100 {
            map.update_or_insert(
                key(&format!("id{}", i), 0),
                i,
                |_, _| unreachable!(),
                |n, id| CacheEntry { id, value: Num(n) },
            );
        }
        assert_eq!(map.keys().len(), 100);
        for i in 0..100 {
            let k = key(&format!("id{}", i), 0);
            assert_eq!(map.entry(k.borrow()).unwrap().value.0, i);
        }
        assert!(map.remove(key("id5", 0).borrow()));
        assert!(!map.remove(key("id5", 0).borrow()));
        assert_eq!(map.take(key("id6", 0).borrow()).unwrap().value.0, 6);
        assert!(map.take(key("id6", 0).borrow()).is_none());
        assert_eq!(map.keys().len(), 98);
        map.clear();
        assert!(map.keys().is_empty());
        assert!(!map.contains_key(key("id7", 0).borrow()));
    }
}

#[test]
fn the_error_that_tells_more_is_kept() {
    let none = || Error::NoDefaultValue;
    let conversion = |m: &str| Error::Conversion(m.to_string());
    assert_eq!(show(&none().or(none())), "none");
    assert_eq!(show(&none().or(io(true, "a"))), "io true a");
    assert_eq!(show(&io(true, "a").or(none())), "io true a");
    assert_eq!(show(&io(true, "a").or(io(true, "b"))), "io true b");
    assert_eq!(show(&io(true, "a").or(io(false, "b"))), "io false b");
    assert_eq!(show(&io(false, "a").or(io(true, "b"))), "io false a");
    assert_eq!(show(&io(false, "a").or(io(false, "b"))), "io false a");
    assert_eq!(show(&io(false, "a").or(conversion("b"))), "conversion b");
    assert_eq!(show(&conversion("a").or(io(false, "b"))), "conversion a");
    assert_eq!(show(&conversion("a").or(conversion("b"))), "conversion a");
    assert_eq!(show(&conversion("a").or(none())), "conversion a");
}
