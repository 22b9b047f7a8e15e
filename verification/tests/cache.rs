use assets_manager::asset::load_from_source;
use assets_manager::entry::borrowed_key;
use assets_manager::notice::Notice;
use assets_manager::{
    Asset, AssetCache, Compound, Error, FileSystem, HotReloader, IoError, Loader, Recorder, Source,
    Update, Value,
};
use std::cell::RefCell;
use std::collections::BTreeMap;

/// Files in memory, which can change behind a cache's back.
struct Table {
    files: RefCell<BTreeMap<String, String>>,
    reads: RefCell<usize>,
    followed: bool,
}

fn table(followed: bool, files: &[(&str, &str)]) -> Table {
    let mut held = BTreeMap::new();
    for (name, content) in files {
        held.insert(name.to_string(), content.to_string());
    }
    Table { files: RefCell::new(held), reads: RefCell::new(0), followed }
}

fn missing(what: &str) -> IoError {
    IoError { not_found: true, message: format!("no {}", what) }
}

impl Table {
    fn write(&self, name: &str, content: &str) {
        self.files.borrow_mut().insert(name.to_string(), content.to_string());
    }

    fn reads(&self) -> usize {
        *self.reads.borrow()
    }
}

impl Source for Table {
    fn read(&self, id: &str, ext: &str) -> Result<Vec<u8>, IoError> {
        *self.reads.borrow_mut() += 1;
        let name = format!("{}.{}", id, ext);
        match self.files.borrow().get(&name) {
            Some(content) => Ok(content.clone().into_bytes()),
            None => Err(missing(&name)),
        }
    }

    fn read_dir(&self, id: &str, exts: &[&str]) -> Result<Vec<String>, IoError> {
        if id == "nowhere" {
            return Err(missing(id));
        }
        let front = if id.is_empty() { String::new() } else { format!("{}.", id) };
        let mut names = Vec::new();
        for name in self.files.borrow().keys() {
            for ext in exts {
                let back = format!(".{}", ext);
                if name.starts_with(&front) && name.ends_with(&back) {
                    let stem = &name[front.len()..name.len() - back.len()];
                    if !stem.contains('.') {
                        names.push(stem.to_string());
                    }
                }
            }
        }
        Ok(names)
    }

    fn support_hot_reloading(&self) -> bool {
        self.followed
    }
}

enum Any {
    Num(Num),
    Text(Text),
    Sum(Sum),
}

impl Value for Any {}

#[derive(Debug, PartialEq)]
struct Num(i32);

#[derive(Debug, PartialEq)]
struct Text(String);

/// The sum of the numbers `<id>.left` and `<id>.right`, made unrecorded from
/// `<id>.extra` too, and owning `<id>.owned`.
#[derive(Debug, PartialEq)]
struct Sum(i32);

struct Parser;

impl Loader<Num> for Parser {
    fn load(content: Vec<u8>, _ext: &str) -> Result<Num, String> {
        match String::from_utf8(content).unwrap().parse() {
            Ok(n) => Ok(Num(n)),
            Err(_) => Err("not a number".to_string()),
        }
    }
}

impl Loader<Text> for Parser {
    fn load(content: Vec<u8>, _ext: &str) -> Result<Text, String> {
        Ok(Text(String::from_utf8(content).unwrap()))
    }
}

impl Asset<Any> for Num {
    type Loader = Parser;

    const TYPE_ID: u64 = 1;

    fn into_value(self) -> Any {
        Any::Num(self)
    }

    fn from_value(value: Any) -> Self {
        match value {
            Any::Num(n) => n,
            _ => unreachable!(),
        }
    }

    fn peek(value: &Any) -> &Self {
        match value {
            Any::Num(n) => n,
            _ => unreachable!(),
        }
    }

    fn extensions() -> Vec<&'static str> {
        vec!["num"]
    }

    fn default_value(_id: &str, error: Error) -> Result<Self, Error> {
        Err(error)
    }
}

impl Asset<Any> for Text {
    type Loader = Parser;

    const TYPE_ID: u64 = 2;

    const HOT_RELOADED: bool = false;

    fn into_value(self) -> Any {
        Any::Text(self)
    }

    fn from_value(value: Any) -> Self {
        match value {
            Any::Text(t) => t,
            _ => unreachable!(),
        }
    }

    fn peek(value: &Any) -> &Self {
        match value {
            Any::Text(t) => t,
            _ => unreachable!(),
        }
    }

    fn extensions() -> Vec<&'static str> {
        vec!["txt", "num"]
    }

    fn default_value(_id: &str, error: Error) -> Result<Self, Error> {
        Err(error)
    }
}

impl<S: Source> Compound<S, Any> for Sum {
    const TYPE_ID: u64 = 3;

    fn into_value(self) -> Any {
        Any::Sum(self)
    }

    fn from_value(value: Any) -> Self {
        match value {
            Any::Sum(s) => s,
            _ => unreachable!(),
        }
    }

    fn peek(value: &Any) -> &Self {
        match value {
            Any::Sum(s) => s,
            _ => unreachable!(),
        }
    }

    fn load(
        cache: &mut AssetCache<S, Any>,
        rec: &mut Recorder,
        id: &str,
    ) -> Result<Self, Error> {
        let left = cache.load::<Num>(rec, &format!("{}.left", id))?;
        let right = cache.load::<Num>(rec, &format!("{}.right", id))?;
        let extra = format!("{}.extra", id);
        let extra = cache.no_record(rec, |cache: &mut AssetCache<S, Any>, rec: &mut Recorder| {
            cache.load::<Num>(rec, &extra)
        });
        let owned = cache.load_owned::<Num>(rec, &format!("{}.owned", id));
        let _ = cache.load::<Text>(rec, &format!("{}.left", id));
        let mut sum = left.read(cache).unwrap().0 + right.read(cache).unwrap().0;
        if let Ok(extra) = extra {
            sum += extra.read(cache).unwrap().0;
        }
        if let Ok(owned) = owned {
            sum += owned.0;
        }
        Ok(Sum(sum))
    }
}

fn cache(followed: bool, files: &[(&str, &str)]) -> AssetCache<Table, Any> {
    AssetCache::with_source(table(followed, files), 1)
}

fn show_notices<S: Source>(cache: &mut AssetCache<S, Any>) -> Vec<String> {
    let mut shown = Vec::new();
    for notice in cache.take_notices() {
        shown.push(match notice {
            Notice::AddAsset { key, deps } => {
                let mut ids: Vec<String> = Vec::new();
                for dep in deps.keys() {
                    ids.push(format!("{}#{}", dep.id, dep.type_id));
                }
                ids.sort();
                format!("asset {}#{} [{}]", key.id, key.type_id, ids.join(" "))
            }
            Notice::AddDir { key } => format!("dir {}#{}", key.id, key.type_id),
            Notice::Clear => "clear".to_string(),
        });
    }
    shown
}

#[test]
fn new_caches_are_empty() {
    let mut rec = Recorder::new();
    let mut c = cache(true, &[("a.num", "1")]);
    assert!(!c.contains::<Num>("a"));
    assert!(!c.contains_dir::<Num>(""));
    assert!(c.load_cached::<Num>(&mut rec, "a").is_none());
    assert!(c.load_cached_dir::<Num>("").is_none());
    assert!(c.keys().is_empty());
    assert!(c.dir_keys().is_empty());
    assert!(!c.is_recording(&rec));
    assert!(c.take_notices().is_empty());
    assert!(c.source().followed);
}

#[test]
fn loaded_assets_are_cached() {
    let mut rec = Recorder::new();
    let mut c = cache(false, &[("common.position.num", "5")]);
    let handle = c.load::<Num>(&mut rec, "common.position").unwrap();
    assert_eq!(handle.id(), "common.position");
    assert_eq!(handle.read(&c), Some(&Num(5)));
    assert!(c.contains::<Num>("common.position"));
    assert_eq!(c.load_cached::<Num>(&mut rec, "common.position").unwrap().read(&c), Some(&Num(5)));
    assert_eq!(c.keys().len(), 1);
}

#[test]
fn assets_are_loaded_once() {
    let mut rec = Recorder::new();
    let mut c = cache(false, &[("a.num", "1")]);
    c.load::<Num>(&mut rec, "a").unwrap();
    assert_eq!(c.source().reads(), 1);
    c.source().write("a.num", "2");
    assert_eq!(c.load::<Num>(&mut rec, "a").unwrap().read(&c), Some(&Num(1)));
    assert_eq!(c.load_expect::<Num>(&mut rec, "a").read(&c), Some(&Num(1)));
    assert_eq!(c.source().reads(), 1);
}

#[test]
fn failed_loads_leave_nothing() {
    let mut rec = Recorder::new();
    let mut c = cache(false, &[("a.num", "x")]);
    match c.load::<Num>(&mut rec, "a") {
        Err(Error::Conversion(m)) => assert_eq!(m, "not a number"),
        _ => panic!(),
    }
    match c.load::<Num>(&mut rec, "b") {
        Err(Error::Io(e)) => {
            assert!(e.not_found);
            assert_eq!(e.message, "no b.num");
        }
        _ => panic!(),
    }
    assert!(!c.contains::<Num>("a"));
    assert!(c.keys().is_empty());
    c.source().write("a.num", "3");
    assert_eq!(c.load::<Num>(&mut rec, "a").unwrap().read(&c), Some(&Num(3)));
}

#[test]
fn types_tell_assets_apart() {
    let mut rec = Recorder::new();
    let mut c = cache(false, &[("a.num", "1"), ("a.txt", "one")]);
    let num = c.load::<Num>(&mut rec, "a").unwrap();
    let text = c.load::<Text>(&mut rec, "a").unwrap();
    assert_eq!(num.read(&c), Some(&Num(1)));
    assert_eq!(text.read(&c), Some(&Text("one".to_string())));
    assert!(c.remove::<Num>("a"));
    assert_eq!(num.read(&c), None);
    assert_eq!(text.read(&c), Some(&Text("one".to_string())));
}

#[test]
fn the_first_kept_asset_stays() {
    let mut c = cache(false, &[]);
    let first = c.keep("a", Ok(Num(1))).unwrap();
    let second = c.keep("a", Ok(Num(2))).unwrap();
    assert_eq!(first.read(&c), Some(&Num(1)));
    assert_eq!(second.read(&c), Some(&Num(1)));
    assert!(matches!(c.keep::<Num>("b", Err(Error::NoDefaultValue)), Err(Error::NoDefaultValue)));
    assert!(!c.contains::<Num>("b"));
}

#[test]
fn removed_assets_are_gone() {
    let mut rec = Recorder::new();
    let mut c = cache(false, &[("a.num", "1"), ("b.num", "2")]);
    c.load::<Num>(&mut rec, "a").unwrap();
    c.load::<Num>(&mut rec, "b").unwrap();
    assert!(c.remove::<Num>("a"));
    assert!(!c.remove::<Num>("a"));
    assert!(!c.contains::<Num>("a"));
    assert_eq!(c.take::<Num>("b"), Some(Num(2)));
    assert_eq!(c.take::<Num>("b"), None);
    c.source().write("a.num", "9");
    assert_eq!(c.load::<Num>(&mut rec, "a").unwrap().read(&c), Some(&Num(9)));
}

#[test]
fn cleared_caches_are_empty() {
    let mut rec = Recorder::new();
    let mut c = cache(true, &[("d.a.num", "1")]);
    c.load_dir::<Num>(&mut rec, "d").unwrap();
    assert!(c.load::<Sum>(&mut rec, "none").is_err());
    c.take_notices();
    c.clear();
    assert!(c.keys().is_empty());
    assert!(c.dir_keys().is_empty());
    assert!(!c.contains::<Num>("d.a"));
    assert!(!c.contains_dir::<Num>("d"));
    assert_eq!(show_notices(&mut c), vec!["clear".to_string()]);
    let mut quiet = cache(false, &[]);
    quiet.clear();
    assert!(quiet.take_notices().is_empty());
}

#[test]
fn owned_assets_bypass_the_cache() {
    let mut rec = Recorder::new();
    let mut c = cache(true, &[("a.num", "1")]);
    assert!(matches!(c.load_owned::<Num>(&mut rec, "a"), Ok(Num(1))));
    assert!(!c.contains::<Num>("a"));
    assert!(c.take_notices().is_empty());
    c.load::<Num>(&mut rec, "a").unwrap();
    c.source().write("a.num", "2");
    assert!(matches!(c.load_owned::<Num>(&mut rec, "a"), Ok(Num(2))));
    assert_eq!(c.load_cached::<Num>(&mut rec, "a").unwrap().read(&c), Some(&Num(1)));
    assert!(c.load_owned::<Num>(&mut rec, "b").is_err());
}

#[test]
fn dependencies_are_recorded() {
    let mut rec = Recorder::new();
    let mut c = cache(
        true,
        &[("s.left.num", "1"), ("s.right.num", "20"), ("s.extra.num", "300"), ("s.owned.num", "4000")],
    );
    let handle = c.load::<Sum>(&mut rec, "s").unwrap();
    assert_eq!(handle.read(&c), Some(&Sum(4321)));
    assert!(!c.is_recording(&rec));
    assert!(c.contains::<Num>("s.extra"));
    assert!(!c.contains::<Num>("s.owned"));
    assert_eq!(
        show_notices(&mut c),
        vec![
            "asset s.left#1 []".to_string(),
            "asset s.right#1 []".to_string(),
            "asset s.extra#1 []".to_string(),
            "asset s.owned#1 []".to_string(),
            "asset s#3 [s.left#1 s.owned#1 s.right#1]".to_string(),
        ]
    );
    assert!(c.take_notices().is_empty());
}

#[test]
fn cached_dependencies_are_recorded_too() {
    let mut rec = Recorder::new();
    let mut c = cache(true, &[("s.left.num", "1"), ("s.right.num", "2")]);
    c.load::<Num>(&mut rec, "s.left").unwrap();
    let (sum, deps) = match c.record_load::<Sum>(&mut rec, "s") {
        Ok(loaded) => loaded,
        Err(_) => panic!(),
    };
    assert_eq!(sum, Sum(3));
    assert!(deps.contains_key(borrowed_key::<Table, Any, Num>("s.left")));
    assert!(deps.contains_key(borrowed_key::<Table, Any, Num>("s.right")));
    assert!(!deps.contains_key(borrowed_key::<Table, Any, Num>("s.extra")));
    assert!(!deps.contains_key(borrowed_key::<Table, Any, Text>("s.left")));
    assert_eq!(deps.keys().len(), 3);
    assert!(!c.contains::<Sum>("s"));
}

#[test]
fn nothing_is_recorded_of_a_source_that_is_not_followed() {
    let mut rec = Recorder::new();
    let mut c = cache(false, &[("s.left.num", "1"), ("s.right.num", "2")]);
    match c.record_load::<Sum>(&mut rec, "s") {
        Ok((sum, deps)) => {
            assert_eq!(sum, Sum(3));
            assert!(deps.keys().is_empty());
        }
        Err(_) => panic!(),
    }
    assert!(c.record_load::<Sum>(&mut rec, "t").is_err());
    c.add_record(&mut rec, borrowed_key::<Table, Any, Num>("x"));
    assert!(!c.is_recording(&rec));
    assert!(c.take_notices().is_empty());
    assert!(!c.no_record(&mut rec, |c: &mut AssetCache<Table, Any>, rec: &mut Recorder| {
        c.is_recording(rec)
    }));
}

#[test]
fn directories_hold_their_entries() {
    let mut rec = Recorder::new();
    let mut c = cache(true, &[("d.a.num", "1"), ("d.b.num", "x"), ("d.c.num", "3"), ("e.num", "4")]);
    let dir = c.load_dir::<Num>(&mut rec, "d").unwrap_or_else(|_| panic!());
    assert_eq!(*dir.ids(), vec!["d.a".to_string(), "d.b".to_string(), "d.c".to_string()]);
    let mut found = Vec::new();
    for handle in dir.iter(&c) {
        found.push((handle.id().to_string(), handle.read(&c).unwrap().0));
    }
    assert_eq!(found, vec![("d.a".to_string(), 1), ("d.c".to_string(), 3)]);
    assert!(c.contains_dir::<Num>("d"));
    assert!(!c.contains_dir::<Text>("d"));
    assert!(!c.contains::<Num>("d.b"));
    assert_eq!(
        show_notices(&mut c),
        vec![
            "dir d#1".to_string(),
            "asset d.a#1 []".to_string(),
            "asset d.c#1 []".to_string(),
        ]
    );
}

#[test]
fn directories_are_loaded_once() {
    let mut rec = Recorder::new();
    let mut c = cache(false, &[("d.a.num", "1")]);
    c.load_dir::<Num>(&mut rec, "d").unwrap_or_else(|_| panic!());
    c.source().write("d.b.num", "2");
    let again = c.load_dir::<Num>(&mut rec, "d").unwrap_or_else(|_| panic!());
    assert_eq!(*again.ids(), vec!["d.a".to_string()]);
    assert_eq!(*c.load_cached_dir::<Num>("d").unwrap().ids(), vec!["d.a".to_string()]);
    assert_eq!(c.dir_keys().len(), 1);
    let key = borrowed_key::<Table, Any, Num>("d");
    assert_eq!(c.dir(key).unwrap().ids, vec!["d.a".to_string()]);
}

#[test]
fn the_root_has_the_empty_identifier() {
    let mut rec = Recorder::new();
    let mut c = cache(false, &[("d.a.num", "1"), ("e.num", "4")]);
    let dir = c.load_dir::<Num>(&mut rec, "").unwrap_or_else(|_| panic!());
    assert_eq!(*dir.ids(), vec!["e".to_string()]);
    assert!(c.contains::<Num>("e"));
}

#[test]
fn directories_that_cannot_be_listed_are_not_cached() {
    let mut rec = Recorder::new();
    let mut c = cache(false, &[]);
    match c.load_dir::<Num>(&mut rec, "nowhere") {
        Err(e) => {
            assert!(e.not_found);
            assert_eq!(e.message, "no nowhere");
        }
        Ok(_) => panic!(),
    }
    assert!(!c.contains_dir::<Num>("nowhere"));
}

#[test]
fn entries_know_their_identifier() {
    let mut rec = Recorder::new();
    let mut c = cache(false, &[("a.num", "1")]);
    c.load::<Num>(&mut rec, "a").unwrap();
    let entry = c.entry(borrowed_key::<Table, Any, Num>("a")).unwrap();
    assert_eq!(entry.id, "a");
    assert!(matches!(entry.value, Any::Num(Num(1))));
    assert!(c.entry(borrowed_key::<Table, Any, Text>("a")).is_none());
}

type Files = FileSystem<Table, Any>;

fn followed(files: &[(&str, &str)]) -> AssetCache<Files, Any> {
    let source = FileSystem { files: table(false, files), reloader: Some(HotReloader::new()) };
    AssetCache::new(Ok(source), 1).unwrap_or_else(|_: IoError| panic!())
}

fn number(c: &mut AssetCache<Files, Any>, id: &str) -> i32 {
    c.load_cached::<Num>(&mut Recorder::new(), id).unwrap().read(c).unwrap().0
}

fn changed(n: i32) -> Update<Any> {
    Update::new::<Files, Num>("a", Ok(Num(n)))
}

#[test]
fn a_directory_that_cannot_be_opened_gives_no_cache() {
    let opened: Result<Files, IoError> = Err(missing("assets"));
    match AssetCache::new(opened, 1) {
        Err(e) => assert_eq!(e.message, "no assets"),
        Ok(_) => panic!(),
    }
}

#[test]
fn reloads_change_their_asset() {
    let mut rec = Recorder::new();
    let mut c = followed(&[("a.num", "1"), ("b.num", "2")]);
    let handle = c.load::<Num>(&mut rec, "a").unwrap();
    c.load::<Num>(&mut rec, "b").unwrap();
    c.source().files.write("a.num", "7");
    let again = load_from_source::<Files, Any, Num>(c.source(), "a");
    c.deliver(Update::new::<Files, Num>("a", again));
    assert_eq!(handle.read(&c), Some(&Num(1)));
    c.hot_reload();
    assert_eq!(handle.read(&c), Some(&Num(7)));
    assert_eq!(number(&mut c, "b"), 2);
    c.hot_reload();
    assert_eq!(handle.read(&c), Some(&Num(7)));
}

#[test]
fn failed_reloads_change_nothing() {
    let mut rec = Recorder::new();
    let mut c = followed(&[("a.num", "1")]);
    c.load::<Num>(&mut rec, "a").unwrap();
    c.deliver(Update::new::<Files, Num>("a", Err(Error::Conversion("x".to_string()))));
    c.hot_reload();
    assert_eq!(number(&mut c, "a"), 1);
    assert_eq!(c.keys().len(), 1);
}

#[test]
fn updates_are_made_in_turn() {
    let mut rec = Recorder::new();
    let mut c = followed(&[("a.num", "1")]);
    c.load::<Num>(&mut rec, "a").unwrap();
    c.deliver(changed(2));
    c.deliver(changed(3));
    c.hot_reload();
    assert_eq!(number(&mut c, "a"), 3);
}

#[test]
fn enhanced_reloading_needs_no_asking() {
    let mut rec = Recorder::new();
    let mut c = followed(&[("a.num", "1")]);
    c.load::<Num>(&mut rec, "a").unwrap();
    c.deliver(changed(2));
    c.enhance_hot_reloading();
    assert_eq!(number(&mut c, "a"), 2);
    c.deliver(changed(3));
    assert_eq!(number(&mut c, "a"), 3);
    c.hot_reload();
    c.enhance_hot_reloading();
    assert_eq!(number(&mut c, "a"), 3);
}

#[test]
fn without_a_reloader_nothing_is_reloaded() {
    let mut rec = Recorder::new();
    let source: Files = FileSystem { files: table(true, &[("a.num", "1")]), reloader: None };
    let mut c = AssetCache::with_source(source, 1);
    c.load::<Num>(&mut rec, "a").unwrap();
    c.deliver(changed(2));
    c.hot_reload();
    c.enhance_hot_reloading();
    c.deliver(changed(3));
    assert_eq!(number(&mut c, "a"), 1);
    assert!(c.take_notices().is_empty());
}

/// Looks `x` up in its own cache and, through a second cache, in many ways.
#[derive(Debug, PartialEq)]
struct Probe(Vec<String>);

impl Value for Probe {}

/// What a probe does with the second cache. Its identifier says which.
impl Compound<Table, Probe> for Probe {
    const TYPE_ID: u64 = 0;

    fn into_value(self) -> Probe {
        self
    }

    fn from_value(value: Probe) -> Self {
        value
    }

    fn peek(value: &Probe) -> &Self {
        value
    }

    fn load(
        cache: &mut AssetCache<Table, Probe>,
        rec: &mut Recorder,
        id: &str,
    ) -> Result<Self, Error> {
        let mut said = Vec::new();
        let x = borrowed_key::<Table, Any, Num>("x");
        let mut other: AssetCache<Table, Any> =
            AssetCache::with_source(table(!id.contains("unfollowed"), &[("y.num", "5")]), 2);
        if id.starts_with("asked") {
            said.push(format!("{} {}", cache.is_recording(rec), other.is_recording(rec)));
        }
        if id.starts_with("quiet") {
            other.no_record(rec, |other: &mut AssetCache<Table, Any>, rec: &mut Recorder| {
                cache.add_record(rec, x);
                said.push(format!("{} {}", cache.is_recording(rec), other.is_recording(rec)));
            });
        }
        if id.starts_with("nested") {
            let deps = match other.record_load::<Num>(rec, "y") {
                Ok((_, deps)) => deps,
                Err(e) => return Err(e),
            };
            said.push(format!("{}", deps.keys().len()));
        }
        if id.starts_with("loaded") {
            other.load::<Num>(rec, "y")?;
            cache.add_record(rec, x);
            said = show_notices(&mut other);
        }
        if id.starts_with("owned") {
            other.load_owned::<Num>(rec, "y")?;
            said = show_notices(&mut other);
        }
        Ok(Probe(said))
    }
}

/// What a probe said, and the dependencies that were recorded for it.
fn probed(followed: bool, rec: &mut Recorder, id: &str) -> (Vec<String>, Vec<String>) {
    let mut c: AssetCache<Table, Probe> = AssetCache::with_source(table(followed, &[]), 1);
    match c.record_load::<Probe>(rec, id) {
        Ok((probe, deps)) => {
            let mut ids = Vec::new();
            for dep in deps.keys() {
                ids.push(dep.id.clone());
            }
            (probe.0, ids)
        }
        Err(_) => panic!(),
    }
}

#[test]
fn every_cache_knows_that_lookups_are_recorded() {
    let mut rec = Recorder::new();
    assert_eq!(probed(true, &mut rec, "asked").0, vec!["true true".to_string()]);
    assert_eq!(probed(true, &mut rec, "asked unfollowed").0, vec!["true true".to_string()]);
    assert_eq!(probed(false, &mut rec, "asked").0, vec!["false false".to_string()]);
    assert!(!rec.is_active());
}

#[test]
fn another_followed_cache_stops_the_recording() {
    let mut rec = Recorder::new();
    let (said, deps) = probed(true, &mut rec, "quiet");
    assert_eq!(said, vec!["false false".to_string()]);
    assert!(deps.is_empty());
}

#[test]
fn an_unfollowed_cache_does_not_stop_the_recording() {
    let mut rec = Recorder::new();
    let (said, deps) = probed(true, &mut rec, "quiet unfollowed");
    assert_eq!(said, vec!["true true".to_string()]);
    assert_eq!(deps, vec!["x".to_string()]);
}

#[test]
fn recordings_of_two_caches_do_not_mix() {
    let mut rec = Recorder::new();
    assert_eq!(probed(true, &mut rec, "nested"), (vec!["0".to_string()], Vec::new()));
    let (said, deps) = probed(true, &mut rec, "loaded");
    assert_eq!(said, vec!["asset y#1 []".to_string()]);
    assert_eq!(deps, vec!["x".to_string()]);
}

#[test]
fn owned_assets_are_told_of_while_another_cache_records() {
    let mut rec = Recorder::new();
    let (said, deps) = probed(true, &mut rec, "owned");
    assert_eq!(said, vec!["asset y#1 []".to_string()]);
    assert!(deps.is_empty());
    assert_eq!(probed(true, &mut rec, "owned unfollowed"), (Vec::new(), Vec::new()));
    assert_eq!(probed(false, &mut rec, "owned"), (Vec::new(), Vec::new()));
}
