use assets_manager::asset::{load_from_source, load_single};
use assets_manager::{Asset, Error, IoError, Loader, Source, Value};
use std::cell::RefCell;

/// Answers that depend on the extension alone.
struct Answers {
    asked: RefCell<Vec<String>>,
}

fn answers() -> Answers {
    Answers { asked: RefCell::new(Vec::new()) }
}

impl Source for Answers {
    fn read(&self, id: &str, ext: &str) -> Result<Vec<u8>, IoError> {
        self.asked.borrow_mut().push(format!("{}:{}", id, ext));
        match ext {
            "good" => Ok(b"42".to_vec()),
            "other" => Ok(b"7".to_vec()),
            "bad" => Ok(b"x".to_vec()),
            "denied" => Err(IoError { not_found: false, message: "denied".to_string() }),
            _ => Err(IoError { not_found: true, message: format!("no {}", ext) }),
        }
    }

    fn read_dir(&self, _id: &str, _exts: &[&str]) -> Result<Vec<String>, IoError> {
        Ok(Vec::new())
    }

    fn support_hot_reloading(&self) -> bool {
        false
    }
}

#[derive(Debug, PartialEq)]
struct Num<const CASE: usize>(i32);

impl<const CASE: usize> Value for Num<CASE> {}

struct Decimal;

impl<const CASE: usize> Loader<Num<CASE>> for Decimal {
    fn load(content: Vec<u8>, ext: &str) -> Result<Num<CASE>, String> {
        match String::from_utf8(content).unwrap().parse() {
            Ok(n) => Ok(Num(n)),
            Err(_) => Err(format!("not a number in .{}", ext)),
        }
    }
}

const LISTS: [&[&str]; 9] = [
    &["good", "other"],
    &["missing", "other", "good"],
    &["bad", "good"],
    &["missing", "absent"],
    &["missing", "denied", "absent"],
    &["denied", "bad", "missing"],
    &[],
    &["missing"],
    &["bad"],
];

impl<const CASE: usize> Asset<Num<CASE>> for Num<CASE> {
    type Loader = Decimal;

    const TYPE_ID: u64 = 0;

    fn into_value(self) -> Num<CASE> {
        self
    }

    fn from_value(value: Num<CASE>) -> Self {
        value
    }

    fn peek(value: &Num<CASE>) -> &Self {
        value
    }

    fn extensions() -> Vec<&'static str> {
        LISTS[CASE].to_vec()
    }

    fn default_value(id: &str, error: Error) -> Result<Self, Error> {
        if id == "fallback" {
            Ok(Num(-1))
        } else {
            Err(error)
        }
    }
}

fn show<const CASE: usize>(r: Result<Num<CASE>, Error>) -> String {
    match r {
        Ok(Num(n)) => format!("{}", n),
        Err(Error::Io(e)) => format!("io {} {}", e.not_found, e.message),
        Err(Error::Conversion(m)) => format!("conversion {}", m),
        Err(Error::NoDefaultValue) => "no default value".to_string(),
    }
}

fn loaded<const CASE: usize>(id: &str) -> (String, Vec<String>) {
    let source = answers();
    let r = load_from_source::<Answers, Num<CASE>, Num<CASE>>(&source, id);
    (show(r), source.asked.into_inner())
}

#[test]
fn one_extension_gives_the_asset_or_its_failure() {
    let source = answers();
    let single = |ext: &str| show(load_single::<Answers, Num<0>, Num<0>>(&source, "a", ext));
    assert_eq!(single("good"), "42");
    assert_eq!(single("other"), "7");
    assert_eq!(single("bad"), "conversion not a number in .bad");
    assert_eq!(single("denied"), "io false denied");
    assert_eq!(single("missing"), "io true no missing");
}

#[test]
fn the_first_working_extension_is_used() {
    assert_eq!(loaded::<0>("a"), ("42".to_string(), vec!["a:good".to_string()]));
    let asked = vec!["a:missing".to_string(), "a:other".to_string()];
    assert_eq!(loaded::<1>("a"), ("7".to_string(), asked));
    let asked = vec!["a:bad".to_string(), "a:good".to_string()];
    assert_eq!(loaded::<2>("a"), ("42".to_string(), asked));
}

#[test]
fn of_missing_files_the_first_is_told() {
    assert_eq!(loaded::<3>("a").0, "io true no missing");
    assert_eq!(loaded::<7>("a").0, "io true no missing");
}

#[test]
fn the_most_telling_failure_is_told() {
    assert_eq!(loaded::<4>("a").0, "io false denied");
    assert_eq!(loaded::<5>("a").0, "conversion not a number in .bad");
    assert_eq!(loaded::<8>("a").0, "conversion not a number in .bad");
}

#[test]
fn without_extensions_there_is_only_the_default_value() {
    assert_eq!(loaded::<6>("a"), ("no default value".to_string(), Vec::new()));
    assert_eq!(loaded::<6>("fallback"), ("-1".to_string(), Vec::new()));
}

#[test]
fn the_default_value_comes_after_every_extension() {
    let (r, asked) = loaded::<4>("fallback");
    assert_eq!(r, "-1");
    assert_eq!(asked.len(), 3);
    assert_eq!(loaded::<0>("fallback").0, "42");
}
