//! Where the data of assets comes from.
use vstd::prelude::*;

use crate::error::IoError;

verus! {

/// The characters of each of some strings.
pub open spec fn texts(strings: Seq<&str>) -> Seq<Seq<char>> {
    strings.map_values(|s: &str| s@)
}

/// The characters of each of some owned strings.
pub open spec fn names(strings: Seq<String>) -> Seq<Seq<char>> {
    strings.map_values(|s: String| s@)
}

/// The bytes that a read gave, or its failure.
pub open spec fn bytes_read(r: Result<Vec<u8>, IoError>) -> Result<Seq<u8>, IoError> {
    match r {
        Ok(content) => Ok(content@),
        Err(e) => Err(e),
    }
}

/// The names that a directory listing gave, or its failure.
pub open spec fn names_read(r: Result<Vec<String>, IoError>) -> Result<Seq<Seq<char>>, IoError> {
    match r {
        Ok(listing) => Ok(names(listing@)),
        Err(e) => Err(e),
    }
}

/// Something that assets can be read from: a directory, an archive, a table
/// in memory. What a read gives may change from call to call, so a source
/// says of each outcome whether it is possible, not which one will come.
pub trait Source: Sized {
    /// Whether reading `id` with the extension `ext` can give `r`.
    open spec fn may_read(
        &self,
        id: Seq<char>,
        ext: Seq<char>,
        r: Result<Seq<u8>, IoError>,
    ) -> bool {
        true
    }

    /// Whether listing the directory `id` can give `r`.
    open spec fn may_read_dir(
        &self,
        id: Seq<char>,
        exts: Seq<Seq<char>>,
        r: Result<Seq<Seq<char>>, IoError>,
    ) -> bool {
        true
    }

    /// Whether changes of the data are followed.
    open spec fn hot_reloading(&self) -> bool {
        false
    }

    /// Reads the data of the asset `id` with the extension `ext`.
    fn read(&self, id: &str, ext: &str) -> (r: Result<Vec<u8>, IoError>)
        ensures
            self.may_read(id@, ext@, bytes_read(r)),
    ;

    /// Lists the names, without extension, of the entries of the directory
    /// `id` that have one of the extensions `exts`.
    fn read_dir(&self, id: &str, exts: &[&str]) -> (r: Result<Vec<String>, IoError>)
        ensures
            self.may_read_dir(id@, texts(exts@), names_read(r)),
    ;

    /// Whether changes of the data are followed.
    fn support_hot_reloading(&self) -> (r: bool)
        ensures
            r == self.hot_reloading(),
    ;
}

} // verus!
