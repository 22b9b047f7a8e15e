//! What can go wrong while an asset is loaded.
use vstd::prelude::*;

verus! {

/// A failure to reach the data behind an identifier.
#[derive(Debug)]
pub struct IoError {
    /// Whether the data is not there at all.
    pub not_found: bool,
    /// What the system said.
    pub message: String,
}

/// Why an asset could not be loaded.
#[derive(Debug)]
pub enum Error {
    /// The data could not be read.
    Io(IoError),
    /// The data was read but does not stand for a value of the asset's type.
    Conversion(String),
    /// No data was looked for: the asset has no extension.
    NoDefaultValue,
}

impl Error {
    /// How much an error tells. An unfit file tells more than one that cannot
    /// be read, which tells more than one that is missing.
    pub open spec fn weight(self) -> nat {
        match self {
            Error::NoDefaultValue => 0,
            Error::Io(e) => if e.not_found {
                1
            } else {
                2
            },
            Error::Conversion(_) => 3,
        }
    }

    /// The error that `or` keeps of two.
    pub open spec fn spec_or(self, other: Error) -> Error {
        if self.weight() > other.weight() {
            self
        } else if self.weight() < other.weight() {
            other
        } else if self.weight() == 1 {
            other
        } else {
            self
        }
    }

    /// Keeps the error that tells more. Of two that tell as much it keeps
    /// `self`, unless both say that something is missing: then `other`.
    pub fn or(self, other: Error) -> (r: Error)
        ensures
            r == self.spec_or(other),
    {
        match (self, other) {
            (Error::NoDefaultValue, other) => other,
            (Error::Io(_), Error::Conversion(m)) => Error::Conversion(m),
            (Error::Io(a), Error::Io(b)) => if a.not_found {
                Error::Io(b)
            } else {
                Error::Io(a)
            },
            (this, _) => this,
        }
    }
}

/// What is left of a run of failures, the oldest first.
pub open spec fn combined(errors: Seq<Error>) -> Error
    decreases errors.len(),
{
    if errors.len() == 0 {
        Error::NoDefaultValue
    } else {
        errors.last().spec_or(combined(errors.drop_last()))
    }
}

} // verus!
