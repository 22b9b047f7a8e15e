//! The types that a cache can hold, and how they are loaded.
use vstd::prelude::*;

use crate::error::{combined, Error, IoError};
use crate::source::{texts, Source};

verus! {

/// A type that has room for every asset of a cache, such as an enumeration
/// with a variant for each type of asset.
pub trait Value: Sized {
    /// The number of the type of asset that the value holds. It can be left
    /// out where there is one type only, numbered 0.
    open spec fn kind(self) -> u64 {
        0
    }
}

/// Makes values of the type `T` from raw bytes.
pub trait Loader<T>: Sized {
    /// Whether loading `content` with the extension `ext` can give `r`.
    open spec fn may_decode(content: Seq<u8>, ext: Seq<char>, r: Result<T, String>) -> bool {
        true
    }

    /// Makes a value of `content`, or says why it cannot.
    fn load(content: Vec<u8>, ext: &str) -> (r: Result<T, String>)
        ensures
            Self::may_decode(content@, ext@, r),
    ;
}

/// An asset that is made from a single piece of data.
pub trait Asset<V: Value>: Sized {
    /// What makes the asset from raw bytes.
    type Loader: Loader<Self>;

    /// The number of the type. Different types have different numbers.
    const TYPE_ID: u64;

    /// Whether a change of the data makes the asset load anew.
    const HOT_RELOADED: bool = true;

    /// The value that stands for the asset in a cache.
    open spec fn stored(self) -> V {
        arbitrary()
    }

    /// The extensions that the data can have, the preferred one first.
    open spec fn spec_extensions() -> Seq<Seq<char>> {
        Seq::empty()
    }

    /// Whether the value to use when every extension failed can be `r`.
    open spec fn may_default(id: Seq<char>, error: Error, r: Result<Self, Error>) -> bool {
        true
    }

    /// Turns the asset into the value that stands for it.
    fn into_value(self) -> (r: V)
        ensures
            r == self.stored(),
            r.kind() == Self::TYPE_ID,
    ;

    /// Turns such a value back into the asset that it stands for.
    fn from_value(value: V) -> (r: Self)
        requires
            value.kind() == Self::TYPE_ID,
        ensures
            r.stored() == value,
            forall|asset: Self| #[trigger] asset.stored() == value ==> asset == r,
    ;

    /// Looks at the asset that such a value stands for.
    fn peek(value: &V) -> (r: &Self)
        requires
            value.kind() == Self::TYPE_ID,
        ensures
            r.stored() == *value,
            forall|asset: Self| #[trigger] asset.stored() == *value ==> asset == *r,
    ;

    /// The extensions that the data can have, the preferred one first.
    fn extensions() -> (r: Vec<&'static str>)
        ensures
            texts(r@) == Self::spec_extensions(),
    ;

    /// The value to use when every extension failed, `error` being what is
    /// left of the failures.
    fn default_value(id: &str, error: Error) -> (r: Result<Self, Error>)
        ensures
            Self::may_default(id@, error, r),
    ;
}

/// What comes of a loader's answer.
pub open spec fn converted<A>(r: Result<A, String>) -> Result<A, Error> {
    match r {
        Ok(asset) => Ok(asset),
        Err(message) => Err(Error::Conversion(message)),
    }
}

/// Whether loading the asset `id` with one extension can give `r`: a failed
/// read is the failure, and what was read goes through the loader.
pub open spec fn may_load_single<S: Source, V: Value, A: Asset<V>>(
    source: S,
    id: Seq<char>,
    ext: Seq<char>,
    r: Result<A, Error>,
) -> bool {
    ||| exists|e: IoError| #[trigger] source.may_read(id, ext, Err(e)) && r == Err::<A, Error>(Error::Io(e))
    ||| exists|content: Seq<u8>, made: Result<A, String>|
        source.may_read(id, ext, Ok(content)) && #[trigger] A::Loader::may_decode(content, ext, made)
            && r == converted(made)
}

/// Whether the first extensions can have failed with `failures`.
pub open spec fn may_have_failed<S: Source, V: Value, A: Asset<V>>(
    source: S,
    id: Seq<char>,
    failures: Seq<Error>,
) -> bool {
    &&& failures.len() <= A::spec_extensions().len()
    &&& forall|i: int|
        0 <= i < failures.len() ==> may_load_single::<S, V, A>(
            source,
            id,
            A::spec_extensions()[i],
            Err(#[trigger] failures[i]),
        )
}

/// Whether loading the asset `id` can give `r`: it comes of the first
/// extension that does not fail; where all fail, it is the default value for
/// the failure that tells most.
pub open spec fn may_load_from_source<S: Source, V: Value, A: Asset<V>>(
    source: S,
    id: Seq<char>,
    r: Result<A, Error>,
) -> bool {
    exists|failures: Seq<Error>| #[trigger]
        may_have_failed::<S, V, A>(source, id, failures) && if failures.len()
            < A::spec_extensions().len() {
            r is Ok && may_load_single::<S, V, A>(
                source,
                id,
                A::spec_extensions()[failures.len() as int],
                r,
            )
        } else {
            A::may_default(id, combined(failures), r)
        }
}

/// Loads the asset `id` with one extension.
pub fn load_single<S: Source, V: Value, A: Asset<V>>(source: &S, id: &str, ext: &str) -> (r: Result<
    A,
    Error,
>)
    ensures
        may_load_single::<S, V, A>(*source, id@, ext@, r),
{
    match source.read(id, ext) {
        Err(e) => Err(Error::Io(e)),
        Ok(content) => {
            let ghost bytes = content@;
            let made = A::Loader::load(content, ext);
            assert(A::Loader::may_decode(bytes, ext@, made));
            match made {
                Ok(asset) => Ok(asset),
                Err(message) => Err(Error::Conversion(message)),
            }
        },
    }
}

/// Loads the asset `id` from its source: with the first of its extensions
/// that works, or else its default value.
pub fn load_from_source<S: Source, V: Value, A: Asset<V>>(source: &S, id: &str) -> (r: Result<
    A,
    Error,
>)
    ensures
        may_load_from_source::<S, V, A>(*source, id@, r),
{
    let extensions = A::extensions();
    let mut error = Error::NoDefaultValue;
    let ghost mut failures: Seq<Error> = Seq::empty();
    let mut i: usize = 0;
    while i < extensions.len()
        invariant
            i <= extensions@.len(),
            i == failures.len(),
            texts(extensions@) == A::spec_extensions(),
            may_have_failed::<S, V, A>(*source, id@, failures),
            error == combined(failures),
        decreases extensions@.len() - i,
    {
        assert(A::spec_extensions()[i as int] == extensions@[i as int]@);
        match load_single::<S, V, A>(source, id, extensions[i]) {
            Err(e) => {
                let ghost before = failures;
                proof {
                    failures = failures.push(e);
                    assert(failures.drop_last() =~= before);
                }
                error = e.or(error);
            },
            Ok(asset) => {
                return Ok(asset);
            },
        }
        i += 1;
    }
    A::default_value(id, error)
}

} // verus!
