//! The error domain of format validation and storage primitives.
use vstd::prelude::*;

verus! {

/// `std::io::Error`, carried by [`Error::Io`] so that callers doing file I/O
/// can report it through the same error type.
#[verifier::external_type_specification]
#[verifier::external_body]
pub struct ExIoError(std::io::Error);

/// NFL core error domain for format validation and storage primitives.
#[derive(Debug)]
pub enum Error {
    /// The file header contains an unexpected magic value.
    InvalidMagic,
    /// The file format version is not supported.
    UnsupportedVersion(u32),
    /// The buffer is too short to contain the requested structure.
    InsufficientData,
    /// A segment offset or directory entry does not satisfy the alignment policy.
    MisalignedSegment { offset: u64, alignment: u64 },
    /// Data integrity validation failed.
    ChecksumMismatch { expected: u64, actual: u64 },
    /// A segment directory or header failed structural validation.
    InvalidSegmentDirectory,
    /// Underlying IO failed.
    Io(std::io::Error),
    /// Generic corruption detected inside NFL metadata.
    Corrupted(&'static str),
}

impl From<std::io::Error> for Error {
    fn from(e: std::io::Error) -> (r: Self) {
        Error::Io(e)
    }
}

impl vstd::std_specs::convert::FromSpecImpl<std::io::Error> for Error {
    open spec fn obeys_from_spec() -> bool {
        true
    }

    open spec fn from_spec(e: std::io::Error) -> Self {
        Error::Io(e)
    }
}

/// `acc` followed by the result of `r`, or the error of `r`.
pub open spec fn spec_prefixed<T>(acc: Seq<T>, r: Result<Seq<T>, Error>) -> Result<Seq<T>, Error> {
    match r {
        Ok(s) => Ok(acc + s),
        Err(e) => Err(e),
    }
}

} // verus!
