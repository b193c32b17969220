//! Errors of the `.flat` container format and of packing.

use std::io::Error as IoError;
use std::path::PathBuf;
use std::str::Utf8Error;
use vstd::prelude::*;

verus! {

#[verifier::external_type_specification]
#[verifier::external_body]
pub struct ExIoError(IoError);

#[verifier::external_type_specification]
#[verifier::external_body]
pub struct ExPathBuf(PathBuf);

/// Everything that can go wrong while reading, writing or packing a container.
#[derive(Debug)]
pub enum PackError {
    Io(IoError),
    Utf8(Utf8Error),
    Invalid,
    UnsupportedVersion(u16),
    InvalidTriple,
    DuplicateTriple(String),
    Empty,
    NotFound(PathBuf),
}

/// The kind of a [`PackError`], with the plain values it carries.
pub enum PackFault {
    Io,
    Utf8,
    Invalid,
    UnsupportedVersion(u16),
    InvalidTriple,
    DuplicateTriple(Seq<char>),
    Empty,
    NotFound,
}

impl PackError {
    pub open spec fn fault(&self) -> PackFault {
        match self {
            PackError::Io(_) => PackFault::Io,
            PackError::Utf8(_) => PackFault::Utf8,
            PackError::Invalid => PackFault::Invalid,
            PackError::UnsupportedVersion(v) => PackFault::UnsupportedVersion(*v),
            PackError::InvalidTriple => PackFault::InvalidTriple,
            PackError::DuplicateTriple(t) => PackFault::DuplicateTriple(t@),
            PackError::Empty => PackFault::Empty,
            PackError::NotFound(_) => PackFault::NotFound,
        }
    }
}

/// The error that a reader reports when the input ends before a record does.
///
/// Builds `std::io::Error::new` with kind `UnexpectedEof` and the message that
/// `Read::read_exact` uses; nothing is stated of the opaque error value.
#[verifier::external_body]
pub(crate) fn unexpected_eof() -> IoError {
    IoError::new(std::io::ErrorKind::UnexpectedEof, "failed to fill whole buffer")
}

} // verus!
