//! Error type shared by the library's parsing functions and by the I/O code
//! built on top of the library.

use vstd::prelude::*;

verus! {

/// The ways an operation of this library can fail.
#[derive(Debug, Clone, PartialEq, Eq)]
pub enum CgroupError {
    /// A text record (a device rule, a permission string, a number) was malformed.
    ParseError,
    /// A kernel file could not be read; carries the path that was tried and
    /// a rendering of the underlying I/O cause.
    ReadFailed(String, String),
    /// A kernel file could not be written; carries the path, the exact
    /// payload whose write failed, and a rendering of the underlying I/O
    /// cause.
    WriteFailed(String, String, String),
}

} // verus!
