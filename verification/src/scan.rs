//! The error type of the directory scan that feeds the index.
//!
//! Scanning itself is filesystem work and lives with the embedding
//! application; the library only defines what can go wrong with it.

use vstd::prelude::*;

verus! {

/// Relies on `std::io::Error` being an ordinary, owned error value; the
/// library carries it through without reading it.
#[verifier::external_type_specification]
#[verifier::external_body]
pub struct ExIoError(std::io::Error);

/// Why a directory scan failed.
#[derive(Debug)]
pub enum ScanError {
    /// The path to scan does not name a directory.
    NotADirectory,
    /// The filesystem failed underneath the scan.
    IOError(std::io::Error),
}

} // verus!
