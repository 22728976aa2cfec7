//! Errors when reading legacy DOC files.

use vstd::prelude::*;

verus! {

/// Errors when reading legacy DOC files. Each carries a short description
/// of what was wrong with the input.
#[derive(Debug, Clone, PartialEq, Eq)]
pub enum DocError {
    /// Error from the underlying compound-file container reader.
    Cfb(String),
    /// The File Information Block (FIB) is malformed or unsupported.
    InvalidFib(String),
    /// The document is encrypted or password-protected.
    Encrypted,
    /// The file uses a Word version this reader does not support.
    UnsupportedVersion(String),
    /// The piece table (CLX/PCD) is malformed.
    InvalidPieceTable(String),
    /// A required stream is absent from the file.
    MissingStream(String),
    /// The data is internally inconsistent or truncated.
    Corrupted(String),
    /// Underlying I/O error.
    Io(String),
}

} // verus!
