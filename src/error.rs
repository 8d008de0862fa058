//! Errors reported by the reader and its aggregators.

use vstd::prelude::*;

verus! {

/// What went wrong while opening, scanning or iterating a file.
#[derive(Debug, PartialEq, Eq)]
pub enum ReaderError {
    /// The file could not be opened or read; the message says why.
    Io(String),
    /// The file's format was refused by the record source.
    Binseq(String),
    /// A record could not be read or decoded, or a scan failed.
    Runtime(String),
    /// The reader was closed before the call.
    Closed,
    /// A k-mer length of zero was asked for.
    InvalidKmerLength,
}

} // verus!
