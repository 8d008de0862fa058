//! Verified core of a reader for BINSEQ sequence files: per-record aggregators
//! that fold worker-local tallies into a global result, a k-mer count table,
//! the decoded record type, and the bookkeeping of sequential cursors over the
//! streaming and the block-chunked layouts.

pub mod counters;
pub mod error;
pub mod kmer;
pub mod reader;
pub mod record;
pub mod search;
