use vstd::prelude::*;

verus! {

/// Why an import run, or a single line of it, failed. The first two kinds
/// are fatal to a run; the other four belong to one line, which is skipped
/// while the batch goes on.
#[derive(Debug, PartialEq, Eq)]
pub enum ImportError {
    /// The destination database held records and merging was not requested.
    ConflictingState,
    /// The source file could not be read; the payload is the reader's
    /// message.
    IoError(String),
    /// A line did not split into three `|`-separated fields.
    InvalidEntry,
    /// The epoch field is not a decimal integer that fits the record; the
    /// offending field follows.
    InvalidEpoch(Vec<u8>),
    /// The rank field is not a decimal number the importer accepts; the
    /// offending field follows.
    InvalidRank(Vec<u8>),
    /// The path field could not be resolved to a canonical absolute path;
    /// the offending field follows.
    UnresolvablePath(Vec<u8>),
}

} // verus!
