//! Importer for a legacy frecency-tracking directory database: a flat text
//! format with one `path|rank|epoch` record per line. Records are parsed
//! tolerantly (a malformed line is skipped, never aborting the batch) and
//! merged into a destination database, summing ranks and keeping the most
//! recent access time for records that share a canonical path.

pub mod bytes;
mod canon;
pub mod db;
pub mod errors;
pub mod import;
pub mod line;
pub mod num;
pub mod rank;

pub use db::{merge_entry, Db, Dir};
pub use errors::ImportError;
pub use import::{import_contents, split_lines, Import};
pub use line::{import_line, parse_line, ParsedLine};
pub use rank::Rank;
