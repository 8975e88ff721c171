//! The index of visited directories: which paths were visited, how often
//! and when, kept in a file and asked for the best match of a text.

pub mod query;
pub mod ranking;
pub mod records;
pub mod table;

pub use query::Answer;
pub use ranking::{rank_candidates, Candidate};
pub use records::{format_records, parse_records, Record};
pub use table::{DirectoryIndex, DirectoryIndexEntry, DEFAULT_INDEX_FILE_NAME};
