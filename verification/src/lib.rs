//! Clipboard-history listing support: parsing the line-oriented output of the
//! history tool into entries, and deciding which entries a free-text query
//! matches.

pub mod entry;
pub mod matcher;
pub mod parser;
pub mod protocol;
pub mod search;
pub mod text;

pub use entry::{ClipboardEntry, CliphistError};
pub use matcher::fuzzy_match;
pub use parser::parse_cliphist_list;
