//! Translation files of the Mod Configuration Menu: tab-separated
//! `$key<TAB>text` lines, usually in UTF-16LE with a byte-order mark.
pub mod types;
pub mod parser;
