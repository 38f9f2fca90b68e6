//! Entries of an exported translation XML file, as the importers consume them.
use vstd::prelude::*;

verus! {

/// One string of an XML translation export.
#[derive(Clone, Debug, PartialEq, Eq)]
pub struct XmlStringEntry {
    /// Strings table: 0 = STRINGS, 1 = DLSTRINGS, 2 = ILSTRINGS.
    pub list_index: u8,
    pub str_id: i32,
    /// Editor id of the record, when the export names it.
    pub edid: Option<String>,
    pub record_sig: [u8; 4],
    pub field_sig: [u8; 4],
    pub index: u16,
    pub index_max: u16,
    pub source: String,
    pub translation: String,
}

} // verus!
