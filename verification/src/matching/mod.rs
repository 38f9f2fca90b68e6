//! Dictionary application: the tiered matcher shared by XML import and SST
//! dictionary loading.
//!
//! Each dictionary entry is looked up among the loaded strings tier by tier:
//!
//! | tier | key | confidence |
//! |------|-----|------------|
//! | exact | (str_id, record, field) | very high |
//! | editor id | (edid hash, record, field) | high |
//! | normalised source | (normalised hash, record, field) | high |
//! | vocabulary | word-hash Jaccard of at least one half | medium |
//!
//! A tier with more than one candidate is ambiguous and nothing is applied.
//! The SST options replace the tiers by the FormID keys, or by a pass over the
//! targets that matches source texts exactly.
use vstd::prelude::*;

pub mod model;
pub mod select;
pub mod apply;
pub mod run;
pub mod laws;

use crate::matching::run::{apply_entry_centric, apply_string_only};
use crate::matching::select::views;
use crate::types::{SkyString, SkyStringParams, SkyStringInternalParams, string_hash};
use crate::xml::XmlStringEntry;

verus! {

/// Where a dictionary entry comes from.
#[derive(Debug, Clone, Copy, PartialEq, Eq, Structural)]
pub enum DictionarySourceFormat {
    /// An XML import.
    Xml,
    /// An SST dictionary.
    Sst,
}

/// A dictionary entry as the matcher consumes it, whatever its source.
#[derive(Debug, Clone)]
pub struct DictionaryApplyEntry {
    pub source_format: DictionarySourceFormat,
    /// Strings table: 0 = STRINGS, 1 = DLSTRINGS, 2 = ILSTRINGS.
    pub list_index: u8,
    /// String id (the key of the exact tier).
    pub str_id: i32,
    /// FormID of the record (0 for XML entries).
    pub form_id: u32,
    pub record_sig: [u8; 4],
    pub field_sig: [u8; 4],
    pub index: u16,
    pub index_max: u16,
    pub source: String,
    pub translation: String,
    /// Editor id of the record, when known.
    pub edid: Option<String>,
    /// Hash of the editor id (the key of the editor id tier).
    pub edid_hash: Option<u32>,
    /// Status flags, for entries that come from an SST dictionary.
    pub params: Option<crate::types::SkyStringParams>,
    /// Collaboration tag.
    pub colab_id: u8,
}

/// Which strings an SST dictionary may overwrite.
#[derive(Debug, Clone, Copy, PartialEq, Eq, Default, Structural)]
pub enum SstOverwriteScope {
    /// Every string that is not locked.
    #[default]
    All,
    /// Strings neither translated nor validated.
    NoTransExclusive,
    /// Strings neither translated, validated nor partly translated.
    NoTransAndPartial,
    /// Partly translated strings only.
    PartialOnly,
    /// The selected strings only.
    Selection,
}

/// How SST entries find their targets.
#[derive(Debug, Clone, Copy, PartialEq, Eq, Default, Structural)]
pub enum SstMatchMode {
    /// FormID, editor id hash, field and index (script strings: also the exact source).
    FormIdOnly,
    /// FormID, editor id hash, field, exact source and index.
    #[default]
    FormIdStrictString,
    /// FormID, editor id hash, field and exact source (script strings: also the index).
    FormIdRelaxedString,
    /// The exact source text only; each target looks up the dictionary.
    StringOnly,
}

/// Options of an SST dictionary application.
#[derive(Debug, Clone, PartialEq, Eq, Default)]
pub struct SstApplyOptions {
    pub overwrite_scope: SstOverwriteScope,
    pub match_mode: SstMatchMode,
    /// Only tag the matched strings; leave their texts alone.
    pub tag_only: bool,
    /// Reset the candidate strings before matching; unmatched ones stay reset.
    pub reset_state: bool,
    /// Only strings of `filtered_ids` are candidates.
    pub restrict_to_filter: bool,
    /// The selected string ids (for [`SstOverwriteScope::Selection`]).
    pub selected_ids: Option<Vec<u32>>,
    /// The string ids the current filter shows.
    pub filtered_ids: Option<Vec<u32>>,
}

/// How matched entries are applied.
#[derive(Debug, Clone, PartialEq, Eq, Default)]
pub struct ApplyPolicy {
    /// Dictionary and plugin are in the same language.
    pub same_language: bool,
    /// Only tag the matched strings; leave their texts alone.
    pub tag_only: bool,
    /// Give the matched string the entry's string id.
    pub replace_string_id: bool,
    /// Keep unmatched and ambiguous SST entries as old data.
    pub preserve_old_data: bool,
    /// The SST options, which replace the tiers when given.
    pub sst_options: Option<SstApplyOptions>,
}

/// The tier that matched an entry.
#[derive(Debug, Clone, Copy, PartialEq, Eq, Structural)]
pub enum MatchTier {
    /// (str_id, record, field).
    Exact,
    /// Editor id hash.
    Edid,
    /// Normalised source.
    Normalized,
    /// Vocabulary overlap.
    Vocab,
}

/// Counts and effects of one dictionary application.
#[derive(Debug, Clone, Default)]
pub struct MatchResult {
    pub tier_exact: u32,
    pub tier_edid: u32,
    pub tier_normalized: u32,
    pub tier_vocab: u32,
    /// Entries with more than one candidate, not applied.
    pub ambiguous: u32,
    /// Entries without candidate.
    pub unmatched: u32,
    /// Matched entries whose status is pending, not applied.
    pub pending_skipped: u32,
    /// SST entries kept as old data.
    pub old_data_preserved: u32,
    /// Targets marked with a warning for a doubtful field index.
    pub warning: u32,
    /// Targets marked with a big warning for a mismatching field count.
    pub big_warning: u32,
    /// Ids of the strings that changed, each once.
    pub updated_ids: Vec<u32>,
    /// The SST entries kept as old data.
    pub old_data_entries: Vec<DictionaryApplyEntry>,
}

/// The dictionary entry made from an XML entry: no FormID, no status, and
/// the editor id hash computed from the editor id.
pub open spec fn entry_from_xml(x: XmlStringEntry) -> DictionaryApplyEntry {
    DictionaryApplyEntry {
        source_format: DictionarySourceFormat::Xml,
        list_index: x.list_index,
        str_id: x.str_id,
        form_id: 0,
        record_sig: x.record_sig,
        field_sig: x.field_sig,
        index: x.index,
        index_max: x.index_max,
        source: x.source,
        translation: x.translation,
        edid: x.edid,
        edid_hash: match x.edid {
            Some(s) => Some(crate::types::str_hash(s@)),
            None => None,
        },
        params: None,
        colab_id: 0,
    }
}

/// The dictionary entry made from an SST string: its pointer, texts,
/// status and tag; an editor id hash of 0 means none.
pub open spec fn entry_from_sst(sk: SkyString) -> DictionaryApplyEntry {
    DictionaryApplyEntry {
        source_format: DictionarySourceFormat::Sst,
        list_index: sk.list_index,
        str_id: sk.esp_ptr.str_id,
        form_id: sk.esp_ptr.form_id,
        record_sig: sk.esp_ptr.record_sig,
        field_sig: sk.esp_ptr.field_sig,
        index: sk.esp_ptr.index,
        index_max: sk.esp_ptr.index_max,
        source: sk.source,
        translation: sk.translation,
        edid: None,
        edid_hash: if sk.esp_ptr.edid_hash == 0 { None } else { Some(sk.esp_ptr.edid_hash) },
        params: Some(sk.params),
        colab_id: sk.colab_id,
    }
}

/// The policy with every option off.
pub open spec fn default_policy() -> ApplyPolicy {
    ApplyPolicy { same_language: false, tag_only: false, replace_string_id: false, preserve_old_data: false, sst_options: None }
}

/// The strings' word lists and the entries' sources are within the sizes the
/// similarity arithmetic handles, and the counts fit their integers.
pub open spec fn apply_sizes_ok(strings: Seq<SkyString>, entries: Seq<DictionaryApplyEntry>) -> bool {
    &&& crate::matching::select::sizes_ok(strings, entries)
    &&& strings.len() <= u32::MAX
    &&& entries.len() <= u32::MAX
}

impl DictionaryApplyEntry {
    /// The entry of an XML import (see [`entry_from_xml`]).
    pub fn from_xml_entry(entry: &XmlStringEntry) -> (r: Self)
        ensures
            r == entry_from_xml(*entry),
    {
        let (edid, edid_hash) = match &entry.edid {
            Some(e) => (Some(e.clone()), Some(string_hash(e.as_str()))),
            None => (None, None),
        };
        DictionaryApplyEntry {
            source_format: DictionarySourceFormat::Xml,
            list_index: entry.list_index,
            str_id: entry.str_id,
            form_id: 0,
            record_sig: entry.record_sig,
            field_sig: entry.field_sig,
            index: entry.index,
            index_max: entry.index_max,
            source: entry.source.clone(),
            translation: entry.translation.clone(),
            edid,
            edid_hash,
            params: None,
            colab_id: 0,
        }
    }

    /// The entry of an SST dictionary string (see [`entry_from_sst`]).
    pub fn from_sst_entry(entry: &SkyString) -> (r: Self)
        ensures
            r == entry_from_sst(*entry),
    {
        DictionaryApplyEntry {
            source_format: DictionarySourceFormat::Sst,
            list_index: entry.list_index,
            str_id: entry.esp_ptr.str_id,
            form_id: entry.esp_ptr.form_id,
            record_sig: entry.esp_ptr.record_sig,
            field_sig: entry.esp_ptr.field_sig,
            index: entry.esp_ptr.index,
            index_max: entry.esp_ptr.index_max,
            source: entry.source.clone(),
            translation: entry.translation.clone(),
            edid: None,
            edid_hash: if entry.esp_ptr.edid_hash == 0 { None } else { Some(entry.esp_ptr.edid_hash) },
            params: Some(entry.params),
            colab_id: entry.colab_id,
        }
    }

    /// The entry as a string kept for later: id 0, the entry's pointer,
    /// texts, tag and status, flagged as old data and as unused in the
    /// dictionary.
    pub fn to_old_data_sky_string(&self) -> (r: SkyString)
        ensures
            r@.id == 0,
            r@.source == self.source@,
            r@.translation == self.translation@,
            r@.record_sig == self.record_sig,
            r@.field_sig == self.field_sig,
            r@.list_index == self.list_index,
            r@.colab_id == self.colab_id,
            r@.esp_ptr.str_id == self.str_id,
            r@.esp_ptr.form_id == self.form_id,
            r@.esp_ptr.record_sig == self.record_sig,
            r@.esp_ptr.field_sig == self.field_sig,
            r@.esp_ptr.index == self.index,
            r@.esp_ptr.index_max == self.index_max,
            r@.esp_ptr.edid_hash == (match self.edid_hash { Some(h) => h, None => 0u32 }),
            r@.params == crate::types::with_flag(
                match self.params { Some(p) => p.bits, None => 0u32 }, SkyStringParams::OLD_DATA, true),
            r@.internal == crate::types::with_flag(0, SkyStringInternalParams::UNUSED_IN_SST, true),
            r@.hash == crate::types::str_hash(self.source@),
            r@.hash_trans == crate::types::str_hash(self.translation@),
            r@.normalized_hash == crate::types::normalized_hash_of(self.source@),
            r@.word_hashes == crate::types::run_hashes(self.source@),
            r@.ld_result == 0 && r@.ld_found == 0 && r@.parent_form_id == 0,
    {
        let mut sk = SkyString::new(0, self.source.clone(), self.translation.clone(), self.record_sig, self.field_sig);
        sk.list_index = self.list_index;
        sk.colab_id = self.colab_id;
        sk.esp_ptr.str_id = self.str_id;
        sk.esp_ptr.form_id = self.form_id;
        sk.esp_ptr.record_sig = self.record_sig;
        sk.esp_ptr.field_sig = self.field_sig;
        sk.esp_ptr.index = self.index;
        sk.esp_ptr.index_max = self.index_max;
        sk.esp_ptr.edid_hash = match self.edid_hash {
            Some(h) => h,
            None => 0,
        };
        sk.params = match self.params {
            Some(p) => p,
            None => SkyStringParams::new(),
        };
        sk.params.set(SkyStringParams::OLD_DATA, true);
        sk.internal_params.set(SkyStringInternalParams::UNUSED_IN_SST, true);
        sk
    }
}

impl ApplyPolicy {
    /// The policy of an SST load: unmatched SST entries are kept as old data.
    pub fn sst_load() -> (r: Self)
        ensures
            r == (ApplyPolicy { preserve_old_data: true, ..default_policy() }),
    {
        ApplyPolicy { same_language: false, tag_only: false, replace_string_id: false, preserve_old_data: true, sst_options: None }
    }

    /// The policy of an SST load with options; tagging only follows the options.
    pub fn sst_load_with_options(options: SstApplyOptions) -> (r: Self)
        ensures
            r == (ApplyPolicy { preserve_old_data: true, tag_only: options.tag_only, sst_options: Some(options), ..default_policy() }),
    {
        let tag_only = options.tag_only;
        ApplyPolicy { same_language: false, tag_only, replace_string_id: false, preserve_old_data: true, sst_options: Some(options) }
    }
}

impl MatchResult {
    /// The matches of all tiers together.
    pub fn total_matched(&self) -> (r: u32)
        requires
            self.tier_exact + self.tier_edid + self.tier_normalized + self.tier_vocab <= u32::MAX,
        ensures
            r == self.tier_exact + self.tier_edid + self.tier_normalized + self.tier_vocab,
    {
        self.tier_exact + self.tier_edid + self.tier_normalized + self.tier_vocab
    }
}

/// Applies dictionary entries to the strings under `policy` (see
/// [`crate::matching::model::apply_model`]): in the string-only mode target
/// by target, otherwise entry by entry.
pub fn apply_dictionary_entries_with_policy(
    strings: &mut Vec<SkyString>,
    entries: &[DictionaryApplyEntry],
    policy: ApplyPolicy,
) -> (r: MatchResult)
    requires
        apply_sizes_ok(old(strings)@, entries@),
    ensures
        views(final(strings)@) == crate::matching::model::apply_model(views(old(strings)@), entries@, policy).0,
        r@ == crate::matching::model::apply_model(views(old(strings)@), entries@, policy).1,
{
    let string_only = match &policy.sst_options {
        Some(opts) => opts.match_mode == SstMatchMode::StringOnly,
        None => false,
    };
    if string_only {
        apply_string_only(strings, entries, &policy)
    } else {
        apply_entry_centric(strings, entries, &policy)
    }
}

/// Applies dictionary entries with every option off.
pub fn apply_dictionary_entries(strings: &mut Vec<SkyString>, entries: &[DictionaryApplyEntry]) -> (r: MatchResult)
    requires
        apply_sizes_ok(old(strings)@, entries@),
    ensures
        views(final(strings)@) == crate::matching::model::apply_model(views(old(strings)@), entries@, default_policy()).0,
        r@ == crate::matching::model::apply_model(views(old(strings)@), entries@, default_policy()).1,
{
    let policy = ApplyPolicy { same_language: false, tag_only: false, replace_string_id: false, preserve_old_data: false, sst_options: None };
    apply_dictionary_entries_with_policy(strings, entries, policy)
}

/// The dictionary entries of XML entries, in order.
pub open spec fn entries_from_xml(xml: Seq<XmlStringEntry>) -> Seq<DictionaryApplyEntry> {
    xml.map_values(|x: XmlStringEntry| entry_from_xml(x))
}

/// The XML entries fit the sizes the matcher handles.
pub open spec fn xml_sizes_ok(strings: Seq<SkyString>, xml: Seq<XmlStringEntry>) -> bool {
    &&& forall|k: int| 0 <= k < strings.len() ==> #[trigger] strings[k].word_hashes@.len() <= u32::MAX
    &&& forall|k: int| 0 <= k < xml.len() ==> #[trigger] xml[k].source@.len() <= u32::MAX
    &&& strings.len() <= u32::MAX
    &&& xml.len() <= u32::MAX
}

/// Converts XML entries to dictionary entries.
fn convert_xml_entries(xml_entries: &[XmlStringEntry]) -> (r: Vec<DictionaryApplyEntry>)
    ensures
        r@ == entries_from_xml(xml_entries@),
{
    let mut out: Vec<DictionaryApplyEntry> = Vec::new();
    let mut k: usize = 0;
    while k < xml_entries.len()
        invariant
            k <= xml_entries@.len(),
            out@ == entries_from_xml(xml_entries@.take(k as int)),
        decreases xml_entries@.len() - k,
    {
        out.push(DictionaryApplyEntry::from_xml_entry(&xml_entries[k]));
        k = k + 1;
        assert(entries_from_xml(xml_entries@.take(k as int)) =~= entries_from_xml(xml_entries@.take(k - 1)).push(entry_from_xml(xml_entries@[k - 1])));
    }
    assert(xml_entries@.take(xml_entries@.len() as int) =~= xml_entries@);
    out
}

/// Applies XML entries with every option off.
pub fn apply_xml_dictionary_entries(strings: &mut Vec<SkyString>, xml_entries: &[XmlStringEntry]) -> (r: MatchResult)
    requires
        xml_sizes_ok(old(strings)@, xml_entries@),
    ensures
        views(final(strings)@) == crate::matching::model::apply_model(views(old(strings)@), entries_from_xml(xml_entries@), default_policy()).0,
        r@ == crate::matching::model::apply_model(views(old(strings)@), entries_from_xml(xml_entries@), default_policy()).1,
{
    let entries = convert_xml_entries(xml_entries);
    apply_dictionary_entries(strings, &entries)
}

/// Applies XML entries under `policy`; XML entries are never kept as old
/// data, whatever the policy says.
pub fn apply_xml_dictionary_entries_with_policy(
    strings: &mut Vec<SkyString>,
    xml_entries: &[XmlStringEntry],
    policy: ApplyPolicy,
) -> (r: MatchResult)
    requires
        xml_sizes_ok(old(strings)@, xml_entries@),
    ensures
        views(final(strings)@) == crate::matching::model::apply_model(views(old(strings)@), entries_from_xml(xml_entries@),
            ApplyPolicy { preserve_old_data: false, ..policy }).0,
        r@ == crate::matching::model::apply_model(views(old(strings)@), entries_from_xml(xml_entries@),
            ApplyPolicy { preserve_old_data: false, ..policy }).1,
{
    let mut policy = policy;
    policy.preserve_old_data = false;
    let entries = convert_xml_entries(xml_entries);
    apply_dictionary_entries_with_policy(strings, &entries, policy)
}

/// XML import with every option off (the historical entry point).
pub fn enhanced_import_match(strings: &mut Vec<SkyString>, xml_entries: &[XmlStringEntry]) -> (r: MatchResult)
    requires
        xml_sizes_ok(old(strings)@, xml_entries@),
    ensures
        views(final(strings)@) == crate::matching::model::apply_model(views(old(strings)@), entries_from_xml(xml_entries@), default_policy()).0,
        r@ == crate::matching::model::apply_model(views(old(strings)@), entries_from_xml(xml_entries@), default_policy()).1,
{
    apply_xml_dictionary_entries(strings, xml_entries)
}

} // verus!
