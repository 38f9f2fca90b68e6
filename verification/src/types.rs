//! The string record shared by the parsers, dictionaries and matchers, with
//! its ESP pointer, status flags and the games the tool knows.
use vstd::prelude::*;
use crate::text::{chars_of, ascii_lower_vec, chars_eq, split_alnum_runs, string_from_chars};
use crate::normalization::normalize;

verus! {

/// The games whose plugins the tool reads.
#[derive(Clone, Copy, Debug, PartialEq, Eq, Hash)]
pub enum GameId {
    Skyrim,
    SkyrimSE,
    Fallout4,
    FalloutNV,
    Fallout76,
    Starfield,
}

/// The names under which a game can be requested, compared without regard
/// to ASCII case.
pub open spec fn game_alias(name: Seq<char>) -> Option<GameId> {
    let l = crate::text::ascii_lower(name);
    if l == "skyrim"@ || l == "tes5"@ {
        Some(GameId::Skyrim)
    } else if l == "skyrimse"@ || l == "sse"@ {
        Some(GameId::SkyrimSE)
    } else if l == "fallout4"@ || l == "fo4"@ {
        Some(GameId::Fallout4)
    } else if l == "falloutnv"@ || l == "fnv"@ {
        Some(GameId::FalloutNV)
    } else if l == "fallout76"@ || l == "fo76"@ {
        Some(GameId::Fallout76)
    } else if l == "starfield"@ || l == "sf1"@ {
        Some(GameId::Starfield)
    } else {
        None
    }
}

impl GameId {
    /// The game named by `alias` (see [`game_alias`]), if any.
    pub fn from_alias(alias: &str) -> (r: Option<GameId>)
        ensures
            r == game_alias(alias@),
    {
        let l = ascii_lower_vec(&chars_of(alias));
        if chars_eq(&l, &chars_of("skyrim")) || chars_eq(&l, &chars_of("tes5")) {
            Some(GameId::Skyrim)
        } else if chars_eq(&l, &chars_of("skyrimse")) || chars_eq(&l, &chars_of("sse")) {
            Some(GameId::SkyrimSE)
        } else if chars_eq(&l, &chars_of("fallout4")) || chars_eq(&l, &chars_of("fo4")) {
            Some(GameId::Fallout4)
        } else if chars_eq(&l, &chars_of("falloutnv")) || chars_eq(&l, &chars_of("fnv")) {
            Some(GameId::FalloutNV)
        } else if chars_eq(&l, &chars_of("fallout76")) || chars_eq(&l, &chars_of("fo76")) {
            Some(GameId::Fallout76)
        } else if chars_eq(&l, &chars_of("starfield")) || chars_eq(&l, &chars_of("sf1")) {
            Some(GameId::Starfield)
        } else {
            None
        }
    }
}

/// FNV-1a (32-bit) over a byte sequence.
pub open spec fn fnv1a(bytes: Seq<u8>) -> u32
    decreases bytes.len(),
{
    if bytes.len() == 0 {
        0x811c9dc5u32
    } else {
        vstd::wrapping::u32_specs::wrapping_mul(
            fnv1a(bytes.drop_last()) ^ (bytes.last() as u32),
            0x0100_0193u32,
        )
    }
}

/// FNV-1a hash of the UTF-8 bytes of a string.
pub fn string_hash(s: &str) -> (r: u32)
    ensures
        r == fnv1a(vstd::utf8::encode_utf8(s@)),
{
    let bytes = s.as_bytes();
    let mut h: u32 = 0x811c9dc5u32;
    let mut i: usize = 0;
    while i < bytes.len()
        invariant
            i <= bytes@.len(),
            bytes@ == vstd::utf8::encode_utf8(s@),
            h == fnv1a(bytes@.take(i as int)),
        decreases bytes@.len() - i,
    {
        assert(bytes@.take(i + 1).drop_last() =~= bytes@.take(i as int));
        h = (h ^ (bytes[i] as u32)).wrapping_mul(0x0100_0193u32);
        i = i + 1;
    }
    assert(bytes@.take(bytes@.len() as int) =~= bytes@);
    h
}

/// Where a string comes from in a plugin.
#[derive(Clone, Copy, Debug, PartialEq, Eq)]
pub struct EspPointer {
    /// String id in the strings tables (negative for script strings).
    pub str_id: i32,
    pub form_id: u32,
    pub record_sig: [u8; 4],
    pub field_sig: [u8; 4],
    /// Occurrence of the field within its record.
    pub index: u16,
    pub index_max: u16,
    /// Hash of the record's editor id (0 when it has none).
    pub edid_hash: u32,
}

impl EspPointer {
    /// A pointer to nothing.
    pub fn null() -> (r: EspPointer)
        ensures
            r.str_id == 0 && r.form_id == 0 && r.index == 0 && r.index_max == 0 && r.edid_hash == 0,
            r.record_sig@ == seq![0u8, 0, 0, 0],
            r.field_sig@ == seq![0u8, 0, 0, 0],
    {
        EspPointer {
            str_id: 0,
            form_id: 0,
            record_sig: [0u8; 4],
            field_sig: [0u8; 4],
            index: 0,
            index_max: 0,
            edid_hash: 0,
        }
    }
}

/// Whether `flag` is among `bits`.
pub open spec fn has_flag(bits: u32, flag: u32) -> bool {
    bits & flag != 0
}

/// `bits` with `flag` switched on or off.
pub open spec fn with_flag(bits: u32, flag: u32, on: bool) -> u32 {
    if on { bits | flag } else { bits & !flag }
}

/// Switching a flag on or off decides that flag and keeps every flag that
/// shares no bit with it.
pub proof fn lemma_with_flag(bits: u32, flag: u32, on: bool, other: u32)
    requires
        flag != 0,
    ensures
        has_flag(with_flag(bits, flag, on), flag) == on || (!on && flag & !flag != 0),
        other & flag == 0 ==> has_flag(with_flag(bits, flag, on), other) == has_flag(bits, other),
{
    assert(flag != 0 ==> (bits | flag) & flag != 0) by (bit_vector);
    assert((bits & !flag) & flag == 0) by (bit_vector);
    assert(other & flag == 0 ==> (((bits | flag) & other != 0) == (bits & other != 0))) by (bit_vector);
    assert(other & flag == 0 ==> (((bits & !flag) & other != 0) == (bits & other != 0))) by (bit_vector);
}

/// The translation status flags of a string.
#[derive(Clone, Copy, Debug, PartialEq, Eq)]
pub struct SkyStringParams {
    pub bits: u32,
}

impl SkyStringParams {
    pub const TRANSLATED: u32 = 0x0001;
    pub const VALIDATED: u32 = 0x0002;
    pub const INCOMPLETE_TRANS: u32 = 0x0004;
    pub const LOCKED_TRANS: u32 = 0x0008;
    pub const OLD_DATA: u32 = 0x0010;
    pub const PENDING: u32 = 0x0020;

    /// No flag set.
    pub fn new() -> (r: Self)
        ensures
            r.bits == 0,
    {
        SkyStringParams { bits: 0 }
    }

    pub fn is_set(&self, flag: u32) -> (r: bool)
        ensures
            r == has_flag(self.bits, flag),
    {
        self.bits & flag != 0
    }

    pub fn set(&mut self, flag: u32, on: bool)
        ensures
            final(self).bits == with_flag(old(self).bits, flag, on),
    {
        if on {
            self.bits = self.bits | flag;
        } else {
            self.bits = self.bits & !flag;
        }
    }

    pub fn is_translated(&self) -> (r: bool)
        ensures
            r == has_flag(self.bits, 0x0001),
    {
        self.bits & 0x0001 != 0
    }

    pub fn is_validated(&self) -> (r: bool)
        ensures
            r == has_flag(self.bits, 0x0002),
    {
        self.bits & 0x0002 != 0
    }

    pub fn is_incomplete(&self) -> (r: bool)
        ensures
            r == has_flag(self.bits, 0x0004),
    {
        self.bits & 0x0004 != 0
    }

    pub fn is_locked(&self) -> (r: bool)
        ensures
            r == has_flag(self.bits, 0x0008),
    {
        self.bits & 0x0008 != 0
    }

    pub fn is_old_data(&self) -> (r: bool)
        ensures
            r == has_flag(self.bits, 0x0010),
    {
        self.bits & 0x0010 != 0
    }

    pub fn is_pending(&self) -> (r: bool)
        ensures
            r == has_flag(self.bits, 0x0020),
    {
        self.bits & 0x0020 != 0
    }
}

impl Default for SkyStringParams {
    /// No flag set.
    fn default() -> (r: Self)
        ensures
            r.bits == 0,
    {
        SkyStringParams { bits: 0 }
    }
}

/// Flags the tool keeps for its own bookkeeping.
#[derive(Clone, Copy, Debug, PartialEq, Eq)]
pub struct SkyStringInternalParams {
    pub bits: u32,
}

impl SkyStringInternalParams {
    pub const IS_VMAD_STRING: u32 = 0x0001;
    pub const PEX_NO_TRANS: u32 = 0x0002;
    pub const N_TRANS: u32 = 0x0004;
    pub const WARNING: u32 = 0x0008;
    pub const BIG_WARNING: u32 = 0x0010;
    pub const LOW_WARNING: u32 = 0x0020;
    pub const STRING_ID_CHANGED: u32 = 0x0040;
    pub const UNUSED_IN_SST: u32 = 0x0080;
    pub const SPELL_CHECK_FAULT: u32 = 0x0100;

    /// No flag set.
    pub fn new() -> (r: Self)
        ensures
            r.bits == 0,
    {
        SkyStringInternalParams { bits: 0 }
    }

    pub fn is_set(&self, flag: u32) -> (r: bool)
        ensures
            r == has_flag(self.bits, flag),
    {
        self.bits & flag != 0
    }

    pub fn set(&mut self, flag: u32, on: bool)
        ensures
            final(self).bits == with_flag(old(self).bits, flag, on),
    {
        if on {
            self.bits = self.bits | flag;
        } else {
            self.bits = self.bits & !flag;
        }
    }
}

/// The FNV-1a hash of a string's UTF-8 bytes (what [`string_hash`] computes).
pub open spec fn str_hash(s: Seq<char>) -> u32 {
    fnv1a(vstd::utf8::encode_utf8(s))
}

/// The hashes of the alphanumeric runs of `s`, in order.
pub open spec fn run_hashes(s: Seq<char>) -> Seq<u32> {
    crate::text::alnum_runs(s).map_values(|w: Seq<char>| str_hash(w))
}

/// The hash of the normalised form of `s`, or `None` when that form is empty.
pub open spec fn normalized_hash_of(s: Seq<char>) -> Option<u32> {
    let n = crate::text::join_spaced(crate::text::words(s));
    if n.len() == 0 { None } else { Some(str_hash(n)) }
}

/// The hashes of the alphanumeric runs of `text` (see [`run_hashes`]).
pub fn source_word_hashes(text: &str) -> (r: Vec<u32>)
    ensures
        r@ == run_hashes(text@),
{
    let runs = split_alnum_runs(text);
    let mut out: Vec<u32> = Vec::new();
    let mut i: usize = 0;
    while i < runs.len()
        invariant
            i <= runs@.len(),
            runs@.len() == crate::text::alnum_runs(text@).len(),
            forall|k: int| 0 <= k < runs@.len() ==> #[trigger] runs@[k]@ == crate::text::alnum_runs(text@)[k],
            out@.len() == i,
            forall|k: int| 0 <= k < i ==> #[trigger] out@[k] == str_hash(runs@[k]@),
        decreases runs@.len() - i,
    {
        let w = string_from_chars(runs[i].as_slice());
        out.push(string_hash(w.as_str()));
        i = i + 1;
    }
    assert(out@ =~= run_hashes(text@));
    out
}

/// The hash of the normalised form of `text`, `None` when it is empty
/// (see [`normalized_hash_of`]).
pub fn normalized_source_hash(text: &str) -> (r: Option<u32>)
    ensures
        r == normalized_hash_of(text@),
{
    let n = normalize(text);
    if n.as_str().unicode_len() == 0 {
        None
    } else {
        Some(string_hash(n.as_str()))
    }
}

/// One translatable string: its source, translation, origin, status and the
/// hashes the matchers look it up by.
#[derive(Clone, Debug)]
pub struct SkyString {
    /// Stable id of the string in the loaded list.
    pub id: u32,
    pub source: String,
    pub translation: String,
    pub record_sig: [u8; 4],
    pub field_sig: [u8; 4],
    pub esp_ptr: EspPointer,
    pub params: SkyStringParams,
    pub internal_params: SkyStringInternalParams,
    /// Which strings table the string belongs to (0, 1 or 2).
    pub list_index: u8,
    /// Collaboration tag.
    pub colab_id: u8,
    /// Result of the last similarity search (99 when none was made).
    pub ld_result: u32,
    /// Number of similar strings that search found.
    pub ld_found: u32,
    /// Hash of the normalised source, `None` when that is empty.
    pub normalized_hash: Option<u32>,
    /// Hash of the source.
    pub hash: u32,
    /// Hash of the translation.
    pub hash_trans: u32,
    /// Hashes of the source's alphanumeric runs.
    pub word_hashes: Vec<u32>,
    pub parent_form_id: u32,
    /// Position of the string's field in its record, when the record tree
    /// was kept for writing back.
    pub field_ref: Option<usize>,
}

/// What a [`SkyString`] holds, with its texts as character sequences.
#[verifier::ext_equal]
pub struct SkyStringView {
    pub id: u32,
    pub source: Seq<char>,
    pub translation: Seq<char>,
    pub record_sig: [u8; 4],
    pub field_sig: [u8; 4],
    pub esp_ptr: EspPointer,
    pub params: u32,
    pub internal: u32,
    pub list_index: u8,
    pub colab_id: u8,
    pub ld_result: u32,
    pub ld_found: u32,
    pub normalized_hash: Option<u32>,
    pub hash: u32,
    pub hash_trans: u32,
    pub word_hashes: Seq<u32>,
    pub parent_form_id: u32,
    pub field_ref: Option<usize>,
}

impl View for SkyString {
    type V = SkyStringView;

    open spec fn view(&self) -> SkyStringView {
        SkyStringView {
            id: self.id,
            source: self.source@,
            translation: self.translation@,
            record_sig: self.record_sig,
            field_sig: self.field_sig,
            esp_ptr: self.esp_ptr,
            params: self.params.bits,
            internal: self.internal_params.bits,
            list_index: self.list_index,
            colab_id: self.colab_id,
            ld_result: self.ld_result,
            ld_found: self.ld_found,
            normalized_hash: self.normalized_hash,
            hash: self.hash,
            hash_trans: self.hash_trans,
            word_hashes: self.word_hashes@,
            parent_form_id: self.parent_form_id,
            field_ref: self.field_ref,
        }
    }
}

/// `sk` with translation `t` and the translation hash that goes with it.
pub open spec fn with_translation(sk: SkyStringView, t: Seq<char>) -> SkyStringView {
    SkyStringView { translation: t, hash_trans: str_hash(t), ..sk }
}

impl SkyString {
    /// A new string: no flag set, an ESP pointer that only names the record
    /// and field signatures, and the hashes of its source and translation.
    pub fn new(id: u32, source: String, translation: String, record_sig: [u8; 4], field_sig: [u8; 4]) -> (r: SkyString)
        ensures
            r@.id == id,
            r@.source == source@,
            r@.translation == translation@,
            r@.record_sig == record_sig,
            r@.field_sig == field_sig,
            r@.esp_ptr.record_sig == record_sig,
            r@.esp_ptr.field_sig == field_sig,
            r@.esp_ptr.str_id == 0,
            r@.esp_ptr.form_id == 0,
            r@.esp_ptr.index == 0,
            r@.esp_ptr.index_max == 0,
            r@.esp_ptr.edid_hash == 0,
            r@.params == 0,
            r@.internal == 0,
            r@.list_index == 0,
            r@.colab_id == 0,
            r@.ld_result == 0,
            r@.ld_found == 0,
            r@.normalized_hash == normalized_hash_of(source@),
            r@.hash == str_hash(source@),
            r@.hash_trans == str_hash(translation@),
            r@.word_hashes == run_hashes(source@),
            r@.parent_form_id == 0,
            r@.field_ref is None,
    {
        let hash = string_hash(source.as_str());
        let hash_trans = string_hash(translation.as_str());
        let normalized_hash = normalized_source_hash(source.as_str());
        let word_hashes = source_word_hashes(source.as_str());
        SkyString {
            id,
            source,
            translation,
            record_sig,
            field_sig,
            esp_ptr: EspPointer {
                str_id: 0,
                form_id: 0,
                record_sig,
                field_sig,
                index: 0,
                index_max: 0,
                edid_hash: 0,
            },
            params: SkyStringParams { bits: 0 },
            internal_params: SkyStringInternalParams { bits: 0 },
            list_index: 0,
            colab_id: 0,
            ld_result: 0,
            ld_found: 0,
            normalized_hash,
            hash,
            hash_trans,
            word_hashes,
            parent_form_id: 0,
            field_ref: None,
        }
    }

    /// A new string as [`SkyString::new`] makes it, without the lookup
    /// hashes of its normalised source and of its words.
    pub fn new_without_search_index(id: u32, source: String, translation: String, record_sig: [u8; 4], field_sig: [u8; 4]) -> (r: SkyString)
        ensures
            r@.id == id,
            r@.source == source@,
            r@.translation == translation@,
            r@.record_sig == record_sig,
            r@.field_sig == field_sig,
            r@.esp_ptr.record_sig == record_sig,
            r@.esp_ptr.field_sig == field_sig,
            r@.esp_ptr.str_id == 0,
            r@.esp_ptr.form_id == 0,
            r@.esp_ptr.index == 0,
            r@.esp_ptr.index_max == 0,
            r@.esp_ptr.edid_hash == 0,
            r@.params == 0,
            r@.internal == 0,
            r@.list_index == 0,
            r@.colab_id == 0,
            r@.ld_result == 0,
            r@.ld_found == 0,
            r@.normalized_hash is None,
            r@.hash == str_hash(source@),
            r@.hash_trans == str_hash(translation@),
            r@.word_hashes.len() == 0,
            r@.parent_form_id == 0,
            r@.field_ref is None,
    {
        let hash = string_hash(source.as_str());
        let hash_trans = string_hash(translation.as_str());
        SkyString {
            id,
            source,
            translation,
            record_sig,
            field_sig,
            esp_ptr: EspPointer {
                str_id: 0,
                form_id: 0,
                record_sig,
                field_sig,
                index: 0,
                index_max: 0,
                edid_hash: 0,
            },
            params: SkyStringParams { bits: 0 },
            internal_params: SkyStringInternalParams { bits: 0 },
            list_index: 0,
            colab_id: 0,
            ld_result: 0,
            ld_found: 0,
            normalized_hash: None,
            hash,
            hash_trans,
            word_hashes: Vec::new(),
            parent_form_id: 0,
            field_ref: None,
        }
    }

    /// Replaces the translation and its hash.
    pub fn set_translation(&mut self, translation: String)
        ensures
            final(self)@ == with_translation(old(self)@, translation@),
    {
        self.hash_trans = string_hash(translation.as_str());
        self.translation = translation;
    }
}

} // verus!
