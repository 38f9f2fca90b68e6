//! Reading the translatable strings of a plugin: which fields hold string
//! ids, how groups and records are walked, and the record tree kept for
//! writing translations back.
use vstd::prelude::*;
use crate::bytes::{read_u16_le, read_u32_le, copy_range, le_u16, le_u32};
use crate::esp::defs::{TranslatableField, StringsFiles, lookup_text, decompress_bethesda_record};
use crate::esp::header::{GenericHeader, GrupHeader, RecordHeaderData, sig_grup, sig_tes4, sig_xxxx};
use crate::esp::record_tree::{EspField, EspRecord, EspGrup, EspFile, Tes4Header, FieldView, fields_view,
    spec_parse_fields};
use crate::types::{SkyString, SkyStringView, EspPointer, SkyStringParams, string_hash, str_hash,
    normalized_hash_of, run_hashes, with_flag};
use crate::text::{decimal, u32_decimal, string_push, lossy_string, utf8_text, utf8_lossy};

verus! {

/// Signature `GMST`.
pub open spec fn sig_gmst() -> Seq<u8> { seq![0x47u8, 0x4D, 0x53, 0x54] }
/// Signature `DATA`.
pub open spec fn sig_data() -> Seq<u8> { seq![0x44u8, 0x41, 0x54, 0x41] }
/// Signature `EDID`.
pub open spec fn sig_edid() -> Seq<u8> { seq![0x45u8, 0x44, 0x49, 0x44] }
/// Signature `****`, which stands for any record in a definition.
pub open spec fn sig_any() -> Seq<u8> { seq![0x2Au8, 0x2A, 0x2A, 0x2A] }

/// The last definition among the first `n` that is not ignored and names
/// exactly these record and field signatures.
pub open spec fn last_def(defs: Seq<TranslatableField>, rec: Seq<u8>, field: Seq<u8>, n: int) -> Option<TranslatableField>
    decreases n,
{
    if n <= 0 || n > defs.len() {
        None
    } else {
        let d = defs[n - 1];
        if !d.ignored && d.record_sig@ == rec && d.field_sig@ == field {
            Some(d)
        } else {
            last_def(defs, rec, field, n - 1)
        }
    }
}

/// The definition that applies to a field of a record: the last one, not
/// ignored, for this record, else the last one, not ignored, for any record.
pub open spec fn spec_find_def(defs: Seq<TranslatableField>, rec: Seq<u8>, field: Seq<u8>) -> Option<TranslatableField> {
    match last_def(defs, rec, field, defs.len() as int) {
        Some(d) => Some(d),
        None => last_def(defs, sig_any(), field, defs.len() as int),
    }
}

/// The text that stands for a string id missing from the tables: `<ID:n>`.
pub open spec fn id_placeholder(id: u32) -> Seq<char> {
    seq!['<', 'I', 'D', ':'] + decimal(id as nat) + seq!['>']
}

/// The source text of a string id: its entry in the table, else the
/// placeholder.
pub open spec fn source_text(files: StringsFiles, list_index: u8, id: u32) -> Seq<char> {
    match lookup_text(files, list_index, id) {
        Some(s) => s@,
        None => id_placeholder(id),
    }
}

/// The bytes before the first zero byte.
pub open spec fn nul_prefix(b: Seq<u8>) -> Seq<u8>
    decreases b.len(),
{
    if b.len() == 0 {
        b
    } else if b[0] == 0 {
        Seq::empty()
    } else {
        seq![b[0]] + nul_prefix(b.drop_first())
    }
}

/// Whether an editor id marks a string setting (it starts with `s`).
pub open spec fn edid_is_string(e: Option<Seq<char>>) -> bool {
    match e {
        Some(s) => s.len() > 0 && s[0] == 's',
        None => false,
    }
}

/// The hash of an editor id, 0 when there is none.
pub open spec fn edid_hash(e: Option<Seq<char>>) -> u32 {
    match e {
        Some(s) => str_hash(s),
        None => 0,
    }
}

/// The next field position, counted in 16 bits.
pub open spec fn next_index(i: u16) -> u16 {
    if i == 0xFFFF { 0 } else { (i + 1) as u16 }
}

/// One string found in a plugin: where it was found and its text.
pub struct Found {
    pub text: Seq<char>,
    pub record_sig: Seq<u8>,
    pub field_sig: Seq<u8>,
    pub str_id: u32,
    pub form_id: u32,
    /// Position of the field among the record's fields.
    pub index: u16,
    pub edid_hash: u32,
    pub list_index: u8,
    pub parent: u32,
    pub field_ref: Option<usize>,
}

/// `sk`, the `i`-th string of the list, is the string made of `f`: new, with
/// source `f.text`, no translation, marked incomplete, its pointer set, and
/// the lookup hashes when `indexed`.
pub open spec fn string_is(sk: SkyStringView, f: Found, i: int, indexed: bool) -> bool {
    &&& sk.id == i as u32
    &&& sk.source == f.text
    &&& sk.translation == Seq::<char>::empty()
    &&& sk.record_sig@ == f.record_sig
    &&& sk.field_sig@ == f.field_sig
    &&& sk.esp_ptr.str_id == f.str_id as i32
    &&& sk.esp_ptr.form_id == f.form_id
    &&& sk.esp_ptr.record_sig@ == f.record_sig
    &&& sk.esp_ptr.field_sig@ == f.field_sig
    &&& sk.esp_ptr.index == f.index
    &&& sk.esp_ptr.index_max == 1
    &&& sk.esp_ptr.edid_hash == f.edid_hash
    &&& sk.params == with_flag(0, SkyStringParams::INCOMPLETE_TRANS, true)
    &&& sk.internal == 0
    &&& sk.list_index == f.list_index
    &&& sk.colab_id == 0
    &&& sk.ld_result == 0
    &&& sk.ld_found == 0
    &&& sk.normalized_hash == (if indexed { normalized_hash_of(f.text) } else { None })
    &&& sk.hash == str_hash(f.text)
    &&& sk.hash_trans == str_hash(Seq::<char>::empty())
    &&& sk.word_hashes == (if indexed { run_hashes(f.text) } else { Seq::<u32>::empty() })
    &&& sk.parent_form_id == f.parent
    &&& sk.field_ref == f.field_ref
}

/// The list `ss` holds exactly the strings made of `fs`, in order.
pub open spec fn strings_are(ss: Seq<SkyString>, fs: Seq<Found>, indexed: bool) -> bool {
    &&& ss.len() == fs.len()
    &&& forall|i: int| 0 <= i < ss.len() ==> string_is(#[trigger] ss[i]@, fs[i], i, indexed)
}

/// The strings found in the fields of a record, read field by field from
/// `pos` (the way the plugin header's fields are read): an `XXXX` field gives
/// the size of the next field; a field that runs past the end stops the
/// reading; a field named by a definition gives a string when it holds a
/// four-byte id and its text is not empty; `DATA` of a `GMST` counts only
/// when the last editor id seen starts with `s` (and is not counted when
/// skipped).
pub open spec fn direct_found(defs: Seq<TranslatableField>, files: StringsFiles, rec: Seq<u8>, form_id: u32,
    parent: u32, data: Seq<u8>, pos: int, next: u32, fidx: u16, edid: Option<Seq<char>>) -> Seq<Found>
    decreases data.len() - pos,
{
    if pos < 0 || pos + 6 > data.len() {
        Seq::empty()
    } else {
        let name = data.subrange(pos, pos + 4);
        let size: int = if next > 0 { (next % 0x10000) as int } else { le_u16(data, pos + 4) as int };
        let p2 = pos + 6;
        if size > data.len() - p2 {
            Seq::empty()
        } else {
            let fd = data.subrange(p2, p2 + size);
            let p3 = p2 + size;
            if name == sig_xxxx() {
                direct_found(defs, files, rec, form_id, parent, data, p3,
                    if fd.len() >= 4 { le_u32(fd, 0) } else { 0 }, fidx, edid)
            } else {
                let e2 = if name == sig_edid() && fd.len() > 0 { Some(utf8_lossy(nul_prefix(fd))) } else { edid };
                match spec_find_def(defs, rec, name) {
                    Some(d) => if rec == sig_gmst() && name == sig_data() && !edid_is_string(e2) {
                        direct_found(defs, files, rec, form_id, parent, data, p3, 0, fidx, e2)
                    } else {
                        let here = if fd.len() >= 4 && source_text(files, d.list_index, le_u32(fd, 0)).len() > 0 {
                            seq![Found {
                                text: source_text(files, d.list_index, le_u32(fd, 0)),
                                record_sig: rec,
                                field_sig: name,
                                str_id: le_u32(fd, 0),
                                form_id,
                                index: fidx,
                                edid_hash: edid_hash(e2),
                                list_index: d.list_index,
                                parent,
                                field_ref: None,
                            }]
                        } else {
                            Seq::empty()
                        };
                        here + direct_found(defs, files, rec, form_id, parent, data, p3, 0, next_index(fidx), e2)
                    },
                    None => direct_found(defs, files, rec, form_id, parent, data, p3, 0, next_index(fidx), e2),
                }
            }
        }
    }
}

/// The text `<ID:n>`.
pub(crate) fn placeholder_string(id: u32) -> (r: String)
    ensures
        r@ == id_placeholder(id),
{
    let mut s = String::new();
    string_push(&mut s, '<');
    string_push(&mut s, 'I');
    string_push(&mut s, 'D');
    string_push(&mut s, ':');
    let digits = u32_decimal(id);
    let mut i: usize = 0;
    while i < digits.len()
        invariant
            i <= digits@.len(),
            s@ == seq!['<', 'I', 'D', ':'] + digits@.take(i as int),
        decreases digits@.len() - i,
    {
        string_push(&mut s, digits[i]);
        i = i + 1;
        assert(digits@.take(i as int) =~= digits@.take(i - 1).push(digits@[i - 1]));
    }
    assert(digits@.take(digits@.len() as int) =~= digits@);
    string_push(&mut s, '>');
    assert(s@ =~= id_placeholder(id));
    s
}

/// `b[..n]` where `n` is the position of the first zero byte (or the length).
pub(crate) fn nul_prefix_of(b: &[u8]) -> (r: Vec<u8>)
    ensures
        r@ == nul_prefix(b@),
{
    let mut i: usize = 0;
    while i < b.len() && b[i] != 0
        invariant
            i <= b@.len(),
            forall|k: int| 0 <= k < i ==> b@[k] != 0,
        decreases b@.len() - i,
    {
        i = i + 1;
    }
    proof {
        lemma_nul_prefix(b@, i as int);
    }
    copy_range(b, 0, i)
}

proof fn lemma_nul_prefix(b: Seq<u8>, i: int)
    requires
        0 <= i <= b.len(),
        forall|k: int| 0 <= k < i ==> b[k] != 0,
        i == b.len() || b[i] == 0,
    ensures
        nul_prefix(b) == b.subrange(0, i),
    decreases b.len(),
{
    if b.len() == 0 {
        assert(b.subrange(0, i) =~= b);
    } else if b[0] == 0 {
        assert(b.subrange(0, i) =~= Seq::<u8>::empty());
    } else {
        lemma_nul_prefix(b.drop_first(), i - 1);
        assert(seq![b[0]] + b.drop_first().subrange(0, i - 1) =~= b.subrange(0, i));
    }
}

/// Whether the four bytes of `a` spell `b0 b1 b2 b3`.
pub(crate) fn sig_is(a: &[u8; 4], b0: u8, b1: u8, b2: u8, b3: u8) -> (r: bool)
    ensures
        r == (a@ == seq![b0, b1, b2, b3]),
{
    let r = a[0] == b0 && a[1] == b1 && a[2] == b2 && a[3] == b3;
    if r {
        assert(a@ =~= seq![b0, b1, b2, b3]);
    }
    r
}

/// The text of an optional owned string.
pub open spec fn opt_text(o: Option<String>) -> Option<Seq<char>> {
    match o {
        Some(s) => Some(s@),
        None => None,
    }
}

/// A plugin reader: the field definitions and strings tables it reads with,
/// the strings it found, and, in plugin mode, the record tree.
pub struct EspParser {
    pub record_defs: Vec<TranslatableField>,
    pub strings: Vec<SkyString>,
    pub strings_files: StringsFiles,
    /// Number of compressed records met (it stops at `u32::MAX`).
    pub compressed_records: u32,
    /// The form id of the group whose records are being read (0 outside
    /// any such group).
    pub current_parent_form_id: u32,
    /// Whether new strings get their lookup hashes.
    pub build_search_index: bool,
    /// Whether the record tree is kept.
    pub esp_mode: bool,
    /// The top-level groups, kept in plugin mode.
    pub record_tree: Vec<EspGrup>,
    /// The plugin header, kept in plugin mode.
    pub tes4_header: Option<Tes4Header>,
}

impl EspParser {
    /// A reader with these definitions, no strings table, search hashes on
    /// and plugin mode off.
    pub fn with_defs(defs: Vec<TranslatableField>) -> (r: Self)
        ensures
            r.record_defs@ == defs@,
            r.strings@.len() == 0,
            r.strings_files.strings is None && r.strings_files.dlstrings is None && r.strings_files.ilstrings is None,
            r.compressed_records == 0,
            r.current_parent_form_id == 0,
            r.build_search_index,
            !r.esp_mode,
            r.record_tree@.len() == 0,
            r.tes4_header is None,
    {
        EspParser {
            record_defs: defs,
            strings: Vec::new(),
            strings_files: StringsFiles::empty(),
            compressed_records: 0,
            current_parent_form_id: 0,
            build_search_index: true,
            esp_mode: false,
            record_tree: Vec::new(),
            tes4_header: None,
        }
    }

    /// Turns the lookup hashes of new strings on or off.
    pub fn set_build_search_index(&mut self, build_search_index: bool)
        ensures
            final(self).build_search_index == build_search_index,
            final(self).esp_mode == old(self).esp_mode,
            final(self).current_parent_form_id == old(self).current_parent_form_id,
            final(self).record_defs == old(self).record_defs,
            final(self).strings == old(self).strings,
            final(self).strings_files == old(self).strings_files,
            final(self).compressed_records == old(self).compressed_records,
            final(self).record_tree == old(self).record_tree,
            final(self).tes4_header == old(self).tes4_header,
    {
        self.build_search_index = build_search_index;
    }

    /// Turns plugin mode on: the next reading keeps the record tree and the
    /// plugin header for writing back.
    pub fn enable_esp_mode(&mut self)
        ensures
            final(self).esp_mode,
            final(self).build_search_index == old(self).build_search_index,
            final(self).current_parent_form_id == old(self).current_parent_form_id,
            final(self).record_defs == old(self).record_defs,
            final(self).strings == old(self).strings,
            final(self).strings_files == old(self).strings_files,
            final(self).compressed_records == old(self).compressed_records,
            final(self).record_tree == old(self).record_tree,
            final(self).tes4_header == old(self).tes4_header,
    {
        self.esp_mode = true;
    }

    pub fn is_esp_mode(&self) -> (r: bool)
        ensures
            r == self.esp_mode,
    {
        self.esp_mode
    }

    /// Replaces the strings tables.
    pub fn set_strings_files(&mut self, files: StringsFiles)
        ensures
            final(self).strings_files == files,
            final(self).esp_mode == old(self).esp_mode,
            final(self).build_search_index == old(self).build_search_index,
            final(self).current_parent_form_id == old(self).current_parent_form_id,
            final(self).record_defs == old(self).record_defs,
            final(self).strings == old(self).strings,
            final(self).compressed_records == old(self).compressed_records,
            final(self).record_tree == old(self).record_tree,
            final(self).tes4_header == old(self).tes4_header,
    {
        self.strings_files = files;
    }

    /// The definition that applies to a field of a record (see
    /// [`spec_find_def`]).
    pub fn find_def(&self, record_sig: &[u8; 4], field_sig: &[u8; 4]) -> (r: Option<&TranslatableField>)
        ensures
            match r {
                Some(d) => spec_find_def(self.record_defs@, record_sig@, field_sig@) == Some(*d),
                None => spec_find_def(self.record_defs@, record_sig@, field_sig@) is None,
            },
    {
        match last_def_index(&self.record_defs, record_sig, field_sig) {
            Some(i) => Some(&self.record_defs[i]),
            None => {
                let any: [u8; 4] = [0x2Au8, 0x2A, 0x2A, 0x2A];
                assert(any@ =~= sig_any());
                match last_def_index(&self.record_defs, &any, field_sig) {
                    Some(i) => Some(&self.record_defs[i]),
                    None => None,
                }
            },
        }
    }

    /// The string made of what was found in a field, as the `n`-th string.
    fn make_string(&self, n: usize, text: String, rec: [u8; 4], field: [u8; 4], str_id: u32, form_id: u32,
        index: u16, edid_hash: u32, list_index: u8, field_ref: Option<usize>) -> (r: SkyString)
        ensures
            string_is(r@, Found {
                text: text@, record_sig: rec@, field_sig: field@, str_id, form_id, index, edid_hash,
                list_index, parent: self.current_parent_form_id, field_ref,
            }, n as int, self.build_search_index),
    {
        let id = n as u32;
        let mut sk = if self.build_search_index {
            SkyString::new(id, text, String::new(), rec, field)
        } else {
            SkyString::new_without_search_index(id, text, String::new(), rec, field)
        };
        sk.esp_ptr = EspPointer {
            str_id: str_id as i32,
            form_id,
            record_sig: rec,
            field_sig: field,
            index,
            index_max: 1,
            edid_hash,
        };
        sk.params.set(SkyStringParams::INCOMPLETE_TRANS, true);
        sk.list_index = list_index;
        sk.parent_form_id = self.current_parent_form_id;
        sk.field_ref = field_ref;
        assert(sk@.id == n as int as u32);
        assert(sk@.translation == Seq::<char>::empty());
        assert(sk@.esp_ptr.str_id == str_id as i32);
        assert(sk@.params == with_flag(0, SkyStringParams::INCOMPLETE_TRANS, true));
        assert(sk@.record_sig@ == rec@);
        assert(sk@.esp_ptr.field_sig@ == field@);
        assert(sk@.hash_trans == str_hash(Seq::<char>::empty()));
        assert(sk@.normalized_hash == (if self.build_search_index { normalized_hash_of(text@) } else { None }));
        assert(sk@.word_hashes == (if self.build_search_index { run_hashes(text@) } else { Seq::<u32>::empty() }));
        sk
    }
}

/// The position of the last definition, not ignored, for exactly these
/// signatures (see [`last_def`]).
pub(crate) fn last_def_index(defs: &Vec<TranslatableField>, rec: &[u8; 4], field: &[u8; 4]) -> (r: Option<usize>)
    ensures
        match r {
            Some(i) => i < defs@.len() && last_def(defs@, rec@, field@, defs@.len() as int) == Some(defs@[i as int]),
            None => last_def(defs@, rec@, field@, defs@.len() as int) is None,
        },
{
    let mut n: usize = defs.len();
    while n > 0
        invariant
            n <= defs@.len(),
            last_def(defs@, rec@, field@, defs@.len() as int) == last_def(defs@, rec@, field@, n as int),
        decreases n,
    {
        let d = &defs[n - 1];
        if !d.ignored && crate::bytes::sig_eq(&d.record_sig, rec) && crate::bytes::sig_eq(&d.field_sig, field) {
            return Some(n - 1);
        }
        n = n - 1;
    }
    None
}

/// `a` is `b` with, at most, other strings.
pub open spec fn same_but_strings(a: EspParser, b: EspParser) -> bool {
    &&& a.record_defs == b.record_defs
    &&& a.strings_files == b.strings_files
    &&& a.compressed_records == b.compressed_records
    &&& a.current_parent_form_id == b.current_parent_form_id
    &&& a.build_search_index == b.build_search_index
    &&& a.esp_mode == b.esp_mode
    &&& a.record_tree == b.record_tree
    &&& a.tes4_header == b.tes4_header
}

proof fn lemma_strings_push(ss: Seq<SkyString>, fs: Seq<Found>, sk: SkyString, f: Found, indexed: bool)
    requires
        strings_are(ss, fs, indexed),
        string_is(sk@, f, ss.len() as int, indexed),
    ensures
        strings_are(ss.push(sk), fs.push(f), indexed),
{
    assert forall|i: int| 0 <= i < ss.len() + 1 implies string_is(#[trigger] ss.push(sk)[i]@, fs.push(f)[i], i, indexed) by {
        if i < ss.len() {
            assert(ss.push(sk)[i] == ss[i]);
            assert(fs.push(f)[i] == fs[i]);
        }
    }
}

impl EspParser {
    /// Adds the string of a field named by a definition, when it holds a
    /// four-byte id and its text is not empty.
    fn add_field_string(&mut self, record_sig: &[u8; 4], field_sig: &[u8; 4], list_index: u8, form_id: u32,
        buffer: &[u8], index: u16, edid_hash: u32, field_ref: Option<usize>, Ghost(prev): Ghost<Seq<Found>>)
        requires
            strings_are(old(self).strings@, prev, old(self).build_search_index),
        ensures
            same_but_strings(*final(self), *old(self)),
            strings_are(final(self).strings@, prev + (
                if buffer@.len() >= 4 && source_text(old(self).strings_files, list_index, le_u32(buffer@, 0)).len() > 0 {
                    seq![Found {
                        text: source_text(old(self).strings_files, list_index, le_u32(buffer@, 0)),
                        record_sig: record_sig@,
                        field_sig: field_sig@,
                        str_id: le_u32(buffer@, 0),
                        form_id,
                        index,
                        edid_hash,
                        list_index,
                        parent: old(self).current_parent_form_id,
                        field_ref,
                    }]
                } else {
                    Seq::empty()
                }), old(self).build_search_index),
    {
        if buffer.len() >= 4 {
            let sid = read_u32_le(buffer, 0);
            let text = match self.strings_files.get(list_index, sid) {
                Some(t) => t.clone(),
                None => placeholder_string(sid),
            };
            assert(text@ == source_text(self.strings_files, list_index, sid));
            if text.as_str().unicode_len() > 0 {
                let ghost f = Found {
                    text: text@, record_sig: record_sig@, field_sig: field_sig@, str_id: sid, form_id, index,
                    edid_hash, list_index, parent: self.current_parent_form_id, field_ref,
                };
                let sk = self.make_string(self.strings.len(), text, *record_sig, *field_sig, sid, form_id, index,
                    edid_hash, list_index, field_ref);
                proof {
                    lemma_strings_push(self.strings@, prev, sk, f, self.build_search_index);
                }
                self.strings.push(sk);
                assert(prev + seq![f] =~= prev.push(f));
                return;
            }
        }
        assert(prev + Seq::<Found>::empty() =~= prev);
    }

    /// Reads the fields of a record field by field and adds their strings
    /// (see [`direct_found`]).
    fn parse_record_fields_direct(&mut self, record_sig: &[u8; 4], form_id: u32, data: &[u8],
        Ghost(prev): Ghost<Seq<Found>>)
        requires
            strings_are(old(self).strings@, prev, old(self).build_search_index),
        ensures
            same_but_strings(*final(self), *old(self)),
            strings_are(final(self).strings@, prev + direct_found(old(self).record_defs@, old(self).strings_files,
                record_sig@, form_id, old(self).current_parent_form_id, data@, 0, 0, 0, None),
                old(self).build_search_index),
    {
        let ghost old_self = *self;
        let ghost defs = self.record_defs@;
        let ghost files = self.strings_files;
        let ghost parent = self.current_parent_form_id;
        let ghost total = direct_found(defs, files, record_sig@, form_id, parent, data@, 0, 0, 0, None);
        let mut pos: usize = 0;
        let mut next: u32 = 0;
        let mut fidx: u16 = 0;
        let mut edid: Option<String> = None;
        let mut done = false;
        let ghost mut acc: Seq<Found> = Seq::empty();
        while !done && pos < data.len() && data.len() - pos >= 6
            invariant
                pos <= data@.len(),
                same_but_strings(*self, old_self),
                defs == self.record_defs@,
                files == self.strings_files,
                parent == self.current_parent_form_id,
                strings_are(self.strings@, prev + acc, old_self.build_search_index),
                done ==> direct_found(defs, files, record_sig@, form_id, parent, data@, pos as int, next, fidx, opt_text(edid)) == Seq::<Found>::empty(),
                acc + direct_found(defs, files, record_sig@, form_id, parent, data@, pos as int, next, fidx, opt_text(edid)) == total,
            decreases data@.len() - pos, if done { 0int } else { 1int },
        {
            let name: [u8; 4] = [data[pos], data[pos + 1], data[pos + 2], data[pos + 3]];
            assert(name@ =~= data@.subrange(pos as int, pos + 4));
            let dsize = read_u16_le(data, pos + 4);
            let size: usize = if next > 0 { (next % 0x10000) as usize } else { dsize as usize };
            let p2 = pos + 6;
            if size > data.len() - p2 {
                done = true;
            } else {
                let ghost pos0 = pos as int;
                let ghost next0 = next;
                let ghost fidx0 = fidx;
                let ghost e0 = opt_text(edid);
                let fd = copy_range(data, p2, p2 + size);
                pos = p2 + size;
                if sig_is(&name, 0x58, 0x58, 0x58, 0x58) {
                    next = if fd.len() >= 4 { read_u32_le(fd.as_slice(), 0) } else { 0 };
                    assert(direct_found(defs, files, record_sig@, form_id, parent, data@, pos0, next0, fidx0, e0)
                        == direct_found(defs, files, record_sig@, form_id, parent, data@, pos as int, next, fidx, opt_text(edid)));
                } else {
                    next = 0;
                    if sig_is(&name, 0x45, 0x44, 0x49, 0x44) && fd.len() > 0 {
                        let pre = nul_prefix_of(fd.as_slice());
                        edid = Some(lossy_string(pre.as_slice()));
                    }
                    let ghost e2 = opt_text(edid);
                    let found_def = match self.find_def(record_sig, &name) {
                        Some(d) => Some(*d),
                        None => None,
                    };
                    match found_def {
                        Some(d) => {
                            let is_string_gmst = match &edid {
                                Some(e) => e.as_str().unicode_len() > 0 && e.as_str().get_char(0) == 's',
                                None => false,
                            };
                            if sig_is(record_sig, 0x47, 0x4D, 0x53, 0x54) && sig_is(&name, 0x44, 0x41, 0x54, 0x41)
                                && !is_string_gmst {
                                assert(direct_found(defs, files, record_sig@, form_id, parent, data@, pos0, next0, fidx0, e0)
                                    == direct_found(defs, files, record_sig@, form_id, parent, data@, pos as int, next, fidx, e2));
                            } else {
                                let eh = match &edid {
                                    Some(e) => string_hash(e.as_str()),
                                    None => 0,
                                };
                                let ghost before = acc;
                                let ghost here = if fd@.len() >= 4 && source_text(files, d.list_index, le_u32(fd@, 0)).len() > 0 {
                                    seq![Found {
                                        text: source_text(files, d.list_index, le_u32(fd@, 0)),
                                        record_sig: record_sig@,
                                        field_sig: name@,
                                        str_id: le_u32(fd@, 0),
                                        form_id,
                                        index: fidx,
                                        edid_hash: edid_hash(e2),
                                        list_index: d.list_index,
                                        parent,
                                        field_ref: None,
                                    }]
                                } else {
                                    Seq::<Found>::empty()
                                };
                                self.add_field_string(record_sig, &name, d.list_index, form_id, fd.as_slice(), fidx, eh,
                                    None, Ghost(prev + acc));
                                proof {
                                    acc = before + here;
                                    assert(prev + before + here =~= prev + acc);
                                }
                                fidx = if fidx == 0xFFFF { 0 } else { fidx + 1 };
                                assert(direct_found(defs, files, record_sig@, form_id, parent, data@, pos0, next0, fidx0, e0)
                                    == here + direct_found(defs, files, record_sig@, form_id, parent, data@, pos as int, next, fidx, e2));
                                assert(before + here + direct_found(defs, files, record_sig@, form_id, parent, data@, pos as int, next, fidx, e2)
                                    =~= before + (here + direct_found(defs, files, record_sig@, form_id, parent, data@, pos as int, next, fidx, e2)));
                            }
                        },
                        None => {
                            fidx = if fidx == 0xFFFF { 0 } else { fidx + 1 };
                            assert(direct_found(defs, files, record_sig@, form_id, parent, data@, pos0, next0, fidx0, e0)
                                == direct_found(defs, files, record_sig@, form_id, parent, data@, pos as int, next, fidx, e2));
                        },
                    }
                }
            }
        }
        assert(direct_found(defs, files, record_sig@, form_id, parent, data@, pos as int, next, fidx, opt_text(edid)) =~= Seq::<Found>::empty());
        assert(acc =~= total);
    }
}

/// The strings found in the decoded fields of a record (the way records in
/// groups are read): `XXXX` fields are passed over and not counted; a field
/// named by a definition gives a string when it holds a four-byte id and its
/// text is not empty, and the string remembers the field's position in the
/// list; `DATA` of a `GMST` counts only when the record's editor id starts
/// with `s`.
pub open spec fn tree_found(defs: Seq<TranslatableField>, files: StringsFiles, rec: Seq<u8>, form_id: u32,
    parent: u32, fs: Seq<FieldView>, edid: Option<Seq<char>>, k: int, fidx: u16) -> Seq<Found>
    decreases fs.len() - k,
{
    if k < 0 || k >= fs.len() {
        Seq::empty()
    } else {
        let f = fs[k];
        if f.is_xxxx {
            tree_found(defs, files, rec, form_id, parent, fs, edid, k + 1, fidx)
        } else {
            let rest = tree_found(defs, files, rec, form_id, parent, fs, edid, k + 1, next_index(fidx));
            match spec_find_def(defs, rec, f.name) {
                Some(d) => if rec == sig_gmst() && f.name == sig_data() && !edid_is_string(edid) {
                    rest
                } else if f.buffer.len() >= 4 && source_text(files, d.list_index, le_u32(f.buffer, 0)).len() > 0 {
                    seq![Found {
                        text: source_text(files, d.list_index, le_u32(f.buffer, 0)),
                        record_sig: rec,
                        field_sig: f.name,
                        str_id: le_u32(f.buffer, 0),
                        form_id,
                        index: fidx,
                        edid_hash: edid_hash(edid),
                        list_index: d.list_index,
                        parent,
                        field_ref: Some(k as usize),
                    }] + rest
                } else {
                    rest
                },
                None => rest,
            }
        }
    }
}

/// The data of the first `EDID` field from position `k` on.
pub open spec fn first_edid(fs: Seq<FieldView>, k: int) -> Option<Seq<u8>>
    decreases fs.len() - k,
{
    if k < 0 || k >= fs.len() {
        None
    } else if fs[k].name == sig_edid() {
        Some(fs[k].buffer)
    } else {
        first_edid(fs, k + 1)
    }
}

/// A record's editor id: the text before the first zero byte of its first
/// `EDID` field, when that is valid UTF-8.
pub open spec fn tree_edid(fs: Seq<FieldView>) -> Option<Seq<char>> {
    match first_edid(fs, 0) {
        Some(b) => if vstd::utf8::valid_utf8(nul_prefix(b)) {
            Some(vstd::utf8::decode_utf8(nul_prefix(b)))
        } else {
            None
        },
        None => None,
    }
}

/// The data of a compressed record, as [`decompress_bethesda_record`]
/// gives it, or `None` when it cannot be had.
pub open spec fn decompressed(data: Seq<u8>) -> Option<Seq<u8>> {
    if data.len() < 4 {
        None
    } else {
        let size = le_u32(data, 0);
        if size == 0 {
            Some(Seq::empty())
        } else if size > 100_000_000 {
            None
        } else if data.len() == 4 {
            Some(Seq::new(size as nat, |i: int| 0u8))
        } else {
            crate::zlib::zlib_inflate(data.subrange(4, data.len() as int))
        }
    }
}

/// A record as read: header, fields, flags, editor id and kept data.
pub struct RecordV {
    pub name: Seq<u8>,
    pub dsize: u32,
    pub rhd: RecordHeaderData,
    pub fields: Seq<FieldView>,
    pub compressed: bool,
    pub raw: bool,
    pub editor_id: Option<Seq<char>>,
    pub data: Seq<u8>,
}

/// The record with this header and stored data: compressed data is
/// decompressed first; data that cannot be decompressed is kept raw, with
/// no fields.
pub open spec fn record_of(name: Seq<u8>, dsize: u32, rhd: RecordHeaderData, rd: Seq<u8>) -> RecordV {
    let comp = rhd.flags & 0x0004_0000 != 0;
    let dec = if comp { decompressed(rd) } else { Some(rd) };
    match dec {
        Some(d) => RecordV {
            name, dsize, rhd,
            fields: spec_parse_fields(d, 0, None),
            compressed: comp,
            raw: false,
            editor_id: tree_edid(spec_parse_fields(d, 0, None)),
            data: d,
        },
        None => RecordV {
            name, dsize, rhd,
            fields: Seq::empty(),
            compressed: comp,
            raw: true,
            editor_id: None,
            data: rd,
        },
    }
}

/// A group as read: header, records and nested groups.
pub struct GrupV {
    pub dsize: u32,
    pub s_ident: Seq<u8>,
    pub s_type: u32,
    pub s_tstamp: u16,
    pub param1: u16,
    pub param2: u16,
    pub param3: u16,
    pub records: Seq<RecordV>,
    pub children: Seq<GrupV>,
}

/// What a stretch of groups and records gives: strings, records, groups,
/// the number of compressed records, and the parent form id after it.
pub struct Parsed {
    pub found: Seq<Found>,
    pub records: Seq<RecordV>,
    pub children: Seq<GrupV>,
    pub compressed: nat,
    pub parent: u32,
}

/// Nothing read.
pub open spec fn nothing(parent: u32) -> Parsed {
    Parsed { found: Seq::empty(), records: Seq::empty(), children: Seq::empty(), compressed: 0, parent }
}

/// `a`, then `b`.
pub open spec fn concat(a: Parsed, b: Parsed) -> Parsed {
    Parsed {
        found: a.found + b.found,
        records: a.records + b.records,
        children: a.children + b.children,
        compressed: a.compressed + b.compressed,
        parent: b.parent,
    }
}

/// The payload size of a group of stated size `dsize` (its 24 header
/// bytes are part of the size).
pub open spec fn grup_span(dsize: u32) -> int {
    if dsize >= 24 { dsize - 24 } else { 0 }
}

/// Where the group or record at `pos` ends, or -1 when its header or data
/// runs past `end`.
pub open spec fn item_end(data: Seq<u8>, pos: int, end: int) -> int {
    if pos < 0 || pos + 24 > end {
        -1
    } else {
        let dsize = le_u32(data, pos + 4);
        let len: int = if data.subrange(pos, pos + 4) == sig_grup() { grup_span(dsize) } else { dsize as int };
        if pos + 24 + len > end { -1 } else { pos + 24 + len }
    }
}

/// The parent form id after a group or record at `pos` that runs past
/// `end`: a group whose header was read sets it to its own type field when
/// that is not zero.
pub open spec fn stop_parent(data: Seq<u8>, pos: int, end: int, parent: u32) -> u32 {
    if pos + 24 <= end && data.subrange(pos, pos + 4) == sig_grup() && le_u32(data, pos + 12) != 0 {
        le_u32(data, pos + 12)
    } else {
        parent
    }
}

/// What the groups and records between `pos` and `end` give, read one after
/// the other until one runs past `end`. The records of a group get the
/// group's type field as parent form id when it is not zero.
pub open spec fn items(defs: Seq<TranslatableField>, files: StringsFiles, data: Seq<u8>, pos: int, end: int,
    parent: u32) -> Parsed
    decreases end - pos, 1int,
{
    if pos < 0 || pos >= end || end > data.len() {
        nothing(parent)
    } else {
        let q = item_end(data, pos, end);
        if q < 0 {
            nothing(stop_parent(data, pos, end, parent))
        } else {
            concat(item_out(defs, files, data, pos, end, parent), items(defs, files, data, q, end, parent))
        }
    }
}

/// What the complete group or record at `pos` gives.
pub open spec fn item_out(defs: Seq<TranslatableField>, files: StringsFiles, data: Seq<u8>, pos: int, end: int,
    parent: u32) -> Parsed
    decreases end - pos, 0int,
{
    if pos < 0 || pos + 24 > end || end > data.len() {
        nothing(parent)
    } else {
        let name = data.subrange(pos, pos + 4);
        let dsize = le_u32(data, pos + 4);
        if name == sig_grup() {
            let span = grup_span(dsize);
            if span > end - pos - 24 {
                nothing(parent)
            } else {
                let s_type = le_u32(data, pos + 12);
                let np = if s_type != 0 { s_type } else { parent };
                let inner = items(defs, files, data, pos + 24, pos + 24 + span, np);
                Parsed {
                    found: inner.found,
                    records: Seq::empty(),
                    children: seq![GrupV {
                        dsize,
                        s_ident: data.subrange(pos + 8, pos + 12),
                        s_type,
                        s_tstamp: le_u16(data, pos + 16),
                        param1: le_u16(data, pos + 18),
                        param2: le_u16(data, pos + 20),
                        param3: le_u16(data, pos + 22),
                        records: inner.records,
                        children: inner.children,
                    }],
                    compressed: inner.compressed,
                    parent,
                }
            }
        } else if dsize > end - pos - 24 {
            nothing(parent)
        } else {
            let rhd = RecordHeaderData {
                flags: le_u32(data, pos + 8),
                form_id: le_u32(data, pos + 12),
                version: le_u32(data, pos + 16),
                f_version: le_u16(data, pos + 20),
                v_info: le_u16(data, pos + 22),
            };
            let rv = record_of(name, dsize, rhd, data.subrange(pos + 24, pos + 24 + dsize));
            Parsed {
                found: if rv.raw { Seq::empty() } else {
                    tree_found(defs, files, name, rhd.form_id, parent, rv.fields, rv.editor_id, 0, 0)
                },
                records: seq![rv],
                children: Seq::empty(),
                compressed: if rv.compressed { 1 } else { 0 },
                parent,
            }
        }
    }
}

/// `r` holds what `v` describes.
pub open spec fn record_is(r: EspRecord, v: RecordV) -> bool {
    &&& r.header.name@ == v.name
    &&& r.header.dsize == v.dsize
    &&& r.record_header_data == v.rhd
    &&& fields_view(r.fields@) == v.fields
    &&& r.compressed == v.compressed
    &&& r.raw == v.raw
    &&& r.form_id == v.rhd.form_id
    &&& opt_text(r.editor_id) == v.editor_id
    &&& r.original_raw_data@ == v.data
}

/// `rs` holds what `vs` describes, in order.
pub open spec fn records_are(rs: Seq<EspRecord>, vs: Seq<RecordV>) -> bool {
    &&& rs.len() == vs.len()
    &&& forall|i: int| 0 <= i < rs.len() ==> record_is(#[trigger] rs[i], vs[i])
}

/// `g` holds what `v` describes, at every depth.
pub open spec fn grup_is(g: EspGrup, v: GrupV) -> bool
    decreases v,
{
    &&& g.header.name@ == sig_grup()
    &&& g.header.dsize == v.dsize
    &&& g.grup_header.s_ident@ == v.s_ident
    &&& g.grup_header.s_type == v.s_type
    &&& g.grup_header.s_tstamp == v.s_tstamp
    &&& g.grup_header.param1 == v.param1
    &&& g.grup_header.param2 == v.param2
    &&& g.grup_header.param3 == v.param3
    &&& records_are(g.records@, v.records)
    &&& g.children@.len() == v.children.len()
    &&& forall|i: int| 0 <= i < v.children.len() ==> grup_is(#[trigger] g.children@[i], v.children[i])
}

/// `gs` holds what `vs` describes, in order.
pub open spec fn grups_are(gs: Seq<EspGrup>, vs: Seq<GrupV>) -> bool {
    &&& gs.len() == vs.len()
    &&& forall|i: int| 0 <= i < gs.len() ==> grup_is(#[trigger] gs[i], vs[i])
}

/// A record's editor id (see [`tree_edid`]).
fn editor_id_of(fields: &Vec<EspField>) -> (r: Option<String>)
    ensures
        opt_text(r) == tree_edid(fields_view(fields@)),
{
    let ghost fv = fields_view(fields@);
    let mut k: usize = 0;
    while k < fields.len()
        invariant
            k <= fields@.len(),
            fv == fields_view(fields@),
            first_edid(fv, 0) == first_edid(fv, k as int),
        decreases fields@.len() - k,
    {
        assert(fv[k as int] == fields@[k as int]@);
        if sig_is(&fields[k].header.name, 0x45, 0x44, 0x49, 0x44) {
            let pre = nul_prefix_of(fields[k].buffer.as_slice());
            return utf8_text(pre.as_slice());
        }
        k = k + 1;
    }
    None
}

impl EspParser {
    /// Adds the strings found in the decoded fields of a record (see
    /// [`tree_found`]).
    fn extract_strings_from_fields(&mut self, record_sig: &[u8; 4], form_id: u32, fields: &Vec<EspField>,
        edid: &Option<String>, Ghost(prev): Ghost<Seq<Found>>)
        requires
            strings_are(old(self).strings@, prev, old(self).build_search_index),
        ensures
            same_but_strings(*final(self), *old(self)),
            strings_are(final(self).strings@, prev + tree_found(old(self).record_defs@, old(self).strings_files,
                record_sig@, form_id, old(self).current_parent_form_id, fields_view(fields@), opt_text(*edid), 0, 0),
                old(self).build_search_index),
    {
        let ghost old_self = *self;
        let ghost defs = self.record_defs@;
        let ghost files = self.strings_files;
        let ghost parent = self.current_parent_form_id;
        let ghost fv = fields_view(fields@);
        let ghost e = opt_text(*edid);
        let ghost total = tree_found(defs, files, record_sig@, form_id, parent, fv, e, 0, 0);
        let is_string_gmst = match edid {
            Some(t) => t.as_str().unicode_len() > 0 && t.as_str().get_char(0) == 's',
            None => false,
        };
        let eh = match edid {
            Some(t) => string_hash(t.as_str()),
            None => 0,
        };
        let is_gmst = sig_is(record_sig, 0x47, 0x4D, 0x53, 0x54);
        let mut fidx: u16 = 0;
        let mut k: usize = 0;
        let ghost mut acc: Seq<Found> = Seq::empty();
        while k < fields.len()
            invariant
                k <= fields@.len(),
                fv == fields_view(fields@),
                same_but_strings(*self, old_self),
                defs == self.record_defs@,
                files == self.strings_files,
                parent == self.current_parent_form_id,
                is_string_gmst == edid_is_string(e),
                eh == edid_hash(e),
                is_gmst == (record_sig@ == sig_gmst()),
                strings_are(self.strings@, prev + acc, old_self.build_search_index),
                acc + tree_found(defs, files, record_sig@, form_id, parent, fv, e, k as int, fidx) == total,
            decreases fields@.len() - k,
        {
            let f = &fields[k];
            assert(fv[k as int] == f@);
            let ghost fidx0 = fidx;
            let ghost k0 = k as int;
            if f.is_size_xxxx {
                k = k + 1;
                assert(tree_found(defs, files, record_sig@, form_id, parent, fv, e, k0, fidx0)
                    == tree_found(defs, files, record_sig@, form_id, parent, fv, e, k as int, fidx));
            } else {
                let found_def = match self.find_def(record_sig, &f.header.name) {
                    Some(d) => Some(*d),
                    None => None,
                };
                let nf: u16 = if fidx == 0xFFFF { 0 } else { fidx + 1 };
                let ghost rest = tree_found(defs, files, record_sig@, form_id, parent, fv, e, k0 + 1, nf);
                match found_def {
                    Some(d) => {
                        if is_gmst && sig_is(&f.header.name, 0x44, 0x41, 0x54, 0x41) && !is_string_gmst {
                            assert(tree_found(defs, files, record_sig@, form_id, parent, fv, e, k0, fidx0) == rest);
                        } else {
                            let ghost before = acc;
                            let ghost here = if f.buffer@.len() >= 4 && source_text(files, d.list_index, le_u32(f.buffer@, 0)).len() > 0 {
                                seq![Found {
                                    text: source_text(files, d.list_index, le_u32(f.buffer@, 0)),
                                    record_sig: record_sig@,
                                    field_sig: f.header.name@,
                                    str_id: le_u32(f.buffer@, 0),
                                    form_id,
                                    index: fidx,
                                    edid_hash: eh,
                                    list_index: d.list_index,
                                    parent,
                                    field_ref: Some(k),
                                }]
                            } else {
                                Seq::<Found>::empty()
                            };
                            self.add_field_string(record_sig, &f.header.name, d.list_index, form_id, f.buffer.as_slice(),
                                fidx, eh, Some(k), Ghost(prev + acc));
                            proof {
                                acc = before + here;
                                assert(prev + before + here =~= prev + acc);
                                assert(k0 as usize == k);
                                assert(tree_found(defs, files, record_sig@, form_id, parent, fv, e, k0, fidx0) == here + rest);
                                assert(before + here + rest =~= before + (here + rest));
                            }
                        }
                    },
                    None => {
                        assert(tree_found(defs, files, record_sig@, form_id, parent, fv, e, k0, fidx0) == rest);
                    },
                }
                fidx = nf;
                k = k + 1;
            }
        }
        assert(tree_found(defs, files, record_sig@, form_id, parent, fv, e, k as int, fidx) =~= Seq::<Found>::empty());
        assert(acc =~= total);
    }
}

/// `c + n`, stopping at `u32::MAX`.
pub open spec fn sat_add(c: u32, n: nat) -> u32 {
    if c + n > u32::MAX { u32::MAX } else { (c + n) as u32 }
}

/// `a` reads with what `b` reads with and holds the same tree.
pub open spec fn same_config(a: EspParser, b: EspParser) -> bool {
    &&& a.record_defs == b.record_defs
    &&& a.strings_files == b.strings_files
    &&& a.build_search_index == b.build_search_index
    &&& a.esp_mode == b.esp_mode
    &&& a.record_tree == b.record_tree
    &&& a.tes4_header == b.tes4_header
}

proof fn lemma_concat_assoc(a: Parsed, b: Parsed, c: Parsed)
    ensures
        concat(concat(a, b), c) == concat(a, concat(b, c)),
{
    assert(concat(concat(a, b), c).found =~= concat(a, concat(b, c)).found);
    assert(concat(concat(a, b), c).records =~= concat(a, concat(b, c)).records);
    assert(concat(concat(a, b), c).children =~= concat(a, concat(b, c)).children);
}

proof fn lemma_records_push(rs: Seq<EspRecord>, vs: Seq<RecordV>, r: EspRecord, v: RecordV)
    requires
        records_are(rs, vs),
        record_is(r, v),
    ensures
        records_are(rs.push(r), vs + seq![v]),
{
    assert(vs + seq![v] =~= vs.push(v));
    assert forall|i: int| 0 <= i < rs.len() + 1 implies record_is(#[trigger] rs.push(r)[i], vs.push(v)[i]) by {
        if i < rs.len() {
            assert(rs.push(r)[i] == rs[i]);
        }
    }
}

proof fn lemma_grups_push(gs: Seq<EspGrup>, vs: Seq<GrupV>, g: EspGrup, v: GrupV)
    requires
        grups_are(gs, vs),
        grup_is(g, v),
    ensures
        grups_are(gs.push(g), vs + seq![v]),
{
    assert(vs + seq![v] =~= vs.push(v));
    assert forall|i: int| 0 <= i < gs.len() + 1 implies grup_is(#[trigger] gs.push(g)[i], vs.push(v)[i]) by {
        if i < gs.len() {
            assert(gs.push(g)[i] == gs[i]);
        }
    }
}

impl EspParser {
    /// Reads the complete record at `pos`: its fields (decompressed first
    /// when compressed), its editor id and its strings; keeps it in plugin
    /// mode.
    fn parse_record(&mut self, data: &[u8], pos: usize, end: usize, records: &mut Vec<EspRecord>,
        Ghost(prev): Ghost<Seq<Found>>, Ghost(rv0): Ghost<Seq<RecordV>>)
        requires
            pos + 24 <= end <= data@.len(),
            data@.subrange(pos as int, pos + 4) != sig_grup(),
            le_u32(data@, pos + 4) <= end - pos - 24,
            strings_are(old(self).strings@, prev, old(self).build_search_index),
            records_are(old(records)@, rv0),
        ensures
            same_config(*final(self), *old(self)),
            final(self).current_parent_form_id == old(self).current_parent_form_id,
            ({
                let out = item_out(old(self).record_defs@, old(self).strings_files, data@, pos as int, end as int,
                    old(self).current_parent_form_id);
                &&& strings_are(final(self).strings@, prev + out.found, old(self).build_search_index)
                &&& records_are(final(records)@, if old(self).esp_mode { rv0 + out.records } else { rv0 })
                &&& final(self).compressed_records == sat_add(old(self).compressed_records, out.compressed)
            }),
    {
        let name: [u8; 4] = [data[pos], data[pos + 1], data[pos + 2], data[pos + 3]];
        assert(name@ =~= data@.subrange(pos as int, pos + 4));
        let dsize = read_u32_le(data, pos + 4);
        let rhd = match RecordHeaderData::from_bytes(data, pos + 8) {
            Some(h) => h,
            None => { return; },
        };
        let rd = copy_range(data, pos + 24, pos + 24 + dsize as usize);
        let ghost rv = record_of(name@, dsize, rhd, rd@);
        let comp = rhd.is_compressed();
        if comp && self.compressed_records < u32::MAX {
            self.compressed_records = self.compressed_records + 1;
        }
        let (fields, kept, raw) = if comp {
            match decompress_bethesda_record(rd.as_slice()) {
                Ok(d) => {
                    assert(decompressed(rd@) == Some(d@));
                    (EspField::parse_fields(d.as_slice()), d, false)
                },
                Err(_) => {
                    assert(decompressed(rd@) is None);
                    (Vec::new(), rd, true)
                },
            }
        } else {
            (EspField::parse_fields(rd.as_slice()), rd, false)
        };
        assert(fields_view(fields@) == rv.fields) by {
            if raw {
                assert(fields_view(fields@) =~= Seq::<FieldView>::empty());
            }
        }
        let editor_id = if raw { None } else { editor_id_of(&fields) };
        if !raw {
            self.extract_strings_from_fields(&name, rhd.form_id, &fields, &editor_id, Ghost(prev));
        } else {
            assert(prev + Seq::<Found>::empty() =~= prev);
        }
        if self.esp_mode {
            let rec = EspRecord {
                header: GenericHeader { name, dsize },
                record_header_data: rhd,
                fields,
                compressed: comp,
                raw,
                form_id: rhd.form_id,
                editor_id,
                original_raw_data: kept,
            };
            proof {
                lemma_records_push(records@, rv0, rec, rv);
            }
            records.push(rec);
        } else {
            assert(rv0 == rv0);
        }
    }
}

impl EspParser {
    /// Reads the groups and records between `pos` and `end` (see [`items`]).
    fn parse_items(&mut self, data: &[u8], pos: usize, end: usize, records: &mut Vec<EspRecord>,
        children: &mut Vec<EspGrup>, Ghost(prev): Ghost<Seq<Found>>, Ghost(rv0): Ghost<Seq<RecordV>>,
        Ghost(gv0): Ghost<Seq<GrupV>>)
        requires
            pos <= end <= data@.len(),
            strings_are(old(self).strings@, prev, old(self).build_search_index),
            records_are(old(records)@, rv0),
            grups_are(old(children)@, gv0),
        ensures
            same_config(*final(self), *old(self)),
            ({
                let out = items(old(self).record_defs@, old(self).strings_files, data@, pos as int, end as int,
                    old(self).current_parent_form_id);
                &&& strings_are(final(self).strings@, prev + out.found, old(self).build_search_index)
                &&& records_are(final(records)@, if old(self).esp_mode { rv0 + out.records } else { rv0 })
                &&& grups_are(final(children)@, if old(self).esp_mode { gv0 + out.children } else { gv0 })
                &&& final(self).compressed_records == sat_add(old(self).compressed_records, out.compressed)
                &&& final(self).current_parent_form_id == out.parent
            }),
        decreases end - pos, 1int,
    {
        let ghost old_self = *self;
        let ghost defs = self.record_defs@;
        let ghost files = self.strings_files;
        let ghost par0 = self.current_parent_form_id;
        let ghost esp = self.esp_mode;
        let ghost c0 = self.compressed_records;
        let ghost total = items(defs, files, data@, pos as int, end as int, par0);
        let ghost mut acc: Parsed = nothing(par0);
        let mut p: usize = pos;
        let mut done = false;
        proof {
            assert(prev + acc.found =~= prev);
            assert(rv0 + acc.records =~= rv0);
            assert(gv0 + acc.children =~= gv0);
            let t = concat(acc, total);
            assert(t.found =~= total.found);
            assert(t.records =~= total.records);
            assert(t.children =~= total.children);
        }
        while !done && p < end
            invariant
                pos <= p <= end <= data@.len(),
                same_config(*self, old_self),
                defs == self.record_defs@,
                files == self.strings_files,
                esp == self.esp_mode,
                strings_are(self.strings@, prev + acc.found, old_self.build_search_index),
                records_are(records@, if esp { rv0 + acc.records } else { rv0 }),
                grups_are(children@, if esp { gv0 + acc.children } else { gv0 }),
                self.compressed_records == sat_add(c0, acc.compressed),
                !done ==> self.current_parent_form_id == par0,
                !done ==> concat(acc, items(defs, files, data@, p as int, end as int, par0)) == total,
                done ==> acc == total && self.current_parent_form_id == total.parent,
            decreases end - p, if done { 0int } else { 1int },
        {
            let ghost rest = items(defs, files, data@, p as int, end as int, par0);
            let is_grup = end - p >= 24 && sig_is(&[data[p], data[p + 1], data[p + 2], data[p + 3]], 0x47, 0x52, 0x55, 0x50);
            proof {
                if end - p >= 24 {
                    assert(seq![data@[p as int], data@[p + 1], data@[p + 2], data@[p + 3]] =~= data@.subrange(p as int, p + 4));
                }
            }
            let mut complete = false;
            let mut len: usize = 0;
            if end - p >= 24 {
                let dsize = read_u32_le(data, p + 4) as usize;
                len = if is_grup { if dsize >= 24 { dsize - 24 } else { 0 } } else { dsize };
                complete = len <= end - p - 24;
            }
            if !complete {
                if is_grup {
                    let st = read_u32_le(data, p + 12);
                    if st != 0 {
                        self.current_parent_form_id = st;
                    }
                }
                proof {
                    assert(item_end(data@, p as int, end as int) < 0);
                    assert(rest == nothing(stop_parent(data@, p as int, end as int, par0)));
                    let a2 = concat(acc, rest);
                    assert(a2.found =~= acc.found);
                    assert(a2.records =~= acc.records);
                    assert(a2.children =~= acc.children);
                    acc = a2;
                }
                done = true;
            } else {
                let q = p + 24 + len;
                let ghost one = item_out(defs, files, data@, p as int, end as int, par0);
                assert(item_end(data@, p as int, end as int) == q);
                assert(rest == concat(one, items(defs, files, data@, q as int, end as int, par0)));
                self.parse_item(data, p, end, records, children, Ghost(prev + acc.found),
                    Ghost(if esp { rv0 + acc.records } else { rv0 }), Ghost(if esp { gv0 + acc.children } else { gv0 }));
                proof {
                    lemma_concat_assoc(acc, one, items(defs, files, data@, q as int, end as int, par0));
                    let a2 = concat(acc, one);
                    assert(prev + acc.found + one.found =~= prev + a2.found);
                    assert(rv0 + acc.records + one.records =~= rv0 + a2.records);
                    assert(gv0 + acc.children + one.children =~= gv0 + a2.children);
                    acc = a2;
                }
                p = q;
            }
        }
        proof {
            if !done {
                assert(items(defs, files, data@, p as int, end as int, par0) == nothing(par0));
                let t = concat(acc, nothing(par0));
                assert(t.found =~= acc.found);
                assert(t.records =~= acc.records);
                assert(t.children =~= acc.children);
            }
        }
    }

    /// Reads the complete group or record at `pos` (see [`item_out`]).
    fn parse_item(&mut self, data: &[u8], pos: usize, end: usize, records: &mut Vec<EspRecord>,
        children: &mut Vec<EspGrup>, Ghost(prev): Ghost<Seq<Found>>, Ghost(rv0): Ghost<Seq<RecordV>>,
        Ghost(gv0): Ghost<Seq<GrupV>>)
        requires
            pos < end <= data@.len(),
            item_end(data@, pos as int, end as int) >= 0,
            strings_are(old(self).strings@, prev, old(self).build_search_index),
            records_are(old(records)@, rv0),
            grups_are(old(children)@, gv0),
        ensures
            same_config(*final(self), *old(self)),
            final(self).current_parent_form_id == old(self).current_parent_form_id,
            ({
                let out = item_out(old(self).record_defs@, old(self).strings_files, data@, pos as int, end as int,
                    old(self).current_parent_form_id);
                &&& strings_are(final(self).strings@, prev + out.found, old(self).build_search_index)
                &&& records_are(final(records)@, if old(self).esp_mode { rv0 + out.records } else { rv0 })
                &&& grups_are(final(children)@, if old(self).esp_mode { gv0 + out.children } else { gv0 })
                &&& final(self).compressed_records == sat_add(old(self).compressed_records, out.compressed)
            }),
        decreases end - pos, 0int,
    {
        let name: [u8; 4] = [data[pos], data[pos + 1], data[pos + 2], data[pos + 3]];
        assert(name@ =~= data@.subrange(pos as int, pos + 4));
        if !sig_is(&name, 0x47, 0x52, 0x55, 0x50) {
            self.parse_record(data, pos, end, records, Ghost(prev), Ghost(rv0));
            assert(gv0 + Seq::<GrupV>::empty() =~= gv0);
            return;
        }
        let ghost old_self = *self;
        let dsize = read_u32_le(data, pos + 4);
        let span: usize = if dsize >= 24 { (dsize - 24) as usize } else { 0 };
        let s_ident: [u8; 4] = [data[pos + 8], data[pos + 9], data[pos + 10], data[pos + 11]];
        assert(s_ident@ =~= data@.subrange(pos + 8, pos + 12));
        let s_type = read_u32_le(data, pos + 12);
        let s_tstamp = read_u16_le(data, pos + 16);
        let param1 = read_u16_le(data, pos + 18);
        let param2 = read_u16_le(data, pos + 20);
        let param3 = read_u16_le(data, pos + 22);
        let saved = self.current_parent_form_id;
        if s_type != 0 {
            self.current_parent_form_id = s_type;
        }
        let mut recs: Vec<EspRecord> = Vec::new();
        let mut kids: Vec<EspGrup> = Vec::new();
        self.parse_items(data, pos + 24, pos + 24 + span, &mut recs, &mut kids, Ghost(prev),
            Ghost(Seq::<RecordV>::empty()), Ghost(Seq::<GrupV>::empty()));
        self.current_parent_form_id = saved;
        let ghost inner = items(old_self.record_defs@, old_self.strings_files, data@, pos + 24, pos + 24 + span,
            if s_type != 0 { s_type } else { saved });
        assert(rv0 + Seq::<RecordV>::empty() =~= rv0);
        if self.esp_mode {
            let g = EspGrup {
                header: GenericHeader { name, dsize },
                grup_header: GrupHeader { s_ident, s_type, s_tstamp, param1, param2, param3 },
                records: recs,
                children: kids,
            };
            let ghost gv = GrupV {
                dsize,
                s_ident: data@.subrange(pos + 8, pos + 12),
                s_type,
                s_tstamp,
                param1,
                param2,
                param3,
                records: inner.records,
                children: inner.children,
            };
            proof {
                assert(Seq::<RecordV>::empty() + inner.records =~= inner.records);
                assert(Seq::<GrupV>::empty() + inner.children =~= inner.children);
                assert(grup_is(g, gv));
                lemma_grups_push(children@, gv0, g, gv);
            }
            children.push(g);
        } else {
            assert(gv0 == gv0);
        }
    }
}

/// What the top level of a plugin gives from `pos` on: groups are read as
/// [`items`] read them, with the parent form id as it stands; a top-level
/// record is passed over (its header and `dsize` bytes); the reading stops
/// at the first group or record that runs past the end.
pub open spec fn top_items(defs: Seq<TranslatableField>, files: StringsFiles, data: Seq<u8>, pos: int,
    parent: u32) -> Parsed
    decreases data.len() - pos,
{
    if pos < 0 || pos + 8 > data.len() {
        nothing(parent)
    } else {
        let dsize = le_u32(data, pos + 4);
        if data.subrange(pos, pos + 4) == sig_grup() {
            let span = grup_span(dsize);
            if pos + 24 > data.len() || span > data.len() - pos - 24 {
                nothing(parent)
            } else {
                let inner = items(defs, files, data, pos + 24, pos + 24 + span, parent);
                let g = GrupV {
                    dsize,
                    s_ident: data.subrange(pos + 8, pos + 12),
                    s_type: le_u32(data, pos + 12),
                    s_tstamp: le_u16(data, pos + 16),
                    param1: le_u16(data, pos + 18),
                    param2: le_u16(data, pos + 20),
                    param3: le_u16(data, pos + 22),
                    records: inner.records,
                    children: inner.children,
                };
                concat(
                    Parsed { found: inner.found, records: Seq::empty(), children: seq![g], compressed: inner.compressed,
                        parent: inner.parent },
                    top_items(defs, files, data, pos + 24 + span, inner.parent),
                )
            }
        } else if dsize > data.len() - pos - 8 {
            nothing(parent)
        } else {
            top_items(defs, files, data, pos + 8 + dsize, parent)
        }
    }
}

/// Why a plugin could not be read.
#[derive(Clone, Copy, Debug, PartialEq, Eq, Structural)]
pub enum EspParseError {
    /// The plugin header is cut short.
    UnexpectedEof,
    /// The file does not start with a `TES4` record.
    NotTes4,
}

/// Whether the plugin header of `data` is complete: a `TES4` record whose
/// 24 header bytes and stated data size fit.
pub open spec fn tes4_complete(data: Seq<u8>) -> bool {
    data.len() >= 24 && le_u32(data, 4) <= data.len() - 24
}

impl EspParser {
    /// Reads a plugin: the strings of its header's fields (see
    /// [`direct_found`]), then its groups (see [`top_items`]). Earlier
    /// strings and tree are dropped first. In plugin mode the header and the
    /// group tree are kept. Fails when the file is shorter than a record
    /// header, does not start with `TES4`, or its header is cut short.
    pub fn parse(&mut self, data: &[u8]) -> (r: Result<(), EspParseError>)
        ensures
            final(self).record_defs == old(self).record_defs,
            final(self).strings_files == old(self).strings_files,
            final(self).build_search_index == old(self).build_search_index,
            final(self).esp_mode == old(self).esp_mode,
            data@.len() < 8 ==> r == Err::<(), EspParseError>(EspParseError::UnexpectedEof),
            data@.len() >= 8 && data@.take(4) != sig_tes4() ==> r == Err::<(), EspParseError>(EspParseError::NotTes4),
            data@.len() >= 8 && data@.take(4) == sig_tes4() && !tes4_complete(data@)
                ==> r == Err::<(), EspParseError>(EspParseError::UnexpectedEof),
            r is Ok <==> data@.len() >= 8 && data@.take(4) == sig_tes4() && tes4_complete(data@),
            r is Err ==> final(self).strings@.len() == 0 && final(self).record_tree@.len() == 0
                && final(self).tes4_header is None
                && final(self).compressed_records == old(self).compressed_records
                && final(self).current_parent_form_id == old(self).current_parent_form_id,
            r is Ok ==> ({
                let dsize = le_u32(data@, 4);
                let header_fields = data@.subrange(24, 24 + dsize);
                let d = direct_found(old(self).record_defs@, old(self).strings_files, sig_tes4(), 0,
                    old(self).current_parent_form_id, header_fields, 0, 0, 0, None);
                let t = top_items(old(self).record_defs@, old(self).strings_files, data@, 24 + dsize,
                    old(self).current_parent_form_id);
                &&& strings_are(final(self).strings@, d + t.found, old(self).build_search_index)
                &&& final(self).compressed_records == sat_add(old(self).compressed_records, t.compressed)
                &&& final(self).current_parent_form_id == t.parent
                &&& (old(self).esp_mode ==> grups_are(final(self).record_tree@, t.children)
                    && (final(self).tes4_header matches Some(h)
                        && h.generic.name@ == sig_tes4() && h.generic.dsize == dsize
                        && h.record_header_data == (RecordHeaderData {
                            flags: le_u32(data@, 8),
                            form_id: le_u32(data@, 12),
                            version: le_u32(data@, 16),
                            f_version: le_u16(data@, 20),
                            v_info: le_u16(data@, 22),
                        })
                        && h.field_data@ == header_fields))
                &&& (!old(self).esp_mode ==> final(self).record_tree@.len() == 0 && final(self).tes4_header is None)
            }),
    {
        self.strings = Vec::new();
        self.record_tree = Vec::new();
        self.tes4_header = None;
        if data.len() < 8 {
            return Err(EspParseError::UnexpectedEof);
        }
        let name: [u8; 4] = [data[0], data[1], data[2], data[3]];
        assert(name@ =~= data@.take(4));
        if !sig_is(&name, 0x54, 0x45, 0x53, 0x34) {
            return Err(EspParseError::NotTes4);
        }
        if data.len() < 24 {
            return Err(EspParseError::UnexpectedEof);
        }
        let dsize = read_u32_le(data, 4);
        if dsize as usize > data.len() - 24 {
            return Err(EspParseError::UnexpectedEof);
        }
        let rhd = match RecordHeaderData::from_bytes(data, 8) {
            Some(h) => h,
            None => { return Err(EspParseError::UnexpectedEof); },
        };
        let tes4_end = 24 + dsize as usize;
        if self.esp_mode {
            self.tes4_header = Some(Tes4Header {
                generic: GenericHeader { name, dsize },
                record_header_data: rhd,
                field_data: copy_range(data, 24, tes4_end),
            });
        }
        let fields = copy_range(data, 24, tes4_end);
        proof {
            assert(strings_are(self.strings@, Seq::<Found>::empty(), self.build_search_index));
        }
        self.parse_record_fields_direct(&name, 0, fields.as_slice(), Ghost(Seq::<Found>::empty()));
        let ghost old_self = *self;
        let ghost defs = self.record_defs@;
        let ghost files = self.strings_files;
        let ghost esp = self.esp_mode;
        let ghost c0 = self.compressed_records;
        let ghost d = direct_found(defs, files, sig_tes4(), 0, self.current_parent_form_id, fields@, 0, 0, 0, None);
        let ghost total = top_items(defs, files, data@, tes4_end as int, self.current_parent_form_id);
        let ghost mut acc: Parsed = nothing(self.current_parent_form_id);
        proof {
            assert(Seq::<Found>::empty() + d =~= d);
            assert(d + acc.found =~= d);
            assert(acc.children =~= Seq::<GrupV>::empty());
            let t = concat(acc, total);
            assert(t.found =~= total.found);
            assert(t.records =~= total.records);
            assert(t.children =~= total.children);
        }
        let mut p: usize = tes4_end;
        let mut done = false;
        while !done && p < data.len()
            invariant
                tes4_end <= p <= data@.len(),
                self.record_defs == old_self.record_defs,
                self.strings_files == old_self.strings_files,
                self.build_search_index == old_self.build_search_index,
                self.esp_mode == old_self.esp_mode,
                self.tes4_header == old_self.tes4_header,
                defs == self.record_defs@,
                files == self.strings_files,
                esp == self.esp_mode,
                strings_are(self.strings@, d + acc.found, self.build_search_index),
                esp ==> grups_are(self.record_tree@, acc.children),
                !esp ==> self.record_tree@.len() == 0,
                self.compressed_records == sat_add(c0, acc.compressed),
                !done ==> concat(acc, top_items(defs, files, data@, p as int, self.current_parent_form_id)) == total,
                done ==> acc == total && self.current_parent_form_id == total.parent,
            decreases data@.len() - p, if done { 0int } else { 1int },
        {
            let ghost par = self.current_parent_form_id;
            let ghost rest = top_items(defs, files, data@, p as int, par);
            if data.len() - p < 8 {
                proof {
                    let a2 = concat(acc, rest);
                    assert(rest == nothing(par));
                    assert(a2.found =~= acc.found);
                    assert(a2.records =~= acc.records);
                    assert(a2.children =~= acc.children);
                    acc = a2;
                }
                done = true;
            } else {
                let n: [u8; 4] = [data[p], data[p + 1], data[p + 2], data[p + 3]];
                assert(n@ =~= data@.subrange(p as int, p + 4));
                let ds = read_u32_le(data, p + 4);
                let is_grup = sig_is(&n, 0x47, 0x52, 0x55, 0x50);
                let span: usize = if ds >= 24 { (ds - 24) as usize } else { 0 };
                if is_grup && (data.len() - p < 24 || span > data.len() - p - 24) {
                    proof {
                        let a2 = concat(acc, rest);
                        assert(rest == nothing(par));
                        assert(a2.found =~= acc.found);
                        assert(a2.records =~= acc.records);
                        assert(a2.children =~= acc.children);
                        acc = a2;
                    }
                    done = true;
                } else if !is_grup && ds as usize > data.len() - p - 8 {
                    proof {
                        let a2 = concat(acc, rest);
                        assert(rest == nothing(par));
                        assert(a2.found =~= acc.found);
                        assert(a2.records =~= acc.records);
                        assert(a2.children =~= acc.children);
                        acc = a2;
                    }
                    done = true;
                } else if !is_grup {
                    p = p + 8 + ds as usize;
                    assert(rest == top_items(defs, files, data@, p as int, par));
                } else {
                    let s_ident: [u8; 4] = [data[p + 8], data[p + 9], data[p + 10], data[p + 11]];
                    assert(s_ident@ =~= data@.subrange(p + 8, p + 12));
                    let mut recs: Vec<EspRecord> = Vec::new();
                    let mut kids: Vec<EspGrup> = Vec::new();
                    let ghost inner = items(defs, files, data@, p + 24, p + 24 + span, par);
                    self.parse_items(data, p + 24, p + 24 + span, &mut recs, &mut kids, Ghost(d + acc.found),
                        Ghost(Seq::<RecordV>::empty()), Ghost(Seq::<GrupV>::empty()));
                    let ghost gv = GrupV {
                        dsize: ds,
                        s_ident: data@.subrange(p + 8, p + 12),
                        s_type: le_u32(data@, p + 12),
                        s_tstamp: le_u16(data@, p + 16),
                        param1: le_u16(data@, p + 18),
                        param2: le_u16(data@, p + 20),
                        param3: le_u16(data@, p + 22),
                        records: inner.records,
                        children: inner.children,
                    };
                    let ghost one = Parsed { found: inner.found, records: Seq::empty(), children: seq![gv],
                        compressed: inner.compressed, parent: inner.parent };
                    if self.esp_mode {
                        let g = EspGrup {
                            header: GenericHeader { name: n, dsize: ds },
                            grup_header: GrupHeader {
                                s_ident,
                                s_type: read_u32_le(data, p + 12),
                                s_tstamp: read_u16_le(data, p + 16),
                                param1: read_u16_le(data, p + 18),
                                param2: read_u16_le(data, p + 20),
                                param3: read_u16_le(data, p + 22),
                            },
                            records: recs,
                            children: kids,
                        };
                        proof {
                            assert(Seq::<RecordV>::empty() + inner.records =~= inner.records);
                            assert(Seq::<GrupV>::empty() + inner.children =~= inner.children);
                            assert(grup_is(g, gv));
                            lemma_grups_push(self.record_tree@, acc.children, g, gv);
                        }
                        self.record_tree.push(g);
                    }
                    let ghost q = p + 24 + span;
                    proof {
                        assert(rest == concat(one, top_items(defs, files, data@, q, inner.parent)));
                        lemma_concat_assoc(acc, one, top_items(defs, files, data@, q, inner.parent));
                        let a2 = concat(acc, one);
                        assert(d + acc.found + one.found =~= d + a2.found);
                        assert(acc.children + seq![gv] =~= a2.children);
                        acc = a2;
                    }
                    p = p + 24 + span;
                }
            }
        }
        proof {
            if !done {
                assert(top_items(defs, files, data@, p as int, self.current_parent_form_id) == nothing(self.current_parent_form_id));
                let t = concat(acc, nothing(self.current_parent_form_id));
                assert(t.found =~= acc.found);
                assert(t.records =~= acc.records);
                assert(t.children =~= acc.children);
            }
        }
        Ok(())
    }

    /// The plugin as kept in plugin mode: its header and its groups; `None`
    /// when no header was kept.
    pub fn build_esp_file(&self) -> (r: Option<EspFile>)
        ensures
            match r {
                Some(f) => self.tes4_header matches Some(h) && f.tes4.generic == h.generic
                    && f.tes4.record_header_data == h.record_header_data && f.tes4.field_data@ == h.field_data@
                    && f.top_level_grups@.len() == self.record_tree@.len()
                    && forall|k: int| 0 <= k < self.record_tree@.len()
                        ==> grup_same(#[trigger] f.top_level_grups@[k], self.record_tree@[k]),
                None => self.tes4_header is None,
            },
    {
        match &self.tes4_header {
            Some(h) => Some(EspFile {
                tes4: Tes4Header {
                    generic: h.generic,
                    record_header_data: h.record_header_data,
                    field_data: crate::esp::record_tree::copy_bytes(&h.field_data),
                },
                top_level_grups: clone_grups(&self.record_tree),
            }),
            None => None,
        }
    }
}

/// `a` holds the same record as `b`.
pub open spec fn record_same(a: EspRecord, b: EspRecord) -> bool {
    &&& a.header == b.header
    &&& a.record_header_data == b.record_header_data
    &&& fields_view(a.fields@) == fields_view(b.fields@)
    &&& a.compressed == b.compressed
    &&& a.raw == b.raw
    &&& a.form_id == b.form_id
    &&& opt_text(a.editor_id) == opt_text(b.editor_id)
    &&& a.original_raw_data@ == b.original_raw_data@
}

/// `a` holds the same group as `b`, at every depth.
pub open spec fn grup_same(a: EspGrup, b: EspGrup) -> bool
    decreases b,
{
    &&& a.header == b.header
    &&& a.grup_header == b.grup_header
    &&& a.records@.len() == b.records@.len()
    &&& forall|i: int| 0 <= i < b.records@.len() ==> record_same(#[trigger] a.records@[i], b.records@[i])
    &&& a.children@.len() == b.children@.len()
    &&& forall|i: int| 0 <= i < b.children@.len() ==> grup_same(#[trigger] a.children@[i], b.children@[i])
}

/// A copy of a record.
fn copy_record(r: &EspRecord) -> (c: EspRecord)
    ensures
        record_same(c, *r),
{
    let mut fields: Vec<EspField> = Vec::new();
    let mut i: usize = 0;
    while i < r.fields.len()
        invariant
            i <= r.fields@.len(),
            fields_view(fields@) == fields_view(r.fields@).take(i as int),
        decreases r.fields@.len() - i,
    {
        let ghost before = fields@;
        let c = crate::esp::record_tree::copy_field(&r.fields[i]);
        fields.push(c);
        assert(fields_view(fields@) =~= fields_view(before).push(c@));
        assert(fields_view(r.fields@)[i as int] == r.fields@[i as int]@);
        assert(fields_view(fields@) =~= fields_view(r.fields@).take(i + 1));
        i = i + 1;
    }
    assert(fields_view(r.fields@).take(r.fields@.len() as int) =~= fields_view(r.fields@));
    let editor_id = match &r.editor_id {
        Some(e) => Some(e.clone()),
        None => None,
    };
    EspRecord {
        header: r.header,
        record_header_data: r.record_header_data,
        fields,
        compressed: r.compressed,
        raw: r.raw,
        form_id: r.form_id,
        editor_id,
        original_raw_data: crate::esp::record_tree::copy_bytes(&r.original_raw_data),
    }
}

/// A copy of a group and everything in it.
fn copy_grup(g: &EspGrup) -> (c: EspGrup)
    ensures
        grup_same(c, *g),
    decreases *g,
{
    let mut records: Vec<EspRecord> = Vec::new();
    let mut i: usize = 0;
    while i < g.records.len()
        invariant
            i <= g.records@.len(),
            records@.len() == i,
            forall|k: int| 0 <= k < i ==> record_same(#[trigger] records@[k], g.records@[k]),
        decreases g.records@.len() - i,
    {
        records.push(copy_record(&g.records[i]));
        i = i + 1;
    }
    let mut children: Vec<EspGrup> = Vec::new();
    let mut j: usize = 0;
    while j < g.children.len()
        invariant
            j <= g.children@.len(),
            children@.len() == j,
            forall|k: int| 0 <= k < j ==> grup_same(#[trigger] children@[k], g.children@[k]),
        decreases g.children@.len() - j,
    {
        assert(decreases_to!(*g => g.children@[j as int]));
        children.push(copy_grup(&g.children[j]));
        j = j + 1;
    }
    EspGrup { header: g.header, grup_header: g.grup_header, records, children }
}

/// A copy of a list of groups.
fn clone_grups(gs: &Vec<EspGrup>) -> (r: Vec<EspGrup>)
    ensures
        r@.len() == gs@.len(),
        forall|k: int| 0 <= k < gs@.len() ==> grup_same(#[trigger] r@[k], gs@[k]),
{
    let mut out: Vec<EspGrup> = Vec::new();
    let mut i: usize = 0;
    while i < gs.len()
        invariant
            i <= gs@.len(),
            out@.len() == i,
            forall|k: int| 0 <= k < i ==> grup_same(#[trigger] out@[k], gs@[k]),
        decreases gs@.len() - i,
    {
        out.push(copy_grup(&gs[i]));
        i = i + 1;
    }
    out
}

} // verus!
