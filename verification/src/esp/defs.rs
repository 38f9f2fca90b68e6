//! Which record fields hold translatable strings (record definitions), the
//! strings tables they point into, and compressed record data.
use vstd::prelude::*;
use std::collections::HashMap;
use crate::types::GameId;
use crate::text::{lines_of, trim_chars, chars_start_with, chars_of, slice_chars, split_chars, chars_contain,
    string_from_chars};

verus! {

/// A field that holds a string id: the record and field signatures
/// (`****` for any record), the strings table, and its markers.
#[derive(Clone, Copy, Debug)]
pub struct TranslatableField {
    pub record_sig: [u8; 4],
    pub field_sig: [u8; 4],
    /// 0 = STRINGS, 1 = DLSTRINGS, 2 = ILSTRINGS.
    pub list_index: u8,
    /// `*`: the string may not be empty.
    pub not_null: bool,
    /// `?`: the definition is to be ignored.
    pub ignored: bool,
}

impl TranslatableField {
    pub fn new(record_sig: [u8; 4], field_sig: [u8; 4], list_index: u8) -> (r: Self)
        ensures
            r.record_sig == record_sig,
            r.field_sig == field_sig,
            r.list_index == list_index,
            !r.not_null,
            !r.ignored,
    {
        TranslatableField { record_sig, field_sig, list_index, not_null: false, ignored: false }
    }
}

/// The first four UTF-8 bytes of a text, zero-padded.
pub open spec fn sig_of(s: Seq<char>) -> Seq<u8> {
    let b = vstd::utf8::encode_utf8(s);
    Seq::new(4, |i: int| if i < b.len() { b[i] } else { 0u8 })
}

/// The value of an ASCII decimal digit, if `c` is one.
pub open spec fn digit_value(c: char) -> Option<u8> {
    if '0' <= c && c <= '9' { Some(((c as u32) - ('0' as u32)) as u8) } else { None }
}

/// What a definition line states.
pub struct DefLine {
    pub record_sig: Seq<u8>,
    pub field_sig: Seq<u8>,
    pub list_index: u8,
    pub not_null: bool,
    pub ignored: bool,
}

/// A definition holds what a line states.
pub open spec fn def_matches(d: TranslatableField, e: DefLine) -> bool {
    d.record_sig@ == e.record_sig && d.field_sig@ == e.field_sig && d.list_index == e.list_index
        && d.not_null == e.not_null && d.ignored == e.ignored
}

/// The definition a line gives: `Def_:FIELD=RECORD=LIST[markers]` after
/// trimming, with the table index from the first character of LIST (0 when
/// it is no digit), `*` anywhere in LIST for not-null and `?` for ignored.
pub open spec fn def_of_line(line: Seq<char>) -> Option<DefLine> {
    let l = crate::text::trim(line);
    let prefix = seq!['D', 'e', 'f', '_', ':'];
    if !crate::text::starts_with(l, prefix) {
        None
    } else {
        let parts = crate::text::split_seq(l.subrange(5, l.len() as int), '=');
        if parts.len() < 3 {
            None
        } else {
            let list = parts[2];
            let index = if list.len() > 0 { match digit_value(list[0]) { Some(d) => d, None => 0u8 } } else { 0u8 };
            Some(DefLine {
                record_sig: sig_of(parts[1]),
                field_sig: sig_of(parts[0]),
                list_index: index,
                not_null: list.contains('*'),
                ignored: list.contains('?'),
            })
        }
    }
}

/// The definitions of the first `k` lines, in order.
pub open spec fn defs_of_lines(ls: Seq<Seq<char>>, k: int) -> Seq<DefLine>
    decreases k,
{
    if k <= 0 {
        Seq::empty()
    } else {
        match def_of_line(ls[k - 1]) {
            Some(d) => defs_of_lines(ls, k - 1).push(d),
            None => defs_of_lines(ls, k - 1),
        }
    }
}

/// The four bytes of a signature text (see [`sig_of`]).
fn sig_bytes(s: &Vec<char>) -> (r: [u8; 4])
    ensures
        r@ == sig_of(s@),
{
    let text = string_from_chars(s.as_slice());
    let b = text.as_str().as_bytes();
    let mut sig = [0u8; 4];
    let mut i: usize = 0;
    assert(b@.len() == b.len());
    while i < 4 && i < b.len()
        invariant
            i <= 4,
            i <= b@.len(),
            sig@.len() == 4,
            b@ == vstd::utf8::encode_utf8(s@),
            forall|k: int| 0 <= k < i ==> #[trigger] sig@[k] == b@[k],
            forall|k: int| i <= k < 4 ==> #[trigger] sig@[k] == 0u8,
        decreases 4 - i,
    {
        sig[i] = b[i];
        i = i + 1;
    }
    assert forall|k: int| 0 <= k < 4 implies sig@[k] == sig_of(s@)[k] by {
        if k < i {
        } else {
            assert(k >= b@.len());
        }
    }
    assert(sig@ =~= sig_of(s@));
    sig
}

/// The definition a line gives (see [`def_of_line`]).
fn parse_def_line(line: &Vec<char>) -> (r: Option<TranslatableField>)
    ensures
        match r {
            Some(d) => def_of_line(line@) matches Some(e) && def_matches(d, e),
            None => def_of_line(line@) is None,
        },
{
    let l = trim_chars(line);
    let prefix = chars_of("Def_:");
    proof {
        reveal_strlit("Def_:");
        assert(prefix@ =~= seq!['D', 'e', 'f', '_', ':']);
    }
    if !chars_start_with(&l, &prefix) {
        return None;
    }
    let rest = slice_chars(&l, 5, l.len());
    let parts = split_chars(&rest, '=');
    if parts.len() < 3 {
        return None;
    }
    let list = &parts[2];
    let index: u8 = if list.len() > 0 && '0' <= list[0] && list[0] <= '9' {
        ((list[0] as u32) - ('0' as u32)) as u8
    } else {
        0
    };
    let field_sig = sig_bytes(&parts[0]);
    let record_sig = sig_bytes(&parts[1]);
    Some(TranslatableField {
        record_sig,
        field_sig,
        list_index: index,
        not_null: chars_contain(list, '*'),
        ignored: chars_contain(list, '?'),
    })
}

/// The definitions of a definitions text, one per line of the form
/// `Def_:FIELD=RECORD=LIST[markers]` (see [`def_of_line`]), in order.
pub fn parse_record_defs(content: &str) -> (r: Vec<TranslatableField>)
    ensures
        ({
            let ds = defs_of_lines(crate::text::lines(content@), crate::text::lines(content@).len() as int);
            &&& r@.len() == ds.len()
            &&& forall|k: int| 0 <= k < r@.len() ==> def_matches(#[trigger] r@[k], ds[k])
        }),
{
    let ls = lines_of(content);
    let ghost lv = crate::text::lines(content@);
    let mut defs: Vec<TranslatableField> = Vec::new();
    let mut i: usize = 0;
    while i < ls.len()
        invariant
            i <= ls@.len(),
            ls@.len() == lv.len(),
            forall|k: int| 0 <= k < ls@.len() ==> #[trigger] ls@[k]@ == lv[k],
            ({
                let ds = defs_of_lines(lv, i as int);
                &&& defs@.len() == ds.len()
                &&& forall|k: int| 0 <= k < defs@.len() ==> def_matches(#[trigger] defs@[k], ds[k])
            }),
        decreases ls@.len() - i,
    {
        match parse_def_line(&ls[i]) {
            Some(d) => {
                defs.push(d);
            },
            None => {},
        }
        i = i + 1;
    }
    defs
}

/// The directory of a game's data under the data folder.
pub fn game_data_subdir(game: GameId) -> (r: &'static str)
    ensures
        r@ == match game {
            GameId::Skyrim => "Skyrim"@,
            GameId::SkyrimSE => "SkyrimSE"@,
            GameId::Fallout4 => "Fallout4"@,
            GameId::FalloutNV => "FalloutNV"@,
            GameId::Fallout76 => "Fallout76"@,
            GameId::Starfield => "Starfield"@,
        },
{
    match game {
        GameId::Skyrim => "Skyrim",
        GameId::SkyrimSE => "SkyrimSE",
        GameId::Fallout4 => "Fallout4",
        GameId::FalloutNV => "FalloutNV",
        GameId::Fallout76 => "Fallout76",
        GameId::Starfield => "Starfield",
    }
}

/// One strings table: string id to text.
pub struct StringsFile {
    pub entries: HashMap<u32, String>,
}

impl StringsFile {
    /// The text of a string id.
    pub fn get(&self, id: u32) -> (r: Option<&String>)
        ensures
            match r {
                Some(s) => self.entries@.contains_key(id) && *s == self.entries@[id],
                None => !self.entries@.contains_key(id),
            },
    {
        self.entries.get(&id)
    }
}

/// The three strings tables of a plugin, as far as they were loaded.
pub struct StringsFiles {
    /// `.STRINGS`
    pub strings: Option<StringsFile>,
    /// `.DLSTRINGS`
    pub dlstrings: Option<StringsFile>,
    /// `.ILSTRINGS`
    pub ilstrings: Option<StringsFile>,
}

/// The table of a list index, if loaded.
pub open spec fn table_of(f: StringsFiles, list_index: u8) -> Option<StringsFile> {
    if list_index == 0 { f.strings } else if list_index == 1 { f.dlstrings } else if list_index == 2 { f.ilstrings } else { None }
}

/// The text of a string id in the table of a list index, if any.
pub open spec fn lookup_text(f: StringsFiles, list_index: u8, id: u32) -> Option<String> {
    match table_of(f, list_index) {
        Some(t) => if t.entries@.contains_key(id) { Some(t.entries@[id]) } else { None },
        None => None,
    }
}

impl StringsFiles {
    /// No table loaded.
    pub fn empty() -> (r: Self)
        ensures
            r.strings is None && r.dlstrings is None && r.ilstrings is None,
    {
        StringsFiles { strings: None, dlstrings: None, ilstrings: None }
    }

    /// The text of string `id` in table `list_index` (0, 1 or 2).
    pub fn get(&self, list_index: u8, id: u32) -> (r: Option<&String>)
        ensures
            match r {
                Some(s) => lookup_text(*self, list_index, id) == Some(*s),
                None => lookup_text(*self, list_index, id) is None,
            },
    {
        let table = if list_index == 0 {
            &self.strings
        } else if list_index == 1 {
            &self.dlstrings
        } else if list_index == 2 {
            &self.ilstrings
        } else {
            return None;
        };
        match table {
            Some(t) => t.get(id),
            None => None,
        }
    }

    /// How many of the three tables are loaded.
    pub fn loaded_count(&self) -> (r: usize)
        ensures
            r == (if self.strings is Some { 1int } else { 0int }) + (if self.dlstrings is Some { 1int } else { 0int })
                + (if self.ilstrings is Some { 1int } else { 0int }),
    {
        let mut count: usize = 0;
        if self.strings.is_some() {
            count = count + 1;
        }
        if self.dlstrings.is_some() {
            count = count + 1;
        }
        if self.ilstrings.is_some() {
            count = count + 1;
        }
        count
    }
}

/// Why compressed record data could not be had.
#[derive(Clone, Copy, Debug, PartialEq, Eq, Structural)]
pub enum DecompressError {
    /// Fewer than four bytes: no size.
    TooShort,
    /// A stated size above 100,000,000 bytes.
    UnreasonableSize,
    /// The zlib stream could not be decoded.
    Zlib,
}

/// Compressed record data: a little-endian decompressed size, then a zlib
/// stream. A size of 0 gives nothing; a size above 100,000,000 is refused;
/// a size with no stream gives that many zeros; otherwise the stream's
/// bytes, whatever their number.
pub fn decompress_bethesda_record(data: &[u8]) -> (r: Result<Vec<u8>, DecompressError>)
    ensures
        data@.len() < 4 ==> r == Err::<Vec<u8>, DecompressError>(DecompressError::TooShort),
        data@.len() >= 4 ==> {
            let size = crate::bytes::le_u32(data@, 0);
            if size == 0 {
                r matches Ok(v) && v@.len() == 0
            } else if size > 100_000_000 {
                r == Err::<Vec<u8>, DecompressError>(DecompressError::UnreasonableSize)
            } else if data@.len() == 4 {
                r matches Ok(v) && v@ == Seq::new(size as nat, |i: int| 0u8)
            } else {
                match crate::zlib::zlib_inflate(data@.subrange(4, data@.len() as int)) {
                    Some(d) => r matches Ok(v) && v@ == d,
                    None => r == Err::<Vec<u8>, DecompressError>(DecompressError::Zlib),
                }
            }
        },
{
    if data.len() < 4 {
        return Err(DecompressError::TooShort);
    }
    let size = crate::bytes::read_u32_le(data, 0);
    if size == 0 {
        return Ok(Vec::new());
    }
    if size > 100_000_000 {
        return Err(DecompressError::UnreasonableSize);
    }
    if data.len() == 4 {
        let mut zeros: Vec<u8> = Vec::new();
        let mut i: u32 = 0;
        while i < size
            invariant
                i <= size,
                zeros@ == Seq::new(i as nat, |k: int| 0u8),
            decreases size - i,
        {
            zeros.push(0u8);
            i = i + 1;
            assert(zeros@ =~= Seq::new(i as nat, |k: int| 0u8));
        }
        return Ok(zeros);
    }
    let body = crate::bytes::copy_range(data, 4, data.len());
    match crate::zlib::zlib_decompress(body.as_slice()) {
        Some(v) => Ok(v),
        None => Err(DecompressError::Zlib),
    }
}

} // verus!
