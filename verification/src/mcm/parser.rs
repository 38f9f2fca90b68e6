//! Reading and writing MCM translation files: the encoding from the
//! byte-order mark, the line ending, the `$key<TAB>text` entries with the
//! byte offsets of their lines, and the file written back with translations.
use vstd::prelude::*;
use crate::mcm::types::{McmEncoding, McmEntry, McmFile, McmEntryV, entries_view, find_text, find_chars};
use crate::text::{chars_of, string_from_chars, trim, trim_chars, extend_chars, lines, lines_of, utf8_lossy, lossy_string};

verus! {

/// The encoding a file's first two bytes announce: `FF FE` UTF-16LE,
/// `FE FF` UTF-16BE, anything else (or fewer bytes) UTF-8.
pub open spec fn bom_encoding(b: Seq<u8>) -> McmEncoding {
    if b.len() >= 2 && b[0] == 0xFF && b[1] == 0xFE {
        McmEncoding::Utf16Le
    } else if b.len() >= 2 && b[0] == 0xFE && b[1] == 0xFF {
        McmEncoding::Utf16Be
    } else {
        McmEncoding::Utf8
    }
}

/// The encoding of a file's bytes (see [`bom_encoding`]).
pub fn detect_encoding(bytes: &[u8]) -> (r: McmEncoding)
    ensures
        r == bom_encoding(bytes@),
{
    if bytes.len() < 2 {
        McmEncoding::Utf8
    } else if bytes[0] == 0xFF && bytes[1] == 0xFE {
        McmEncoding::Utf16Le
    } else if bytes[0] == 0xFE && bytes[1] == 0xFF {
        McmEncoding::Utf16Be
    } else {
        McmEncoding::Utf8
    }
}

/// The text that `encoding_rs` decodes from bytes as UTF-16 (big-endian or
/// little-endian), with a leading byte-order mark taken into account and
/// malformed units replaced.
pub uninterp spec fn utf16_decoded(big_endian: bool, b: Seq<u8>) -> Seq<char>;

/// `encoding_rs::UTF_16BE.decode` or `encoding_rs::UTF_16LE.decode`, the
/// text owned. The result is named by [`utf16_decoded`]; how units are
/// decoded and replaced is left to encoding_rs. Inputs near half the address
/// space, on which its buffer-size computation panics, are left out.
#[verifier::external_body]
fn decode_utf16(b: &[u8], big_endian: bool) -> (r: String)
    requires
        b@.len() < usize::MAX / 2,
    ensures
        r@ == utf16_decoded(big_endian, b@),
{
    let enc = if big_endian { encoding_rs::UTF_16BE } else { encoding_rs::UTF_16LE };
    enc.decode(b).0.into_owned()
}

/// The text of a file's bytes in an encoding: UTF-16 through encoding_rs,
/// anything else as UTF-8 with invalid sequences replaced.
pub open spec fn decoded(b: Seq<u8>, enc: McmEncoding) -> Seq<char> {
    match enc {
        McmEncoding::Utf16Le => utf16_decoded(false, b),
        McmEncoding::Utf16Be => utf16_decoded(true, b),
        _ => utf8_lossy(b),
    }
}

/// Decodes a file's bytes (see [`decoded`]).
pub fn decode_bytes(bytes: &[u8], encoding: McmEncoding) -> (r: String)
    requires
        bytes@.len() < usize::MAX / 2,
    ensures
        r@ == decoded(bytes@, encoding),
{
    match encoding {
        McmEncoding::Utf16Le => decode_utf16(bytes, false),
        McmEncoding::Utf16Be => decode_utf16(bytes, true),
        _ => lossy_string(bytes),
    }
}

/// The UTF-16 code units of a text: one for a character below `U+10000`,
/// else a surrogate pair.
pub open spec fn utf16_units(s: Seq<char>) -> Seq<u16>
    decreases s.len(),
{
    if s.len() == 0 {
        Seq::empty()
    } else {
        let c = s[0] as u32;
        let head: Seq<u16> = if c < 0x10000 {
            seq![c as u16]
        } else {
            seq![(0xD800 + (c - 0x10000) / 0x400) as u16, (0xDC00 + (c - 0x10000) % 0x400) as u16]
        };
        head + utf16_units(s.drop_first())
    }
}

/// Code units as bytes, least or most significant byte first.
pub open spec fn unit_bytes(us: Seq<u16>, big_endian: bool) -> Seq<u8>
    decreases us.len(),
{
    if us.len() == 0 {
        Seq::empty()
    } else {
        let u = us[0] as int;
        let pair: Seq<u8> = if big_endian { seq![(u / 256) as u8, (u % 256) as u8] } else { seq![(u % 256) as u8, (u / 256) as u8] };
        pair + unit_bytes(us.drop_first(), big_endian)
    }
}

proof fn lemma_units_concat(a: Seq<char>, b: Seq<char>)
    ensures
        utf16_units(a + b) == utf16_units(a) + utf16_units(b),
    decreases a.len(),
{
    if a.len() > 0 {
        assert((a + b).drop_first() =~= a.drop_first() + b);
        lemma_units_concat(a.drop_first(), b);
        assert((a + b)[0] == a[0]);
    } else {
        assert(a + b =~= b);
    }
}

proof fn lemma_unit_bytes_concat(a: Seq<u16>, b: Seq<u16>, be: bool)
    ensures
        unit_bytes(a + b, be) == unit_bytes(a, be) + unit_bytes(b, be),
    decreases a.len(),
{
    if a.len() > 0 {
        assert((a + b).drop_first() =~= a.drop_first() + b);
        lemma_unit_bytes_concat(a.drop_first(), b, be);
        assert((a + b)[0] == a[0]);
    } else {
        assert(a + b =~= b);
    }
}

/// The UTF-16 bytes of a text, without a byte-order mark.
fn encode_utf16(text: &str, big_endian: bool) -> (r: Vec<u8>)
    ensures
        r@ == unit_bytes(utf16_units(text@), big_endian),
{
    let cs = chars_of(text);
    let mut out: Vec<u8> = Vec::new();
    let mut i: usize = 0;
    while i < cs.len()
        invariant
            i <= cs@.len(),
            cs@ == text@,
            out@ == unit_bytes(utf16_units(cs@.take(i as int)), big_endian),
        decreases cs@.len() - i,
    {
        let c = cs[i] as u32;
        let ghost one = seq![cs@[i as int]];
        proof {
            assert(cs@.take(i + 1) =~= cs@.take(i as int) + one);
            lemma_units_concat(cs@.take(i as int), one);
            assert(one.drop_first() =~= Seq::<char>::empty());
        }
        let mut units: Vec<u16> = Vec::new();
        if c < 0x10000 {
            units.push(c as u16);
        } else {
            units.push((0xD800 + (c - 0x10000) / 0x400) as u16);
            units.push((0xDC00 + (c - 0x10000) % 0x400) as u16);
        }
        assert(utf16_units(one.drop_first()) =~= Seq::<u16>::empty());
        assert(one[0] as u32 == c);
        assert(units@ =~= utf16_units(one));
        let mut k: usize = 0;
        let ghost base = out@;
        while k < units.len()
            invariant
                k <= units@.len(),
                out@ == base + unit_bytes(units@.take(k as int), big_endian),
            decreases units@.len() - k,
        {
            let u = units[k];
            proof {
                assert(units@.take(k + 1) =~= units@.take(k as int) + seq![u]);
                lemma_unit_bytes_concat(units@.take(k as int), seq![u], big_endian);
                assert(seq![u].drop_first() =~= Seq::<u16>::empty());
            }
            assert(unit_bytes(seq![u].drop_first(), big_endian) =~= Seq::<u8>::empty());
            let ghost before = out@;
            if big_endian {
                out.push((u / 256) as u8);
                out.push((u % 256) as u8);
            } else {
                out.push((u % 256) as u8);
                out.push((u / 256) as u8);
            }
            assert(out@ =~= before + unit_bytes(seq![u], big_endian));
            k = k + 1;
        }
        assert(units@.take(units@.len() as int) =~= units@);
        proof {
            lemma_unit_bytes_concat(utf16_units(cs@.take(i as int)), utf16_units(one), big_endian);
        }
        i = i + 1;
    }
    assert(cs@.take(cs@.len() as int) =~= cs@);
    out
}

/// The bytes a text is saved as: for UTF-16 a byte-order mark and the code
/// units; otherwise its UTF-8 bytes (a code-page file is written as UTF-8).
pub open spec fn encoded(text: Seq<char>, enc: McmEncoding) -> Seq<u8> {
    match enc {
        McmEncoding::Utf16Le => seq![0xFFu8, 0xFE] + unit_bytes(utf16_units(text), false),
        McmEncoding::Utf16Be => seq![0xFEu8, 0xFF] + unit_bytes(utf16_units(text), true),
        _ => vstd::utf8::encode_utf8(text),
    }
}

/// The UTF-16LE bytes of a text, without a byte-order mark.
pub fn encode_utf16le(text: &str) -> (r: Vec<u8>)
    ensures
        r@ == unit_bytes(utf16_units(text@), false),
{
    encode_utf16(text, false)
}

/// Encodes a text for saving (see [`encoded`]).
pub fn encode_to_bytes(text: &str, encoding: &McmEncoding) -> (r: Vec<u8>)
    ensures
        r@ == encoded(text@, *encoding),
{
    match encoding {
        McmEncoding::Utf16Le => {
            let mut out: Vec<u8> = Vec::new();
            out.push(0xFF);
            out.push(0xFE);
            let body = encode_utf16(text, false);
            crate::bytes::push_bytes(&mut out, body.as_slice());
            assert(out@ =~= encoded(text@, *encoding));
            out
        },
        McmEncoding::Utf16Be => {
            let mut out: Vec<u8> = Vec::new();
            out.push(0xFE);
            out.push(0xFF);
            let body = encode_utf16(text, true);
            crate::bytes::push_bytes(&mut out, body.as_slice());
            assert(out@ =~= encoded(text@, *encoding));
            out
        },
        _ => vstd::slice::slice_to_vec(text.as_bytes()),
    }
}

/// The line ending of a file's bytes, scanning from position `i` all bytes
/// but the last: `\r\n` at the first carriage return followed by a line
/// feed, `\n` at the first line feed before that, and `\n` when there is
/// neither.
pub open spec fn line_ending_from(b: Seq<u8>, i: int) -> Seq<char>
    decreases b.len() - i,
{
    if i < 0 || i + 1 >= b.len() {
        "\n"@
    } else if b[i] == 0x0D && b[i + 1] == 0x0A {
        "\r\n"@
    } else if b[i] == 0x0A {
        "\n"@
    } else {
        line_ending_from(b, i + 1)
    }
}

/// The line ending of a file's bytes (see [`line_ending_from`]).
pub fn detect_line_ending(raw: &[u8]) -> (r: String)
    ensures
        r@ == line_ending_from(raw@, 0),
{
    let n = raw.len();
    let mut i: usize = 0;
    while n > 0 && i < n - 1
        invariant
            n == raw@.len(),
            line_ending_from(raw@, 0) == line_ending_from(raw@, i as int),
        decreases n - i,
    {
        if raw[i] == 0x0D && raw[i + 1] == 0x0A {
            return string_from_chars(chars_of("\r\n").as_slice());
        }
        if raw[i] == 0x0A {
            return string_from_chars(chars_of("\n").as_slice());
        }
        i = i + 1;
    }
    string_from_chars(chars_of("\n").as_slice())
}

/// The entry a line holds: after trimming, a line that is not empty and is
/// not a comment (`#` or `//`) holds an entry when it has a tab, the trimmed
/// text before the first tab starts with `$` and the trimmed text after it
/// is not empty; these are its key and text.
pub open spec fn mcm_line(line: Seq<char>) -> Option<(Seq<char>, Seq<char>)> {
    let t = trim(line);
    if t.len() == 0 || t[0] == '#' || (t.len() >= 2 && t[0] == '/' && t[1] == '/') {
        None
    } else {
        match find_text(t, seq!['\t']) {
            Some(p) => {
                let key = trim(t.take(p));
                let value = trim(t.skip(p + 1));
                if key.len() > 0 && key[0] == '$' && value.len() > 0 { Some((key, value)) } else { None }
            },
            None => None,
        }
    }
}

proof fn lemma_find_bounds(s: Seq<char>, pat: Seq<char>)
    ensures
        find_text(s, pat) matches Some(k) ==> 0 <= k && k + pat.len() <= s.len(),
{
    lemma_find_from_bounds_p(s, pat, 0);
}

proof fn lemma_find_from_bounds_p(s: Seq<char>, pat: Seq<char>, i: int)
    ensures
        crate::mcm::types::find_from(s, pat, i) matches Some(k) ==> i <= k && k + pat.len() <= s.len(),
    decreases s.len() + 1 - i,
{
    if i >= 0 && i + pat.len() <= s.len() && s.subrange(i, i + pat.len()) != pat {
        lemma_find_from_bounds_p(s, pat, i + 1);
    }
}

/// The entry a line holds (see [`mcm_line`]).
fn parse_mcm_line(line: &Vec<char>) -> (r: Option<(String, String)>)
    ensures
        match r {
            Some(kv) => mcm_line(line@) == Some((kv.0@, kv.1@)),
            None => mcm_line(line@) is None,
        },
{
    let t = trim_chars(line);
    if t.len() == 0 || t[0] == '#' || (t.len() >= 2 && t[0] == '/' && t[1] == '/') {
        return None;
    }
    let mut tab: Vec<char> = Vec::new();
    tab.push('\t');
    match find_chars(&t, &tab) {
        Some(p) => {
            proof {
                lemma_find_bounds(t@, tab@);
                assert(tab@ =~= seq!['\t']);
            }
            let tlen = t.len();
            let key = trim_chars(&crate::text::slice_chars(&t, 0, p));
            let value = trim_chars(&crate::text::slice_chars(&t, p + 1, tlen));
            assert(t@.subrange(0, p as int) =~= t@.take(p as int));
            assert(t@.subrange(p + 1, tlen as int) =~= t@.skip(p + 1));
            if key.len() > 0 && key[0] == '$' && value.len() > 0 {
                Some((string_from_chars(key.as_slice()), string_from_chars(value.as_slice())))
            } else {
                None
            }
        },
        None => {
            assert(tab@ =~= seq!['\t']);
            None
        },
    }
}

/// Bytes of a byte-order mark: 2 for UTF-16, else none.
pub open spec fn bom_len(enc: McmEncoding) -> int {
    match enc {
        McmEncoding::Utf16Le | McmEncoding::Utf16Be => 2,
        _ => 0,
    }
}

/// Bytes a text takes in the file: two per UTF-16 code unit, else its UTF-8
/// bytes.
pub open spec fn text_len(t: Seq<char>, enc: McmEncoding) -> int {
    match enc {
        McmEncoding::Utf16Le | McmEncoding::Utf16Be => 2 * (utf16_units(t).len() as int),
        _ => vstd::utf8::encode_utf8(t).len() as int,
    }
}

/// Where line `k` starts in the file's bytes: after the byte-order mark and
/// every earlier line with its line ending.
pub open spec fn line_offset(ls: Seq<Seq<char>>, enc: McmEncoding, nl: int, k: int) -> int
    decreases k,
{
    if k <= 0 || k > ls.len() {
        bom_len(enc)
    } else {
        line_offset(ls, enc, nl, k - 1) + text_len(ls[k - 1], enc) + nl
    }
}

/// The entries of the first `n` lines.
pub open spec fn entries_upto(ls: Seq<Seq<char>>, enc: McmEncoding, nl: int, n: int) -> Seq<McmEntryV>
    decreases n,
{
    if n <= 0 || n > ls.len() {
        Seq::empty()
    } else {
        let prev = entries_upto(ls, enc, nl, n - 1);
        match mcm_line(ls[n - 1]) {
            Some(kv) => prev.push(McmEntryV {
                id: kv.0,
                source: kv.1,
                translation: Seq::empty(),
                line_index: (n - 1) as usize,
                byte_offset: line_offset(ls, enc, nl, n - 1) as usize,
            }),
            None => prev,
        }
    }
}

/// For every line, its key, or nothing.
pub open spec fn line_keys(ls: Seq<Seq<char>>) -> Seq<Seq<char>> {
    Seq::new(ls.len(), |k: int| match mcm_line(ls[k]) { Some(kv) => kv.0, None => Seq::empty() })
}

/// A text without its leading `U+FEFF` characters.
pub open spec fn strip_feff(s: Seq<char>) -> Seq<char>
    decreases s.len(),
{
    if s.len() > 0 && s[0] == '\u{FEFF}' { strip_feff(s.drop_first()) } else { s }
}

/// `f` is the file read from `content` (the decoded text without leading
/// byte-order marks) in encoding `enc` with line ending `le`: every line,
/// every line's key, and the entries with their line numbers and byte
/// offsets.
pub open spec fn file_is(f: McmFile, content: Seq<char>, enc: McmEncoding, le: Seq<char>, path: Seq<char>) -> bool {
    let ls = lines(content);
    let nl = text_len(le, enc);
    &&& entries_view(f.entries@) == entries_upto(ls, enc, nl, ls.len() as int)
    &&& crate::header_processor::texts(f.normalized_lines@) == ls
    &&& crate::header_processor::texts(f.header_list@) == line_keys(ls)
    &&& f.encoding == enc
    &&& f.path@ == path
    &&& f.line_ending@ == le
}

proof fn lemma_line_offset_mono(ls: Seq<Seq<char>>, enc: McmEncoding, nl: int, a: int, b: int)
    requires
        0 <= a <= b <= ls.len(),
        nl >= 0,
    ensures
        line_offset(ls, enc, nl, a) <= line_offset(ls, enc, nl, b),
        b > a ==> line_offset(ls, enc, nl, a) + text_len(ls[a], enc) + nl <= line_offset(ls, enc, nl, b),
    decreases b - a,
{
    if a < b {
        lemma_line_offset_mono(ls, enc, nl, a, b - 1);
        lemma_text_len_nonneg(ls[b - 1], enc);
    }
}

proof fn lemma_text_len_nonneg(t: Seq<char>, enc: McmEncoding)
    ensures
        text_len(t, enc) >= 0,
{
}

/// Bytes a text takes in the file (see [`text_len`]), or `None` when that
/// does not fit in a machine word.
fn text_len_of(t: &Vec<char>, enc: McmEncoding) -> (r: Option<usize>)
    ensures
        match r {
            Some(v) => v == text_len(t@, enc),
            None => text_len(t@, enc) > usize::MAX,
        },
{
    match enc {
        McmEncoding::Utf16Le | McmEncoding::Utf16Be => {
            let mut units: usize = 0;
            let mut i: usize = 0;
            while i < t.len()
                invariant
                    i <= t@.len(),
                    enc is Utf16Le || enc is Utf16Be,
                    units == utf16_units(t@.take(i as int)).len(),
                decreases t@.len() - i,
            {
                let ghost one = seq![t@[i as int]];
                proof {
                    assert(t@.take(i + 1) =~= t@.take(i as int) + one);
                    lemma_units_concat(t@.take(i as int), one);
                    assert(utf16_units(one.drop_first()) =~= Seq::<u16>::empty());
                }
                let w: usize = if (t[i] as u32) < 0x10000 { 1 } else { 2 };
                assert(utf16_units(one).len() == w);
                units = match units.checked_add(w) {
                    Some(u) => u,
                    None => {
                        proof {
                            assert(utf16_units(t@.take(i + 1)).len() == units + w);
                            lemma_units_prefix(t@, i + 1);
                            assert(utf16_units(t@).len() > usize::MAX);
                            assert(text_len(t@, enc) == 2 * (utf16_units(t@).len() as int));
                        }
                        return None;
                    },
                };
                i = i + 1;
            }
            assert(t@.take(t@.len() as int) =~= t@);
            units.checked_mul(2)
        },
        _ => {
            let s = string_from_chars(t.as_slice());
            let b = s.as_str().as_bytes();
            Some(b.len())
        },
    }
}

proof fn lemma_units_prefix(t: Seq<char>, k: int)
    requires
        0 <= k <= t.len(),
    ensures
        utf16_units(t.take(k)).len() <= utf16_units(t).len(),
{
    assert(t =~= t.take(k) + t.skip(k));
    lemma_units_concat(t.take(k), t.skip(k));
}

/// A text without its leading `U+FEFF` characters (see [`strip_feff`]).
fn strip_feff_of(s: &str) -> (r: Vec<char>)
    ensures
        r@ == strip_feff(s@),
{
    let v = chars_of(s);
    let mut i: usize = 0;
    assert(v@.skip(0) =~= v@);
    while i < v.len() && v[i] == '\u{FEFF}'
        invariant
            i <= v@.len(),
            strip_feff(v@) == strip_feff(v@.skip(i as int)),
        decreases v@.len() - i,
    {
        assert(v@.skip(i as int).drop_first() =~= v@.skip(i + 1));
        i = i + 1;
    }
    let vlen = v.len();
    let r = crate::text::slice_chars(&v, i, vlen);
    assert(r@ =~= v@.skip(i as int));
    r
}

/// Reads a file's text (already decoded, without byte-order marks): every
/// line, every line's key and the entries with their line numbers and byte
/// offsets (see [`file_is`]).
pub fn parse_mcm_content(content: &Vec<char>, encoding: McmEncoding, line_ending: String, path: String) -> (r: McmFile)
    requires
        line_offset(lines(content@), encoding, text_len(line_ending@, encoding), lines(content@).len() as int) <= usize::MAX,
    ensures
        file_is(r, content@, encoding, line_ending@, path@),
{
    let text = string_from_chars(content.as_slice());
    let ls = lines_of(text.as_str());
    let ghost gl = lines(content@);
    let ghost nlv = text_len(line_ending@, encoding);
    let nl_opt = text_len_of(&chars_of(line_ending.as_str()), encoding);
    let mut entries: Vec<McmEntry> = Vec::new();
    let mut normalized_lines: Vec<String> = Vec::new();
    let mut header_list: Vec<String> = Vec::new();
    let mut offset: usize = match encoding {
        McmEncoding::Utf16Le | McmEncoding::Utf16Be => 2,
        _ => 0,
    };
    let n = ls.len();
    let mut k: usize = 0;
    while k < n
        invariant
            k <= n,
            n == gl.len(),
            ls@.len() == n,
            gl == lines(content@),
            forall|t: int| 0 <= t < n ==> #[trigger] ls@[t]@ == gl[t],
            nlv == text_len(line_ending@, encoding),
            nl_opt matches Some(v) ==> v == nlv,
            nl_opt is None ==> nlv > usize::MAX,
            line_offset(gl, encoding, nlv, n as int) <= usize::MAX,
            offset == line_offset(gl, encoding, nlv, k as int),
            entries_view(entries@) == entries_upto(gl, encoding, nlv, k as int),
            crate::header_processor::texts(normalized_lines@) == gl.take(k as int),
            crate::header_processor::texts(header_list@) == line_keys(gl).take(k as int),
        decreases n - k,
    {
        proof {
            lemma_text_len_nonneg(line_ending@, encoding);
            if nl_opt is Some {
                lemma_line_offset_mono(gl, encoding, nlv, k as int, n as int);
            }
        }
        let nl = match nl_opt {
            Some(v) => v,
            None => {
                proof {
                    lemma_line_offset_mono(gl, encoding, nlv, k as int, n as int);
                    lemma_text_len_nonneg(gl[k as int], encoding);
                }
                return McmFile { entries, normalized_lines, header_list, encoding, path, line_ending };
            },
        };
        let line = &ls[k];
        let ll = match text_len_of(line, encoding) {
            Some(v) => v,
            None => {
                return McmFile { entries, normalized_lines, header_list, encoding, path, line_ending };
            },
        };
        let ghost pe = entries@;
        let ghost pn = normalized_lines@;
        let ghost ph = header_list@;
        normalized_lines.push(string_from_chars(line.as_slice()));
        match parse_mcm_line(line) {
            Some(kv) => {
                let (key, value) = kv;
                header_list.push(string_from_chars(chars_of(key.as_str()).as_slice()));
                entries.push(McmEntry { id: key, source: value, translation: String::new(), line_index: k, byte_offset: offset });
                assert(entries_view(entries@) =~= entries_view(pe).push(entries@.last()@));
            },
            None => {
                header_list.push(String::new());
            },
        }
        proof {
            assert(gl.take(k + 1) =~= gl.take(k as int).push(gl[k as int]));
            assert(line_keys(gl).take(k + 1) =~= line_keys(gl).take(k as int).push(line_keys(gl)[k as int]));
            assert(crate::header_processor::texts(normalized_lines@) =~= crate::header_processor::texts(pn).push(normalized_lines@.last()@));
            assert(crate::header_processor::texts(header_list@) =~= crate::header_processor::texts(ph).push(header_list@.last()@));
        }
        offset = offset + ll + nl;
        k = k + 1;
    }
    proof {
        assert(gl.take(n as int) =~= gl);
        assert(line_keys(gl).take(n as int) =~= line_keys(gl));
    }
    McmFile { entries, normalized_lines, header_list, encoding, path, line_ending }
}

/// The file's text: its bytes decoded in the encoding that their
/// byte-order mark announces, without leading `U+FEFF` characters.
pub open spec fn file_text(raw: Seq<u8>) -> Seq<char> {
    strip_feff(decoded(raw, bom_encoding(raw)))
}

/// Where the line after the last one would start.
pub open spec fn file_end(raw: Seq<u8>) -> int {
    let enc = bom_encoding(raw);
    let ls = lines(file_text(raw));
    line_offset(ls, enc, text_len(line_ending_from(raw, 0), enc), ls.len() as int)
}

/// Reads an MCM file's bytes: the encoding from the byte-order mark, the
/// line ending, then the lines and entries of the decoded text (see
/// [`file_is`]). `None` when the byte offsets do not fit in a machine word.
pub fn parse_mcm_bytes(raw: &[u8], path: &str) -> (r: Option<McmFile>)
    requires
        raw@.len() < usize::MAX / 2,
    ensures
        match r {
            Some(f) => file_is(f, file_text(raw@), bom_encoding(raw@), line_ending_from(raw@, 0), path@),
            None => file_end(raw@) > usize::MAX,
        },
{
    let encoding = detect_encoding(raw);
    let line_ending = detect_line_ending(raw);
    let decoded_text = decode_bytes(raw, encoding);
    let content = strip_feff_of(decoded_text.as_str());
    let text = string_from_chars(content.as_slice());
    let ls = lines_of(text.as_str());
    let ghost gl = lines(content@);
    let ghost nlv = text_len(line_ending@, encoding);
    let nl = match text_len_of(&chars_of(line_ending.as_str()), encoding) {
        Some(v) => v,
        None => {
            if ls.len() == 0 {
                let p = string_from_chars(chars_of(path).as_slice());
                return Some(parse_mcm_content(&content, encoding, line_ending, p));
            }
            proof {
                lemma_text_len_nonneg(gl[0], encoding);
                lemma_line_offset_mono(gl, encoding, nlv, 0, gl.len() as int);
            }
            return None;
        },
    };
    let mut total: usize = match encoding {
        McmEncoding::Utf16Le | McmEncoding::Utf16Be => 2,
        _ => 0,
    };
    let n = ls.len();
    let mut k: usize = 0;
    while k < n
        invariant
            k <= n,
            n == gl.len(),
            ls@.len() == n,
            forall|t: int| 0 <= t < n ==> #[trigger] ls@[t]@ == gl[t],
            nl == nlv,
            nlv == text_len(line_ending@, encoding),
            total == line_offset(gl, encoding, nlv, k as int),
            gl == lines(content@),
            content@ == file_text(raw@),
            encoding == bom_encoding(raw@),
            line_ending@ == line_ending_from(raw@, 0),
        decreases n - k,
    {
        proof {
            lemma_text_len_nonneg(gl[k as int], encoding);
            lemma_text_len_nonneg(line_ending@, encoding);
        }
        let ll = match text_len_of(&ls[k], encoding) {
            Some(v) => v,
            None => {
                proof {
                    lemma_line_offset_mono(gl, encoding, nlv, k as int, n as int);
                }
                return None;
            },
        };
        let step = match ll.checked_add(nl) {
            Some(v) => v,
            None => {
                proof {
                    lemma_line_offset_mono(gl, encoding, nlv, k as int, n as int);
                }
                return None;
            },
        };
        total = match total.checked_add(step) {
            Some(v) => v,
            None => {
                proof {
                    lemma_line_offset_mono(gl, encoding, nlv, k + 1, n as int);
                }
                return None;
            },
        };
        k = k + 1;
    }
    let p = string_from_chars(chars_of(path).as_slice());
    Some(parse_mcm_content(&content, encoding, line_ending, p))
}

/// A line with an entry's text put back: when the line has a tab and the
/// text after it contains the entry's source, the line up to and including
/// the tab followed by the translation (or the source, when there is no
/// translation).
pub open spec fn fill_line(line: Seq<char>, e: McmEntryV) -> Seq<char> {
    match find_text(line, seq!['\t']) {
        Some(p) => if find_text(line.skip(p + 1), e.source) is Some {
            line.take(p + 1) + (if e.translation.len() == 0 { e.source } else { e.translation })
        } else {
            line
        },
        None => line,
    }
}

/// The lines after putting back the first `n` entries, in order; an entry
/// whose line number is past the lines is passed over.
pub open spec fn filled_lines(ls: Seq<Seq<char>>, es: Seq<McmEntryV>, n: int) -> Seq<Seq<char>>
    decreases n,
{
    if n <= 0 || n > es.len() {
        ls
    } else {
        let prev = filled_lines(ls, es, n - 1);
        let e = es[n - 1];
        if (e.line_index as int) < prev.len() {
            prev.update(e.line_index as int, fill_line(prev[e.line_index as int], e))
        } else {
            prev
        }
    }
}

proof fn lemma_filled_len(ls: Seq<Seq<char>>, es: Seq<McmEntryV>, n: int)
    ensures
        filled_lines(ls, es, n).len() == ls.len(),
    decreases n,
{
    if n > 0 && n <= es.len() {
        lemma_filled_len(ls, es, n - 1);
    }
}

/// The text a file is saved as: its lines with every entry put back,
/// joined by its line ending.
pub open spec fn save_text(f: McmFile) -> Seq<char> {
    crate::def_ui::joined(
        filled_lines(crate::header_processor::texts(f.normalized_lines@), entries_view(f.entries@), f.entries@.len() as int),
        f.line_ending@,
    )
}

/// A line with an entry's text put back (see [`fill_line`]).
fn fill_line_of(line: &Vec<char>, e: &McmEntry) -> (r: Vec<char>)
    ensures
        r@ == fill_line(line@, e@),
{
    let mut tab: Vec<char> = Vec::new();
    tab.push('\t');
    assert(tab@ =~= seq!['\t']);
    match find_chars(line, &tab) {
        Some(p) => {
            proof {
                lemma_find_bounds(line@, tab@);
            }
            let llen = line.len();
            let after = crate::text::slice_chars(line, p + 1, llen);
            assert(after@ =~= line@.skip(p + 1));
            let src = chars_of(e.source.as_str());
            match find_chars(&after, &src) {
                Some(_) => {
                    let mut out = crate::text::slice_chars(line, 0, p + 1);
                    assert(out@ =~= line@.take(p + 1));
                    if e.translation.as_str().unicode_len() == 0 {
                        extend_chars(&mut out, &src);
                    } else {
                        extend_chars(&mut out, &chars_of(e.translation.as_str()));
                    }
                    out
                },
                None => line.clone(),
            }
        },
        None => line.clone(),
    }
}

/// The text a file is saved as (see [`save_text`]).
pub fn mcm_save_text(file: &McmFile) -> (r: String)
    ensures
        r@ == save_text(*file),
{
    let ghost ls0 = crate::header_processor::texts(file.normalized_lines@);
    let ghost es = entries_view(file.entries@);
    let mut lines: Vec<Vec<char>> = Vec::new();
    let mut i: usize = 0;
    while i < file.normalized_lines.len()
        invariant
            i <= file.normalized_lines@.len(),
            ls0 == crate::header_processor::texts(file.normalized_lines@),
            lines@.len() == i,
            forall|t: int| 0 <= t < i ==> #[trigger] lines@[t]@ == ls0[t],
        decreases file.normalized_lines@.len() - i,
    {
        lines.push(chars_of(file.normalized_lines[i].as_str()));
        i = i + 1;
    }
    let mut j: usize = 0;
    while j < file.entries.len()
        invariant
            j <= file.entries@.len(),
            es == entries_view(file.entries@),
            lines@.len() == ls0.len(),
            filled_lines(ls0, es, j as int).len() == ls0.len(),
            forall|t: int| 0 <= t < lines@.len() ==> #[trigger] lines@[t]@ == filled_lines(ls0, es, j as int)[t],
        decreases file.entries@.len() - j,
    {
        let e = &file.entries[j];
        assert(es[j as int] == e@);
        proof {
            lemma_filled_len(ls0, es, j + 1);
        }
        if e.line_index < lines.len() {
            let filled = fill_line_of(&lines[e.line_index], e);
            lines.set(e.line_index, filled);
        }
        j = j + 1;
    }
    let mut out: Vec<char> = Vec::new();
    let sep = chars_of(file.line_ending.as_str());
    let mut k: usize = 0;
    let ghost fl = filled_lines(ls0, es, es.len() as int);
    while k < lines.len()
        invariant
            k <= lines@.len(),
            fl.len() == lines@.len(),
            forall|t: int| 0 <= t < lines@.len() ==> #[trigger] lines@[t]@ == fl[t],
            sep@ == file.line_ending@,
            out@ == crate::def_ui::joined(fl.take(k as int), sep@),
        decreases lines@.len() - k,
    {
        assert(fl.take(k + 1).drop_last() =~= fl.take(k as int));
        if k > 0 {
            extend_chars(&mut out, &sep);
        }
        extend_chars(&mut out, &lines[k]);
        k = k + 1;
    }
    assert(fl.take(fl.len() as int) =~= fl);
    string_from_chars(out.as_slice())
}

/// The bytes a file is saved as: its text in its encoding (see
/// [`save_text`] and [`encoded`]).
pub fn mcm_save_bytes(file: &McmFile) -> (r: Vec<u8>)
    ensures
        r@ == encoded(save_text(*file), file.encoding),
{
    let text = mcm_save_text(file);
    encode_to_bytes(text.as_str(), &file.encoding)
}

/// The line that stands for an entry in the normalised text: its key, a
/// tab, the placeholder `{{xt=N}}` for its line number `N`, and a tab.
pub open spec fn normalized_line(e: McmEntryV) -> Seq<char> {
    e.id + "\t{{xt="@ + crate::text::decimal(e.line_index as nat) + "}}\t"@
}

/// The normalised text of a list of entries: their lines joined by line
/// feeds.
pub fn build_normalized_text(entries: &[McmEntry]) -> (r: String)
    ensures
        r@ == crate::def_ui::joined(entries_view(entries@).map_values(|e: McmEntryV| normalized_line(e)), "\n"@),
{
    let ghost ws = entries_view(entries@).map_values(|e: McmEntryV| normalized_line(e));
    let mut out: Vec<char> = Vec::new();
    let mut k: usize = 0;
    while k < entries.len()
        invariant
            k <= entries@.len(),
            ws == entries_view(entries@).map_values(|e: McmEntryV| normalized_line(e)),
            out@ == crate::def_ui::joined(ws.take(k as int), "\n"@),
        decreases entries@.len() - k,
    {
        assert(ws.take(k + 1).drop_last() =~= ws.take(k as int));
        if k > 0 {
            crate::header_processor::push_lit(&mut out, "\n");
        }
        let e = &entries[k];
        let mut line = chars_of(e.id.as_str());
        crate::header_processor::push_lit(&mut line, "\t{{xt=");
        extend_chars(&mut line, &crate::text::u64_decimal(e.line_index as u64));
        crate::header_processor::push_lit(&mut line, "}}\t");
        assert(line@ == ws[k as int]);
        extend_chars(&mut out, &line);
        k = k + 1;
    }
    assert(ws.take(ws.len() as int) =~= ws);
    string_from_chars(out.as_slice())
}

} // verus!
