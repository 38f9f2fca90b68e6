//! The data files that describe a game: condition functions, field size
//! limits, dialogue subtypes and emotes, each a list of `key=value` lines.
use vstd::prelude::*;
use std::collections::HashMap;
use crate::mcm::types::{find_text, find_chars};
use crate::text::{chars_of, string_from_chars, trim, trim_chars, lines, lines_of, slice_chars, split_seq, split_chars};
use crate::header_processor::{spec_parse_hex_u32, parse_hex_u32_text};
use crate::command_processor::{all_digits, digits_value};

verus! {

/// A condition function: its name and its parameter signature.
#[derive(Clone, Debug)]
pub struct CtdaFunc {
    pub name: String,
    pub params: String,
}

/// A condition function as plain values.
pub struct CtdaFuncV {
    pub name: Seq<char>,
    pub params: Seq<char>,
}

impl View for CtdaFunc {
    type V = CtdaFuncV;

    open spec fn view(&self) -> CtdaFuncV {
        CtdaFuncV { name: self.name@, params: self.params@ }
    }
}

/// The size limit of a field and whether its text may wrap.
#[derive(Clone, Copy, Debug)]
pub struct FieldSizeInfo {
    pub max_size: u32,
    pub can_wrap: bool,
}

/// A 32-bit number in decimal, as `u32::from_str` reads it: an optional
/// `+`, at least one digit, and a value in range.
pub open spec fn spec_parse_u32(s: Seq<char>) -> Option<u32> {
    let d = if s.len() > 0 && s[0] == '+' { s.drop_first() } else { s };
    if d.len() > 0 && all_digits(d) && digits_value(d) <= u32::MAX { Some(digits_value(d) as u32) } else { None }
}

/// Reads a 32-bit decimal (see [`spec_parse_u32`]).
pub fn parse_u32_text(s: &Vec<char>) -> (r: Option<u32>)
    ensures
        r == spec_parse_u32(s@),
{
    let ghost d = if s@.len() > 0 && s@[0] == '+' { s@.drop_first() } else { s@ };
    proof {
        if all_digits(d) {
            crate::header_processor::lemma_digits_nonneg(d);
        }
    }
    match crate::mcm::types::parse_usize_text(s) {
        Some(v) => {
            if v <= 0xFFFF_FFFF { Some(v as u32) } else { None }
        },
        None => {
            proof {
                let d = if s@.len() > 0 && s@[0] == '+' { s@.drop_first() } else { s@ };
                if d.len() > 0 && all_digits(d) && digits_value(d) <= u32::MAX {
                    assert(digits_value(d) <= usize::MAX);
                }
            }
            None
        },
    }
}

/// A line's text that holds an entry: trimmed, not empty and not a `#`
/// comment; split at its first `=` into the trimmed key and value.
pub open spec fn key_value(line: Seq<char>) -> Option<(Seq<char>, Seq<char>)> {
    let t = trim(line);
    if t.len() == 0 || t[0] == '#' {
        None
    } else {
        match find_text(t, seq!['=']) {
            Some(p) => Some((trim(t.take(p)), trim(t.skip(p + 1)))),
            None => None,
        }
    }
}

proof fn lemma_find_in_bounds(s: Seq<char>, pat: Seq<char>, i: int)
    ensures
        crate::mcm::types::find_from(s, pat, i) matches Some(k) ==> i <= k && k + pat.len() <= s.len(),
    decreases s.len() + 1 - i,
{
    if i >= 0 && i + pat.len() <= s.len() && s.subrange(i, i + pat.len()) != pat {
        lemma_find_in_bounds(s, pat, i + 1);
    }
}

/// The key and value of a line (see [`key_value`]).
fn key_value_of(line: &Vec<char>) -> (r: Option<(Vec<char>, Vec<char>)>)
    ensures
        match r {
            Some(kv) => key_value(line@) == Some((kv.0@, kv.1@)),
            None => key_value(line@) is None,
        },
{
    let t = trim_chars(line);
    if t.len() == 0 || t[0] == '#' {
        return None;
    }
    let mut eq: Vec<char> = Vec::new();
    eq.push('=');
    assert(eq@ =~= seq!['=']);
    match find_chars(&t, &eq) {
        Some(p) => {
            proof {
                lemma_find_in_bounds(t@, eq@, 0);
            }
            let tlen = t.len();
            let key = trim_chars(&slice_chars(&t, 0, p));
            let value = trim_chars(&slice_chars(&t, p + 1, tlen));
            assert(t@.subrange(0, p as int) =~= t@.take(p as int));
            assert(t@.subrange(p + 1, tlen as int) =~= t@.skip(p + 1));
            Some((key, value))
        },
        None => None,
    }
}

/// The entry of a mapping line: a hexadecimal form id and a name.
pub open spec fn hex_entry(line: Seq<char>) -> Option<(u32, Seq<char>)> {
    match key_value(line) {
        Some(kv) => match spec_parse_hex_u32(kv.0) {
            Some(id) => Some((id, kv.1)),
            None => None,
        },
        None => None,
    }
}

/// The mapping of the first `n` lines: each entry line maps its form id to
/// its name; a later line wins.
pub open spec fn hex_mapping(ls: Seq<Seq<char>>, n: int) -> Map<u32, Seq<char>>
    decreases n,
{
    if n <= 0 || n > ls.len() {
        Map::empty()
    } else {
        match hex_entry(ls[n - 1]) {
            Some(e) => hex_mapping(ls, n - 1).insert(e.0, e.1),
            None => hex_mapping(ls, n - 1),
        }
    }
}

/// The texts of a map's values.
pub open spec fn texts_map(m: Map<u32, String>) -> Map<u32, Seq<char>> {
    m.map_values(|s: String| s@)
}

/// Reads a `FormID=Name` file (see [`hex_mapping`]).
fn parse_simple_hex_mapping(content: &str) -> (r: HashMap<u32, String>)
    ensures
        texts_map(r@) == hex_mapping(lines(content@), lines(content@).len() as int),
{
    let ls = lines_of(content);
    let ghost gl = lines(content@);
    let mut m: HashMap<u32, String> = HashMap::new();
    let mut k: usize = 0;
    while k < ls.len()
        invariant
            k <= ls@.len(),
            ls@.len() == gl.len(),
            gl == lines(content@),
            forall|t: int| 0 <= t < ls@.len() ==> #[trigger] ls@[t]@ == gl[t],
            texts_map(m@) == hex_mapping(gl, k as int),
        decreases ls@.len() - k,
    {
        match key_value_of(&ls[k]) {
            Some(kv) => {
                let (key, value) = kv;
                match parse_hex_u32_text(&key) {
                    Some(id) => {
                        let ghost before = m@;
                        m.insert(id, string_from_chars(value.as_slice()));
                        assert(texts_map(m@) =~= texts_map(before).insert(id, value@));
                    },
                    None => {},
                }
            },
            None => {},
        }
        k = k + 1;
    }
    m
}

/// Reads `DialSubType.txt`: hexadecimal form ids mapped to subtype names.
pub fn parse_dial_sub_type(content: &str) -> (r: HashMap<u32, String>)
    ensures
        texts_map(r@) == hex_mapping(lines(content@), lines(content@).len() as int),
{
    parse_simple_hex_mapping(content)
}

/// Reads `EmoteDefinition.txt`: hexadecimal form ids mapped to emote names.
pub fn parse_emote_definition(content: &str) -> (r: HashMap<u32, String>)
    ensures
        texts_map(r@) == hex_mapping(lines(content@), lines(content@).len() as int),
{
    parse_simple_hex_mapping(content)
}

/// The id of a condition function: hexadecimal after `0x` or `0X`, else
/// decimal.
pub open spec fn ctda_id(s: Seq<char>) -> Option<u32> {
    if s.len() >= 2 && s[0] == '0' && (s[1] == 'x' || s[1] == 'X') {
        spec_parse_hex_u32(s.skip(2))
    } else {
        spec_parse_u32(s)
    }
}

/// The entry of a condition-function line: its id, and the value split at
/// the first `:{` into the name and the parameters (from the `{` on); a
/// value without `:{` is all name.
pub open spec fn ctda_entry(line: Seq<char>) -> Option<(u32, CtdaFuncV)> {
    match key_value(line) {
        Some(kv) => match ctda_id(kv.0) {
            Some(id) => match find_text(kv.1, ":{"@) {
                Some(p) => Some((id, CtdaFuncV { name: kv.1.take(p), params: kv.1.skip(p + 1) })),
                None => Some((id, CtdaFuncV { name: kv.1, params: Seq::empty() })),
            },
            None => None,
        },
        None => None,
    }
}

/// The functions of the first `n` lines, by id; a later line wins.
pub open spec fn ctda_map(ls: Seq<Seq<char>>, n: int) -> Map<u32, CtdaFuncV>
    decreases n,
{
    if n <= 0 || n > ls.len() {
        Map::empty()
    } else {
        match ctda_entry(ls[n - 1]) {
            Some(e) => ctda_map(ls, n - 1).insert(e.0, e.1),
            None => ctda_map(ls, n - 1),
        }
    }
}

/// The views of a map's functions.
pub open spec fn funcs_map(m: Map<u32, CtdaFunc>) -> Map<u32, CtdaFuncV> {
    m.map_values(|f: CtdaFunc| f@)
}

/// The id of a condition function (see [`ctda_id`]).
fn ctda_id_of(s: &Vec<char>) -> (r: Option<u32>)
    ensures
        r == ctda_id(s@),
{
    if s.len() >= 2 && s[0] == '0' && (s[1] == 'x' || s[1] == 'X') {
        let slen = s.len();
        let digits = slice_chars(s, 2, slen);
        assert(digits@ =~= s@.skip(2));
        parse_hex_u32_text(&digits)
    } else {
        parse_u32_text(s)
    }
}

/// Reads `ctdaFunc.txt`: condition functions by id (see [`ctda_map`]).
pub fn parse_ctda_func(content: &str) -> (r: HashMap<u32, CtdaFunc>)
    ensures
        funcs_map(r@) == ctda_map(lines(content@), lines(content@).len() as int),
{
    let ls = lines_of(content);
    let ghost gl = lines(content@);
    let mut m: HashMap<u32, CtdaFunc> = HashMap::new();
    let mut k: usize = 0;
    while k < ls.len()
        invariant
            k <= ls@.len(),
            ls@.len() == gl.len(),
            gl == lines(content@),
            forall|t: int| 0 <= t < ls@.len() ==> #[trigger] ls@[t]@ == gl[t],
            funcs_map(m@) == ctda_map(gl, k as int),
        decreases ls@.len() - k,
    {
        match key_value_of(&ls[k]) {
            Some(kv) => {
                let (key, rest) = kv;
                match ctda_id_of(&key) {
                    Some(id) => {
                        let pat = chars_of(":{");
                        let f = match find_chars(&rest, &pat) {
                            Some(p) => {
                                proof {
                                    reveal_strlit(":{");
                                    lemma_find_in_bounds(rest@, pat@, 0);
                                }
                                let rlen = rest.len();
                                let name = slice_chars(&rest, 0, p);
                                let params = slice_chars(&rest, p + 1, rlen);
                                assert(name@ =~= rest@.take(p as int));
                                assert(params@ =~= rest@.skip(p + 1));
                                CtdaFunc { name: string_from_chars(name.as_slice()), params: string_from_chars(params.as_slice()) }
                            },
                            None => CtdaFunc { name: string_from_chars(rest.as_slice()), params: String::new() },
                        };
                        let ghost before = m@;
                        let ghost fv = f@;
                        m.insert(id, f);
                        assert(funcs_map(m@) =~= funcs_map(before).insert(id, fv));
                    },
                    None => {},
                }
            },
            None => {},
        }
        k = k + 1;
    }
    m
}

/// The entry of a field-size line: a key of exactly three `:`-separated
/// parts (record, field, wrap flag) and a decimal size; the entry is keyed
/// by the upper-cased record and field joined by `:`, and may wrap when the
/// flag is `1`.
pub open spec fn size_entry(line: Seq<char>) -> Option<(Seq<char>, FieldSizeInfo)> {
    match key_value(line) {
        Some(kv) => {
            let parts = split_seq(kv.0, ':');
            if parts.len() != 3 {
                None
            } else {
                match spec_parse_u32(kv.1) {
                    Some(m) => Some((
                        crate::text::unicode_upper_str(parts[0]) + ":"@ + crate::text::unicode_upper_str(parts[1]),
                        FieldSizeInfo { max_size: m, can_wrap: parts[2] == "1"@ },
                    )),
                    None => None,
                }
            }
        },
        None => None,
    }
}

/// The entries of the first `n` lines, in order.
pub open spec fn size_entries(ls: Seq<Seq<char>>, n: int) -> Seq<(Seq<char>, FieldSizeInfo)>
    decreases n,
{
    if n <= 0 || n > ls.len() {
        Seq::empty()
    } else {
        match size_entry(ls[n - 1]) {
            Some(e) => size_entries(ls, n - 1).push(e),
            None => size_entries(ls, n - 1),
        }
    }
}

/// The views of a list of keyed sizes.
pub open spec fn sizes_view(v: Seq<(String, FieldSizeInfo)>) -> Seq<(Seq<char>, FieldSizeInfo)> {
    v.map_values(|e: (String, FieldSizeInfo)| (e.0@, e.1))
}

/// Reads `fieldSizeRef.txt`: the size entries in line order (see
/// [`size_entries`]); keyed by record and field, a later entry overrides an
/// earlier one.
pub fn field_size_entries(content: &str) -> (r: Vec<(String, FieldSizeInfo)>)
    ensures
        sizes_view(r@) == size_entries(lines(content@), lines(content@).len() as int),
{
    let ls = lines_of(content);
    let ghost gl = lines(content@);
    let mut out: Vec<(String, FieldSizeInfo)> = Vec::new();
    let mut k: usize = 0;
    while k < ls.len()
        invariant
            k <= ls@.len(),
            ls@.len() == gl.len(),
            gl == lines(content@),
            forall|t: int| 0 <= t < ls@.len() ==> #[trigger] ls@[t]@ == gl[t],
            sizes_view(out@) == size_entries(gl, k as int),
        decreases ls@.len() - k,
    {
        match key_value_of(&ls[k]) {
            Some(kv) => {
                let (left, right) = kv;
                let parts = split_chars(&left, ':');
                if parts.len() == 3 {
                    match parse_u32_text(&right) {
                        Some(max_size) => {
                            let one = chars_of("1");
                            let can_wrap = crate::text::chars_eq(&parts[2], &one);
                            let rec = crate::text::str_to_uppercase(string_from_chars(parts[0].as_slice()).as_str());
                            let field = crate::text::str_to_uppercase(string_from_chars(parts[1].as_slice()).as_str());
                            let mut key = chars_of(rec.as_str());
                            crate::header_processor::push_lit(&mut key, ":");
                            crate::header_processor::push_str(&mut key, &field);
                            let ghost before = out@;
                            out.push((string_from_chars(key.as_slice()), FieldSizeInfo { max_size, can_wrap }));
                            assert(sizes_view(out@) =~= sizes_view(before).push((key@, FieldSizeInfo { max_size, can_wrap })));
                        },
                        None => {},
                    }
                }
            },
            None => {},
        }
        k = k + 1;
    }
    out
}

} // verus!
