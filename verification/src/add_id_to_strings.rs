//! Prefixing translations with identifiers: string id, FormID, record and
//! field, and the dialogue topic an INFO record belongs to.
use vstd::prelude::*;
use std::collections::{HashMap, HashSet};
use crate::esp::record_tree::{EspFile, EspGrup, EspRecord};
use crate::types::{SkyString, SkyStringView, SkyStringParams, SkyStringInternalParams};
use crate::text::{string_from_chars, chars_of, extend_chars};

verus! {

/// Which strings get a prefix.
#[derive(Clone, Copy, Debug, PartialEq, Eq, Default, Structural)]
pub enum AddIdToStringsScope {
    /// Every string.
    #[default]
    Everything,
    /// Strings neither translated nor validated.
    NoTransValid,
    /// The selected strings.
    Selection,
}

/// What to prefix, and to which strings.
#[derive(Clone, Debug, Default)]
pub struct AddIdToStringsOptions {
    pub scope: AddIdToStringsScope,
    pub selected_ids: Option<HashSet<u32>>,
    /// `[%.5x]`: the string id.
    pub add_string_id: bool,
    /// `[%.8x]`: the FormID.
    pub add_form_id: bool,
    /// `[REC:FIELD]`: record and field signature.
    pub add_record_ref: bool,
    /// `[@%.8x]`: the dialogue topic of an INFO record.
    pub add_dial_ref: bool,
}

/// How many strings were looked at and how many got a prefix.
#[derive(Clone, Debug, Default)]
pub struct AddIdToStringsResult {
    pub modified_count: u32,
    pub total_processed: u32,
}

// ---------------------------------------------------------------------------
// Hexadecimal

/// The lower-case hexadecimal digit of `d`.
pub open spec fn hex_char(d: int) -> char {
    if d < 10 { (('0' as int) + d) as char } else { (('a' as int) + d - 10) as char }
}

/// The eight hexadecimal digits of `v`, most significant first.
pub open spec fn hex8(v: u32) -> Seq<char> {
    Seq::new(8, |i: int| hex_char(((v as int) / pow16(7 - i)) % 16))
}

/// Sixteen to the power `e`.
pub open spec fn pow16(e: int) -> int
    decreases e,
{
    if e <= 0 { 1 } else { 16 * pow16(e - 1) }
}

/// `s` without leading zeros, keeping at least `width` characters.
pub open spec fn trim_zeros(s: Seq<char>, width: int) -> Seq<char>
    decreases s.len(),
{
    if s.len() > width && s.len() > 0 && s[0] == '0' { trim_zeros(s.drop_first(), width) } else { s }
}

/// `v` in lower-case hexadecimal, zero-padded to at least `width` digits.
pub open spec fn hex_min(v: u32, width: int) -> Seq<char> {
    trim_zeros(hex8(v), width)
}

/// The hexadecimal digit of a nibble.
fn hex_digit(d: u32) -> (r: char)
    requires
        d < 16,
    ensures
        r == hex_char(d as int),
{
    if d < 10 {
        ((0x30u32 + d) as u8) as char
    } else {
        ((0x61u32 + d - 10) as u8) as char
    }
}

/// `v` in lower-case hexadecimal, zero-padded to at least `width` digits
/// (`{:0width$x}`).
pub fn hex_lower_padded(v: u32, width: usize) -> (r: Vec<char>)
    requires
        width <= 8,
    ensures
        r@ == hex_min(v, width as int),
{
    let mut digits: Vec<char> = Vec::new();
    let mut i: usize = 0;
    let mut div: u32 = 0x1000_0000;
    assert(pow16(7) == 0x1000_0000) by {
        reveal_with_fuel(pow16, 8);
    }
    while i < 8
        invariant
            i <= 8,
            div as int == pow16(7 - i as int),
            digits@ == hex8(v).take(i as int),
        decreases 8 - i,
    {
        proof {
            assert(pow16(7 - i as int) > 0) by {
                lemma_pow16_pos(7 - i as int);
            }
        }
        let d = (v / div) % 16;
        digits.push(hex_digit(d));
        proof {
            assert(digits@ =~= hex8(v).take(i + 1));
        }
        if i < 7 {
            proof {
                assert(pow16(7 - i as int) == 16 * pow16(6 - i as int));
            }
            div = div / 16;
        }
        i = i + 1;
    }
    assert(hex8(v).take(8) =~= hex8(v));
    let mut start: usize = 0;
    while start < 8 - width && digits[start] == '0'
        invariant
            start <= 8 - width,
            digits@.len() == 8,
            trim_zeros(digits@.subrange(start as int, 8), width as int) == hex_min(v, width as int),
        decreases 8 - start,
    {
        assert(digits@.subrange(start as int, 8).drop_first() =~= digits@.subrange(start + 1, 8));
        start = start + 1;
    }
    let mut out: Vec<char> = Vec::new();
    let mut k: usize = start;
    while k < 8
        invariant
            start <= k <= 8,
            digits@.len() == 8,
            out@ == digits@.subrange(start as int, k as int),
        decreases 8 - k,
    {
        out.push(digits[k]);
        k = k + 1;
        assert(out@ =~= digits@.subrange(start as int, k as int));
    }
    out
}

proof fn lemma_pow16_pos(e: int)
    ensures
        pow16(e) > 0,
    decreases e,
{
    if e > 0 {
        lemma_pow16_pos(e - 1);
    }
}

// ---------------------------------------------------------------------------
// Dialogue topics of INFO records

/// The signature `INFO`.
pub open spec fn sig_info() -> Seq<u8> {
    seq![0x49u8, 0x4Eu8, 0x46u8, 0x4Fu8]
}

/// The group holds an INFO record.
pub open spec fn has_info(g: EspGrup) -> bool {
    exists|i: int| 0 <= i < g.records@.len() && (#[trigger] g.records@[i]).header.name@ == sig_info()
}

/// A group label made of ASCII letters and underscores (a type label, not a FormID).
pub open spec fn ascii_label(b: [u8; 4]) -> bool {
    forall|i: int| 0 <= i < 4 ==> {
        let c = #[trigger] b@[i];
        (0x41 <= c <= 0x5A) || (0x61 <= c <= 0x7A) || c == 0x5F
    }
}

/// The INFO records of `rs` mapped to `dial`, in order, over `m`.
pub open spec fn insert_infos(rs: Seq<EspRecord>, dial: u32, m: Map<u32, u32>) -> Map<u32, u32>
    decreases rs.len(),
{
    if rs.len() == 0 {
        m
    } else {
        let m1 = insert_infos(rs.drop_last(), dial, m);
        if rs.last().header.name@ == sig_info() { m1.insert(rs.last().form_id, dial) } else { m1 }
    }
}

/// A group of INFO records labelled with a FormID other than 0 maps them to
/// that FormID (their dialogue topic).
pub open spec fn grup_infos(g: EspGrup, m: Map<u32, u32>) -> Map<u32, u32> {
    let dial = crate::bytes::le_u32(g.grup_header.s_ident@, 0);
    if has_info(g) && !ascii_label(g.grup_header.s_ident) && dial != 0 {
        insert_infos(g.records@, dial, m)
    } else {
        m
    }
}

/// The INFO to dialogue topic map of a list of groups, each group before
/// its children, over `m`.
pub open spec fn info_map(gs: Seq<EspGrup>, m: Map<u32, u32>) -> Map<u32, u32>
    decreases gs,
{
    if gs.len() == 0 {
        m
    } else {
        proof {
            assert(decreases_to!(gs => gs[gs.len() - 1]));
        }
        let g = gs[gs.len() - 1];
        info_map(g.children@, grup_infos(g, info_map(gs.drop_last(), m)))
    }
}

/// Whether a group holds an INFO record.
fn grup_has_info(g: &EspGrup) -> (r: bool)
    ensures
        r == has_info(*g),
{
    let mut i: usize = 0;
    while i < g.records.len()
        invariant
            i <= g.records@.len(),
            forall|k: int| 0 <= k < i ==> (#[trigger] g.records@[k]).header.name@ != sig_info(),
        decreases g.records@.len() - i,
    {
        let n = &g.records[i].header.name;
        if n[0] == 0x49u8 && n[1] == 0x4Eu8 && n[2] == 0x46u8 && n[3] == 0x4Fu8 {
            assert(g.records@[i as int].header.name@ =~= sig_info());
            return true;
        }
        assert(n@[0] == n[0] && n@[1] == n[1] && n@[2] == n[2] && n@[3] == n[3]);
        i = i + 1;
    }
    false
}

/// Whether a label is made of ASCII letters and underscores.
fn is_ascii_label(b: &[u8; 4]) -> (r: bool)
    ensures
        r == ascii_label(*b),
{
    let mut i: usize = 0;
    while i < 4
        invariant
            i <= 4,
            forall|k: int| 0 <= k < i ==> {
                let c = #[trigger] b@[k];
                (0x41 <= c <= 0x5A) || (0x61 <= c <= 0x7A) || c == 0x5F
            },
        decreases 4 - i,
    {
        let c = b[i];
        if !((0x41 <= c && c <= 0x5A) || (0x61 <= c && c <= 0x7A) || c == 0x5F) {
            assert(b@[i as int] == c);
            return false;
        }
        i = i + 1;
    }
    true
}

/// Adds the INFO records of one group to the map (see [`grup_infos`]).
fn insert_grup_infos(g: &EspGrup, map: &mut HashMap<u32, u32>)
    ensures
        final(map)@ == grup_infos(*g, old(map)@),
{
    let s = &g.grup_header.s_ident;
    let dial = crate::bytes::read_u32_le(s, 0);
    if grup_has_info(g) && !is_ascii_label(s) && dial != 0 {
        let mut i: usize = 0;
        while i < g.records.len()
            invariant
                i <= g.records@.len(),
                dial == crate::bytes::le_u32(g.grup_header.s_ident@, 0),
                map@ == insert_infos(g.records@.take(i as int), dial, old(map)@),
            decreases g.records@.len() - i,
        {
            assert(g.records@.take(i + 1).drop_last() =~= g.records@.take(i as int));
            let rec = &g.records[i];
            let n = &rec.header.name;
            let is_info = n[0] == 0x49u8 && n[1] == 0x4Eu8 && n[2] == 0x46u8 && n[3] == 0x4Fu8;
            if is_info {
                assert(rec.header.name@ =~= sig_info());
                map.insert(rec.form_id, dial);
            } else {
                assert(n@[0] == n[0] && n@[1] == n[1] && n@[2] == n[2] && n@[3] == n[3]);
            }
            i = i + 1;
        }
        assert(g.records@.take(g.records@.len() as int) =~= g.records@);
    }
}

/// Adds the INFO records of the groups and their descendants (see [`info_map`]).
fn walk_grups(gs: &Vec<EspGrup>, map: &mut HashMap<u32, u32>)
    ensures
        final(map)@ == info_map(gs@, old(map)@),
    decreases gs@,
{
    let ghost m0 = map@;
    let mut i: usize = 0;
    while i < gs.len()
        invariant
            i <= gs@.len(),
            map@ == info_map(gs@.take(i as int), m0),
        decreases gs@.len() - i,
    {
        let g = &gs[i];
        proof {
            let t = gs@.take(i + 1);
            assert(t.drop_last() =~= gs@.take(i as int));
            assert(t[t.len() - 1] == gs@[i as int]);
            assert(decreases_to!(gs@ => gs@[i as int]));
            assert(decreases_to!(gs@[i as int] => gs@[i as int].children));
            assert(decreases_to!(gs@[i as int].children => gs@[i as int].children@));
        }
        insert_grup_infos(g, map);
        walk_grups(&g.children, map);
        i = i + 1;
    }
    assert(gs@.take(gs@.len() as int) =~= gs@);
}

/// The INFO to dialogue topic map of a plugin.
fn build_info_dial_map(esp_file: &EspFile) -> (r: HashMap<u32, u32>)
    ensures
        r@ == info_map(esp_file.top_level_grups@, Map::empty()),
{
    let mut map: HashMap<u32, u32> = HashMap::new();
    walk_grups(&esp_file.top_level_grups, &mut map);
    map
}

// ---------------------------------------------------------------------------
// Prefixes

/// A signature as text: its UTF-8 reading, or `????` when it is not UTF-8.
pub open spec fn sig_text(b: [u8; 4]) -> Seq<char> {
    if vstd::utf8::valid_utf8(b@) { vstd::utf8::decode_utf8(b@) } else { seq!['?', '?', '?', '?'] }
}

/// Record and field signature are both set (not all zero).
pub open spec fn esp_assigned(sk: SkyStringView) -> bool {
    sk.esp_ptr.record_sig@ != seq![0u8, 0u8, 0u8, 0u8] && sk.esp_ptr.field_sig@ != seq![0u8, 0u8, 0u8, 0u8]
}

/// The string is in the options' scope.
pub open spec fn in_scope(sk: SkyStringView, opts: AddIdToStringsOptions) -> bool {
    match opts.scope {
        AddIdToStringsScope::Everything => true,
        AddIdToStringsScope::NoTransValid => !crate::types::has_flag(sk.params, SkyStringParams::TRANSLATED)
            && !crate::types::has_flag(sk.params, SkyStringParams::VALIDATED),
        AddIdToStringsScope::Selection => opts.selected_ids matches Some(set) && set@.contains(sk.id),
    }
}

/// The string gets a prefix: in scope, not locked or untranslatable, and
/// not empty (empty source with an equal translation).
pub open spec fn tagged(sk: SkyStringView, opts: AddIdToStringsOptions) -> bool {
    &&& in_scope(sk, opts)
    &&& !crate::types::has_flag(sk.internal, SkyStringInternalParams::PEX_NO_TRANS)
    &&& !crate::types::has_flag(sk.params, SkyStringParams::LOCKED_TRANS)
    &&& !(sk.source.len() == 0 && sk.source == sk.translation)
}

/// `[` + text + `]`.
pub open spec fn bracketed(t: Seq<char>) -> Seq<char> {
    seq!['['] + t + seq![']']
}

/// The prefix of a string: `[%.5x]` string id, `[%.8x]` FormID,
/// `[REC:FIELD]` and, for INFO records with a known topic, `[@%.8x]`, as the
/// options ask.
pub open spec fn prefix_of(sk: SkyStringView, opts: AddIdToStringsOptions, dial: Map<u32, u32>) -> Seq<char> {
    let p = sk.esp_ptr;
    let a = if opts.add_string_id { bracketed(hex_min(p.str_id as u32, 5)) } else { Seq::empty() };
    let b = if opts.add_form_id { bracketed(hex_min(p.form_id, 8)) } else { Seq::empty() };
    let c = if opts.add_record_ref && esp_assigned(sk) {
        bracketed(sig_text(p.record_sig) + seq![':'] + sig_text(p.field_sig))
    } else {
        Seq::empty()
    };
    let d = if opts.add_dial_ref && esp_assigned(sk) && p.record_sig@ == sig_info() && dial.contains_key(p.form_id) {
        bracketed(seq!['@'] + hex_min(dial[p.form_id], 8))
    } else {
        Seq::empty()
    };
    a + b + c + d
}

/// The string after the operation: prefix, a space, then the translation,
/// when it gets a prefix; unchanged otherwise.
pub open spec fn with_prefix(sk: SkyStringView, opts: AddIdToStringsOptions, dial: Map<u32, u32>) -> SkyStringView {
    if tagged(sk, opts) {
        SkyStringView { translation: prefix_of(sk, opts, dial) + seq![' '] + sk.translation, ..sk }
    } else {
        sk
    }
}

/// How many of the first `k` strings get a prefix.
pub open spec fn count_tagged(ss: Seq<SkyStringView>, opts: AddIdToStringsOptions, k: int) -> int
    decreases k,
{
    if k <= 0 { 0 } else { count_tagged(ss, opts, k - 1) + if tagged(ss[k - 1], opts) { 1int } else { 0int } }
}

/// Some prefix is asked for.
pub open spec fn any_prefix(opts: AddIdToStringsOptions) -> bool {
    opts.add_string_id || opts.add_form_id || opts.add_record_ref || opts.add_dial_ref
}

/// The topic map the options can use: that of the plugin, when given.
pub open spec fn dial_map_of(esp_file: Option<&EspFile>) -> Map<u32, u32> {
    match esp_file {
        Some(f) => info_map(f.top_level_grups@, Map::empty()),
        None => Map::empty(),
    }
}

/// Whether a string is in the options' scope.
fn is_in_scope(sk: &SkyString, opts: &AddIdToStringsOptions) -> (r: bool)
    ensures
        r == in_scope(sk@, *opts),
{
    match opts.scope {
        AddIdToStringsScope::Everything => true,
        AddIdToStringsScope::NoTransValid => !sk.params.is_translated() && !sk.params.is_validated(),
        AddIdToStringsScope::Selection => match &opts.selected_ids {
            Some(set) => set.contains(&sk.id),
            None => false,
        },
    }
}

/// Appends `[`, the text and `]`.
fn push_bracketed(out: &mut Vec<char>, t: &Vec<char>)
    ensures
        final(out)@ == old(out)@ + bracketed(t@),
{
    out.push('[');
    extend_chars(out, t);
    out.push(']');
    assert(final(out)@ =~= old(out)@ + bracketed(t@)) by {
        assert(bracketed(t@) =~= seq!['['] + t@ + seq![']']);
    }
}

/// A signature as text (see [`sig_text`]).
fn sig_chars(b: &[u8; 4]) -> (r: Vec<char>)
    ensures
        r@ == sig_text(*b),
{
    match crate::text::utf8_text(b) {
        Some(s) => chars_of(s.as_str()),
        None => {
            let mut v: Vec<char> = Vec::new();
            v.push('?');
            v.push('?');
            v.push('?');
            v.push('?');
            assert(v@ =~= seq!['?', '?', '?', '?']);
            v
        },
    }
}

/// The prefix of a string (see [`prefix_of`]).
#[verifier::rlimit(40)]
#[verifier::spinoff_prover]
fn build_prefix(sk: &SkyString, opts: &AddIdToStringsOptions, dial: &HashMap<u32, u32>) -> (r: Vec<char>)
    ensures
        r@ == prefix_of(sk@, *opts, dial@),
{
    let p = &sk.esp_ptr;
    let assigned = !(p.record_sig[0] == 0 && p.record_sig[1] == 0 && p.record_sig[2] == 0 && p.record_sig[3] == 0)
        && !(p.field_sig[0] == 0 && p.field_sig[1] == 0 && p.field_sig[2] == 0 && p.field_sig[3] == 0);
    proof {
        assert(p.record_sig@[0] == p.record_sig[0] && p.record_sig@[1] == p.record_sig[1]
            && p.record_sig@[2] == p.record_sig[2] && p.record_sig@[3] == p.record_sig[3]);
        assert(p.field_sig@[0] == p.field_sig[0] && p.field_sig@[1] == p.field_sig[1]
            && p.field_sig@[2] == p.field_sig[2] && p.field_sig@[3] == p.field_sig[3]);
        if p.record_sig[0] == 0 && p.record_sig[1] == 0 && p.record_sig[2] == 0 && p.record_sig[3] == 0 {
            assert(p.record_sig@ =~= seq![0u8, 0u8, 0u8, 0u8]);
        }
        if p.field_sig[0] == 0 && p.field_sig[1] == 0 && p.field_sig[2] == 0 && p.field_sig[3] == 0 {
            assert(p.field_sig@ =~= seq![0u8, 0u8, 0u8, 0u8]);
        }
    }
    assert(assigned == esp_assigned(sk@));
    let mut out: Vec<char> = Vec::new();
    let ghost p0 = out@;
    if opts.add_string_id {
        push_bracketed(&mut out, &hex_lower_padded(p.str_id as u32, 5));
    }
    let ghost pa = out@;
    if opts.add_form_id {
        push_bracketed(&mut out, &hex_lower_padded(p.form_id, 8));
    }
    let ghost pb = out@;
    if opts.add_record_ref && assigned {
        let mut t = sig_chars(&p.record_sig);
        t.push(':');
        extend_chars(&mut t, &sig_chars(&p.field_sig));
        push_bracketed(&mut out, &t);
    }
    let ghost pc = out@;
    let is_info = p.record_sig[0] == 0x49u8 && p.record_sig[1] == 0x4Eu8 && p.record_sig[2] == 0x46u8
        && p.record_sig[3] == 0x4Fu8;
    proof {
        if is_info {
            assert(p.record_sig@ =~= sig_info());
        }
    }
    if opts.add_dial_ref && assigned && is_info {
        match dial.get(&p.form_id) {
            Some(d) => {
                let mut t: Vec<char> = Vec::new();
                t.push('@');
                extend_chars(&mut t, &hex_lower_padded(*d, 8));
                push_bracketed(&mut out, &t);
            },
            None => {},
        }
    }
    proof {
        let v = sk@;
        let a = if opts.add_string_id { bracketed(hex_min(v.esp_ptr.str_id as u32, 5)) } else { Seq::empty() };
        let b = if opts.add_form_id { bracketed(hex_min(v.esp_ptr.form_id, 8)) } else { Seq::empty() };
        assert(pa =~= a);
        assert(pb =~= a + b);
    }
    assert(out@ =~= prefix_of(sk@, *opts, dial@));
    out
}

/// Prefixes the translations of the strings in scope with the identifiers
/// the options ask for (see [`with_prefix`]); with no prefix asked for,
/// nothing is done. `esp_file` gives the INFO records' topics.
pub fn add_id_to_strings(
    strings: &mut Vec<SkyString>,
    esp_file: Option<&EspFile>,
    opts: &AddIdToStringsOptions,
) -> (r: AddIdToStringsResult)
    requires
        old(strings)@.len() <= u32::MAX,
    ensures
        final(strings)@.len() == old(strings)@.len(),
        !any_prefix(*opts) ==> final(strings)@ == old(strings)@ && r.modified_count == 0 && r.total_processed == 0,
        any_prefix(*opts) ==> {
            &&& forall|i: int| 0 <= i < old(strings)@.len() ==> (#[trigger] final(strings)@[i])@
                    == with_prefix(old(strings)@[i]@, *opts, dial_map_of(esp_file))
            &&& r.modified_count == count_tagged(crate::matching::select::views(old(strings)@), *opts, old(strings)@.len() as int)
            &&& r.total_processed == old(strings)@.len()
        },
{
    let dial: HashMap<u32, u32> = match esp_file {
        Some(f) => build_info_dial_map(f),
        None => HashMap::new(),
    };
    let mut result = AddIdToStringsResult { modified_count: 0, total_processed: 0 };
    if !(opts.add_string_id || opts.add_form_id || opts.add_record_ref || opts.add_dial_ref) {
        return result;
    }
    let ghost old_strings = strings@;
    let ghost ov = crate::matching::select::views(old_strings);
    let n = strings.len();
    let mut i: usize = 0;
    while i < n
        invariant
            i <= n,
            n == old_strings.len(),
            n <= u32::MAX,
            strings@.len() == n,
            ov == crate::matching::select::views(old_strings),
            dial@ == dial_map_of(esp_file),
            any_prefix(*opts),
            result.total_processed == i,
            result.modified_count == count_tagged(ov, *opts, i as int),
            0 <= count_tagged(ov, *opts, i as int) <= i,
            forall|k: int| 0 <= k < i ==> (#[trigger] strings@[k])@ == with_prefix(old_strings[k]@, *opts, dial@),
            forall|k: int| i <= k < n ==> #[trigger] strings@[k] == old_strings[k],
        decreases n - i,
    {
        result.total_processed = result.total_processed + 1;
        let sk = &strings[i];
        let skip = !is_in_scope(sk, opts)
            || sk.internal_params.is_set(SkyStringInternalParams::PEX_NO_TRANS)
            || sk.params.is_locked()
            || (sk.source.as_str().unicode_len() == 0 && sk.source == sk.translation);
        assert(ov[i as int] == old_strings[i as int]@);
        if !skip {
            let prefix = build_prefix(sk, opts, &dial);
            let mut text = prefix;
            text.push(' ');
            extend_chars(&mut text, &chars_of(sk.translation.as_str()));
            let new_translation = string_from_chars(text.as_slice());
            let ghost before = strings@;
            strings[i].translation = new_translation;
            proof {
                assert forall|k: int| 0 <= k < n && k != i implies strings@[k] == before[k] by {}
            }
            result.modified_count = result.modified_count + 1;
        }
        i = i + 1;
    }
    result
}

} // verus!
