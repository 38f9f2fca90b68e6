//! Entries, files and encodings of MCM translation files, and the `{{xt=N}}`
//! placeholders that stand for an entry's text.
use vstd::prelude::*;
use crate::text::{chars_of, string_from_chars, decimal, u64_decimal, extend_chars};

verus! {

/// A placeholder for line `index`: `{{xt=`, the index in decimal, `}} `.
pub open spec fn xtag(index: nat) -> Seq<char> {
    "{{xt="@ + decimal(index) + "}} "@
}

/// The placeholder for line `index` (see [`xtag`]).
pub fn make_xtag(index: usize) -> (r: String)
    ensures
        r@ == xtag(index as nat),
{
    let mut out = chars_of("{{xt=");
    let digits = u64_decimal(index as u64);
    extend_chars(&mut out, &digits);
    let tail = chars_of("}} ");
    extend_chars(&mut out, &tail);
    string_from_chars(out.as_slice())
}

/// The first position, from `i` on, at which `pat` occurs in `s`.
pub open spec fn find_from(s: Seq<char>, pat: Seq<char>, i: int) -> Option<int>
    decreases s.len() + 1 - i,
{
    if i < 0 || i + pat.len() > s.len() {
        None
    } else if s.subrange(i, i + pat.len()) == pat {
        Some(i)
    } else {
        find_from(s, pat, i + 1)
    }
}

/// The first position at which `pat` occurs in `s`, as `str::find` gives it.
pub open spec fn find_text(s: Seq<char>, pat: Seq<char>) -> Option<int> {
    find_from(s, pat, 0)
}

/// Where `pat` first occurs in `s` (see [`find_text`]).
pub fn find_chars(s: &Vec<char>, pat: &Vec<char>) -> (r: Option<usize>)
    ensures
        match r {
            Some(i) => find_text(s@, pat@) == Some(i as int),
            None => find_text(s@, pat@) is None,
        },
{
    let n = s.len();
    if pat.len() > n {
        return None;
    }
    let last = n - pat.len();
    let mut i: usize = 0;
    loop
        invariant
            n == s@.len(),
            pat@.len() <= n,
            last == n - pat@.len(),
            i <= last,
            find_from(s@, pat@, 0) == find_from(s@, pat@, i as int),
        decreases last - i,
    {
        if crate::text::occurs_at(s, i, pat) {
            return Some(i);
        }
        if i == last {
            assert(find_from(s@, pat@, i + 1) is None);
            return None;
        }
        i = i + 1;
    }
}

proof fn lemma_find_from_bounds(s: Seq<char>, pat: Seq<char>, i: int)
    ensures
        find_from(s, pat, i) matches Some(k) ==> i <= k && k + pat.len() <= s.len()
            && s.subrange(k, k + pat.len()) == pat,
    decreases s.len() + 1 - i,
{
    if i >= 0 && i + pat.len() <= s.len() && s.subrange(i, i + pat.len()) != pat {
        lemma_find_from_bounds(s, pat, i + 1);
    }
}

/// Reads an unsigned machine-size decimal (see [`spec_parse_usize`]).
pub fn parse_usize_text(s: &Vec<char>) -> (r: Option<usize>)
    ensures
        r == spec_parse_usize(s@),
{
    let start: usize = if s.len() > 0 && s[0] == '+' { 1 } else { 0 };
    let ghost d = if s@.len() > 0 && s@[0] == '+' { s@.drop_first() } else { s@ };
    assert(d =~= s@.subrange(start as int, s@.len() as int));
    if start >= s.len() {
        return None;
    }
    let mut v: u128 = 0;
    let mut i: usize = start;
    while i < s.len()
        invariant
            start <= i <= s@.len(),
            d == (if s@.len() > 0 && s@[0] == '+' { s@.drop_first() } else { s@ }),
            d =~= s@.subrange(start as int, s@.len() as int),
            crate::command_processor::all_digits(s@.subrange(start as int, i as int)),
            v as int == crate::command_processor::digits_value(s@.subrange(start as int, i as int)),
            v <= usize::MAX,
        decreases s@.len() - i,
    {
        let c = s[i];
        if !('0' <= c && c <= '9') {
            assert(!crate::command_processor::all_digits(d)) by {
                assert(d[i - start] == c);
            }
            return None;
        }
        assert(s@.subrange(start as int, i + 1).drop_last() =~= s@.subrange(start as int, i as int));
        let nv = v * 10 + ((c as u32) - 0x30) as u128;
        i = i + 1;
        assert(crate::command_processor::digits_value(s@.subrange(start as int, i as int)) == nv);
        if nv > usize::MAX as u128 {
            proof {
                assert(crate::command_processor::all_digits(s@.subrange(start as int, i as int)));
                if crate::command_processor::all_digits(d) {
                    crate::header_processor::lemma_digits_prefix(d, i - start);
                    assert(d.subrange(0, i - start) =~= s@.subrange(start as int, i as int));
                }
            }
            return None;
        }
        v = nv;
    }
    assert(s@.subrange(start as int, s@.len() as int) =~= d);
    Some(v as usize)
}

/// An unsigned machine-size number in decimal, as `str::parse::<usize>`
/// reads it: an optional `+`, then at least one digit, and a value that
/// fits.
pub open spec fn spec_parse_usize(s: Seq<char>) -> Option<usize> {
    let d = if s.len() > 0 && s[0] == '+' { s.drop_first() } else { s };
    if d.len() > 0 && crate::command_processor::all_digits(d) && crate::command_processor::digits_value(d) <= usize::MAX {
        Some(crate::command_processor::digits_value(d) as usize)
    } else {
        None
    }
}

/// The index in a placeholder: after the first `{{xt=`, the text up to the
/// next `}} `, read as a number.
pub open spec fn spec_parse_xtag(s: Seq<char>) -> Option<usize> {
    match find_text(s, "{{xt="@) {
        Some(start) => {
            let rest = s.skip(start + 5);
            match find_text(rest, "}} "@) {
                Some(end) => spec_parse_usize(rest.take(end)),
                None => None,
            }
        },
        None => None,
    }
}

/// The index in a placeholder (see [`spec_parse_xtag`]).
pub fn parse_xtag(s: &str) -> (r: Option<usize>)
    ensures
        r == spec_parse_xtag(s@),
{
    let v = chars_of(s);
    let start = match find_chars(&v, &chars_of("{{xt=")) {
        Some(p) => p,
        None => return None,
    };
    proof {
        reveal_strlit("{{xt=");
        lemma_find_from_bounds(v@, "{{xt="@, 0);
    }
    let vlen = v.len();
    let rest = crate::text::slice_chars(&v, start + 5, vlen);
    assert(rest@ =~= v@.skip(start + 5));
    let end = match find_chars(&rest, &chars_of("}} ")) {
        Some(e) => e,
        None => return None,
    };
    proof {
        lemma_find_from_bounds(rest@, "}} "@, 0);
    }
    let num = crate::text::slice_chars(&rest, 0, end);
    assert(num@ =~= rest@.take(end as int));
    parse_usize_text(&num)
}

/// The decimal form of `n` holds only digits and reads back as `n`.
pub proof fn lemma_decimal_digits(n: nat)
    ensures
        decimal(n).len() > 0,
        crate::command_processor::all_digits(decimal(n)),
        crate::command_processor::digits_value(decimal(n)) == n,
    decreases n,
{
    if n >= 10 {
        lemma_decimal_digits(n / 10);
        let d = decimal(n);
        assert(d.drop_last() =~= decimal(n / 10));
        assert((d.last() as int) - ('0' as int) == n % 10);
        assert(n == (n / 10) * 10 + n % 10);
        assert(crate::command_processor::digits_value(d) == crate::command_processor::digits_value(decimal(n / 10)) * 10 + n % 10);
        assert forall|i: int| 0 <= i < d.len() implies '0' <= #[trigger] d[i] && d[i] <= '9' by {
            if i < d.len() - 1 {
                assert(d[i] == decimal(n / 10)[i]);
            }
        }
    } else {
        let d = decimal(n);
        assert(d.drop_last() =~= Seq::<char>::empty());
        assert(crate::command_processor::digits_value(d.drop_last()) == 0);
    }
}

proof fn lemma_find_after_digits(s: Seq<char>, l: int, j: int)
    requires
        0 <= j <= l,
        l + 3 <= s.len(),
        s.subrange(l, l + 3) == "}} "@,
        forall|k: int| 0 <= k < l ==> '0' <= #[trigger] s[k] && s[k] <= '9',
    ensures
        find_from(s, "}} "@, j) == Some(l),
    decreases l - j,
{
    reveal_strlit("}} ");
    if j < l {
        assert(s.subrange(j, j + 3)[0] == s[j]);
        lemma_find_after_digits(s, l, j + 1);
    }
}

/// Reading a placeholder gives back the index it was made from.
pub proof fn law_xtag_roundtrip(index: usize)
    ensures
        spec_parse_xtag(xtag(index as nat)) == Some(index),
{
    reveal_strlit("{{xt=");
    reveal_strlit("}} ");
    let d = decimal(index as nat);
    lemma_decimal_digits(index as nat);
    let t = xtag(index as nat);
    assert(t.subrange(0, 5) =~= "{{xt="@);
    assert(find_text(t, "{{xt="@) == Some(0int));
    let rest = t.skip(5);
    assert(rest =~= d + "}} "@);
    let l = d.len() as int;
    assert(rest.subrange(l, l + 3) =~= "}} "@);
    assert forall|k: int| 0 <= k < l implies '0' <= #[trigger] rest[k] && rest[k] <= '9' by {
        assert(rest[k] == d[k]);
    }
    lemma_find_after_digits(rest, l, 0);
    assert(rest.take(l) =~= d);
    assert(d[0] != '+');
}

/// One entry of an MCM file.
#[derive(Clone, Debug, PartialEq)]
pub struct McmEntry {
    /// The key, such as `$sMySetting`.
    pub id: String,
    pub source: String,
    pub translation: String,
    /// The line it stands on, from 0.
    pub line_index: usize,
    /// Where that line starts in the file's bytes.
    pub byte_offset: usize,
}

/// An entry as plain values.
pub struct McmEntryV {
    pub id: Seq<char>,
    pub source: Seq<char>,
    pub translation: Seq<char>,
    pub line_index: usize,
    pub byte_offset: usize,
}

impl View for McmEntry {
    type V = McmEntryV;

    open spec fn view(&self) -> McmEntryV {
        McmEntryV {
            id: self.id@,
            source: self.source@,
            translation: self.translation@,
            line_index: self.line_index,
            byte_offset: self.byte_offset,
        }
    }
}

/// The views of a list of entries.
pub open spec fn entries_view(es: Seq<McmEntry>) -> Seq<McmEntryV> {
    es.map_values(|e: McmEntry| e@)
}

/// The encoding of an MCM file.
#[derive(Clone, Copy, Debug, PartialEq)]
pub enum McmEncoding {
    Utf16Le,
    Utf8,
    Utf16Be,
    /// A Windows code page; such files are read and written as UTF-8.
    Ansi(u16),
}

impl Default for McmEncoding {
    fn default() -> (r: Self)
        ensures
            r == McmEncoding::Utf16Le,
    {
        McmEncoding::Utf16Le
    }
}

/// A parsed MCM file.
#[derive(Clone, Debug)]
pub struct McmFile {
    /// The entries, in line order.
    pub entries: Vec<McmEntry>,
    /// Every line of the file.
    pub normalized_lines: Vec<String>,
    /// For every line, its key, or an empty text when it holds no entry.
    pub header_list: Vec<String>,
    pub encoding: McmEncoding,
    pub path: String,
    /// `\r\n` or `\n`, as the file has it.
    pub line_ending: String,
}

} // verus!
