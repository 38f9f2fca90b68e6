//! Character-level text helpers shared by the parsers and matchers.
//!
//! Text is handled as sequences of `char`s: a `&str` or `String` is turned into
//! a `Vec<char>` with [`chars_of`], worked on, and turned back with
//! [`string_from_chars`].
use vstd::prelude::*;

verus! {

/// `String::push`: appends one character.
#[verifier::external_body]
pub fn string_push(s: &mut String, c: char)
    ensures
        final(s)@ == old(s)@.push(c),
{
    s.push(c);
}

/// The characters of `s`, in order.
pub fn chars_of(s: &str) -> (r: Vec<char>)
    ensures
        r@ == s@,
{
    let mut out: Vec<char> = Vec::new();
    for c in it: s.chars()
        invariant
            out@ == it.seq().take(it.index() as int),
    {
        out.push(c);
    }
    out
}

/// A `String` holding exactly the characters of `v`.
pub fn string_from_chars(v: &[char]) -> (r: String)
    ensures
        r@ == v@,
{
    let mut s = String::new();
    let mut i: usize = 0;
    while i < v.len()
        invariant
            i <= v.len(),
            s@ == v@.take(i as int),
        decreases v.len() - i,
    {
        string_push(&mut s, v[i]);
        i = i + 1;
    }
    s
}


pub open spec fn is_ascii_char(c: char) -> bool {
    (c as u32) < 128
}

pub open spec fn is_ascii_upper(c: char) -> bool {
    'A' <= c && c <= 'Z'
}

pub open spec fn is_ascii_alnum(c: char) -> bool {
    ('A' <= c && c <= 'Z') || ('a' <= c && c <= 'z') || ('0' <= c && c <= '9')
}

/// ASCII lower-casing of one character; other characters are kept.
pub open spec fn ascii_lower_char(c: char) -> char {
    if is_ascii_upper(c) {
        ((c as u32) + 32) as char
    } else {
        c
    }
}

/// ASCII lower-casing of a whole sequence.
pub open spec fn ascii_lower(s: Seq<char>) -> Seq<char> {
    s.map_values(|c: char| ascii_lower_char(c))
}

/// Whether the character is alphabetic or numeric in the sense of Unicode,
/// as `char::is_alphanumeric` answers.
pub uninterp spec fn unicode_alphanumeric(c: char) -> bool;

/// Whether a character is alphanumeric: for ASCII characters the letters
/// and digits, for others as the Unicode tables say (see [`char_is_alphanumeric`]).
pub open spec fn alnum(c: char) -> bool {
    if is_ascii_char(c) { is_ascii_alnum(c) } else { unicode_alphanumeric(c) }
}

/// The Unicode lower-case mapping of one character, as `char::to_lowercase` yields it.
pub uninterp spec fn unicode_lower_char(c: char) -> Seq<char>;

/// The Unicode lower-case form of a whole string, as `str::to_lowercase` gives it.
pub uninterp spec fn unicode_lower_str(s: Seq<char>) -> Seq<char>;

/// `char::is_alphanumeric`. On ASCII characters this is exactly the letters
/// and the digits; on other characters the answer is left to the Unicode tables.
#[verifier::external_body]
pub fn char_is_alphanumeric(c: char) -> (r: bool)
    ensures
        r == unicode_alphanumeric(c),
        is_ascii_char(c) ==> (r <==> is_ascii_alnum(c)),
        r == alnum(c),
{
    c.is_alphanumeric()
}

/// `char::to_lowercase`, collected. The mapping has at least one character;
/// an ASCII character maps to its ASCII lower case. The mapping of other
/// characters is left to the Unicode tables.
#[verifier::external_body]
pub fn char_to_lowercase(c: char) -> (r: Vec<char>)
    ensures
        r@ == unicode_lower_char(c),
        r@.len() >= 1,
        is_ascii_char(c) ==> r@ == seq![ascii_lower_char(c)],
{
    c.to_lowercase().collect()
}

/// `str::to_lowercase`. An ASCII text maps to its ASCII lower case (each
/// `A`-`Z` to `a`-`z`, the rest kept); what other texts give is left to the
/// Unicode tables.
#[verifier::external_body]
pub fn str_to_lowercase(s: &str) -> (r: String)
    ensures
        r@ == unicode_lower_str(s@),
        (forall|i: int| 0 <= i < s@.len() ==> is_ascii_char(#[trigger] s@[i])) ==> r@ == ascii_lower(s@),
{
    s.to_lowercase()
}

/// The Unicode upper-case form of a whole string, as `str::to_uppercase` gives it.
pub uninterp spec fn unicode_upper_str(s: Seq<char>) -> Seq<char>;

/// `str::to_uppercase`. What it gives is left to the Unicode tables.
#[verifier::external_body]
pub fn str_to_uppercase(s: &str) -> (r: String)
    ensures
        r@ == unicode_upper_str(s@),
{
    s.to_uppercase()
}

/// Lower-case form of one alphanumeric character: ASCII characters are
/// lower-cased by the ASCII rule, others by the Unicode mapping.
pub open spec fn lower_char(c: char) -> Seq<char> {
    if is_ascii_char(c) {
        seq![ascii_lower_char(c)]
    } else {
        unicode_lower_char(c)
    }
}

/// The words of `s`: its maximal runs of alphanumeric characters, in order,
/// each lower-cased.
pub open spec fn words(s: Seq<char>) -> Seq<Seq<char>>
    decreases s.len(),
{
    if s.len() == 0 {
        Seq::empty()
    } else {
        let w = words(s.drop_last());
        let c = s.last();
        if !alnum(c) {
            w
        } else if s.len() >= 2 && alnum(s[s.len() - 2]) && w.len() > 0 {
            w.drop_last().push(w.last() + lower_char(c))
        } else {
            w.push(lower_char(c))
        }
    }
}

/// The words joined by single spaces.
pub open spec fn join_spaced(ws: Seq<Seq<char>>) -> Seq<char>
    decreases ws.len(),
{
    if ws.len() == 0 {
        Seq::empty()
    } else if ws.len() == 1 {
        ws[0]
    } else {
        join_spaced(ws.drop_last()) + seq![' '] + ws.last()
    }
}

/// Lower-cases one alphanumeric character as [`lower_char`] says.
pub fn lower_alnum_char(c: char) -> (r: Vec<char>)
    ensures
        r@ == lower_char(c),
        r@.len() >= 1,
{
    if (c as u32) < 128 {
        let l = if 'A' <= c && c <= 'Z' { ((c as u32) + 32) as u8 as char } else { c };
        let mut v: Vec<char> = Vec::new();
        v.push(l);
        proof {
            if 'A' <= c && c <= 'Z' {
                assert((((c as u32) + 32) as u8 as char) == (((c as u32) + 32) as char));
            }
        }
        assert(v@ =~= seq![ascii_lower_char(c)]);
        v
    } else {
        char_to_lowercase(c)
    }
}

/// Appends every element of `src` to `dst`.
pub fn extend_chars(dst: &mut Vec<char>, src: &Vec<char>)
    ensures
        final(dst)@ == old(dst)@ + src@,
{
    let mut i: usize = 0;
    while i < src.len()
        invariant
            i <= src.len(),
            dst@ == old(dst)@ + src@.take(i as int),
        decreases src.len() - i,
    {
        dst.push(src[i]);
        i = i + 1;
        assert(src@.take(i as int) =~= src@.take(i - 1).push(src@[i - 1]));
    }
    assert(src@.take(src.len() as int) =~= src@);
}

/// Splits text into its words (see [`words`]), each as a vector of characters.
pub fn split_words(text: &str) -> (r: Vec<Vec<char>>)
    ensures
        r@.len() == words(text@).len(),
        forall|k: int| 0 <= k < r@.len() ==> #[trigger] r@[k]@ == words(text@)[k],
{
    let chars = chars_of(text);
    let ghost sv = chars@;
    let mut out: Vec<Vec<char>> = Vec::new();
    let mut current: Vec<char> = Vec::new();
    let mut prev_alnum = false;
    let mut i: usize = 0;
    while i < chars.len()
        invariant
            i <= chars.len(),
            sv == chars@,
            prev_alnum <==> (i > 0 && alnum(sv[i - 1])),
            prev_alnum ==> current@.len() > 0,
            !prev_alnum ==> current@.len() == 0,
            ({
                let w = words(sv.take(i as int));
                &&& w.len() == out@.len() + (if prev_alnum { 1int } else { 0int })
                &&& forall|k: int| 0 <= k < out@.len() ==> #[trigger] out@[k]@ == w[k]
                &&& prev_alnum ==> current@ == w.last()
            }),
        decreases chars.len() - i,
    {
        let c = chars[i];
        let ghost pre = sv.take(i as int);
        assert(sv.take(i + 1).drop_last() =~= pre);
        if char_is_alphanumeric(c) {
            let lc = lower_alnum_char(c);
            extend_chars(&mut current, &lc);
            prev_alnum = true;
        } else {
            if prev_alnum {
                out.push(current);
                current = Vec::new();
            }
            prev_alnum = false;
        }
        i = i + 1;
        proof {
            let w = words(sv.take(i as int));
            let w0 = words(pre);
            if alnum(c) && i >= 2 && alnum(sv[i - 2]) {
                assert(sv.take(i as int)[i - 2] == sv[i - 2]);
            }
            if alnum(c) {
                if i >= 2 && alnum(sv[i - 2]) {
                    assert(sv.take(i as int)[i - 2] == sv[i - 2]);
                    assert(forall|k: int| 0 <= k < out@.len() ==> #[trigger] w[k] == w0[k]);
                } else {
                    assert(forall|k: int| 0 <= k < out@.len() ==> #[trigger] w[k] == w0[k]);
                }
            }
        }
    }
    if prev_alnum {
        out.push(current);
    }
    assert(sv.take(chars.len() as int) =~= sv);
    out
}

/// The maximal runs of alphanumeric characters of `s`, in order, as they
/// stand (no case change).
pub open spec fn alnum_runs(s: Seq<char>) -> Seq<Seq<char>>
    decreases s.len(),
{
    if s.len() == 0 {
        Seq::empty()
    } else {
        let w = alnum_runs(s.drop_last());
        let c = s.last();
        if !alnum(c) {
            w
        } else if s.len() >= 2 && alnum(s[s.len() - 2]) && w.len() > 0 {
            w.drop_last().push(w.last().push(c))
        } else {
            w.push(seq![c])
        }
    }
}

/// There are no more runs than characters.
pub proof fn lemma_alnum_runs_len(s: Seq<char>)
    ensures
        alnum_runs(s).len() <= s.len(),
    decreases s.len(),
{
    if s.len() > 0 {
        lemma_alnum_runs_len(s.drop_last());
    }
}

/// Splits text into its runs of alphanumeric characters (see [`alnum_runs`]).
pub fn split_alnum_runs(text: &str) -> (r: Vec<Vec<char>>)
    ensures
        r@.len() == alnum_runs(text@).len(),
        forall|k: int| 0 <= k < r@.len() ==> #[trigger] r@[k]@ == alnum_runs(text@)[k],
{
    let chars = chars_of(text);
    let ghost sv = chars@;
    let mut out: Vec<Vec<char>> = Vec::new();
    let mut current: Vec<char> = Vec::new();
    let mut prev_alnum = false;
    let mut i: usize = 0;
    while i < chars.len()
        invariant
            i <= chars.len(),
            sv == chars@,
            prev_alnum <==> (i > 0 && alnum(sv[i - 1])),
            prev_alnum ==> current@.len() > 0,
            !prev_alnum ==> current@.len() == 0,
            ({
                let w = alnum_runs(sv.take(i as int));
                &&& w.len() == out@.len() + (if prev_alnum { 1int } else { 0int })
                &&& forall|k: int| 0 <= k < out@.len() ==> #[trigger] out@[k]@ == w[k]
                &&& prev_alnum ==> current@ == w.last()
            }),
        decreases chars.len() - i,
    {
        let c = chars[i];
        let ghost pre = sv.take(i as int);
        assert(sv.take(i + 1).drop_last() =~= pre);
        if char_is_alphanumeric(c) {
            current.push(c);
            prev_alnum = true;
        } else {
            if prev_alnum {
                out.push(current);
                current = Vec::new();
            }
            prev_alnum = false;
        }
        i = i + 1;
        proof {
            let w = alnum_runs(sv.take(i as int));
            let w0 = alnum_runs(pre);
            if alnum(c) {
                if i >= 2 && alnum(sv[i - 2]) {
                    assert(sv.take(i as int)[i - 2] == sv[i - 2]);
                    assert(forall|k: int| 0 <= k < out@.len() ==> #[trigger] w[k] == w0[k]);
                } else {
                    assert(forall|k: int| 0 <= k < out@.len() ==> #[trigger] w[k] == w0[k]);
                }
            }
        }
    }
    if prev_alnum {
        out.push(current);
    }
    assert(sv.take(chars.len() as int) =~= sv);
    out
}

/// The text of a byte string where invalid UTF-8 is replaced, as
/// `String::from_utf8_lossy` gives it.
pub uninterp spec fn utf8_lossy(b: Seq<u8>) -> Seq<char>;

/// `String::from_utf8_lossy`, owned. Claims what its documentation says of
/// valid UTF-8: the text is what the bytes encode; on other bytes the text
/// is left to the replacement rule.
#[verifier::external_body]
pub fn lossy_string(b: &[u8]) -> (r: String)
    ensures
        r@ == utf8_lossy(b@),
        vstd::utf8::valid_utf8(b@) ==> r@ == vstd::utf8::decode_utf8(b@),
{
    String::from_utf8_lossy(b).to_string()
}

/// `std::str::from_utf8`, owned. Claims what its documentation says: it
/// succeeds exactly on valid UTF-8, and then the text is what the bytes
/// encode.
#[verifier::external_body]
pub fn utf8_text(b: &[u8]) -> (r: Option<String>)
    ensures
        match r {
            Some(s) => vstd::utf8::valid_utf8(b@) && s@ == vstd::utf8::decode_utf8(b@),
            None => !vstd::utf8::valid_utf8(b@),
        },
{
    std::str::from_utf8(b).ok().map(|s| s.to_string())
}

/// The decimal digits of `n`, without leading zeros (`0` for zero).
pub open spec fn decimal(n: nat) -> Seq<char>
    decreases n,
{
    if n < 10 {
        seq![(('0' as int) + n) as char]
    } else {
        decimal(n / 10).push((('0' as int) + n % 10) as char)
    }
}

/// The decimal digits of `n` (`{}` formatting).
pub fn u32_decimal(n: u32) -> (r: Vec<char>)
    ensures
        r@ == decimal(n as nat),
    decreases n,
{
    if n < 10 {
        let mut v: Vec<char> = Vec::new();
        v.push(((0x30u32 + n) as u8) as char);
        v
    } else {
        let mut v = u32_decimal(n / 10);
        v.push(((0x30u32 + n % 10) as u8) as char);
        v
    }
}

/// The decimal digits of `n` (`{}` formatting).
pub fn u64_decimal(n: u64) -> (r: Vec<char>)
    ensures
        r@ == decimal(n as nat),
    decreases n,
{
    if n < 10 {
        let mut v: Vec<char> = Vec::new();
        v.push(((0x30u64 + n) as u8) as char);
        v
    } else {
        let mut v = u64_decimal(n / 10);
        v.push(((0x30u64 + n % 10) as u8) as char);
        v
    }
}

/// The decimal digits of `n` (`{}` formatting).
pub fn u128_decimal(n: u128) -> (r: Vec<char>)
    ensures
        r@ == decimal(n as nat),
    decreases n,
{
    if n < 10 {
        let mut v: Vec<char> = Vec::new();
        v.push(((0x30u128 + n) as u8) as char);
        v
    } else {
        let mut v = u128_decimal(n / 10);
        v.push(((0x30u128 + n % 10) as u8) as char);
        v
    }
}

/// Joins words with single spaces.
pub fn join_words_spaced(ws: &Vec<Vec<char>>) -> (r: Vec<char>)
    ensures
        r@ == join_spaced(ws@.map_values(|w: Vec<char>| w@)),
{
    let ghost views = ws@.map_values(|w: Vec<char>| w@);
    let mut out: Vec<char> = Vec::new();
    let mut i: usize = 0;
    while i < ws.len()
        invariant
            i <= ws.len(),
            views == ws@.map_values(|w: Vec<char>| w@),
            out@ == join_spaced(views.take(i as int)),
        decreases ws.len() - i,
    {
        if i > 0 {
            out.push(' ');
        }
        extend_chars(&mut out, &ws[i]);
        i = i + 1;
        assert(views.take(i as int).drop_last() =~= views.take(i - 1));
    }
    assert(views.take(ws.len() as int) =~= views);
    out
}


/// Whether two character vectors hold the same characters.
pub fn chars_eq(a: &Vec<char>, b: &Vec<char>) -> (r: bool)
    ensures
        r == (a@ == b@),
{
    if a.len() != b.len() {
        return false;
    }
    let mut i: usize = 0;
    while i < a.len()
        invariant
            i <= a.len(),
            a.len() == b.len(),
            forall|k: int| 0 <= k < i ==> a@[k] == b@[k],
        decreases a.len() - i,
    {
        if a[i] != b[i] {
            return false;
        }
        i = i + 1;
    }
    assert(a@ =~= b@);
    true
}

/// ASCII lower-casing of a character vector.
pub fn ascii_lower_vec(a: &Vec<char>) -> (r: Vec<char>)
    ensures
        r@ == ascii_lower(a@),
{
    let mut out: Vec<char> = Vec::new();
    let mut i: usize = 0;
    while i < a.len()
        invariant
            i <= a.len(),
            out@ =~= ascii_lower(a@.take(i as int)),
        decreases a.len() - i,
    {
        let c = a[i];
        let l = if 'A' <= c && c <= 'Z' { ((c as u32) + 32) as u8 as char } else { c };
        proof {
            if 'A' <= c && c <= 'Z' {
                assert((((c as u32) + 32) as u8 as char) == (((c as u32) + 32) as char));
            }
        }
        out.push(l);
        i = i + 1;
        assert(ascii_lower(a@.take(i as int)) =~= ascii_lower(a@.take(i - 1)).push(ascii_lower_char(c)));
    }
    assert(a@.take(a.len() as int) =~= a@);
    out
}

/// ASCII case-insensitive equality of two character sequences.
pub open spec fn eq_ignore_ascii_case(a: Seq<char>, b: Seq<char>) -> bool {
    ascii_lower(a) == ascii_lower(b)
}

/// ASCII case-insensitive comparison of two character vectors.
pub fn chars_eq_ignore_ascii_case(a: &Vec<char>, b: &Vec<char>) -> (r: bool)
    ensures
        r == eq_ignore_ascii_case(a@, b@),
{
    let la = ascii_lower_vec(a);
    let lb = ascii_lower_vec(b);
    chars_eq(&la, &lb)
}

/// Unicode `White_Space`, the set that `char::is_whitespace` tests.
pub open spec fn is_white(c: char) -> bool {
    let u = c as u32;
    ||| (0x09 <= u && u <= 0x0D)
    ||| u == 0x20
    ||| u == 0x85
    ||| u == 0xA0
    ||| u == 0x1680
    ||| (0x2000 <= u && u <= 0x200A)
    ||| u == 0x2028
    ||| u == 0x2029
    ||| u == 0x202F
    ||| u == 0x205F
    ||| u == 0x3000
}

/// Tests membership in [`is_white`].
pub fn char_is_white(c: char) -> (r: bool)
    ensures
        r == is_white(c),
{
    let u = c as u32;
    (0x09 <= u && u <= 0x0D) || u == 0x20 || u == 0x85 || u == 0xA0 || u == 0x1680
        || (0x2000 <= u && u <= 0x200A) || u == 0x2028 || u == 0x2029 || u == 0x202F
        || u == 0x205F || u == 0x3000
}

/// Number of leading white-space characters.
pub open spec fn lead_white(s: Seq<char>) -> nat
    decreases s.len(),
{
    if s.len() > 0 && is_white(s[0]) {
        1 + lead_white(s.drop_first())
    } else {
        0
    }
}

/// Number of trailing white-space characters.
pub open spec fn trail_white(s: Seq<char>) -> nat
    decreases s.len(),
{
    if s.len() > 0 && is_white(s.last()) {
        1 + trail_white(s.drop_last())
    } else {
        0
    }
}

/// `s` without leading white space.
pub open spec fn trim_start(s: Seq<char>) -> Seq<char> {
    s.skip(lead_white(s) as int)
}

/// `s` without leading and trailing white space, as `str::trim` gives it.
pub open spec fn trim(s: Seq<char>) -> Seq<char> {
    let a = trim_start(s);
    a.take(a.len() - trail_white(a))
}

proof fn lemma_lead_white(s: Seq<char>, i: int)
    requires
        0 <= i <= s.len(),
        forall|k: int| 0 <= k < i ==> is_white(s[k]),
    ensures
        lead_white(s) == i + lead_white(s.skip(i)),
    decreases i,
{
    if i > 0 {
        lemma_lead_white(s.drop_first(), i - 1);
        assert(s.drop_first().skip(i - 1) =~= s.skip(i));
    } else {
        assert(s.skip(0) =~= s);
    }
}

proof fn lemma_trail_white(s: Seq<char>, i: int)
    requires
        0 <= i <= s.len(),
        forall|k: int| s.len() - i <= k < s.len() ==> is_white(s[k]),
    ensures
        trail_white(s) == i + trail_white(s.take(s.len() - i)),
    decreases i,
{
    if i > 0 {
        lemma_trail_white(s.drop_last(), i - 1);
        assert(s.drop_last().take(s.drop_last().len() - (i - 1)) =~= s.take(s.len() - i));
    } else {
        assert(s.take(s.len() as int) =~= s);
    }
}

proof fn lemma_lead_white_bound(s: Seq<char>)
    ensures
        lead_white(s) <= s.len(),
    decreases s.len(),
{
    if s.len() > 0 && is_white(s[0]) {
        lemma_lead_white_bound(s.drop_first());
    }
}

proof fn lemma_trail_white_bound(s: Seq<char>)
    ensures
        trail_white(s) <= s.len(),
    decreases s.len(),
{
    if s.len() > 0 && is_white(s.last()) {
        lemma_trail_white_bound(s.drop_last());
    }
}

/// The bounds `(a, b)` such that `trim(s) == s[a..b]`.
pub fn trim_bounds(s: &Vec<char>) -> (r: (usize, usize))
    ensures
        r.0 <= r.1 <= s@.len(),
        s@.subrange(r.0 as int, r.1 as int) == trim(s@),
{
    let mut a: usize = 0;
    while a < s.len() && char_is_white(s[a])
        invariant
            a <= s.len(),
            forall|k: int| 0 <= k < a ==> is_white(s@[k]),
        decreases s.len() - a,
    {
        a = a + 1;
    }
    proof {
        lemma_lead_white(s@, a as int);
        if a < s.len() {
            assert(!is_white(s@.skip(a as int)[0]));
        }
        assert(lead_white(s@) == a);
    }
    let mut b: usize = s.len();
    while b > a && char_is_white(s[b - 1])
        invariant
            a <= b <= s.len(),
            lead_white(s@) == a,
            forall|k: int| b <= k < s.len() ==> is_white(s@[k]),
        decreases b,
    {
        b = b - 1;
    }
    proof {
        let t = trim_start(s@);
        assert(t =~= s@.skip(a as int));
        let i = (s.len() - b) as int;
        assert forall|k: int| t.len() - i <= k < t.len() implies is_white(t[k]) by {
            assert(t[k] == s@[a + k]);
        }
        lemma_trail_white(t, i);
        if b > a {
            assert(!is_white(t.take(t.len() - i).last()));
        } else {
            assert(t.take(t.len() - i).len() == 0);
        }
        assert(trail_white(t) == i);
        assert(s@.subrange(a as int, b as int) =~= t.take(t.len() - i));
    }
    (a, b)
}

/// `v[a..b]` as a new vector.
pub fn slice_chars(v: &Vec<char>, a: usize, b: usize) -> (r: Vec<char>)
    requires
        a <= b <= v@.len(),
    ensures
        r@ == v@.subrange(a as int, b as int),
{
    let mut out: Vec<char> = Vec::new();
    let mut i: usize = a;
    while i < b
        invariant
            a <= i <= b,
            b <= v@.len(),
            out@ =~= v@.subrange(a as int, i as int),
        decreases b - i,
    {
        out.push(v[i]);
        i = i + 1;
    }
    out
}

/// The trimmed characters of `v`.
pub fn trim_chars(v: &Vec<char>) -> (r: Vec<char>)
    ensures
        r@ == trim(v@),
{
    let (a, b) = trim_bounds(v);
    slice_chars(v, a, b)
}

/// The pieces of `s` between the occurrences of `sep`, as `str::split` gives them.
pub open spec fn split_seq(s: Seq<char>, sep: char) -> Seq<Seq<char>>
    decreases s.len(),
{
    if s.len() == 0 {
        seq![Seq::empty()]
    } else {
        let p = split_seq(s.drop_last(), sep);
        if s.last() == sep {
            p.push(Seq::empty())
        } else {
            p.drop_last().push(p.last().push(s.last()))
        }
    }
}

pub(crate) proof fn lemma_split_nonempty(s: Seq<char>, sep: char)
    ensures
        split_seq(s, sep).len() >= 1,
    decreases s.len(),
{
    if s.len() > 0 {
        lemma_split_nonempty(s.drop_last(), sep);
    }
}

/// Splits `v` at every `sep`.
pub fn split_chars(v: &Vec<char>, sep: char) -> (r: Vec<Vec<char>>)
    ensures
        r@.len() == split_seq(v@, sep).len(),
        forall|k: int| 0 <= k < r@.len() ==> #[trigger] r@[k]@ == split_seq(v@, sep)[k],
{
    let mut out: Vec<Vec<char>> = Vec::new();
    let mut cur: Vec<char> = Vec::new();
    let mut i: usize = 0;
    while i < v.len()
        invariant
            i <= v.len(),
            ({
                let p = split_seq(v@.take(i as int), sep);
                &&& p.len() == out@.len() + 1
                &&& forall|k: int| 0 <= k < out@.len() ==> #[trigger] out@[k]@ == p[k]
                &&& cur@ == p.last()
            }),
        decreases v.len() - i,
    {
        proof {
            lemma_split_nonempty(v@.take(i as int), sep);
            assert(v@.take(i + 1).drop_last() =~= v@.take(i as int));
        }
        let c = v[i];
        if c == sep {
            out.push(cur);
            cur = Vec::new();
        } else {
            cur.push(c);
        }
        i = i + 1;
    }
    out.push(cur);
    assert(v@.take(v.len() as int) =~= v@);
    out
}

/// Splitting `x` followed by text without the separator: the last piece of
/// `x` grows by that text.
pub(crate) proof fn lemma_split_append_plain(x: Seq<char>, y: Seq<char>, sep: char)
    requires
        forall|i: int| 0 <= i < y.len() ==> y[i] != sep,
    ensures
        split_seq(x + y, sep) == split_seq(x, sep).drop_last().push(split_seq(x, sep).last() + y),
    decreases y.len(),
{
    lemma_split_nonempty(x, sep);
    let p = split_seq(x, sep);
    if y.len() == 0 {
        assert(x + y =~= x);
        assert(p.last() + y =~= p.last());
        assert(p.drop_last().push(p.last()) =~= p);
    } else {
        lemma_split_append_plain(x, y.drop_last(), sep);
        assert((x + y).drop_last() =~= x + y.drop_last());
        assert((x + y).last() == y.last());
        let q = split_seq(x + y.drop_last(), sep);
        assert(q.drop_last() =~= p.drop_last());
        assert(q.last() == p.last() + y.drop_last());
        assert((p.last() + y.drop_last()).push(y.last()) =~= p.last() + y);
    }
}

/// Splitting `x` followed by the separator: a new empty last piece.
pub(crate) proof fn lemma_split_append_sep(x: Seq<char>, sep: char)
    ensures
        split_seq(x.push(sep), sep) == split_seq(x, sep).push(Seq::<char>::empty()),
{
    assert(x.push(sep).drop_last() =~= x);
}

/// A text that trimming leaves alone starts and ends with non-white
/// characters.
pub(crate) proof fn lemma_trimmed_ends(s: Seq<char>)
    requires
        trim(s) == s,
        s.len() > 0,
    ensures
        !is_white(s[0]),
        !is_white(s.last()),
{
    lemma_lead_white_bound(s);
    let a = trim_start(s);
    lemma_trail_white_bound(a);
    assert(trim(s).len() == s.len() - lead_white(s) - trail_white(a));
    assert(lead_white(s) == 0);
    assert(a =~= s);
    assert(trail_white(s) == 0);
}

/// A text that starts and ends with non-white characters is its own trim.
pub(crate) proof fn lemma_trim_ends(s: Seq<char>)
    requires
        s.len() > 0,
        !is_white(s[0]),
        !is_white(s.last()),
    ensures
        trim(s) == s,
{
    assert(lead_white(s) == 0);
    assert(trim_start(s) =~= s);
    assert(trail_white(s) == 0);
    assert(s.take(s.len() as int) =~= s);
}

/// A line as `str::lines` yields it: one trailing carriage return is dropped.
pub open spec fn strip_cr(s: Seq<char>) -> Seq<char> {
    if s.len() > 0 && s.last() == '\r' {
        s.drop_last()
    } else {
        s
    }
}

/// The lines of `s`, as `str::lines` yields them: split at `'\n'`, a
/// carriage return before the line feed dropped, and no empty line after a
/// final line feed (nor for an empty text).
pub open spec fn lines(s: Seq<char>) -> Seq<Seq<char>> {
    let p = split_seq(s, '\n');
    let body = p.drop_last().map_values(|l: Seq<char>| strip_cr(l));
    if p.last().len() == 0 {
        body
    } else {
        body.push(p.last())
    }
}

/// Drops a trailing carriage return.
pub fn strip_cr_chars(v: Vec<char>) -> (r: Vec<char>)
    ensures
        r@ == strip_cr(v@),
{
    let mut v = v;
    if v.len() > 0 && v[v.len() - 1] == '\r' {
        v.pop();
    }
    v
}

/// The lines of a text (see [`lines`]).
pub fn lines_of(text: &str) -> (r: Vec<Vec<char>>)
    ensures
        r@.len() == lines(text@).len(),
        forall|k: int| 0 <= k < r@.len() ==> #[trigger] r@[k]@ == lines(text@)[k],
{
    let chars = chars_of(text);
    let parts = split_chars(&chars, '\n');
    proof {
        lemma_split_nonempty(chars@, '\n');
    }
    let ghost p = split_seq(text@, '\n');
    let mut out: Vec<Vec<char>> = Vec::new();
    let n = parts.len();
    let mut i: usize = 0;
    while i + 1 < n
        invariant
            i <= n - 1,
            n == parts@.len(),
            n == p.len(),
            n >= 1,
            p == split_seq(chars@, '\n'),
            forall|k: int| 0 <= k < n ==> #[trigger] parts@[k]@ == p[k],
            out@.len() == i,
            forall|k: int| 0 <= k < i ==> #[trigger] out@[k]@ == strip_cr(p[k]),
        decreases n - i,
    {
        let line = strip_cr_chars(parts[i].clone());
        out.push(line);
        i = i + 1;
    }
    let last = parts[n - 1].clone();
    if last.len() > 0 {
        out.push(last);
    }
    proof {
        let body = p.drop_last().map_values(|l: Seq<char>| strip_cr(l));
        assert(body.len() == n - 1);
        assert forall|k: int| 0 <= k < n - 1 implies #[trigger] out@[k]@ == body[k] by {}
    }
    out
}

/// Whether `s` starts with `prefix`.
pub open spec fn starts_with(s: Seq<char>, prefix: Seq<char>) -> bool {
    prefix.len() <= s.len() && s.take(prefix.len() as int) == prefix
}

/// Whether the characters of `s` start with those of `prefix`.
pub fn chars_start_with(s: &Vec<char>, prefix: &Vec<char>) -> (r: bool)
    ensures
        r == starts_with(s@, prefix@),
{
    if prefix.len() > s.len() {
        return false;
    }
    let mut i: usize = 0;
    while i < prefix.len()
        invariant
            i <= prefix.len() <= s.len(),
            forall|k: int| 0 <= k < i ==> s@[k] == prefix@[k],
        decreases prefix.len() - i,
    {
        if s[i] != prefix[i] {
            assert(s@.take(prefix.len() as int)[i as int] != prefix@[i as int]);
            return false;
        }
        i = i + 1;
    }
    assert(s@.take(prefix.len() as int) =~= prefix@);
    true
}

/// Index of the first occurrence of `c` in `s`, if any.
pub open spec fn first_index(s: Seq<char>, c: char) -> Option<int>
    decreases s.len(),
{
    if s.len() == 0 {
        None
    } else if s[0] == c {
        Some(0)
    } else {
        match first_index(s.drop_first(), c) {
            Some(i) => Some(i + 1),
            None => None,
        }
    }
}

pub(crate) proof fn lemma_first_index(s: Seq<char>, c: char, i: int)
    requires
        0 <= i <= s.len(),
        forall|k: int| 0 <= k < i ==> s[k] != c,
    ensures
        i == s.len() ==> first_index(s, c) is None,
        i < s.len() && s[i] == c ==> first_index(s, c) == Some(i),
    decreases i,
{
    if i > 0 {
        lemma_first_index(s.drop_first(), c, i - 1);
    }
}

/// Position of the first `c` in `v`.
pub fn find_char(v: &Vec<char>, c: char) -> (r: Option<usize>)
    ensures
        match r {
            Some(i) => first_index(v@, c) == Some(i as int) && i < v@.len(),
            None => first_index(v@, c) is None,
        },
{
    let mut i: usize = 0;
    while i < v.len()
        invariant
            i <= v.len(),
            forall|k: int| 0 <= k < i ==> v@[k] != c,
        decreases v.len() - i,
    {
        if v[i] == c {
            proof { lemma_first_index(v@, c, i as int); }
            return Some(i);
        }
        i = i + 1;
    }
    proof { lemma_first_index(v@, c, i as int); }
    None
}

/// Whether `c` occurs in `s`.
pub fn chars_contain(v: &Vec<char>, c: char) -> (r: bool)
    ensures
        r == v@.contains(c),
{
    let mut i: usize = 0;
    while i < v.len()
        invariant
            i <= v.len(),
            forall|k: int| 0 <= k < i ==> v@[k] != c,
        decreases v.len() - i,
    {
        if v[i] == c {
            assert(v@[i as int] == c);
            return true;
        }
        i = i + 1;
    }
    false
}


/// Index of the last occurrence of `c` in `s`, if any.
pub open spec fn last_index(s: Seq<char>, c: char) -> Option<int>
    decreases s.len(),
{
    if s.len() == 0 {
        None
    } else if s.last() == c {
        Some(s.len() - 1)
    } else {
        last_index(s.drop_last(), c)
    }
}

proof fn lemma_last_index(s: Seq<char>, c: char, i: int)
    requires
        0 <= i <= s.len(),
        forall|k: int| i <= k < s.len() ==> s[k] != c,
    ensures
        i == 0 ==> last_index(s, c) is None,
        i > 0 && s[i - 1] == c ==> last_index(s, c) == Some(i - 1),
    decreases s.len() - i,
{
    if i < s.len() {
        lemma_last_index(s.drop_last(), c, i);
    }
}

/// Position of the last `c` in `v`.
pub fn rfind_char(v: &Vec<char>, c: char) -> (r: Option<usize>)
    ensures
        match r {
            Some(i) => last_index(v@, c) == Some(i as int) && i < v@.len(),
            None => last_index(v@, c) is None,
        },
{
    let mut i: usize = v.len();
    while i > 0
        invariant
            i <= v.len(),
            forall|k: int| i <= k < v@.len() ==> v@[k] != c,
        decreases i,
    {
        if v[i - 1] == c {
            proof { lemma_last_index(v@, c, i as int); }
            return Some(i - 1);
        }
        i = i - 1;
    }
    proof { lemma_last_index(v@, c, 0); }
    None
}

/// `s` with every `from` replaced by `to`.
pub open spec fn replace_char(s: Seq<char>, from: char, to: char) -> Seq<char> {
    s.map_values(|c: char| if c == from { to } else { c })
}

/// Replaces every `from` by `to`.
pub fn replace_char_vec(v: &Vec<char>, from: char, to: char) -> (r: Vec<char>)
    ensures
        r@ == replace_char(v@, from, to),
{
    let mut out: Vec<char> = Vec::new();
    let mut i: usize = 0;
    while i < v.len()
        invariant
            i <= v.len(),
            out@ =~= replace_char(v@.take(i as int), from, to),
        decreases v.len() - i,
    {
        let c = v[i];
        out.push(if c == from { to } else { c });
        i = i + 1;
        assert(replace_char(v@.take(i as int), from, to) =~= replace_char(v@.take(i - 1), from, to).push(if c == from { to } else { c }));
    }
    assert(v@.take(v.len() as int) =~= v@);
    out
}


/// Lexicographic order on characters by code point, which is also the byte
/// order of their UTF-8 forms (the order of `str::cmp`).
pub open spec fn lex_lt(a: Seq<char>, b: Seq<char>) -> bool
    decreases a.len(),
{
    if a.len() == 0 {
        b.len() > 0
    } else if b.len() == 0 {
        false
    } else if a[0] != b[0] {
        (a[0] as u32) < (b[0] as u32)
    } else {
        lex_lt(a.drop_first(), b.drop_first())
    }
}

pub proof fn lemma_lex_lt_irrefl(a: Seq<char>)
    ensures
        !lex_lt(a, a),
    decreases a.len(),
{
    if a.len() > 0 {
        lemma_lex_lt_irrefl(a.drop_first());
    }
}

pub proof fn lemma_lex_lt_total(a: Seq<char>, b: Seq<char>)
    ensures
        a == b || lex_lt(a, b) || lex_lt(b, a),
    decreases a.len(),
{
    if a.len() > 0 && b.len() > 0 {
        if a[0] == b[0] {
            lemma_lex_lt_total(a.drop_first(), b.drop_first());
            if a.drop_first() == b.drop_first() {
                assert(a =~= seq![a[0]] + a.drop_first());
                assert(b =~= seq![b[0]] + b.drop_first());
            }
        } else {
            vstd::utf8::char_u32_cast(a[0], a[0] as u32);
            vstd::utf8::char_u32_cast(b[0], b[0] as u32);
            assert((a[0] as u32) != (b[0] as u32));
        }
    } else if a.len() == 0 && b.len() == 0 {
        assert(a =~= b);
    }
}

pub proof fn lemma_lex_lt_trans(a: Seq<char>, b: Seq<char>, c: Seq<char>)
    requires
        lex_lt(a, b),
        lex_lt(b, c),
    ensures
        lex_lt(a, c),
    decreases a.len(),
{
    if a.len() > 0 && b.len() > 0 && c.len() > 0 {
        if a[0] == b[0] && b[0] == c[0] {
            lemma_lex_lt_trans(a.drop_first(), b.drop_first(), c.drop_first());
        }
    }
}

pub proof fn lemma_lex_lt_asym(a: Seq<char>, b: Seq<char>)
    requires
        lex_lt(a, b),
    ensures
        !lex_lt(b, a),
{
    if lex_lt(b, a) {
        lemma_lex_lt_trans(a, b, a);
        lemma_lex_lt_irrefl(a);
    }
}

/// `lex_lt` on two character vectors.
pub fn chars_lex_lt(a: &Vec<char>, b: &Vec<char>) -> (r: bool)
    ensures
        r == lex_lt(a@, b@),
{
    let mut i: usize = 0;
    assert(a@.skip(0) =~= a@);
    assert(b@.skip(0) =~= b@);
    while i < a.len() && i < b.len() && a[i] == b[i]
        invariant
            i <= a@.len(),
            i <= b@.len(),
            lex_lt(a@, b@) == lex_lt(a@.skip(i as int), b@.skip(i as int)),
        decreases a@.len() - i,
    {
        proof {
            assert(a@.skip(i as int).drop_first() =~= a@.skip(i + 1));
            assert(b@.skip(i as int).drop_first() =~= b@.skip(i + 1));
        }
        i = i + 1;
    }
    assert(i < a@.len() ==> a@.skip(i as int)[0] == a@[i as int]);
    assert(i < b@.len() ==> b@.skip(i as int)[0] == b@[i as int]);
    if i == a.len() {
        i < b.len()
    } else if i == b.len() {
        false
    } else {
        (a[i] as u32) < (b[i] as u32)
    }
}

/// `p` is the stable sorting permutation of `keys`: it lists every index
/// once, in increasing key order, equal keys in their original order.
pub open spec fn stable_sorted(keys: Seq<Seq<char>>, p: Seq<usize>) -> bool {
    &&& p.len() == keys.len()
    &&& forall|i: int| 0 <= i < p.len() ==> #[trigger] p[i] < keys.len()
    &&& forall|i: int, j: int| 0 <= i < j < p.len() ==> p[i] != p[j]
    &&& forall|i: int, j: int| 0 <= i < j < p.len() ==>
            lex_lt(keys[#[trigger] p[i] as int], keys[#[trigger] p[j] as int])
            || (keys[p[i] as int] == keys[p[j] as int] && p[i] < p[j])
}

/// The indices of `keys` in stable sorted order (see [`stable_sorted`]).
pub fn sort_indices_by_keys(keys: &Vec<Vec<char>>) -> (r: Vec<usize>)
    ensures
        stable_sorted(keys@.map_values(|k: Vec<char>| k@), r@),
{
    let ghost ks = keys@.map_values(|k: Vec<char>| k@);
    let n = keys.len();
    let mut r: Vec<usize> = Vec::new();
    let mut k: usize = 0;
    while k < n
        invariant
            k <= n,
            n == keys@.len(),
            ks == keys@.map_values(|k: Vec<char>| k@),
            r@.len() == k,
            forall|i: int| 0 <= i < r@.len() ==> #[trigger] r@[i] < k,
            forall|i: int, j: int| 0 <= i < j < r@.len() ==> r@[i] != r@[j],
            forall|i: int, j: int| 0 <= i < j < r@.len() ==>
                lex_lt(ks[#[trigger] r@[i] as int], ks[#[trigger] r@[j] as int])
                || (ks[r@[i] as int] == ks[r@[j] as int] && r@[i] < r@[j]),
        decreases n - k,
    {
        let mut pos: usize = 0;
        while pos < r.len() && !chars_lex_lt(&keys[k], &keys[r[pos]])
            invariant
                pos <= r@.len(),
                k < n,
                n == keys@.len(),
                ks == keys@.map_values(|k: Vec<char>| k@),
                forall|i: int| 0 <= i < r@.len() ==> #[trigger] r@[i] < k,
                forall|q: int| 0 <= q < pos ==> !lex_lt(ks[k as int], #[trigger] ks[r@[q] as int]),
            decreases r@.len() - pos,
        {
            pos = pos + 1;
        }
        let ghost old_r = r@;
        proof {
            if pos < old_r.len() {
                assert(lex_lt(ks[k as int], ks[old_r[pos as int] as int]));
            }
        }
        r.insert(pos, k);
        proof {
            assert(r@ =~= old_r.insert(pos as int, k));
            assert forall|i: int| 0 <= i < r@.len() implies #[trigger] r@[i] < k + 1 by {
                if i < pos { assert(r@[i] == old_r[i]); } else if i > pos { assert(r@[i] == old_r[i - 1]); }
            }
            assert forall|i: int, j: int| 0 <= i < j < r@.len() implies r@[i] != r@[j] by {
                if i < pos && j < pos { assert(r@[i] == old_r[i] && r@[j] == old_r[j]); }
                else if i < pos && j == pos { assert(r@[i] == old_r[i]); }
                else if i < pos { assert(r@[i] == old_r[i] && r@[j] == old_r[j - 1]); }
                else if i == pos { assert(r@[j] == old_r[j - 1]); }
                else { assert(r@[i] == old_r[i - 1] && r@[j] == old_r[j - 1]); }
            }
            assert forall|i: int, j: int| 0 <= i < j < r@.len() implies
                lex_lt(ks[#[trigger] r@[i] as int], ks[#[trigger] r@[j] as int])
                || (ks[r@[i] as int] == ks[r@[j] as int] && r@[i] < r@[j]) by {
                if i < pos && j < pos {
                    assert(r@[i] == old_r[i] && r@[j] == old_r[j]);
                } else if i < pos && j == pos {
                    assert(r@[i] == old_r[i]);
                    assert(!lex_lt(ks[k as int], ks[old_r[i] as int]));
                    lemma_lex_lt_total(ks[k as int], ks[old_r[i] as int]);
                } else if i < pos {
                    assert(r@[i] == old_r[i] && r@[j] == old_r[j - 1]);
                } else if i == pos {
                    let b = old_r[pos as int];
                    assert(r@[j] == old_r[j - 1]);
                    assert(lex_lt(ks[k as int], ks[b as int]));
                    if j - 1 > pos {
                        let c = old_r[j - 1];
                        if lex_lt(ks[b as int], ks[c as int]) {
                            lemma_lex_lt_trans(ks[k as int], ks[b as int], ks[c as int]);
                        }
                    }
                } else {
                    assert(r@[i] == old_r[i - 1] && r@[j] == old_r[j - 1]);
                }
            }
        }
        k = k + 1;
    }
    r
}

/// Whether `pat` occurs in `s` at position `i`.
pub fn occurs_at(s: &Vec<char>, i: usize, pat: &Vec<char>) -> (r: bool)
    requires
        i <= s@.len(),
    ensures
        r == (pat@.len() <= s@.len() - i && s@.subrange(i as int, i + pat@.len()) == pat@),
{
    let n = s.len();
    if pat.len() > n - i {
        return false;
    }
    let mut k: usize = 0;
    while k < pat.len()
        invariant
            k <= pat@.len(),
            n == s@.len(),
            i + pat@.len() <= s@.len(),
            forall|t: int| 0 <= t < k ==> s@[i + t] == pat@[t],
        decreases pat@.len() - k,
    {
        if s[i + k] != pat[k] {
            assert(s@.subrange(i as int, i + pat@.len())[k as int] != pat@[k as int]);
            return false;
        }
        k = k + 1;
    }
    assert(s@.subrange(i as int, i + pat@.len()) =~= pat@);
    true
}

} // verus!
