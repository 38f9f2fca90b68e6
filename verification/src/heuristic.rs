//! Similarity measures used by the heuristic translation search:
//! edit distance, longest common substring and longest common prefix.
use vstd::prelude::*;
use crate::text::{chars_of, split_words, string_from_chars, str_to_lowercase};
use crate::types::string_hash;

verus! {

pub open spec fn min3(a: nat, b: nat, c: nat) -> nat {
    let m = if a <= b { a } else { b };
    if m <= c { m } else { c }
}

/// The Levenshtein edit distance: the least number of single-element
/// insertions, deletions and substitutions that turn `s` into `t`.
pub open spec fn edit_distance<T>(s: Seq<T>, t: Seq<T>) -> nat
    decreases s.len() + t.len(),
{
    if s.len() == 0 {
        t.len()
    } else if t.len() == 0 {
        s.len()
    } else {
        min3(
            edit_distance(s.drop_last(), t) + 1,
            edit_distance(s, t.drop_last()) + 1,
            edit_distance(s.drop_last(), t.drop_last()) + (if s.last() == t.last() { 0nat } else { 1nat }),
        )
    }
}

/// The edit distance never exceeds the longer of the two lengths.
pub proof fn lemma_edit_distance_bound<T>(s: Seq<T>, t: Seq<T>)
    ensures
        edit_distance(s, t) <= if s.len() >= t.len() { s.len() } else { t.len() },
    decreases s.len() + t.len(),
{
    if s.len() > 0 && t.len() > 0 {
        lemma_edit_distance_bound(s.drop_last(), t.drop_last());
    }
}

/// The distance of a sequence to itself is zero.
pub proof fn lemma_edit_distance_self<T>(s: Seq<T>)
    ensures
        edit_distance(s, s) == 0,
    decreases s.len(),
{
    if s.len() > 0 {
        lemma_edit_distance_self(s.drop_last());
    }
}

/// The edit distance is symmetric.
pub proof fn lemma_edit_distance_symmetric<T>(s: Seq<T>, t: Seq<T>)
    ensures
        edit_distance(s, t) == edit_distance(t, s),
    decreases s.len() + t.len(),
{
    if s.len() > 0 && t.len() > 0 {
        lemma_edit_distance_symmetric(s.drop_last(), t);
        lemma_edit_distance_symmetric(s, t.drop_last());
        lemma_edit_distance_symmetric(s.drop_last(), t.drop_last());
    }
}

/// The edit distance is at least the difference of the lengths.
pub proof fn lemma_edit_distance_lower<T>(s: Seq<T>, t: Seq<T>)
    ensures
        edit_distance(s, t) >= s.len() - t.len(),
        edit_distance(s, t) >= t.len() - s.len(),
    decreases s.len() + t.len(),
{
    if s.len() > 0 && t.len() > 0 {
        lemma_edit_distance_lower(s.drop_last(), t);
        lemma_edit_distance_lower(s, t.drop_last());
        lemma_edit_distance_lower(s.drop_last(), t.drop_last());
    }
}

/// Only equal sequences are at distance zero.
pub proof fn lemma_edit_distance_zero<T>(s: Seq<T>, t: Seq<T>)
    requires
        edit_distance(s, t) == 0,
    ensures
        s == t,
    decreases s.len() + t.len(),
{
    if s.len() == 0 {
        assert(s =~= t);
    } else if t.len() == 0 {
    } else {
        lemma_edit_distance_zero(s.drop_last(), t.drop_last());
        assert(s =~= s.drop_last().push(s.last()));
        assert(t =~= t.drop_last().push(t.last()));
    }
}

/// The Levenshtein distance is a distance: symmetric, zero exactly between
/// equal sequences, and between the difference of the lengths and the
/// longer length.
pub proof fn law_edit_distance_metric<T>(s: Seq<T>, t: Seq<T>)
    ensures
        edit_distance(s, t) == edit_distance(t, s),
        edit_distance(s, t) == 0 <==> s == t,
        edit_distance(s, t) >= s.len() - t.len(),
        edit_distance(s, t) >= t.len() - s.len(),
        edit_distance(s, t) <= if s.len() >= t.len() { s.len() } else { t.len() },
{
    lemma_edit_distance_symmetric(s, t);
    lemma_edit_distance_lower(s, t);
    lemma_edit_distance_bound(s, t);
    if edit_distance(s, t) == 0 {
        lemma_edit_distance_zero(s, t);
    }
    if s == t {
        lemma_edit_distance_self(s);
    }
}

/// Unfolds one step of the edit distance of two prefixes.
proof fn lemma_edit_distance_step<T>(s: Seq<T>, t: Seq<T>, i: int, j: int)
    requires
        0 < i <= s.len(),
        0 < j <= t.len(),
    ensures
        edit_distance(s.take(i), t.take(j)) == min3(
            edit_distance(s.take(i - 1), t.take(j)) + 1,
            edit_distance(s.take(i), t.take(j - 1)) + 1,
            edit_distance(s.take(i - 1), t.take(j - 1)) + (if s[i - 1] == t[j - 1] { 0nat } else { 1nat }),
        ),
{
    assert(s.take(i).drop_last() =~= s.take(i - 1));
    assert(t.take(j).drop_last() =~= t.take(j - 1));
}

proof fn lemma_edit_distance_empty<T>(s: Seq<T>, t: Seq<T>, i: int, j: int)
    requires
        0 <= i <= s.len(),
        0 <= j <= t.len(),
    ensures
        edit_distance(s.take(0), t.take(j)) == j,
        edit_distance(s.take(i), t.take(0)) == i,
{
}

/// Levenshtein edit distance between the characters of `s` and `t`.
pub fn levenshtein_distance(s: &str, t: &str) -> (r: usize)
    requires
        s@.len() < usize::MAX,
        t@.len() < usize::MAX,
    ensures
        r == edit_distance(s@, t@),
{
    let s_chars = chars_of(s);
    let t_chars = chars_of(t);
    let n = s_chars.len();
    let m = t_chars.len();
    if n == 0 {
        return m;
    }
    if m == 0 {
        return n;
    }
    let ghost sv = s_chars@;
    let ghost tv = t_chars@;
    let mut prev: Vec<usize> = Vec::new();
    let mut j: usize = 0;
    while j <= m
        invariant
            j <= m + 1,
            m == tv.len(),
            m < usize::MAX,
            prev.len() == j,
            forall|k: int| 0 <= k < j ==> prev@[k] == k,
        decreases m + 1 - j,
    {
        prev.push(j);
        j = j + 1;
    }
    assert forall|k: int| 0 <= k <= m implies prev@[k] == edit_distance(sv.take(0), tv.take(k)) by {
        lemma_edit_distance_empty(sv, tv, 0, k);
    }
    let mut curr: Vec<usize> = prev.clone();
    let mut i: usize = 1;
    while i <= n
        invariant
            1 <= i <= n + 1,
            n == sv.len(),
            m == tv.len(),
            n < usize::MAX,
            m < usize::MAX,
            sv == s_chars@,
            tv == t_chars@,
            prev.len() == m + 1,
            curr.len() == m + 1,
            forall|k: int| 0 <= k <= m ==> prev@[k] == edit_distance(sv.take(i - 1), tv.take(k)),
        decreases n + 1 - i,
    {
        proof {
            lemma_edit_distance_empty(sv, tv, i as int, 0);
        }
        curr.set(0, i);
        let mut j: usize = 1;
        while j <= m
            invariant
                1 <= i <= n,
                1 <= j <= m + 1,
                n == sv.len(),
                m == tv.len(),
                n < usize::MAX,
                m < usize::MAX,
                sv == s_chars@,
                tv == t_chars@,
                prev.len() == m + 1,
                curr.len() == m + 1,
                forall|k: int| 0 <= k <= m ==> prev@[k] == edit_distance(sv.take(i - 1), tv.take(k)),
                forall|k: int| 0 <= k < j ==> curr@[k] == edit_distance(sv.take(i as int), tv.take(k)),
            decreases m + 1 - j,
        {
            proof {
                lemma_edit_distance_step(sv, tv, i as int, j as int);
                lemma_edit_distance_bound(sv.take(i - 1), tv.take(j as int));
                lemma_edit_distance_bound(sv.take(i as int), tv.take(j - 1));
                lemma_edit_distance_bound(sv.take(i - 1), tv.take(j - 1));
            }
            let cost: usize = if s_chars[i - 1] == t_chars[j - 1] { 0 } else { 1 };
            let del = prev[j] + 1;
            let ins = curr[j - 1] + 1;
            let sub = prev[j - 1] + cost;
            let mut best = if del <= ins { del } else { ins };
            if sub < best {
                best = sub;
            }
            curr.set(j, best);
            j = j + 1;
        }
        std::mem::swap(&mut prev, &mut curr);
        i = i + 1;
    }
    assert(sv.take(n as int) =~= sv);
    assert(tv.take(m as int) =~= tv);
    prev[m]
}

/// Word-level edit distance between two lists of word hashes.
pub fn word_hash_levenshtein(hashes1: &[u32], hashes2: &[u32]) -> (r: u32)
    requires
        hashes1@.len() < u32::MAX,
        hashes2@.len() < u32::MAX,
    ensures
        r == edit_distance(hashes1@, hashes2@),
{
    let n = hashes1.len();
    let m = hashes2.len();
    if n == 0 {
        return m as u32;
    }
    if m == 0 {
        return n as u32;
    }
    let ghost sv = hashes1@;
    let ghost tv = hashes2@;
    let mut prev: Vec<u32> = Vec::new();
    let mut j: usize = 0;
    while j <= m
        invariant
            j <= m + 1,
            m == tv.len(),
            m < u32::MAX,
            prev.len() == j,
            forall|k: int| 0 <= k < j ==> prev@[k] == k,
        decreases m + 1 - j,
    {
        prev.push(j as u32);
        j = j + 1;
    }
    assert forall|k: int| 0 <= k <= m implies prev@[k] == edit_distance(sv.take(0), tv.take(k)) by {
        lemma_edit_distance_empty(sv, tv, 0, k);
    }
    let mut curr: Vec<u32> = prev.clone();
    let mut i: usize = 1;
    while i <= n
        invariant
            1 <= i <= n + 1,
            n == sv.len(),
            m == tv.len(),
            n < u32::MAX,
            m < u32::MAX,
            sv == hashes1@,
            tv == hashes2@,
            prev.len() == m + 1,
            curr.len() == m + 1,
            forall|k: int| 0 <= k <= m ==> prev@[k] == edit_distance(sv.take(i - 1), tv.take(k)),
        decreases n + 1 - i,
    {
        proof {
            lemma_edit_distance_empty(sv, tv, i as int, 0);
        }
        curr.set(0, i as u32);
        let mut j: usize = 1;
        while j <= m
            invariant
                1 <= i <= n,
                1 <= j <= m + 1,
                n == sv.len(),
                m == tv.len(),
                n < u32::MAX,
                m < u32::MAX,
                sv == hashes1@,
                tv == hashes2@,
                prev.len() == m + 1,
                curr.len() == m + 1,
                forall|k: int| 0 <= k <= m ==> prev@[k] == edit_distance(sv.take(i - 1), tv.take(k)),
                forall|k: int| 0 <= k < j ==> curr@[k] == edit_distance(sv.take(i as int), tv.take(k)),
            decreases m + 1 - j,
        {
            proof {
                lemma_edit_distance_step(sv, tv, i as int, j as int);
                lemma_edit_distance_bound(sv.take(i - 1), tv.take(j as int));
                lemma_edit_distance_bound(sv.take(i as int), tv.take(j - 1));
                lemma_edit_distance_bound(sv.take(i - 1), tv.take(j - 1));
            }
            let cost: u32 = if hashes1[i - 1] == hashes2[j - 1] { 0 } else { 1 };
            let del = prev[j] + 1;
            let ins = curr[j - 1] + 1;
            let sub = prev[j - 1] + cost;
            let mut best = if del <= ins { del } else { ins };
            if sub < best {
                best = sub;
            }
            curr.set(j, best);
            j = j + 1;
        }
        std::mem::swap(&mut prev, &mut curr);
        i = i + 1;
    }
    assert(sv.take(n as int) =~= sv);
    assert(tv.take(m as int) =~= tv);
    prev[m]
}


/// Length of the longest common suffix of `s.take(a)` and `t.take(b)`.
pub open spec fn common_suffix_len<T>(s: Seq<T>, t: Seq<T>, a: int, b: int) -> nat
    decreases a,
{
    if a <= 0 || b <= 0 || a > s.len() || b > t.len() || s[a - 1] != t[b - 1] {
        0
    } else {
        1 + common_suffix_len(s, t, a - 1, b - 1)
    }
}

/// `s[i..i+k]` and `t[j..j+k]` are the same non-out-of-range stretch.
pub open spec fn common_at<T>(s: Seq<T>, t: Seq<T>, i: int, j: int, k: int) -> bool {
    &&& 0 <= k
    &&& 0 <= i && i + k <= s.len()
    &&& 0 <= j && j + k <= t.len()
    &&& s.subrange(i, i + k) == t.subrange(j, j + k)
}

proof fn lemma_common_suffix_bounds<T>(s: Seq<T>, t: Seq<T>, a: int, b: int)
    ensures
        common_suffix_len(s, t, a, b) <= (if a <= b { a } else { b }) || common_suffix_len(s, t, a, b) == 0,
        a >= 0 && b >= 0 ==> common_suffix_len(s, t, a, b) <= a && common_suffix_len(s, t, a, b) <= b,
    decreases a,
{
    if a > 0 && b > 0 && a <= s.len() && b <= t.len() && s[a - 1] == t[b - 1] {
        lemma_common_suffix_bounds(s, t, a - 1, b - 1);
    }
}

/// A common suffix of length `c` is a common stretch ending at `a` and `b`.
proof fn lemma_common_suffix_is_common<T>(s: Seq<T>, t: Seq<T>, a: int, b: int)
    requires
        0 <= a <= s.len(),
        0 <= b <= t.len(),
    ensures
        common_at(s, t, a - common_suffix_len(s, t, a, b), b - common_suffix_len(s, t, a, b),
            common_suffix_len(s, t, a, b) as int),
    decreases a,
{
    lemma_common_suffix_bounds(s, t, a, b);
    let c = common_suffix_len(s, t, a, b) as int;
    if c > 0 {
        lemma_common_suffix_is_common(s, t, a - 1, b - 1);
        assert(s.subrange(a - c, a) =~= s.subrange(a - c, a - 1).push(s[a - 1]));
        assert(t.subrange(b - c, b) =~= t.subrange(b - c, b - 1).push(t[b - 1]));
    } else {
        assert(s.subrange(a, a) =~= t.subrange(b, b));
    }
}

/// Any common stretch of length `k` ending at `i + k`, `j + k` is covered by the common suffix.
proof fn lemma_common_at_le_suffix<T>(s: Seq<T>, t: Seq<T>, i: int, j: int, k: int)
    requires
        common_at(s, t, i, j, k),
    ensures
        k <= common_suffix_len(s, t, i + k, j + k),
    decreases k,
{
    if k > 0 {
        assert(s.subrange(i, i + k)[k - 1] == t.subrange(j, j + k)[k - 1]);
        assert(s.subrange(i, i + k - 1) =~= s.subrange(i, i + k).drop_last());
        assert(t.subrange(j, j + k - 1) =~= t.subrange(j, j + k).drop_last());
        lemma_common_at_le_suffix(s, t, i, j, k - 1);
    }
}

/// Length of the longest stretch of characters that occurs in both `s` and `t`.
pub fn longest_common_substring_len(s: &str, t: &str) -> (r: usize)
    ensures
        exists|i: int, j: int| common_at(s@, t@, i, j, r as int),
        forall|i: int, j: int, k: int| common_at(s@, t@, i, j, k) ==> k <= r,
{
    let s_chars = chars_of(s);
    let t_chars = chars_of(t);
    let ghost sv = s_chars@;
    let ghost tv = t_chars@;
    let n = s_chars.len();
    let m = t_chars.len();
    assert(common_at(sv, tv, 0, 0, 0)) by {
        assert(sv.subrange(0, 0) =~= tv.subrange(0, 0));
    }
    if n == 0 || m == 0 {
        assert forall|i: int, j: int, k: int| common_at(sv, tv, i, j, k) implies k <= 0 by {}
        return 0;
    }
    let mut prev: Vec<usize> = Vec::new();
    let mut curr: Vec<usize> = Vec::new();
    let mut j: usize = 0;
    while j < m
        invariant
            j <= m,
            prev.len() == j,
            curr.len() == j,
        decreases m - j,
    {
        prev.push(0);
        curr.push(0);
        j = j + 1;
    }
    let mut max_len: usize = 0;
    let ghost mut wa: int = 0;
    let ghost mut wb: int = 0;
    let mut i: usize = 0;
    while i < n
        invariant
            i <= n,
            n == sv.len(),
            m == tv.len(),
            sv == s_chars@,
            tv == t_chars@,
            prev.len() == m,
            curr.len() == m,
            0 <= wa <= n,
            0 <= wb <= m,
            common_suffix_len(sv, tv, wa, wb) == max_len,
            i > 0 ==> forall|k: int| 0 <= k < m ==> prev@[k] == common_suffix_len(sv, tv, i as int, k + 1),
            forall|a: int, b: int| 1 <= a <= i && 1 <= b <= m ==> common_suffix_len(sv, tv, a, b) <= max_len,
        decreases n - i,
    {
        let mut j: usize = 0;
        while j < m
            invariant
                i < n,
                j <= m,
                n == sv.len(),
                m == tv.len(),
                sv == s_chars@,
                tv == t_chars@,
                prev.len() == m,
                curr.len() == m,
                0 <= wa <= n,
                0 <= wb <= m,
                common_suffix_len(sv, tv, wa, wb) == max_len,
                i > 0 ==> forall|k: int| 0 <= k < m ==> prev@[k] == common_suffix_len(sv, tv, i as int, k + 1),
                forall|k: int| 0 <= k < j ==> curr@[k] == common_suffix_len(sv, tv, i + 1, k + 1),
                forall|a: int, b: int| 1 <= a <= i && 1 <= b <= m ==> common_suffix_len(sv, tv, a, b) <= max_len,
                forall|b: int| 1 <= b <= j ==> #[trigger] common_suffix_len(sv, tv, i + 1, b) <= max_len,
            decreases m - j,
        {
            proof {
                lemma_common_suffix_bounds(sv, tv, i as int, j as int);
            }
            if s_chars[i] == t_chars[j] {
                let v: usize = if i == 0 || j == 0 { 1 } else { prev[j - 1] + 1 };
                curr.set(j, v);
                if v > max_len {
                    max_len = v;
                    proof {
                        wa = i + 1;
                        wb = j + 1;
                    }
                }
            } else {
                curr.set(j, 0);
            }
            j = j + 1;
        }
        std::mem::swap(&mut prev, &mut curr);
        i = i + 1;
    }
    proof {
        lemma_common_suffix_is_common(sv, tv, wa, wb);
        assert forall|i: int, j: int, k: int| common_at(sv, tv, i, j, k) implies k <= max_len by {
            if k > 0 {
                lemma_common_at_le_suffix(sv, tv, i, j, k);
            }
        }
    }
    max_len
}

/// Number of leading positions at which `s` and `t` hold the same character.
pub fn longest_common_prefix_len(s: &str, t: &str) -> (r: usize)
    ensures
        r <= s@.len(),
        r <= t@.len(),
        forall|k: int| 0 <= k < r ==> s@[k] == t@[k],
        r < s@.len() && r < t@.len() ==> s@[r as int] != t@[r as int],
{
    let a = chars_of(s);
    let b = chars_of(t);
    let mut i: usize = 0;
    while i < a.len() && i < b.len() && a[i] == b[i]
        invariant
            i <= a.len(),
            i <= b.len(),
            a@ == s@,
            b@ == t@,
            forall|k: int| 0 <= k < i ==> s@[k] == t@[k],
        decreases a.len() - i,
    {
        i = i + 1;
    }
    i
}


/// At most this many words are taken from one string.
pub const WORD_THRESHOLD: usize = 1000;

/// The words of `text` (see [`crate::text::words`]), at most
/// [`WORD_THRESHOLD`] of them.
pub fn tokenize_words(text: &str) -> (r: Vec<String>)
    ensures
        r@.len() == (if crate::text::words(text@).len() <= 1000 { crate::text::words(text@).len() } else { 1000 }),
        forall|k: int| 0 <= k < r@.len() ==> #[trigger] r@[k]@ == crate::text::words(text@)[k],
{
    let ws = split_words(text);
    let mut out: Vec<String> = Vec::new();
    let mut i: usize = 0;
    while i < ws.len() && i < WORD_THRESHOLD
        invariant
            i <= ws@.len(),
            i <= 1000,
            ws@.len() == crate::text::words(text@).len(),
            forall|k: int| 0 <= k < ws@.len() ==> #[trigger] ws@[k]@ == crate::text::words(text@)[k],
            out@.len() == i,
            forall|k: int| 0 <= k < i ==> #[trigger] out@[k]@ == crate::text::words(text@)[k],
        decreases ws@.len() - i,
    {
        let w = string_from_chars(ws[i].as_slice());
        out.push(w);
        i = i + 1;
    }
    out
}

/// The FNV-1a hash of each word, in order.
pub fn word_hashes(words: &[String]) -> (r: Vec<u32>)
    ensures
        r@.len() == words@.len(),
        forall|k: int| 0 <= k < r@.len() ==> #[trigger] r@[k] == crate::types::fnv1a(vstd::utf8::encode_utf8(words@[k]@)),
{
    let mut out: Vec<u32> = Vec::new();
    let mut i: usize = 0;
    while i < words.len()
        invariant
            i <= words@.len(),
            out@.len() == i,
            forall|k: int| 0 <= k < i ==> #[trigger] out@[k] == crate::types::fnv1a(vstd::utf8::encode_utf8(words@[k]@)),
        decreases words@.len() - i,
    {
        out.push(string_hash(words[i].as_str()));
        i = i + 1;
    }
    out
}

/// `s[i..i + p.len()] == p`.
pub open spec fn occurs_at(s: Seq<char>, p: Seq<char>, i: int) -> bool {
    0 <= i && i + p.len() <= s.len() && s.subrange(i, i + p.len()) == p
}

/// Number of positions below `n` at which `p` occurs in `s`.
pub open spec fn count_occurrences(s: Seq<char>, p: Seq<char>, n: int) -> nat
    decreases n,
{
    if n <= 0 {
        0
    } else {
        count_occurrences(s, p, n - 1) + (if occurs_at(s, p, n - 1) { 1nat } else { 0nat })
    }
}

/// Whether `p` occurs in `v` at position `i`.
fn chars_occur_at(v: &Vec<char>, p: &Vec<char>, i: usize) -> (r: bool)
    ensures
        r == occurs_at(v@, p@, i as int),
{
    if i > v.len() || p.len() > v.len() - i {
        return false;
    }
    let mut k: usize = 0;
    while k < p.len()
        invariant
            k <= p.len(),
            i + p.len() <= v.len(),
            forall|j: int| 0 <= j < k ==> v@[i + j] == p@[j],
        decreases p.len() - k,
    {
        if v[i + k] != p[k] {
            assert(v@.subrange(i as int, i + p@.len())[k as int] != p@[k as int]);
            return false;
        }
        k = k + 1;
    }
    assert(v@.subrange(i as int, i + p@.len()) =~= p@);
    true
}

/// Number of `<alias=` tags in `text`, compared after Unicode lower-casing,
/// saturated at `u32::MAX`. The tag cannot overlap itself, so this is also the
/// number found by a left-to-right scan.
pub fn count_alias_tags(text: &str) -> (r: u32)
    ensures
        ({
            let l = crate::text::unicode_lower_str(text@);
            let c = count_occurrences(l, "<alias="@, l.len() as int);
            r == (if c <= u32::MAX { c } else { u32::MAX as nat })
        }),
{
    let lower = str_to_lowercase(text);
    let l = chars_of(lower.as_str());
    let pat = chars_of("<alias=");
    let mut count: u32 = 0;
    let ghost mut c: nat = 0;
    let mut i: usize = 0;
    while i < l.len()
        invariant
            i <= l@.len(),
            l@ == crate::text::unicode_lower_str(text@),
            pat@ == "<alias="@,
            c == count_occurrences(l@, pat@, i as int),
            count == (if c <= u32::MAX { c } else { u32::MAX as nat }),
        decreases l@.len() - i,
    {
        if chars_occur_at(&l, &pat, i) {
            count = count.saturating_add(1);
            proof { c = c + 1; }
        }
        i = i + 1;
    }
    count
}

} // verus!
