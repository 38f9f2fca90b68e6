//! Normalised form of source strings, used by the heuristic search and by
//! dictionary matching: "Hello, World!" becomes "hello world".
use vstd::prelude::*;
use crate::text::{split_words, join_words_spaced, string_from_chars};

verus! {

/// The normalised form of `s`: its words (maximal runs of alphanumeric
/// characters, lower-cased) joined by single spaces, so that punctuation and
/// runs of white space collapse to one space and nothing leads or trails.
pub fn normalize(s: &str) -> (r: String)
    ensures
        r@ == crate::text::join_spaced(crate::text::words(s@)),
{
    let ws = split_words(s);
    let joined = join_words_spaced(&ws);
    assert(ws@.map_values(|w: Vec<char>| w@) =~= crate::text::words(s@));
    string_from_chars(&joined)
}


/// A word as the normalised form holds it: not empty, of ASCII lower-case
/// letters and digits.
pub open spec fn plain_word(w: Seq<char>) -> bool {
    w.len() > 0 && forall|i: int| 0 <= i < w.len() ==> crate::text::is_ascii_alnum(#[trigger] w[i]) && !crate::text::is_ascii_upper(w[i])
}

/// Whether every character of `s` is ASCII.
pub open spec fn all_ascii(s: Seq<char>) -> bool {
    forall|i: int| 0 <= i < s.len() ==> crate::text::is_ascii_char(#[trigger] s[i])
}

proof fn lemma_ascii_words(s: Seq<char>)
    requires
        all_ascii(s),
    ensures
        forall|k: int| 0 <= k < crate::text::words(s).len() ==> plain_word(#[trigger] crate::text::words(s)[k]),
        crate::text::words(s).len() == 0 <==> (forall|i: int| 0 <= i < s.len() ==> !crate::text::alnum(#[trigger] s[i])),
    decreases s.len(),
{
    if s.len() > 0 {
        let t = s.drop_last();
        assert forall|i: int| 0 <= i < t.len() implies crate::text::is_ascii_char(#[trigger] t[i]) by {
            assert(t[i] == s[i]);
        }
        lemma_ascii_words(t);
        let w = crate::text::words(t);
        let c = s.last();
        assert(crate::text::is_ascii_char(c));
        if crate::text::alnum(c) {
            let lc = crate::text::lower_char(c);
            assert(lc == seq![crate::text::ascii_lower_char(c)]);
            if s.len() >= 2 && crate::text::alnum(s[s.len() - 2]) && w.len() > 0 {
                let nw = w.last() + lc;
                assert(plain_word(w.last()));
                assert forall|i: int| 0 <= i < nw.len() implies crate::text::is_ascii_alnum(#[trigger] nw[i]) && !crate::text::is_ascii_upper(nw[i]) by {
                    if i < w.last().len() {
                        assert(nw[i] == w.last()[i]);
                    }
                }
                assert forall|k: int| 0 <= k < crate::text::words(s).len() implies plain_word(#[trigger] crate::text::words(s)[k]) by {
                    if k < w.len() - 1 {
                        assert(crate::text::words(s)[k] == w[k]);
                    }
                }
            } else {
                assert forall|k: int| 0 <= k < crate::text::words(s).len() implies plain_word(#[trigger] crate::text::words(s)[k]) by {
                    if k < w.len() {
                        assert(crate::text::words(s)[k] == w[k]);
                    }
                }
            }
            assert(!(forall|i: int| 0 <= i < s.len() ==> !crate::text::alnum(#[trigger] s[i])));
        } else {
            if crate::text::words(s).len() == 0 {
                assert forall|i: int| 0 <= i < s.len() implies !crate::text::alnum(#[trigger] s[i]) by {
                    if i < s.len() - 1 {
                        assert(s[i] == t[i]);
                    }
                }
            }
            if forall|i: int| 0 <= i < s.len() ==> !crate::text::alnum(#[trigger] s[i]) {
                assert forall|i: int| 0 <= i < t.len() implies !crate::text::alnum(#[trigger] t[i]) by {
                    assert(t[i] == s[i]);
                }
            }
        }
    }
}

/// Appending the first `k` characters of a plain word after text that is
/// empty or ends in a character that is not alphanumeric adds one word.
proof fn lemma_words_append(x: Seq<char>, y: Seq<char>, k: int)
    requires
        plain_word(y),
        1 <= k <= y.len(),
        x.len() == 0 || !crate::text::alnum(x.last()),
    ensures
        crate::text::words(x + y.take(k)) == crate::text::words(x).push(y.take(k)),
    decreases k,
{
    let s = x + y.take(k);
    assert(s.drop_last() =~= x + y.take(k - 1));
    assert(s.last() == y[k - 1]);
    assert(crate::text::is_ascii_alnum(y[k - 1]) && !crate::text::is_ascii_upper(y[k - 1]));
    assert(crate::text::lower_char(y[k - 1]) == seq![y[k - 1]]);
    if k == 1 {
        assert(y.take(0) =~= Seq::<char>::empty());
        assert(x + y.take(0) =~= x);
        if s.len() >= 2 {
            assert(s[s.len() - 2] == x.last());
        }
        assert(y.take(1) =~= seq![y[0]]);
    } else {
        lemma_words_append(x, y, k - 1);
        assert(s[s.len() - 2] == y[k - 2]);
        assert(crate::text::words(x).push(y.take(k - 1)).drop_last() =~= crate::text::words(x));
        assert(y.take(k - 1) + seq![y[k - 1]] =~= y.take(k));
    }
}

proof fn lemma_words_of_joined(ws: Seq<Seq<char>>)
    requires
        forall|k: int| 0 <= k < ws.len() ==> plain_word(#[trigger] ws[k]),
    ensures
        crate::text::words(crate::text::join_spaced(ws)) == ws,
    decreases ws.len(),
{
    if ws.len() == 1 {
        lemma_words_append(Seq::<char>::empty(), ws[0], ws[0].len() as int);
        assert(ws[0].take(ws[0].len() as int) =~= ws[0]);
        assert(Seq::<char>::empty() + ws[0] =~= ws[0]);
        assert(crate::text::words(Seq::<char>::empty()).push(ws[0]) =~= ws);
    } else if ws.len() > 1 {
        let a = ws.drop_last();
        assert forall|k: int| 0 <= k < a.len() implies plain_word(#[trigger] a[k]) by {
            assert(a[k] == ws[k]);
        }
        lemma_words_of_joined(a);
        let x = crate::text::join_spaced(a) + seq![' '];
        assert(!crate::text::alnum(' '));
        assert(x.drop_last() =~= crate::text::join_spaced(a));
        assert(crate::text::words(x) == crate::text::words(crate::text::join_spaced(a)));
        let w = ws.last();
        lemma_words_append(x, w, w.len() as int);
        assert(w.take(w.len() as int) =~= w);
        assert(crate::text::join_spaced(ws) =~= x + w);
        assert(a.push(w) =~= ws);
    } else {
        assert(crate::text::words(crate::text::join_spaced(ws)) =~= ws);
    }
}

proof fn lemma_joined_chars(ws: Seq<Seq<char>>)
    requires
        forall|k: int| 0 <= k < ws.len() ==> plain_word(#[trigger] ws[k]),
    ensures
        forall|i: int| 0 <= i < crate::text::join_spaced(ws).len() ==> #[trigger] crate::text::join_spaced(ws)[i] == ' '
            || (crate::text::is_ascii_alnum(crate::text::join_spaced(ws)[i]) && !crate::text::is_ascii_upper(crate::text::join_spaced(ws)[i])),
        crate::text::join_spaced(ws).len() == 0 <==> ws.len() == 0,
    decreases ws.len(),
{
    if ws.len() == 1 {
        assert(plain_word(ws[0]));
    } else if ws.len() > 1 {
        let a = ws.drop_last();
        assert forall|k: int| 0 <= k < a.len() implies plain_word(#[trigger] a[k]) by {
            assert(a[k] == ws[k]);
        }
        lemma_joined_chars(a);
        let j = crate::text::join_spaced(ws);
        let ja = crate::text::join_spaced(a);
        let w = ws.last();
        assert(plain_word(w));
        assert forall|i: int| 0 <= i < j.len() implies #[trigger] j[i] == ' '
            || (crate::text::is_ascii_alnum(j[i]) && !crate::text::is_ascii_upper(j[i])) by {
            if i < ja.len() {
                assert(j[i] == ja[i]);
            } else if i > ja.len() {
                assert(j[i] == w[i - ja.len() - 1]);
            }
        }
    }
}

/// On ASCII text, normalising is idempotent; the normalised form holds only
/// lower-case ASCII letters, digits and spaces, and is empty exactly when
/// the text has no letter or digit.
pub proof fn law_normalize_ascii(s: Seq<char>)
    requires
        all_ascii(s),
    ensures
        crate::text::join_spaced(crate::text::words(crate::text::join_spaced(crate::text::words(s)))) == crate::text::join_spaced(crate::text::words(s)),
        forall|i: int| 0 <= i < crate::text::join_spaced(crate::text::words(s)).len() ==> #[trigger] crate::text::join_spaced(crate::text::words(s))[i] == ' '
            || (crate::text::is_ascii_alnum(crate::text::join_spaced(crate::text::words(s))[i]) && !crate::text::is_ascii_upper(crate::text::join_spaced(crate::text::words(s))[i])),
        crate::text::join_spaced(crate::text::words(s)).len() == 0 <==> (forall|i: int| 0 <= i < s.len() ==> !crate::text::alnum(#[trigger] s[i])),
{
    lemma_ascii_words(s);
    lemma_words_of_joined(crate::text::words(s));
    lemma_joined_chars(crate::text::words(s));
}

} // verus!
