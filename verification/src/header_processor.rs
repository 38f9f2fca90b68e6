//! Header rules: which strings get a header (by record and field
//! signature, editor id and keywords), how the header is applied, and the
//! rule files that hold them.
use vstd::prelude::*;
use crate::esp::parser::opt_text;
use crate::text::{lines_of, trim_chars, chars_of, string_from_chars, slice_chars, chars_eq, split_chars,
    find_char, chars_start_with, chars_eq_ignore_ascii_case, str_to_lowercase, string_push, extend_chars,
    lines, trim, split_seq, first_index, starts_with, eq_ignore_ascii_case, unicode_lower_str};
use crate::command_processor::{all_digits, digits_value};

verus! {

/// A keyword condition: its kind (`form` or `kwd_`), name and form id.
#[derive(Debug, Clone)]
pub struct HeaderKeyword {
    pub kw_type: String,
    pub name: String,
    pub form_id: u32,
}

/// One header rule.
#[derive(Debug, Clone)]
pub struct HeaderRule {
    pub header: String,
    pub r_sig: String,
    pub f_sig: String,
    pub enabled: bool,
    pub in_edid: Vec<String>,
    pub ex_edid: Vec<String>,
    pub no_kw: bool,
    pub any_kw: bool,
    pub has_component: bool,
    pub include_keywords: Vec<HeaderKeyword>,
    pub exclude_keywords: Vec<HeaderKeyword>,
    pub pre_process: bool,
    pub full_replace: bool,
    pub include_or: bool,
    pub is_fallback: bool,
    pub regex: Option<String>,
    pub tag_id: i32,
}

/// A keyword condition as plain values.
pub struct KeywordV {
    pub kw_type: Seq<char>,
    pub name: Seq<char>,
    pub form_id: u32,
}

impl View for HeaderKeyword {
    type V = KeywordV;

    open spec fn view(&self) -> KeywordV {
        KeywordV { kw_type: self.kw_type@, name: self.name@, form_id: self.form_id }
    }
}

/// The texts of a list of strings.
pub open spec fn texts(v: Seq<String>) -> Seq<Seq<char>> {
    v.map_values(|s: String| s@)
}

/// The views of a list of keywords.
pub open spec fn keywords_view(v: Seq<HeaderKeyword>) -> Seq<KeywordV> {
    v.map_values(|k: HeaderKeyword| k@)
}

/// A rule as plain values.
pub struct RuleHV {
    pub header: Seq<char>,
    pub r_sig: Seq<char>,
    pub f_sig: Seq<char>,
    pub enabled: bool,
    pub in_edid: Seq<Seq<char>>,
    pub ex_edid: Seq<Seq<char>>,
    pub no_kw: bool,
    pub any_kw: bool,
    pub has_component: bool,
    pub include_keywords: Seq<KeywordV>,
    pub exclude_keywords: Seq<KeywordV>,
    pub pre_process: bool,
    pub full_replace: bool,
    pub include_or: bool,
    pub is_fallback: bool,
    pub regex: Option<Seq<char>>,
    pub tag_id: i32,
}

impl View for HeaderRule {
    type V = RuleHV;

    open spec fn view(&self) -> RuleHV {
        RuleHV {
            header: self.header@,
            r_sig: self.r_sig@,
            f_sig: self.f_sig@,
            enabled: self.enabled,
            in_edid: texts(self.in_edid@),
            ex_edid: texts(self.ex_edid@),
            no_kw: self.no_kw,
            any_kw: self.any_kw,
            has_component: self.has_component,
            include_keywords: keywords_view(self.include_keywords@),
            exclude_keywords: keywords_view(self.exclude_keywords@),
            pre_process: self.pre_process,
            full_replace: self.full_replace,
            include_or: self.include_or,
            is_fallback: self.is_fallback,
            regex: opt_text(self.regex),
            tag_id: self.tag_id,
        }
    }
}

/// The rule a `[StartRule]` opens: enabled, everything else empty or off.
pub open spec fn default_rule() -> RuleHV {
    RuleHV {
        header: Seq::empty(),
        r_sig: Seq::empty(),
        f_sig: Seq::empty(),
        enabled: true,
        in_edid: Seq::empty(),
        ex_edid: Seq::empty(),
        no_kw: false,
        any_kw: false,
        has_component: false,
        include_keywords: Seq::empty(),
        exclude_keywords: Seq::empty(),
        pre_process: false,
        full_replace: false,
        include_or: false,
        is_fallback: false,
        regex: None,
        tag_id: 0,
    }
}

impl Default for HeaderRule {
    fn default() -> (r: Self)
        ensures
            r@ == default_rule(),
    {
        let r = HeaderRule {
            header: String::new(),
            r_sig: String::new(),
            f_sig: String::new(),
            enabled: true,
            in_edid: Vec::new(),
            ex_edid: Vec::new(),
            no_kw: false,
            any_kw: false,
            has_component: false,
            include_keywords: Vec::new(),
            exclude_keywords: Vec::new(),
            pre_process: false,
            full_replace: false,
            include_or: false,
            is_fallback: false,
            regex: None,
            tag_id: 0,
        };
        assert(texts(r.in_edid@) =~= Seq::<Seq<char>>::empty());
        assert(texts(r.ex_edid@) =~= Seq::<Seq<char>>::empty());
        assert(keywords_view(r.include_keywords@) =~= Seq::<KeywordV>::empty());
        assert(keywords_view(r.exclude_keywords@) =~= Seq::<KeywordV>::empty());
        r
    }
}

/// Whether `p` occurs in `s`, as `str::contains` answers.
pub open spec fn contains_text(s: Seq<char>, p: Seq<char>) -> bool {
    exists|i: int| 0 <= i && i + p.len() <= s.len() && #[trigger] s.subrange(i, i + p.len()) == p
}

/// Whether `p` occurs in `s` (see [`contains_text`]).
pub fn chars_contain_text(s: &Vec<char>, p: &Vec<char>) -> (r: bool)
    ensures
        r == contains_text(s@, p@),
{
    if p.len() > s.len() {
        assert(!contains_text(s@, p@));
        return false;
    }
    if p.len() == 0 {
        assert(s@.subrange(0, 0 + p@.len() as int) =~= p@);
        return true;
    }
    let sl = s.len();
    let last = sl - p.len();
    let mut i: usize = 0;
    while i <= last
        invariant
            sl == s@.len(),
            p@.len() > 0,
            p@.len() <= s@.len(),
            last == s@.len() - p@.len(),
            i <= last + 1,
            forall|k: int| 0 <= k < i ==> #[trigger] s@.subrange(k, k + p@.len()) != p@,
        decreases last + 1 - i,
    {
        let w = slice_chars(s, i, i + p.len());
        if chars_eq(&w, p) {
            return true;
        }
        i = i + 1;
    }
    assert forall|k: int| 0 <= k && k + p@.len() <= s@.len() implies #[trigger] s@.subrange(k, k + p@.len()) != p@ by {}
    false
}

/// The result of `Regex::new(pattern)` then `replace(text, rep)` on the
/// first match, or `None` when the pattern does not compile.
pub uninterp spec fn regex_replace_first(pattern: Seq<char>, text: Seq<char>, rep: Seq<char>) -> Option<Seq<char>>;

/// `regex::Regex::new(pattern)` and, when it compiles, `Regex::replace`.
/// Claims only that the result is a function of the three texts (it is
/// named by [`regex_replace_first`]); what a pattern matches is left to the
/// regex crate.
#[verifier::external_body]
fn regex_replace(pattern: &str, text: &str, rep: &str) -> (r: Option<String>)
    ensures
        opt_text(r) == regex_replace_first(pattern@, text@, rep@),
{
    match regex::Regex::new(pattern) {
        Ok(re) => Some(re.replace(text, rep).to_string()),
        Err(_) => None,
    }
}

/// Whether a keyword condition holds of a form and its keywords: `form`
/// names the form itself, `kwd_` one of its keywords; other kinds never
/// hold.
pub open spec fn keyword_holds(k: KeywordV, form_id: u32, keywords: Seq<u32>) -> bool {
    if k.kw_type == "form"@ {
        k.form_id == form_id
    } else if k.kw_type == "kwd_"@ {
        keywords.contains(k.form_id)
    } else {
        false
    }
}

/// Whether any editor-id pattern occurs, case-insensitively, in `edid`.
pub open spec fn any_edid(pats: Seq<Seq<char>>, edid: Seq<char>) -> bool {
    exists|i: int| 0 <= i < pats.len()
        && contains_text(unicode_lower_str(edid), unicode_lower_str(#[trigger] pats[i]))
}

/// Whether a rule applies to a string: signatures (empty means any, else
/// ASCII case-insensitive), included editor ids (any must occur, or none
/// when `no_kw`), excluded editor ids, included keywords (all, or any when
/// `any_kw`; inverted when `no_kw`) and excluded keywords.
pub open spec fn rule_matches(r: RuleHV, record_sig: Seq<char>, field_sig: Seq<char>, edid: Seq<char>, form_id: u32,
    keywords: Seq<u32>) -> bool {
    let inc = r.include_keywords;
    let kw_match = if r.any_kw {
        exists|i: int| 0 <= i < inc.len() && keyword_holds(#[trigger] inc[i], form_id, keywords)
    } else {
        forall|i: int| 0 <= i < inc.len() ==> keyword_holds(#[trigger] inc[i], form_id, keywords)
    };
    &&& (r.r_sig.len() == 0 || eq_ignore_ascii_case(r.r_sig, record_sig))
    &&& (r.f_sig.len() == 0 || eq_ignore_ascii_case(r.f_sig, field_sig))
    &&& (r.in_edid.len() == 0 || (if r.no_kw { !any_edid(r.in_edid, edid) } else { any_edid(r.in_edid, edid) }))
    &&& (r.ex_edid.len() == 0 || !any_edid(r.ex_edid, edid))
    &&& (inc.len() == 0 || (if r.no_kw { !kw_match } else { kw_match }))
    &&& (r.exclude_keywords.len() == 0 || !exists|i: int| 0 <= i < r.exclude_keywords.len()
            && keyword_holds(#[trigger] r.exclude_keywords[i], form_id, keywords))
}

/// An exclude-EDID pattern whose lower-cased form occurs (at position `at`)
/// in the lower-cased editor id keeps the rule from applying to the string,
/// whatever else the rule and the string hold.
pub proof fn law_excluded_edid_blocks_match(r: RuleHV, record_sig: Seq<char>, field_sig: Seq<char>, edid: Seq<char>,
    form_id: u32, keywords: Seq<u32>, i: int, at: int)
    requires
        0 <= i < r.ex_edid.len(),
        0 <= at,
        at + unicode_lower_str(r.ex_edid[i]).len() <= unicode_lower_str(edid).len(),
        unicode_lower_str(edid).subrange(at, at + unicode_lower_str(r.ex_edid[i]).len()) == unicode_lower_str(r.ex_edid[i]),
    ensures
        !rule_matches(r, record_sig, field_sig, edid, form_id, keywords),
{
    let p = unicode_lower_str(r.ex_edid[i]);
    let e = unicode_lower_str(edid);
    assert(e.subrange(at, at + p.len()) == p);
    assert(contains_text(e, p));
}

/// A rule with include-EDID patterns (and no `noKW` inversion) applies only
/// to strings whose lower-cased editor id holds one of them, lower-cased.
pub proof fn law_included_edid_needed(r: RuleHV, record_sig: Seq<char>, field_sig: Seq<char>, edid: Seq<char>,
    form_id: u32, keywords: Seq<u32>)
    requires
        r.in_edid.len() > 0,
        !r.no_kw,
        rule_matches(r, record_sig, field_sig, edid, form_id, keywords),
    ensures
        exists|i: int, at: int| 0 <= i < r.in_edid.len() && 0 <= at
            && at + unicode_lower_str(r.in_edid[i]).len() <= unicode_lower_str(edid).len()
            && #[trigger] unicode_lower_str(edid).subrange(at, at + unicode_lower_str(r.in_edid[i]).len())
                == unicode_lower_str(r.in_edid[i]),
{
    let e = unicode_lower_str(edid);
    let i = choose|i: int| 0 <= i < r.in_edid.len() && contains_text(e, unicode_lower_str(#[trigger] r.in_edid[i]));
    let p = unicode_lower_str(r.in_edid[i]);
    let at = choose|at: int| 0 <= at && at + p.len() <= e.len() && #[trigger] e.subrange(at, at + p.len()) == p;
    assert(e.subrange(at, at + p.len()) == p);
}

/// An exclude keyword naming the string's form itself (`form`), or one of
/// its keywords (`kwd_`), keeps the rule from applying.
pub proof fn law_excluded_keyword_blocks_match(r: RuleHV, record_sig: Seq<char>, field_sig: Seq<char>, edid: Seq<char>,
    form_id: u32, keywords: Seq<u32>, i: int)
    requires
        0 <= i < r.exclude_keywords.len(),
        (r.exclude_keywords[i].kw_type == "form"@ && r.exclude_keywords[i].form_id == form_id)
            || (r.exclude_keywords[i].kw_type == "kwd_"@ && keywords.contains(r.exclude_keywords[i].form_id)),
    ensures
        !rule_matches(r, record_sig, field_sig, edid, form_id, keywords),
{
    reveal_strlit("form");
    reveal_strlit("kwd_");
    let k = r.exclude_keywords[i];
    if k.kw_type == "form"@ {
        assert(k.form_id == form_id) by {
            if !(k.kw_type == "form"@ && k.form_id == form_id) {
                assert(k.kw_type == "kwd_"@);
                assert("form"@[0] != "kwd_"@[0]);
            }
        }
    }
    assert(keyword_holds(k, form_id, keywords));
}

/// A rule with a record signature applies only to strings of a record whose
/// signature is the same up to ASCII case; likewise for the field signature.
pub proof fn law_signatures_must_agree(r: RuleHV, record_sig: Seq<char>, field_sig: Seq<char>, edid: Seq<char>,
    form_id: u32, keywords: Seq<u32>)
    requires
        rule_matches(r, record_sig, field_sig, edid, form_id, keywords),
    ensures
        r.r_sig.len() > 0 ==> crate::text::ascii_lower(r.r_sig) == crate::text::ascii_lower(record_sig),
        r.f_sig.len() > 0 ==> crate::text::ascii_lower(r.f_sig) == crate::text::ascii_lower(field_sig),
{
}

/// What a rule makes of a translation: its header alone when it replaces
/// in full; the source with the first regex match replaced by the header
/// when it has a regex that compiles; else the translation with the header
/// and a space before it (the translation alone when the header is empty).
pub open spec fn rule_applied(r: RuleHV, translation: Seq<char>, source: Seq<char>) -> Seq<char> {
    if r.full_replace {
        r.header
    } else if r.regex is Some && regex_replace_first(r.regex->0, source, r.header) is Some {
        regex_replace_first(r.regex->0, source, r.header)->0
    } else if r.header.len() == 0 {
        translation
    } else {
        r.header + seq![' '] + translation
    }
}

/// Whether any pattern occurs in the lower-cased editor id (see [`any_edid`]).
fn any_edid_matches(pats: &Vec<String>, edid_lower: &Vec<char>, Ghost(edid): Ghost<Seq<char>>) -> (r: bool)
    requires
        edid_lower@ == unicode_lower_str(edid),
    ensures
        r == any_edid(texts(pats@), edid),
{
    let mut i: usize = 0;
    while i < pats.len()
        invariant
            i <= pats@.len(),
            edid_lower@ == unicode_lower_str(edid),
            forall|k: int| 0 <= k < i ==> !contains_text(unicode_lower_str(edid), unicode_lower_str(#[trigger] texts(pats@)[k])),
        decreases pats@.len() - i,
    {
        let lp = chars_of(str_to_lowercase(pats[i].as_str()).as_str());
        assert(texts(pats@)[i as int] == pats@[i as int]@);
        if chars_contain_text(edid_lower, &lp) {
            return true;
        }
        i = i + 1;
    }
    false
}

/// Whether a keyword condition holds (see [`keyword_holds`]).
fn keyword_check(k: &HeaderKeyword, form_id: u32, keywords: &[u32]) -> (r: bool)
    ensures
        r == keyword_holds(k@, form_id, keywords@),
{
    let t = chars_of(k.kw_type.as_str());
    if chars_eq(&t, &chars_of("form")) {
        k.form_id == form_id
    } else if chars_eq(&t, &chars_of("kwd_")) {
        let mut i: usize = 0;
        while i < keywords.len()
            invariant
                i <= keywords@.len(),
                k.kw_type@ == "kwd_"@,
                k.kw_type@ != "form"@,
                forall|j: int| 0 <= j < i ==> keywords@[j] != k.form_id,
            decreases keywords@.len() - i,
        {
            if keywords[i] == k.form_id {
                assert(keywords@[i as int] == k.form_id);
                return true;
            }
            i = i + 1;
        }
        false
    } else {
        false
    }
}

/// Whether any keyword condition holds.
fn any_keyword(ks: &Vec<HeaderKeyword>, form_id: u32, keywords: &[u32]) -> (r: bool)
    ensures
        r == exists|i: int| 0 <= i < ks@.len() && keyword_holds(#[trigger] keywords_view(ks@)[i], form_id, keywords@),
{
    let mut i: usize = 0;
    while i < ks.len()
        invariant
            i <= ks@.len(),
            forall|j: int| 0 <= j < i ==> !keyword_holds(#[trigger] keywords_view(ks@)[j], form_id, keywords@),
        decreases ks@.len() - i,
    {
        assert(keywords_view(ks@)[i as int] == ks@[i as int]@);
        if keyword_check(&ks[i], form_id, keywords) {
            return true;
        }
        i = i + 1;
    }
    false
}

/// Whether every keyword condition holds.
fn all_keywords(ks: &Vec<HeaderKeyword>, form_id: u32, keywords: &[u32]) -> (r: bool)
    ensures
        r == forall|i: int| 0 <= i < ks@.len() ==> keyword_holds(#[trigger] keywords_view(ks@)[i], form_id, keywords@),
{
    let mut i: usize = 0;
    while i < ks.len()
        invariant
            i <= ks@.len(),
            forall|j: int| 0 <= j < i ==> keyword_holds(#[trigger] keywords_view(ks@)[j], form_id, keywords@),
        decreases ks@.len() - i,
    {
        assert(keywords_view(ks@)[i as int] == ks@[i as int]@);
        if !keyword_check(&ks[i], form_id, keywords) {
            return false;
        }
        i = i + 1;
    }
    true
}

impl HeaderRule {
    /// Whether the rule applies to a string (see [`rule_matches`]).
    pub fn matches_string(&self, record_sig: &str, field_sig: &str, edid: &str, form_id: u32, keywords: &[u32])
        -> (r: bool)
        ensures
            r == rule_matches(self@, record_sig@, field_sig@, edid@, form_id, keywords@),
    {
        let rs = chars_of(self.r_sig.as_str());
        if rs.len() > 0 && !chars_eq_ignore_ascii_case(&rs, &chars_of(record_sig)) {
            return false;
        }
        let fs = chars_of(self.f_sig.as_str());
        if fs.len() > 0 && !chars_eq_ignore_ascii_case(&fs, &chars_of(field_sig)) {
            return false;
        }
        let edid_lower = chars_of(str_to_lowercase(edid).as_str());
        if self.in_edid.len() > 0 {
            let matched = any_edid_matches(&self.in_edid, &edid_lower, Ghost(edid@));
            if self.no_kw {
                if matched {
                    return false;
                }
            } else if !matched {
                return false;
            }
        }
        if self.ex_edid.len() > 0 && any_edid_matches(&self.ex_edid, &edid_lower, Ghost(edid@)) {
            return false;
        }
        if self.include_keywords.len() > 0 {
            let kw_match = if self.any_kw {
                any_keyword(&self.include_keywords, form_id, keywords)
            } else {
                all_keywords(&self.include_keywords, form_id, keywords)
            };
            let ghost inc = self@.include_keywords;
            assert(inc == keywords_view(self.include_keywords@));
            assert(kw_match == (if self.any_kw {
                exists|i: int| 0 <= i < inc.len() && keyword_holds(#[trigger] inc[i], form_id, keywords@)
            } else {
                forall|i: int| 0 <= i < inc.len() ==> keyword_holds(#[trigger] inc[i], form_id, keywords@)
            }));
            if self.no_kw {
                if kw_match {
                    return false;
                }
            } else if !kw_match {
                return false;
            }
        }
        assert(self@.exclude_keywords == keywords_view(self.exclude_keywords@));
        if self.exclude_keywords.len() > 0 && any_keyword(&self.exclude_keywords, form_id, keywords) {
            return false;
        }
        true
    }

    /// What the rule makes of a translation (see [`rule_applied`]).
    pub fn apply(&self, translation: &str, source: &str) -> (r: String)
        ensures
            r@ == rule_applied(self@, translation@, source@),
    {
        if self.full_replace {
            return self.header.clone();
        }
        match &self.regex {
            Some(re) => {
                match regex_replace(re.as_str(), source, self.header.as_str()) {
                    Some(out) => {
                        return out;
                    },
                    None => {},
                }
            },
            None => {},
        }
        if self.header.as_str().unicode_len() == 0 {
            return translation.to_string();
        }
        let mut out: Vec<char> = chars_of(self.header.as_str());
        out.push(' ');
        let t = chars_of(translation);
        extend_chars(&mut out, &t);
        assert(out@ =~= self.header@ + seq![' '] + translation@);
        string_from_chars(out.as_slice())
    }
}

/// A set of header rules and the game they are for.
#[derive(Debug, Clone)]
pub struct HeaderRuleSet {
    pub rules: Vec<HeaderRule>,
    pub game_id: String,
}

/// The views of a list of rules.
pub open spec fn rules_view(v: Seq<HeaderRule>) -> Seq<RuleHV> {
    v.map_values(|r: HeaderRule| r@)
}

/// The first enabled rule from position `k` on that applies to a string.
pub open spec fn first_applying(rs: Seq<RuleHV>, k: int, record_sig: Seq<char>, field_sig: Seq<char>, edid: Seq<char>,
    form_id: u32, keywords: Seq<u32>) -> Option<int>
    decreases rs.len() - k,
{
    if k < 0 || k >= rs.len() {
        None
    } else if rs[k].enabled && rule_matches(rs[k], record_sig, field_sig, edid, form_id, keywords) {
        Some(k)
    } else {
        first_applying(rs, k + 1, record_sig, field_sig, edid, form_id, keywords)
    }
}

impl HeaderRuleSet {
    /// No rule and no game.
    pub fn new() -> (r: Self)
        ensures
            r.rules@.len() == 0,
            r.game_id@.len() == 0,
    {
        HeaderRuleSet { rules: Vec::new(), game_id: String::new() }
    }

    /// What the first enabled rule that applies to a string makes of its
    /// translation; `None` when no rule applies.
    pub fn apply_rules(&self, record_sig: &str, field_sig: &str, edid: &str, form_id: u32, keywords: &[u32],
        translation: &str, source: &str) -> (r: Option<String>)
        ensures
            match first_applying(rules_view(self.rules@), 0, record_sig@, field_sig@, edid@, form_id, keywords@) {
                Some(k) => r matches Some(t) && t@ == rule_applied(rules_view(self.rules@)[k], translation@, source@),
                None => r is None,
            },
    {
        let ghost rv = rules_view(self.rules@);
        let mut i: usize = 0;
        while i < self.rules.len()
            invariant
                i <= self.rules@.len(),
                rv == rules_view(self.rules@),
                first_applying(rv, 0, record_sig@, field_sig@, edid@, form_id, keywords@)
                    == first_applying(rv, i as int, record_sig@, field_sig@, edid@, form_id, keywords@),
            decreases self.rules@.len() - i,
        {
            let rule = &self.rules[i];
            assert(rv[i as int] == rule@);
            if rule.enabled && rule.matches_string(record_sig, field_sig, edid, form_id, keywords) {
                return Some(rule.apply(translation, source));
            }
            i = i + 1;
        }
        None
    }
}

/// A 32-bit signed integer written in decimal, as `str::parse::<i32>`
/// reads it: an optional sign, at least one digit, and a value in range.
pub open spec fn spec_parse_i32(s: Seq<char>) -> Option<i32> {
    let neg = s.len() > 0 && s[0] == '-';
    let d = if s.len() > 0 && (s[0] == '+' || s[0] == '-') { s.drop_first() } else { s };
    if d.len() > 0 && all_digits(d) {
        let v = if neg { -digits_value(d) } else { digits_value(d) };
        if i32::MIN <= v && v <= i32::MAX { Some(v as i32) } else { None }
    } else {
        None
    }
}

pub(crate) proof fn lemma_digits_prefix(d: Seq<char>, k: int)
    requires
        0 <= k <= d.len(),
        all_digits(d),
    ensures
        digits_value(d) >= digits_value(d.subrange(0, k)) >= 0,
    decreases d.len() - k,
{
    if k < d.len() {
        lemma_digits_prefix(d, k + 1);
        assert(d.subrange(0, k + 1).drop_last() =~= d.subrange(0, k));
    } else {
        assert(d.subrange(0, k) =~= d);
    }
    lemma_digits_nonneg(d.subrange(0, k));
}

pub(crate) proof fn lemma_digits_nonneg(d: Seq<char>)
    requires
        all_digits(d),
    ensures
        digits_value(d) >= 0,
    decreases d.len(),
{
    if d.len() > 0 {
        lemma_digits_nonneg(d.drop_last());
    }
}

/// Reads a 32-bit signed decimal (see [`spec_parse_i32`]).
pub fn parse_i32_text(s: &Vec<char>) -> (r: Option<i32>)
    ensures
        r == spec_parse_i32(s@),
{
    let neg = s.len() > 0 && s[0] == '-';
    let start: usize = if s.len() > 0 && (s[0] == '+' || s[0] == '-') { 1 } else { 0 };
    let ghost d = if s@.len() > 0 && (s@[0] == '+' || s@[0] == '-') { s@.drop_first() } else { s@ };
    assert(d =~= s@.subrange(start as int, s@.len() as int));
    if start >= s.len() {
        return None;
    }
    let mut v: i64 = 0;
    let mut i: usize = start;
    while i < s.len()
        invariant
            start <= i <= s@.len(),
            d == (if s@.len() > 0 && (s@[0] == '+' || s@[0] == '-') { s@.drop_first() } else { s@ }),
            d =~= s@.subrange(start as int, s@.len() as int),
            all_digits(s@.subrange(start as int, i as int)),
            v as int == digits_value(s@.subrange(start as int, i as int)),
            0 <= v <= 0x8000_0000,
        decreases s@.len() - i,
    {
        let c = s[i];
        if !('0' <= c && c <= '9') {
            assert(!all_digits(d)) by {
                assert(d[i - start] == c);
            }
            return None;
        }
        assert(s@.subrange(start as int, i + 1).drop_last() =~= s@.subrange(start as int, i as int));
        let nv = v * 10 + ((c as u32) - 0x30) as i64;
        i = i + 1;
        assert(digits_value(s@.subrange(start as int, i as int)) == nv);
        if nv > 0x8000_0000 {
            proof {
                assert(all_digits(s@.subrange(start as int, i as int)));
                if all_digits(d) {
                    lemma_digits_prefix(d, i - start);
                    assert(d.subrange(0, i - start) =~= s@.subrange(start as int, i as int));
                }
            }
            return None;
        }
        v = nv;
    }
    assert(s@.subrange(start as int, s@.len() as int) =~= d);
    if neg {
        Some((-v) as i32)
    } else if v <= 0x7FFF_FFFF {
        Some(v as i32)
    } else {
        None
    }
}

/// The value of a hexadecimal digit.
pub open spec fn hex_value_of(c: char) -> int {
    if '0' <= c && c <= '9' {
        (c as int) - ('0' as int)
    } else if 'a' <= c && c <= 'f' {
        (c as int) - ('a' as int) + 10
    } else {
        (c as int) - ('A' as int) + 10
    }
}

/// Whether every character is a hexadecimal digit.
pub open spec fn all_hex(s: Seq<char>) -> bool {
    forall|i: int| 0 <= i < s.len() ==> ('0' <= #[trigger] s[i] && s[i] <= '9') || ('a' <= s[i] && s[i] <= 'f')
        || ('A' <= s[i] && s[i] <= 'F')
}

/// The value of a run of hexadecimal digits.
pub open spec fn hex_value(s: Seq<char>) -> int
    decreases s.len(),
{
    if s.len() == 0 { 0 } else { hex_value(s.drop_last()) * 16 + hex_value_of(s.last()) }
}

/// A 32-bit number in hexadecimal, as `u32::from_str_radix(s, 16)` reads
/// it: an optional `+`, at least one digit, and a value in range.
pub open spec fn spec_parse_hex_u32(s: Seq<char>) -> Option<u32> {
    let d = if s.len() > 0 && s[0] == '+' { s.drop_first() } else { s };
    if d.len() > 0 && all_hex(d) && hex_value(d) <= u32::MAX { Some(hex_value(d) as u32) } else { None }
}

proof fn lemma_hex_prefix(d: Seq<char>, k: int)
    requires
        0 <= k <= d.len(),
        all_hex(d),
    ensures
        hex_value(d) >= hex_value(d.subrange(0, k)) >= 0,
    decreases d.len() - k,
{
    if k < d.len() {
        lemma_hex_prefix(d, k + 1);
        assert(d.subrange(0, k + 1).drop_last() =~= d.subrange(0, k));
    } else {
        assert(d.subrange(0, k) =~= d);
    }
    lemma_hex_nonneg(d.subrange(0, k));
}

proof fn lemma_hex_nonneg(d: Seq<char>)
    requires
        all_hex(d),
    ensures
        hex_value(d) >= 0,
    decreases d.len(),
{
    if d.len() > 0 {
        lemma_hex_nonneg(d.drop_last());
    }
}

/// Reads a 32-bit hexadecimal number (see [`spec_parse_hex_u32`]).
pub fn parse_hex_u32_text(s: &Vec<char>) -> (r: Option<u32>)
    ensures
        r == spec_parse_hex_u32(s@),
{
    let start: usize = if s.len() > 0 && s[0] == '+' { 1 } else { 0 };
    let ghost d = if s@.len() > 0 && s@[0] == '+' { s@.drop_first() } else { s@ };
    assert(d =~= s@.subrange(start as int, s@.len() as int));
    if start >= s.len() {
        return None;
    }
    let mut v: u64 = 0;
    let mut i: usize = start;
    while i < s.len()
        invariant
            start <= i <= s@.len(),
            d == (if s@.len() > 0 && s@[0] == '+' { s@.drop_first() } else { s@ }),
            d =~= s@.subrange(start as int, s@.len() as int),
            all_hex(s@.subrange(start as int, i as int)),
            v as int == hex_value(s@.subrange(start as int, i as int)),
            v <= 0xFFFF_FFFF,
        decreases s@.len() - i,
    {
        let c = s[i];
        let dv: u64 = if '0' <= c && c <= '9' {
            ((c as u32) - 0x30) as u64
        } else if 'a' <= c && c <= 'f' {
            ((c as u32) - 0x61 + 10) as u64
        } else if 'A' <= c && c <= 'F' {
            ((c as u32) - 0x41 + 10) as u64
        } else {
            assert(!all_hex(d)) by {
                assert(d[i - start] == c);
            }
            return None;
        };
        assert(s@.subrange(start as int, i + 1).drop_last() =~= s@.subrange(start as int, i as int));
        let nv = v * 16 + dv;
        i = i + 1;
        assert(hex_value(s@.subrange(start as int, i as int)) == nv);
        if nv > 0xFFFF_FFFF {
            proof {
                assert(all_hex(s@.subrange(start as int, i as int)));
                if all_hex(d) {
                    lemma_hex_prefix(d, i - start);
                    assert(d.subrange(0, i - start) =~= s@.subrange(start as int, i as int));
                }
            }
            return None;
        }
        v = nv;
    }
    assert(s@.subrange(start as int, s@.len() as int) =~= d);
    Some(v as u32)
}

/// A keyword from a `type|name|hex-id` value, when it has three parts (an
/// id that cannot be read counts as 0).
pub open spec fn keyword_of(value: Seq<char>) -> Option<KeywordV> {
    let parts = split_seq(value, '|');
    if parts.len() >= 3 {
        Some(KeywordV {
            kw_type: parts[0],
            name: parts[1],
            form_id: match spec_parse_hex_u32(parts[2]) { Some(v) => v, None => 0 },
        })
    } else {
        None
    }
}

/// A text setting: `Header`, `rSig`, `fSig`, `RegEx` or `regex`.
pub open spec fn set_text_key(r: RuleHV, key: Seq<char>, value: Seq<char>) -> Option<RuleHV> {
    if key == "Header"@ {
        Some(RuleHV { header: value, ..r })
    } else if key == "rSig"@ {
        Some(RuleHV { r_sig: value, ..r })
    } else if key == "fSig"@ {
        Some(RuleHV { f_sig: value, ..r })
    } else if key == "RegEx"@ || key == "regex"@ {
        Some(RuleHV { regex: Some(value), ..r })
    } else {
        None
    }
}

/// A numeric or list setting: `enabled` (on for a non-zero number),
/// `tagID`, `inEdid` and `exEdid` (split at `|`).
pub open spec fn set_value_key(r: RuleHV, key: Seq<char>, value: Seq<char>) -> Option<RuleHV> {
    if key == "enabled"@ {
        Some(RuleHV { enabled: match spec_parse_i32(value) { Some(v) => v != 0, None => false }, ..r })
    } else if key == "tagID"@ {
        Some(RuleHV { tag_id: match spec_parse_i32(value) { Some(v) => v, None => 0 }, ..r })
    } else if key == "inEdid"@ {
        Some(RuleHV { in_edid: split_seq(value, '|'), ..r })
    } else if key == "exEdid"@ {
        Some(RuleHV { ex_edid: split_seq(value, '|'), ..r })
    } else {
        None
    }
}

/// A flag setting, on unless the value is `0`.
pub open spec fn set_flag_key(r: RuleHV, key: Seq<char>, value: Seq<char>) -> Option<RuleHV> {
    let on = value != "0"@;
    if key == "noKW"@ {
        Some(RuleHV { no_kw: on, ..r })
    } else if key == "anyKW"@ {
        Some(RuleHV { any_kw: on, ..r })
    } else if key == "hasCompo"@ {
        Some(RuleHV { has_component: on, ..r })
    } else if key == "preProcess"@ {
        Some(RuleHV { pre_process: on, ..r })
    } else if key == "fullReplace"@ {
        Some(RuleHV { full_replace: on, ..r })
    } else if key == "includeOr"@ {
        Some(RuleHV { include_or: on, ..r })
    } else if key == "isFallback"@ {
        Some(RuleHV { is_fallback: on, ..r })
    } else {
        None
    }
}

/// A rule with one `key=value` line applied. Keys are matched exactly (see
/// [`set_text_key`], [`set_value_key`], [`set_flag_key`]); any other key
/// starting with `Include_` or `Exclude_` adds a keyword; unknown keys
/// change nothing.
pub open spec fn set_key(r: RuleHV, key: Seq<char>, value: Seq<char>) -> RuleHV {
    match set_text_key(r, key, value) {
        Some(x) => x,
        None => match set_value_key(r, key, value) {
            Some(x) => x,
            None => match set_flag_key(r, key, value) {
                Some(x) => x,
                None => if starts_with(key, "Include_"@) {
                    match keyword_of(value) {
                        Some(k) => RuleHV { include_keywords: r.include_keywords.push(k), ..r },
                        None => r,
                    }
                } else if starts_with(key, "Exclude_"@) {
                    match keyword_of(value) {
                        Some(k) => RuleHV { exclude_keywords: r.exclude_keywords.push(k), ..r },
                        None => r,
                    }
                } else {
                    r
                },
            },
        },
    }
}

/// Reading a rule file: the rules closed so far and the open one.
pub struct IniState {
    pub rules: Seq<RuleHV>,
    pub current: Option<RuleHV>,
}

/// What one line of a rule file does: blank lines, comments (`#`) and
/// lines starting with a byte-order mark are passed over; `[StartRule]`
/// opens a new rule (dropping one left open); `[EndRule]` closes the open
/// rule; inside a rule, `key=value` sets a key (see [`set_key`]).
pub open spec fn step_ini(st: IniState, raw: Seq<char>) -> IniState {
    let l = trim(raw);
    if l.len() == 0 || l[0] == '#' || l[0] == '\u{FEFF}' {
        st
    } else if l == "[StartRule]"@ {
        IniState { current: Some(default_rule()), ..st }
    } else if l == "[EndRule]"@ {
        match st.current {
            Some(r) => IniState { rules: st.rules.push(r), current: None },
            None => st,
        }
    } else {
        match st.current {
            None => st,
            Some(r) => match first_index(l, '=') {
                None => st,
                Some(p) => IniState { current: Some(set_key(r, trim(l.take(p)), trim(l.skip(p + 1)))), ..st },
            },
        }
    }
}

/// The state after the lines from `k` on.
pub open spec fn run_ini(ls: Seq<Seq<char>>, k: int, st: IniState) -> IniState
    decreases ls.len() - k,
{
    if k < 0 || k >= ls.len() { st } else { run_ini(ls, k + 1, step_ini(st, ls[k])) }
}

/// The rules of a rule file (a rule left open at the end is dropped).
pub open spec fn ini_rules(text: Seq<char>) -> Seq<RuleHV> {
    run_ini(lines(text), 0, IniState { rules: Seq::empty(), current: None }).rules
}

/// Strings of the parts of `v` split at `|`.
fn split_bar(v: &Vec<char>) -> (r: Vec<String>)
    ensures
        texts(r@) == split_seq(v@, '|'),
{
    let parts = split_chars(v, '|');
    let mut out: Vec<String> = Vec::new();
    let mut i: usize = 0;
    while i < parts.len()
        invariant
            i <= parts@.len(),
            parts@.len() == split_seq(v@, '|').len(),
            forall|k: int| 0 <= k < parts@.len() ==> #[trigger] parts@[k]@ == split_seq(v@, '|')[k],
            texts(out@) == split_seq(v@, '|').take(i as int),
        decreases parts@.len() - i,
    {
        let st = string_from_chars(parts[i].as_slice());
        let ghost before = out@;
        out.push(st);
        assert(texts(out@) =~= texts(before).push(st@));
        assert(split_seq(v@, '|').take(i + 1) =~= split_seq(v@, '|').take(i as int).push(split_seq(v@, '|')[i as int]));
        i = i + 1;
    }
    assert(split_seq(v@, '|').take(parts@.len() as int) =~= split_seq(v@, '|'));
    out
}

/// A keyword from a value (see [`keyword_of`]).
fn parse_keyword(value: &Vec<char>) -> (r: Option<HeaderKeyword>)
    ensures
        match keyword_of(value@) {
            Some(k) => r matches Some(x) && x@ == k,
            None => r is None,
        },
{
    let parts = split_chars(value, '|');
    if parts.len() >= 3 {
        let form_id = match parse_hex_u32_text(&parts[2]) {
            Some(v) => v,
            None => 0,
        };
        Some(HeaderKeyword {
            kw_type: string_from_chars(parts[0].as_slice()),
            name: string_from_chars(parts[1].as_slice()),
            form_id,
        })
    } else {
        None
    }
}

/// Whether `v` spells `w`.
fn is_word(v: &Vec<char>, w: &str) -> (r: bool)
    ensures
        r == (v@ == w@),
{
    chars_eq(v, &chars_of(w))
}

impl HeaderRule {
    /// Applies a text setting (see [`set_text_key`]); whether the key was one.
    fn set_text(&mut self, key: &Vec<char>, value: &Vec<char>) -> (r: bool)
        ensures
            match set_text_key(old(self)@, key@, value@) {
                Some(x) => r && final(self)@ == x,
                None => !r && final(self)@ == old(self)@,
            },
    {
        if is_word(key, "Header") {
            self.header = string_from_chars(value.as_slice());
        } else if is_word(key, "rSig") {
            self.r_sig = string_from_chars(value.as_slice());
        } else if is_word(key, "fSig") {
            self.f_sig = string_from_chars(value.as_slice());
        } else if is_word(key, "RegEx") || is_word(key, "regex") {
            self.regex = Some(string_from_chars(value.as_slice()));
        } else {
            return false;
        }
        true
    }

    /// Applies a numeric or list setting (see [`set_value_key`]).
    fn set_value(&mut self, key: &Vec<char>, value: &Vec<char>) -> (r: bool)
        ensures
            match set_value_key(old(self)@, key@, value@) {
                Some(x) => r && final(self)@ == x,
                None => !r && final(self)@ == old(self)@,
            },
    {
        if is_word(key, "enabled") {
            self.enabled = match parse_i32_text(value) {
                Some(v) => v != 0,
                None => false,
            };
        } else if is_word(key, "tagID") {
            self.tag_id = match parse_i32_text(value) {
                Some(v) => v,
                None => 0,
            };
        } else if is_word(key, "inEdid") {
            self.in_edid = split_bar(value);
        } else if is_word(key, "exEdid") {
            self.ex_edid = split_bar(value);
        } else {
            return false;
        }
        true
    }

    /// Applies a flag setting (see [`set_flag_key`]).
    fn set_flag(&mut self, key: &Vec<char>, value: &Vec<char>) -> (r: bool)
        ensures
            match set_flag_key(old(self)@, key@, value@) {
                Some(x) => r && final(self)@ == x,
                None => !r && final(self)@ == old(self)@,
            },
    {
        let on = !is_word(value, "0");
        if is_word(key, "noKW") {
            self.no_kw = on;
        } else if is_word(key, "anyKW") {
            self.any_kw = on;
        } else if is_word(key, "hasCompo") {
            self.has_component = on;
        } else if is_word(key, "preProcess") {
            self.pre_process = on;
        } else if is_word(key, "fullReplace") {
            self.full_replace = on;
        } else if is_word(key, "includeOr") {
            self.include_or = on;
        } else if is_word(key, "isFallback") {
            self.is_fallback = on;
        } else {
            return false;
        }
        true
    }

    /// Applies one `key=value` line (see [`set_key`]).
    pub fn set_key(&mut self, key: &Vec<char>, value: &Vec<char>)
        ensures
            final(self)@ == set_key(old(self)@, key@, value@),
    {
        if self.set_text(key, value) {
            return;
        }
        if self.set_value(key, value) {
            return;
        }
        if self.set_flag(key, value) {
            return;
        }
        if chars_start_with(key, &chars_of("Include_")) {
            match parse_keyword(value) {
                Some(k) => {
                    let ghost before = self.include_keywords@;
                    self.include_keywords.push(k);
                    assert(keywords_view(self.include_keywords@) =~= keywords_view(before).push(k@));
                },
                None => {},
            }
        } else if chars_start_with(key, &chars_of("Exclude_")) {
            match parse_keyword(value) {
                Some(k) => {
                    let ghost before = self.exclude_keywords@;
                    self.exclude_keywords.push(k);
                    assert(keywords_view(self.exclude_keywords@) =~= keywords_view(before).push(k@));
                },
                None => {},
            }
        }
    }
}

impl HeaderRuleSet {
    /// The rules of a rule file (see [`ini_rules`]); no game is set.
    pub fn from_ini_text(text: &str) -> (r: Self)
        ensures
            rules_view(r.rules@) == ini_rules(text@),
            r.game_id@.len() == 0,
    {
        let ls = lines_of(text);
        let mut set = HeaderRuleSet::new();
        let mut current: Option<HeaderRule> = None;
        let ghost init = IniState { rules: Seq::empty(), current: None };
        let start_rule = chars_of("[StartRule]");
        let end_rule = chars_of("[EndRule]");
        assert(rules_view(set.rules@) =~= Seq::<RuleHV>::empty());
        let mut k: usize = 0;
        while k < ls.len()
            invariant
                k <= ls@.len(),
                ls@.len() == lines(text@).len(),
                forall|j: int| 0 <= j < ls@.len() ==> #[trigger] ls@[j]@ == lines(text@)[j],
                start_rule@ == "[StartRule]"@,
                end_rule@ == "[EndRule]"@,
                init == (IniState { rules: Seq::empty(), current: None }),
                set.game_id@.len() == 0,
                run_ini(lines(text@), k as int, IniState {
                    rules: rules_view(set.rules@),
                    current: match current { Some(r) => Some(r@), None => None },
                }) == run_ini(lines(text@), 0, init),
            decreases ls@.len() - k,
        {
            let l = trim_chars(&ls[k]);
            if l.len() == 0 || l[0] == '#' || l[0] == '\u{FEFF}' {
            } else if chars_eq(&l, &start_rule) {
                current = Some(HeaderRule::default());
            } else if chars_eq(&l, &end_rule) {
                match current {
                    Some(r) => {
                        let ghost before = set.rules@;
                        set.rules.push(r);
                        assert(rules_view(set.rules@) =~= rules_view(before).push(r@));
                        current = None;
                    },
                    None => {},
                }
            } else {
                match current {
                    None => {},
                    Some(mut r) => {
                        match find_char(&l, '=') {
                            None => {},
                            Some(p) => {
                                let kpart = slice_chars(&l, 0, p);
                                let vpart = slice_chars(&l, p + 1, l.len());
                                assert(kpart@ =~= l@.take(p as int));
                                assert(vpart@ =~= l@.skip(p + 1));
                                let key = trim_chars(&kpart);
                                let value = trim_chars(&vpart);
                                r.set_key(&key, &value);
                            },
                        }
                        current = Some(r);
                    },
                }
            }
            k = k + 1;
        }
        set
    }
}

/// `0` or `1` for a flag.
pub open spec fn flag_text(b: bool) -> Seq<char> {
    if b { "1"@ } else { "0"@ }
}

/// Texts joined with `|`.
pub open spec fn join_bar(ws: Seq<Seq<char>>) -> Seq<char>
    decreases ws.len(),
{
    if ws.len() == 0 {
        Seq::empty()
    } else if ws.len() == 1 {
        ws[0]
    } else {
        join_bar(ws.drop_last()) + "|"@ + ws.last()
    }
}

/// The upper-case form of a lower-case hexadecimal digit.
pub open spec fn hex_upper(c: char) -> char {
    if 'a' <= c && c <= 'f' { ((c as int) - 32) as char } else { c }
}

/// The eight upper-case hexadecimal digits of `v` (`{:08X}`).
pub open spec fn hex8_upper(v: u32) -> Seq<char> {
    crate::add_id_to_strings::hex8(v).map_values(|c: char| hex_upper(c))
}

/// The lines of the first `n` keywords: `\t<label><i>=<type>|<name>|<id>`.
pub open spec fn keyword_lines(label: Seq<char>, ks: Seq<KeywordV>, n: int) -> Seq<char>
    decreases n,
{
    if n <= 0 || n > ks.len() {
        Seq::empty()
    } else {
        keyword_lines(label, ks, n - 1) + "\t"@ + label + crate::text::decimal((n - 1) as nat) + "="@
            + ks[n - 1].kw_type + "|"@ + ks[n - 1].name + "|"@ + hex8_upper(ks[n - 1].form_id) + "\n"@
    }
}

/// The head of a rule's text: the opening line, header, signatures and
/// `enabled` (-1 or 0).
pub open spec fn ini_head(r: RuleHV) -> Seq<char> {
    "[StartRule]\n"@
        + (if r.header.len() > 0 { "\tHeader="@ + r.header + "\n"@ } else { Seq::empty() })
        + "\trSig="@ + r.r_sig + "\n\tfSig="@ + r.f_sig + "\n\tenabled="@
        + (if r.enabled { "-1"@ } else { "0"@ }) + "\n"@
}

/// The editor-id lines of a rule's text.
pub open spec fn ini_edids(r: RuleHV) -> Seq<char> {
    (if r.in_edid.len() > 0 { "\tinEdid="@ + join_bar(r.in_edid) + "\n"@ } else { Seq::empty() })
        + (if r.ex_edid.len() > 0 { "\texEdid="@ + join_bar(r.ex_edid) + "\n"@ } else { Seq::empty() })
}

/// The keyword-flag lines of a rule's text.
pub open spec fn ini_flags(r: RuleHV) -> Seq<char> {
    "\tnoKW="@ + flag_text(r.no_kw) + "\n\tanyKW="@ + flag_text(r.any_kw) + "\n\thasCompo="@
        + flag_text(r.has_component) + "\n"@
}

/// The tail of a rule's text: the flags written only when on, the regex,
/// and the closing line.
pub open spec fn ini_tail(r: RuleHV) -> Seq<char> {
    (if r.pre_process { "\tpreProcess=1\n"@ } else { Seq::empty() })
        + (if r.full_replace { "\tfullReplace=1\n"@ } else { Seq::empty() })
        + (match r.regex { Some(re) => "\tRegEx="@ + re + "\n"@, None => Seq::empty() })
        + "[EndRule]\n\n"@
}

/// The text of one rule in a rule file. `includeOr`, `isFallback` and
/// `tagID` are not written.
pub open spec fn rule_ini(r: RuleHV) -> Seq<char> {
    ini_head(r) + ini_edids(r) + ini_flags(r)
        + keyword_lines("Include_"@, r.include_keywords, r.include_keywords.len() as int)
        + keyword_lines("Exclude_"@, r.exclude_keywords, r.exclude_keywords.len() as int)
        + ini_tail(r)
}

/// The text of the first `n` rules.
pub open spec fn rules_ini(rs: Seq<RuleHV>, n: int) -> Seq<char>
    decreases n,
{
    if n <= 0 || n > rs.len() { Seq::empty() } else { rules_ini(rs, n - 1) + rule_ini(rs[n - 1]) }
}

/// Appends the characters of a literal.
pub(crate) fn push_lit(out: &mut Vec<char>, lit: &str)
    ensures
        final(out)@ == old(out)@ + lit@,
{
    let c = chars_of(lit);
    extend_chars(out, &c);
}

/// Appends the characters of a string.
pub(crate) fn push_str(out: &mut Vec<char>, s: &String)
    ensures
        final(out)@ == old(out)@ + s@,
{
    let c = chars_of(s.as_str());
    extend_chars(out, &c);
}

/// Appends texts joined with `|`.
fn push_joined(out: &mut Vec<char>, ws: &Vec<String>)
    ensures
        final(out)@ == old(out)@ + join_bar(texts(ws@)),
{
    let mut i: usize = 0;
    while i < ws.len()
        invariant
            i <= ws@.len(),
            out@ == old(out)@ + join_bar(texts(ws@).take(i as int)),
        decreases ws@.len() - i,
    {
        let ghost before = out@;
        if i > 0 {
            push_lit(out, "|");
        }
        push_str(out, &ws[i]);
        proof {
            let t = texts(ws@).take(i + 1);
            assert(t.drop_last() =~= texts(ws@).take(i as int));
            assert(t.last() == ws@[i as int]@);
            if i == 0 {
                assert(t.len() == 1);
                assert(out@ =~= old(out)@ + join_bar(t));
            } else {
                assert(out@ =~= old(out)@ + join_bar(t));
            }
        }
        i = i + 1;
    }
    assert(texts(ws@).take(ws@.len() as int) =~= texts(ws@));
}

/// Appends `{:08X}` of `v`.
pub(crate) fn push_hex8_upper(out: &mut Vec<char>, v: u32)
    ensures
        final(out)@ == old(out)@ + hex8_upper(v),
{
    let lower = crate::add_id_to_strings::hex_lower_padded(v, 8);
    assert(crate::add_id_to_strings::hex_min(v, 8) == crate::add_id_to_strings::hex8(v));
    let mut i: usize = 0;
    while i < lower.len()
        invariant
            i <= lower@.len(),
            lower@ == crate::add_id_to_strings::hex8(v),
            out@ == old(out)@ + hex8_upper(v).take(i as int),
        decreases lower@.len() - i,
    {
        let c = lower[i];
        let u = if 'a' <= c && c <= 'f' { ((c as u32) - 32) as u8 as char } else { c };
        proof {
            if 'a' <= c && c <= 'f' {
                assert((((c as u32) - 32) as u8 as char) == (((c as int) - 32) as char));
            }
        }
        out.push(u);
        assert(hex8_upper(v).take(i + 1) =~= hex8_upper(v).take(i as int).push(hex_upper(c)));
        i = i + 1;
    }
    assert(hex8_upper(v).take(lower@.len() as int) =~= hex8_upper(v));
}

/// Appends the keyword lines (see [`keyword_lines`]).
fn push_keywords(out: &mut Vec<char>, label: &str, ks: &Vec<HeaderKeyword>)
    ensures
        final(out)@ == old(out)@ + keyword_lines(label@, keywords_view(ks@), ks@.len() as int),
{
    let mut i: usize = 0;
    while i < ks.len()
        invariant
            i <= ks@.len(),
            out@ == old(out)@ + keyword_lines(label@, keywords_view(ks@), i as int),
        decreases ks@.len() - i,
    {
        let ghost before = out@;
        let k = &ks[i];
        push_lit(out, "\t");
        push_lit(out, label);
        let n = crate::text::u64_decimal(i as u64);
        extend_chars(out, &n);
        push_lit(out, "=");
        push_str(out, &k.kw_type);
        push_lit(out, "|");
        push_str(out, &k.name);
        push_lit(out, "|");
        push_hex8_upper(out, k.form_id);
        push_lit(out, "\n");
        proof {
            assert(keywords_view(ks@)[i as int] == k@);
            assert(out@ =~= old(out)@ + keyword_lines(label@, keywords_view(ks@), i + 1));
        }
        i = i + 1;
    }
}

/// Appends the head of a rule's text (see [`ini_head`]).
fn push_head(out: &mut Vec<char>, r: &HeaderRule)
    ensures
        final(out)@ == old(out)@ + ini_head(r@),
{
    push_lit(out, "[StartRule]\n");
    if r.header.as_str().unicode_len() > 0 {
        push_lit(out, "\tHeader=");
        push_str(out, &r.header);
        push_lit(out, "\n");
    }
    push_lit(out, "\trSig=");
    push_str(out, &r.r_sig);
    push_lit(out, "\n\tfSig=");
    push_str(out, &r.f_sig);
    push_lit(out, "\n\tenabled=");
    if r.enabled {
        push_lit(out, "-1");
    } else {
        push_lit(out, "0");
    }
    push_lit(out, "\n");
    assert(out@ =~= old(out)@ + ini_head(r@));
}

/// Appends the editor-id lines of a rule (see [`ini_edids`]).
fn push_edids(out: &mut Vec<char>, r: &HeaderRule)
    ensures
        final(out)@ == old(out)@ + ini_edids(r@),
{
    if r.in_edid.len() > 0 {
        push_lit(out, "\tinEdid=");
        push_joined(out, &r.in_edid);
        push_lit(out, "\n");
    }
    if r.ex_edid.len() > 0 {
        push_lit(out, "\texEdid=");
        push_joined(out, &r.ex_edid);
        push_lit(out, "\n");
    }
    assert(out@ =~= old(out)@ + ini_edids(r@));
}

/// Appends the keyword-flag lines of a rule (see [`ini_flags`]).
fn push_flags(out: &mut Vec<char>, r: &HeaderRule)
    ensures
        final(out)@ == old(out)@ + ini_flags(r@),
{
    push_lit(out, "\tnoKW=");
    push_lit(out, if r.no_kw { "1" } else { "0" });
    push_lit(out, "\n\tanyKW=");
    push_lit(out, if r.any_kw { "1" } else { "0" });
    push_lit(out, "\n\thasCompo=");
    push_lit(out, if r.has_component { "1" } else { "0" });
    push_lit(out, "\n");
    assert(out@ =~= old(out)@ + ini_flags(r@));
}

/// Appends the tail of a rule's text (see [`ini_tail`]).
fn push_tail(out: &mut Vec<char>, r: &HeaderRule)
    ensures
        final(out)@ == old(out)@ + ini_tail(r@),
{
    if r.pre_process {
        push_lit(out, "\tpreProcess=1\n");
    }
    if r.full_replace {
        push_lit(out, "\tfullReplace=1\n");
    }
    match &r.regex {
        Some(re) => {
            push_lit(out, "\tRegEx=");
            push_str(out, re);
            push_lit(out, "\n");
        },
        None => {},
    }
    push_lit(out, "[EndRule]\n\n");
    assert(out@ =~= old(out)@ + ini_tail(r@));
}

/// Appends the text of one rule (see [`rule_ini`]).
#[verifier::rlimit(100)]
#[verifier::spinoff_prover]
fn push_rule(out: &mut Vec<char>, r: &HeaderRule)
    ensures
        final(out)@ == old(out)@ + rule_ini(r@),
{
    let ghost rv = r@;
    let ghost a = ini_head(rv);
    let ghost b = ini_edids(rv);
    let ghost c = ini_flags(rv);
    let ghost d = keyword_lines("Include_"@, rv.include_keywords, rv.include_keywords.len() as int);
    let ghost e = keyword_lines("Exclude_"@, rv.exclude_keywords, rv.exclude_keywords.len() as int);
    let ghost f = ini_tail(rv);
    let ghost o0 = out@;
    push_head(out, r);
    push_edids(out, r);
    push_flags(out, r);
    let ghost o3 = out@;
    assert(o3 =~= o0 + (a + b + c));
    push_keywords(out, "Include_", &r.include_keywords);
    push_keywords(out, "Exclude_", &r.exclude_keywords);
    push_tail(out, r);
    assert(out@ =~= o3 + (d + e + f));
    assert(a + b + c + d + e + f =~= (a + b + c) + (d + e + f));
    assert(out@ =~= old(out)@ + rule_ini(r@));
}

impl HeaderRuleSet {
    /// The rule file of the rules (see [`rule_ini`]).
    pub fn to_ini_text(&self) -> (r: String)
        ensures
            r@ == rules_ini(rules_view(self.rules@), self.rules@.len() as int),
    {
        let mut out: Vec<char> = Vec::new();
        let mut i: usize = 0;
        while i < self.rules.len()
            invariant
                i <= self.rules@.len(),
                out@ == rules_ini(rules_view(self.rules@), i as int),
            decreases self.rules@.len() - i,
        {
            push_rule(&mut out, &self.rules[i]);
            assert(rules_view(self.rules@)[i as int] == self.rules@[i as int]@);
            i = i + 1;
        }
        string_from_chars(out.as_slice())
    }
}

/// Options of the batch pre-processing, as key and value texts; each key
/// occurs once.
#[derive(Debug, Clone)]
pub struct PreProcessingOpts {
    pub options: Vec<(String, String)>,
}

/// The options as a map from key to value.
pub open spec fn opts_map(os: Seq<(String, String)>) -> Map<Seq<char>, Seq<char>>
    decreases os.len(),
{
    if os.len() == 0 {
        Map::empty()
    } else {
        opts_map(os.drop_last()).insert(os.last().0@, os.last().1@)
    }
}

/// Each key occurs once.
pub open spec fn keys_unique(os: Seq<(String, String)>) -> bool {
    forall|a: int, b: int| 0 <= a < b < os.len() ==> os[a].0@ != os[b].0@
}

/// The options after the `key=value` lines of `ls` from `k` on (blank
/// lines, comments, lines starting with a byte-order mark or `[` are
/// passed over; a later value replaces an earlier one).
pub open spec fn opts_from_lines(ls: Seq<Seq<char>>, k: int, m: Map<Seq<char>, Seq<char>>) -> Map<Seq<char>, Seq<char>>
    decreases ls.len() - k,
{
    if k < 0 || k >= ls.len() {
        m
    } else {
        let l = trim(ls[k]);
        let m2 = if l.len() == 0 || l[0] == '#' || l[0] == '\u{FEFF}' || l[0] == '[' {
            m
        } else {
            match first_index(l, '=') {
                Some(p) => m.insert(trim(l.take(p)), trim(l.skip(p + 1))),
                None => m,
            }
        };
        opts_from_lines(ls, k + 1, m2)
    }
}

impl PreProcessingOpts {
    /// No option.
    pub fn new() -> (r: Self)
        ensures
            r.options@.len() == 0,
    {
        PreProcessingOpts { options: Vec::new() }
    }

    /// The value of a key.
    pub fn get(&self, key: &str) -> (r: Option<&str>)
        requires
            keys_unique(self.options@),
        ensures
            match r {
                Some(v) => opts_map(self.options@).contains_key(key@) && v@ == opts_map(self.options@)[key@],
                None => !opts_map(self.options@).contains_key(key@),
            },
    {
        let k = chars_of(key);
        let mut i: usize = 0;
        while i < self.options.len()
            invariant
                i <= self.options@.len(),
                k@ == key@,
                keys_unique(self.options@),
                forall|j: int| 0 <= j < i ==> self.options@[j].0@ != key@,
            decreases self.options@.len() - i,
        {
            if chars_eq(&chars_of(self.options[i].0.as_str()), &k) {
                proof {
                    lemma_opts_lookup(self.options@, i as int);
                }
                return Some(self.options[i].1.as_str());
            }
            i = i + 1;
        }
        proof {
            lemma_opts_absent(self.options@, key@);
        }
        None
    }

    /// Sets a key to a value (replacing its old value).
    pub fn set(&mut self, key: &str, value: &str)
        requires
            keys_unique(old(self).options@),
        ensures
            keys_unique(final(self).options@),
            opts_map(final(self).options@) == opts_map(old(self).options@).insert(key@, value@),
    {
        let k = chars_of(key);
        let mut i: usize = 0;
        while i < self.options.len()
            invariant
                i <= self.options@.len(),
                k@ == key@,
                self.options@ == old(self).options@,
                keys_unique(self.options@),
                forall|j: int| 0 <= j < i ==> self.options@[j].0@ != key@,
            decreases self.options@.len() - i,
        {
            if chars_eq(&chars_of(self.options[i].0.as_str()), &k) {
                let ghost before = self.options@;
                self.options.set(i, (key.to_string(), value.to_string()));
                proof {
                    lemma_opts_replace(before, i as int, self.options@[i as int]);
                }
                return;
            }
            i = i + 1;
        }
        let ghost before = self.options@;
        self.options.push((key.to_string(), value.to_string()));
        proof {
            lemma_opts_absent(before, key@);
            assert(self.options@.drop_last() =~= before);
        }
    }

    /// The options of an options file: `key=value` lines, others passed
    /// over (see [`opts_from_lines`]).
    pub fn from_ini_text(text: &str) -> (r: Self)
        ensures
            keys_unique(r.options@),
            opts_map(r.options@) == opts_from_lines(lines(text@), 0, Map::empty()),
    {
        let ls = lines_of(text);
        let mut opts = PreProcessingOpts::new();
        let mut k: usize = 0;
        while k < ls.len()
            invariant
                k <= ls@.len(),
                ls@.len() == lines(text@).len(),
                forall|j: int| 0 <= j < ls@.len() ==> #[trigger] ls@[j]@ == lines(text@)[j],
                keys_unique(opts.options@),
                opts_from_lines(lines(text@), k as int, opts_map(opts.options@))
                    == opts_from_lines(lines(text@), 0, Map::empty()),
            decreases ls@.len() - k,
        {
            let l = trim_chars(&ls[k]);
            if l.len() == 0 || l[0] == '#' || l[0] == '\u{FEFF}' || l[0] == '[' {
            } else {
                match find_char(&l, '=') {
                    Some(p) => {
                        let kpart = slice_chars(&l, 0, p);
                        let vpart = slice_chars(&l, p + 1, l.len());
                        assert(kpart@ =~= l@.take(p as int));
                        assert(vpart@ =~= l@.skip(p + 1));
                        let key = string_from_chars(trim_chars(&kpart).as_slice());
                        let value = string_from_chars(trim_chars(&vpart).as_slice());
                        opts.set(key.as_str(), value.as_str());
                    },
                    None => {},
                }
            }
            k = k + 1;
        }
        opts
    }

    /// The options file: a `[PreProcessingOpts]` line, then `key=value`
    /// lines in the order the keys were first set.
    pub fn to_ini_text(&self) -> (r: String)
        ensures
            r@ == "[PreProcessingOpts]\n"@ + opts_lines(self.options@, self.options@.len() as int),
    {
        let mut out: Vec<char> = chars_of("[PreProcessingOpts]\n");
        let ghost head = out@;
        let mut i: usize = 0;
        while i < self.options.len()
            invariant
                i <= self.options@.len(),
                head == "[PreProcessingOpts]\n"@,
                out@ == head + opts_lines(self.options@, i as int),
            decreases self.options@.len() - i,
        {
            push_str(&mut out, &self.options[i].0);
            push_lit(&mut out, "=");
            push_str(&mut out, &self.options[i].1);
            push_lit(&mut out, "\n");
            assert(out@ =~= head + opts_lines(self.options@, i + 1));
            i = i + 1;
        }
        string_from_chars(out.as_slice())
    }
}

/// The `key=value` lines of the first `n` options.
pub open spec fn opts_lines(os: Seq<(String, String)>, n: int) -> Seq<char>
    decreases n,
{
    if n <= 0 || n > os.len() {
        Seq::empty()
    } else {
        opts_lines(os, n - 1) + os[n - 1].0@ + "="@ + os[n - 1].1@ + "\n"@
    }
}

proof fn lemma_opts_lookup(os: Seq<(String, String)>, i: int)
    requires
        keys_unique(os),
        0 <= i < os.len(),
    ensures
        opts_map(os).contains_key(os[i].0@),
        opts_map(os)[os[i].0@] == os[i].1@,
    decreases os.len(),
{
    if i < os.len() - 1 {
        lemma_opts_lookup(os.drop_last(), i);
    }
}

proof fn lemma_opts_absent(os: Seq<(String, String)>, key: Seq<char>)
    requires
        forall|j: int| 0 <= j < os.len() ==> os[j].0@ != key,
    ensures
        !opts_map(os).contains_key(key),
    decreases os.len(),
{
    if os.len() > 0 {
        lemma_opts_absent(os.drop_last(), key);
    }
}

proof fn lemma_opts_replace(os: Seq<(String, String)>, i: int, kv: (String, String))
    requires
        keys_unique(os),
        0 <= i < os.len(),
        kv.0@ == os[i].0@,
    ensures
        keys_unique(os.update(i, kv)),
        opts_map(os.update(i, kv)) == opts_map(os).insert(kv.0@, kv.1@),
    decreases os.len(),
{
    let u = os.update(i, kv);
    if i == os.len() - 1 {
        assert(u.drop_last() =~= os.drop_last());
        assert(opts_map(u) =~= opts_map(os).insert(kv.0@, kv.1@));
    } else {
        lemma_opts_replace(os.drop_last(), i, kv);
        assert(u.drop_last() =~= os.drop_last().update(i, kv));
        assert(opts_map(u) =~= opts_map(os).insert(kv.0@, kv.1@));
    }
}

/// The line an option is written as: its key, `=` and its value.
pub open spec fn opt_line(kv: (String, String)) -> Seq<char> {
    kv.0@ + "="@ + kv.1@
}

/// Whether an option is read back as written: key and value are trimmed,
/// neither holds a line feed, the key holds no `=`, and the key does not
/// start as a comment, a section or a byte-order mark.
pub open spec fn plain_option(kv: (String, String)) -> bool {
    let k = kv.0@;
    let v = kv.1@;
    &&& crate::text::trim(k) == k
    &&& crate::text::trim(v) == v
    &&& forall|i: int| 0 <= i < k.len() ==> k[i] != '\n' && k[i] != '='
    &&& forall|i: int| 0 <= i < v.len() ==> v[i] != '\n'
    &&& (k.len() > 0 ==> k[0] != '#' && k[0] != '[' && k[0] != '\u{FEFF}')
}

proof fn lemma_opt_line(kv: (String, String))
    requires
        plain_option(kv),
    ensures
        crate::text::trim(opt_line(kv)) == opt_line(kv),
        crate::text::strip_cr(opt_line(kv)) == opt_line(kv),
        crate::text::first_index(opt_line(kv), '=') == Some(kv.0@.len() as int),
        opt_line(kv).take(kv.0@.len() as int) == kv.0@,
        opt_line(kv).skip(kv.0@.len() as int + 1) == kv.1@,
        opt_line(kv).len() > 0,
        opt_line(kv)[0] != '#' && opt_line(kv)[0] != '[' && opt_line(kv)[0] != '\u{FEFF}',
        forall|i: int| 0 <= i < opt_line(kv).len() ==> opt_line(kv)[i] != '\n',
{
    reveal_strlit("=");
    let k = kv.0@;
    let v = kv.1@;
    let l = opt_line(kv);
    let n = k.len() as int;
    assert(l =~= k + seq!['='] + v);
    if k.len() > 0 {
        crate::text::lemma_trimmed_ends(k);
        assert(l[0] == k[0]);
    }
    if v.len() > 0 {
        crate::text::lemma_trimmed_ends(v);
        assert(l.last() == v.last());
    }
    crate::text::lemma_trim_ends(l);
    assert(l.take(n) =~= k);
    assert(l.skip(n + 1) =~= v);
    assert(l[n] == '=');
    crate::text::lemma_first_index(l, '=', n);
    assert forall|i: int| 0 <= i < l.len() implies l[i] != '\n' by {
        if i < n {
            assert(l[i] == k[i]);
        } else if i > n {
            assert(l[i] == v[i - n - 1]);
        }
    }
}

#[verifier::rlimit(60)]
#[verifier::spinoff_prover]
proof fn lemma_opts_text_split(os: Seq<(String, String)>, n: int)
    requires
        0 <= n <= os.len(),
        forall|i: int| 0 <= i < os.len() ==> plain_option(#[trigger] os[i]),
    ensures
        crate::text::split_seq("[PreProcessingOpts]\n"@ + opts_lines(os, n), '\n')
            == seq!["[PreProcessingOpts]"@] + Seq::new(n as nat, |i: int| opt_line(os[i])) + seq![Seq::<char>::empty()],
    decreases n,
{
    reveal_strlit("[PreProcessingOpts]\n");
    reveal_strlit("[PreProcessingOpts]");
    reveal_strlit("\n");
    reveal_strlit("=");
    let head = "[PreProcessingOpts]"@;
    if n == 0 {
        assert("[PreProcessingOpts]\n"@ + opts_lines(os, 0) =~= head.push('\n'));
        crate::text::lemma_split_append_plain(Seq::<char>::empty(), head, '\n');
        assert(Seq::<char>::empty() + head =~= head);
        crate::text::lemma_split_append_sep(head, '\n');
        assert(seq![head] + Seq::new(0, |i: int| opt_line(os[i])) + seq![Seq::<char>::empty()] =~= seq![head, Seq::<char>::empty()]);
    } else {
        lemma_opts_text_split(os, n - 1);
        lemma_opt_line(os[n - 1]);
        let prev = "[PreProcessingOpts]\n"@ + opts_lines(os, n - 1);
        let l = opt_line(os[n - 1]);
        assert("[PreProcessingOpts]\n"@ + opts_lines(os, n) =~= (prev + l).push('\n'));
        crate::text::lemma_split_append_plain(prev, l, '\n');
        crate::text::lemma_split_append_sep(prev + l, '\n');
        let p = crate::text::split_seq(prev, '\n');
        assert(p.last() + l =~= l);
        assert(p.drop_last().push(l).push(Seq::<char>::empty())
            =~= seq![head] + Seq::new(n as nat, |i: int| opt_line(os[i])) + seq![Seq::<char>::empty()]);
    }
}

proof fn lemma_opts_read(ls: Seq<Seq<char>>, os: Seq<(String, String)>, j: int)
    requires
        0 <= j <= os.len(),
        ls.len() == os.len() + 1,
        forall|i: int| 0 <= i < os.len() ==> plain_option(#[trigger] os[i]),
        forall|i: int| 0 <= i < os.len() ==> #[trigger] ls[i + 1] == opt_line(os[i]),
    ensures
        opts_from_lines(ls, j + 1, opts_map(os.take(j))) == opts_map(os),
    decreases os.len() - j,
{
    if j == os.len() {
        assert(os.take(j) =~= os);
    } else {
        lemma_opt_line(os[j]);
        assert(ls[j + 1] == opt_line(os[j]));
        assert(os.take(j + 1).drop_last() =~= os.take(j));
        lemma_opts_read(ls, os, j + 1);
    }
}

/// Options whose keys and values are trimmed, hold no line feed, whose
/// keys hold no `=` and do not start with `#`, `[` or a byte-order mark,
/// are read back from the options file they are written as (see
/// [`PreProcessingOpts::to_ini_text`] and [`PreProcessingOpts::from_ini_text`]).
pub proof fn law_opts_ini_roundtrip(os: Seq<(String, String)>)
    requires
        forall|i: int| 0 <= i < os.len() ==> plain_option(#[trigger] os[i]),
    ensures
        opts_from_lines(crate::text::lines("[PreProcessingOpts]\n"@ + opts_lines(os, os.len() as int)), 0, Map::empty())
            == opts_map(os),
{
    reveal_strlit("[PreProcessingOpts]");
    let n = os.len() as int;
    let text = "[PreProcessingOpts]\n"@ + opts_lines(os, n);
    lemma_opts_text_split(os, n);
    let p = crate::text::split_seq(text, '\n');
    let head = "[PreProcessingOpts]"@;
    let ls = crate::text::lines(text);
    assert(p.drop_last() =~= seq![head] + Seq::new(n as nat, |i: int| opt_line(os[i])));
    assert(ls =~= p.drop_last().map_values(|l: Seq<char>| crate::text::strip_cr(l)));
    assert(crate::text::strip_cr(head) == head);
    assert forall|i: int| 0 <= i < os.len() implies #[trigger] ls[i + 1] == opt_line(os[i]) by {
        lemma_opt_line(os[i]);
    }
    assert(ls[0] == head);
    assert(head[0] == '[');
    assert(crate::text::trim(head) == head) by {
        crate::text::lemma_trim_ends(head);
    }
    assert(os.take(0) =~= Seq::<(String, String)>::empty());
    lemma_opts_read(ls, os, 0);
}

/// A rule file's name and rule counts.
#[derive(Debug, Clone)]
pub struct TemplateInfo {
    pub name: String,
    pub rule_count: usize,
    pub enabled_count: usize,
}

/// How many of the first `n` rules are enabled.
pub open spec fn enabled_count(rs: Seq<RuleHV>, n: int) -> nat
    decreases n,
{
    if n <= 0 || n > rs.len() { 0 } else { enabled_count(rs, n - 1) + if rs[n - 1].enabled { 1nat } else { 0nat } }
}

/// The summary of a rule file: its name and how many rules it holds and
/// has enabled.
pub fn template_info(name: &str, text: &str) -> (r: TemplateInfo)
    ensures
        r.name@ == name@,
        r.rule_count == ini_rules(text@).len(),
        r.enabled_count == enabled_count(ini_rules(text@), ini_rules(text@).len() as int),
{
    let set = HeaderRuleSet::from_ini_text(text);
    let mut c: usize = 0;
    let mut i: usize = 0;
    while i < set.rules.len()
        invariant
            i <= set.rules@.len(),
            c == enabled_count(rules_view(set.rules@), i as int),
            c <= i,
        decreases set.rules@.len() - i,
    {
        assert(rules_view(set.rules@)[i as int] == set.rules@[i as int]@);
        if set.rules[i].enabled {
            c = c + 1;
        }
        i = i + 1;
    }
    TemplateInfo { name: name.to_string(), rule_count: set.rules.len(), enabled_count: c }
}

} // verus!
