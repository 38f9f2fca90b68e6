//! Turning a localized plugin into a delocalized one: the string ids that
//! record fields hold are replaced by the text of the matching strings, and
//! the inline texts are then numbered for export.
use vstd::prelude::*;
use std::collections::HashMap;
use crate::esp::record_tree::{EspFile, EspGrup, EspRecord, EspField, FieldView, fields_view};
use crate::types::{SkyString, SkyStringView};
use crate::normalization::normalize;
use crate::text::{chars_of, chars_eq, string_from_chars, utf8_text};

verus! {

/// The text a string puts into a field: its translation, or its source
/// while it has none.
pub open spec fn chosen_text(s: SkyStringView) -> Seq<char> {
    if s.translation.len() > 0 { s.translation } else { s.source }
}

/// The views of a list of strings.
pub open spec fn strings_view(ss: Seq<SkyString>) -> Seq<SkyStringView> {
    ss.map_values(|s: SkyString| s@)
}

/// The little-endian number of a 4-byte signature.
pub open spec fn sig_word(sig: Seq<u8>) -> int {
    sig[0] + sig[1] * 0x100 + sig[2] * 0x1_0000 + sig[3] * 0x100_0000
}

/// One 64-bit key for a 32-bit value and a signature: the value in the high
/// half, the signature's number in the low half.
pub open spec fn pair_key(v: u32, sig: Seq<u8>) -> u64 {
    (v * 0x1_0000_0000 + sig_word(sig)) as u64
}

proof fn lemma_pair_key_injective(v1: u32, s1: Seq<u8>, v2: u32, s2: Seq<u8>)
    requires
        s1.len() == 4,
        s2.len() == 4,
        pair_key(v1, s1) == pair_key(v2, s2),
    ensures
        v1 == v2,
        s1 == s2,
{
    let w1 = sig_word(s1);
    let w2 = sig_word(s2);
    assert(0 <= w1 < 0x1_0000_0000);
    assert(0 <= w2 < 0x1_0000_0000);
    assert(v1 * 0x1_0000_0000 + w1 == v2 * 0x1_0000_0000 + w2);
    assert(v1 == v2) by (nonlinear_arith)
        requires
            v1 * 0x1_0000_0000 + w1 == v2 * 0x1_0000_0000 + w2,
            0 <= w1 < 0x1_0000_0000,
            0 <= w2 < 0x1_0000_0000,
    ;
    let (a0, a1, a2, a3) = (s1[0] as int, s1[1] as int, s1[2] as int, s1[3] as int);
    let (b0, b1, b2, b3) = (s2[0] as int, s2[1] as int, s2[2] as int, s2[3] as int);
    assert(a0 == b0 && a1 == b1 && a2 == b2 && a3 == b3) by (nonlinear_arith)
        requires
            a0 + a1 * 0x100 + a2 * 0x1_0000 + a3 * 0x100_0000 == b0 + b1 * 0x100 + b2 * 0x1_0000 + b3 * 0x100_0000,
            0 <= a0 < 256, 0 <= a1 < 256, 0 <= a2 < 256, 0 <= a3 < 256,
            0 <= b0 < 256, 0 <= b1 < 256, 0 <= b2 < 256, 0 <= b3 < 256,
    ;
    assert(s1 =~= s2);
}

/// [`pair_key`] of a value and a signature.
pub fn pair_key_of(v: u32, sig: &[u8; 4]) -> (r: u64)
    ensures
        r == pair_key(v, sig@),
{
    let w: u64 = sig[0] as u64 + (sig[1] as u64) * 0x100 + (sig[2] as u64) * 0x1_0000 + (sig[3] as u64) * 0x100_0000;
    assert(w == sig_word(sig@));
    (v as u64) * 0x1_0000_0000 + w
}

/// The positions, among the first `n` strings, of those with form id `f`
/// and field signature `sig`, in order.
pub open spec fn key_positions(ss: Seq<SkyStringView>, f: u32, sig: Seq<u8>, n: int) -> Seq<usize>
    decreases n,
{
    if n <= 0 || n > ss.len() {
        Seq::empty()
    } else if ss[n - 1].esp_ptr.form_id == f && ss[n - 1].field_sig@ == sig {
        key_positions(ss, f, sig, n - 1).push((n - 1) as usize)
    } else {
        key_positions(ss, f, sig, n - 1)
    }
}

/// The positions, among the first `n` strings, whose form id and field
/// signature have [`pair_key`] `k`.
spec fn keyed_positions(ss: Seq<SkyStringView>, k: u64, n: int) -> Seq<usize>
    decreases n,
{
    if n <= 0 || n > ss.len() {
        Seq::empty()
    } else if pair_key(ss[n - 1].esp_ptr.form_id, ss[n - 1].field_sig@) == k {
        keyed_positions(ss, k, n - 1).push((n - 1) as usize)
    } else {
        keyed_positions(ss, k, n - 1)
    }
}

proof fn lemma_keyed_positions(ss: Seq<SkyStringView>, f: u32, sig: Seq<u8>, n: int)
    requires
        sig.len() == 4,
    ensures
        keyed_positions(ss, pair_key(f, sig), n) == key_positions(ss, f, sig, n),
    decreases n,
{
    if n > 0 && n <= ss.len() {
        lemma_keyed_positions(ss, f, sig, n - 1);
        let s = ss[n - 1];
        if pair_key(s.esp_ptr.form_id, s.field_sig@) == pair_key(f, sig) {
            lemma_pair_key_injective(s.esp_ptr.form_id, s.field_sig@, f, sig);
        }
    }
}

/// The string that strict matching picks for the `occ`-th field (counting
/// from 0) with signature `sig` of the record with form id `f`: the `occ`-th
/// string with that form id and field signature, in list order.
pub open spec fn strict_match(ss: Seq<SkyStringView>, f: u32, sig: Seq<u8>, occ: int) -> Option<int> {
    let p = key_positions(ss, f, sig, ss.len() as int);
    if 0 <= occ < p.len() { Some(p[occ] as int) } else { None }
}

/// No form id and field signature are shared by more than 65535 strings
/// (the occurrence numbers are 16-bit).
pub open spec fn keys_fit(ss: Seq<SkyStringView>) -> bool {
    forall|f: u32, sig: Seq<u8>| #[trigger] key_positions(ss, f, sig, ss.len() as int).len() <= 65535
}

/// The positions, among the first `n` strings, of those filed under the
/// normalised-text hash `h` and field signature `sig`, in order.
pub open spec fn norm_positions(ss: Seq<SkyStringView>, h: u32, sig: Seq<u8>, n: int) -> Seq<usize>
    decreases n,
{
    if n <= 0 || n > ss.len() {
        Seq::empty()
    } else if ss[n - 1].normalized_hash == Some(h) && ss[n - 1].field_sig@ == sig {
        norm_positions(ss, h, sig, n - 1).push((n - 1) as usize)
    } else {
        norm_positions(ss, h, sig, n - 1)
    }
}

spec fn norm_keyed_positions(ss: Seq<SkyStringView>, k: u64, n: int) -> Seq<usize>
    decreases n,
{
    if n <= 0 || n > ss.len() {
        Seq::empty()
    } else if ss[n - 1].normalized_hash is Some
        && pair_key(ss[n - 1].normalized_hash->0, ss[n - 1].field_sig@) == k {
        norm_keyed_positions(ss, k, n - 1).push((n - 1) as usize)
    } else {
        norm_keyed_positions(ss, k, n - 1)
    }
}

proof fn lemma_norm_keyed_positions(ss: Seq<SkyStringView>, h: u32, sig: Seq<u8>, n: int)
    requires
        sig.len() == 4,
    ensures
        norm_keyed_positions(ss, pair_key(h, sig), n) == norm_positions(ss, h, sig, n),
    decreases n,
{
    if n > 0 && n <= ss.len() {
        lemma_norm_keyed_positions(ss, h, sig, n - 1);
        let s = ss[n - 1];
        if s.normalized_hash is Some && pair_key(s.normalized_hash->0, s.field_sig@) == pair_key(h, sig) {
            lemma_pair_key_injective(s.normalized_hash->0, s.field_sig@, h, sig);
        }
    }
}

/// The normalised form of a text (what [`normalize`] computes).
pub open spec fn normalized(t: Seq<char>) -> Seq<char> {
    crate::text::join_spaced(crate::text::words(t))
}

/// The first of the positions `b`, from the `k`-th on, whose string has the
/// normalised source `norm`.
pub open spec fn first_with_source(ss: Seq<SkyStringView>, b: Seq<usize>, norm: Seq<char>, k: int) -> Option<int>
    decreases b.len() - k,
{
    if k < 0 || k >= b.len() {
        None
    } else if 0 <= b[k] < ss.len() && normalized(ss[b[k] as int].source) == norm {
        Some(b[k] as int)
    } else {
        first_with_source(ss, b, norm, k + 1)
    }
}

/// The string that relaxed matching picks for a field with signature `sig`
/// whose text normalises to `norm`: the first string filed under the hash of
/// `norm` and `sig` whose own source normalises to `norm`.
pub open spec fn relaxed_match(ss: Seq<SkyStringView>, norm: Seq<char>, sig: Seq<u8>) -> Option<int> {
    first_with_source(ss, norm_positions(ss, crate::types::str_hash(norm), sig, ss.len() as int), norm, 0)
}

/// Strict lookup of strings by form id, field signature and occurrence.
pub struct StringMap<'a> {
    pub strings: &'a [SkyString],
    pub buckets: HashMap<u64, Vec<usize>>,
}

impl<'a> StringMap<'a> {
    /// Each bucket holds, in order, the strings whose form id and field
    /// signature have that key.
    pub closed spec fn wf(&self) -> bool {
        forall|k: u64| #[trigger] crate::esp::compare::bucket(self.buckets@, k)
            == keyed_positions(strings_view(self.strings@), k, self.strings@.len() as int)
    }

    /// Whether strict matching finds a string for form id `key.0`, field
    /// signature `key.1` and occurrence `key.2`.
    pub fn contains_key(&self, key: &(u32, [u8; 4], u16)) -> (r: bool)
        requires
            self.wf(),
        ensures
            r == strict_match(strings_view(self.strings@), key.0, key.1@, key.2 as int) is Some,
    {
        self.get(key).is_some()
    }

    /// The position of the string that strict matching picks for form id
    /// `key.0`, field signature `key.1` and occurrence `key.2`.
    pub fn get(&self, key: &(u32, [u8; 4], u16)) -> (r: Option<usize>)
        requires
            self.wf(),
        ensures
            match r {
                Some(i) => strict_match(strings_view(self.strings@), key.0, key.1@, key.2 as int) == Some(i as int),
                None => strict_match(strings_view(self.strings@), key.0, key.1@, key.2 as int) is None,
            },
    {
        let k = pair_key_of(key.0, &key.1);
        let ghost ss = strings_view(self.strings@);
        proof {
            lemma_keyed_positions(ss, key.0, key.1@, ss.len() as int);
            assert(crate::esp::compare::bucket(self.buckets@, k) == key_positions(ss, key.0, key.1@, ss.len() as int));
        }
        match self.buckets.get(&k) {
            Some(v) => {
                let occ = key.2 as usize;
                if occ < v.len() {
                    Some(v[occ])
                } else {
                    None
                }
            },
            None => None,
        }
    }
}

/// Files every string under its form id and field signature, in list order.
pub fn build_string_map<'a>(strings: &'a [SkyString]) -> (r: StringMap<'a>)
    requires
        keys_fit(strings_view(strings@)),
    ensures
        r.wf(),
        r.strings@ == strings@,
{
    let mut m: HashMap<u64, Vec<usize>> = HashMap::new();
    let ghost ss = strings_view(strings@);
    let mut i: usize = 0;
    while i < strings.len()
        invariant
            i <= strings@.len(),
            ss == strings_view(strings@),
            forall|k: u64| #[trigger] crate::esp::compare::bucket(m@, k) == keyed_positions(ss, k, i as int),
        decreases strings@.len() - i,
    {
        let k = pair_key_of(strings[i].esp_ptr.form_id, &strings[i].field_sig);
        assert(ss[i as int] == strings@[i as int]@);
        let ghost orig = m@;
        let mut v: Vec<usize> = match m.remove(&k) {
            Some(v) => v,
            None => Vec::new(),
        };
        assert(v@ == crate::esp::compare::bucket(orig, k));
        v.push(i);
        m.insert(k, v);
        proof {
            assert(keyed_positions(ss, k, i + 1) == keyed_positions(ss, k, i as int).push(i));
            assert forall|g: u64| #[trigger] crate::esp::compare::bucket(m@, g) == keyed_positions(ss, g, i + 1) by {
                if g != k {
                    assert(crate::esp::compare::bucket(m@, g) == crate::esp::compare::bucket(orig, g));
                }
            }
        }
        i = i + 1;
    }
    StringMap { strings, buckets: m }
}

/// Relaxed lookup of strings by the hash of their normalised source and
/// their field signature.
pub struct NormalizedIndex<'a> {
    pub strings: &'a [SkyString],
    pub buckets: HashMap<u64, Vec<usize>>,
}

impl<'a> NormalizedIndex<'a> {
    /// Each bucket holds, in order, the strings filed under that key.
    pub closed spec fn wf(&self) -> bool {
        forall|k: u64| #[trigger] crate::esp::compare::bucket(self.buckets@, k)
            == norm_keyed_positions(strings_view(self.strings@), k, self.strings@.len() as int)
    }

    /// The string that relaxed matching picks for a field with signature
    /// `sig` whose text normalises to `norm` (see [`relaxed_match`]).
    pub fn find(&self, norm: &str, sig: &[u8; 4]) -> (r: Option<usize>)
        requires
            self.wf(),
        ensures
            match r {
                Some(i) => relaxed_match(strings_view(self.strings@), norm@, sig@) == Some(i as int),
                None => relaxed_match(strings_view(self.strings@), norm@, sig@) is None,
            },
    {
        let h = crate::types::string_hash(norm);
        let k = pair_key_of(h, sig);
        let ghost ss = strings_view(self.strings@);
        let ghost b = norm_positions(ss, h, sig@, ss.len() as int);
        proof {
            lemma_norm_keyed_positions(ss, h, sig@, ss.len() as int);
            lemma_norm_bounds(ss, h, sig@, ss.len() as int);
            assert(crate::esp::compare::bucket(self.buckets@, k) == b);
            assert(crate::types::str_hash(norm@) == h);
            assert(relaxed_match(ss, norm@, sig@) == first_with_source(ss, b, norm@, 0));
        }
        let want = chars_of(norm);
        match self.buckets.get(&k) {
            Some(v) => {
                assert(v@ == b);
                let mut t: usize = 0;
                while t < v.len()
                    invariant
                        t <= v@.len(),
                        v@ == b,
                        ss == strings_view(self.strings@),
                        want@ == norm@,
                        forall|q: int| 0 <= q < b.len() ==> #[trigger] b[q] < ss.len(),
                        first_with_source(ss, b, norm@, 0) == first_with_source(ss, b, norm@, t as int),
                        relaxed_match(ss, norm@, sig@) == first_with_source(ss, b, norm@, 0),
                    decreases v@.len() - t,
                {
                    let p = v[t];
                    assert(b[t as int] == p);
                    assert(ss[p as int] == self.strings@[p as int]@);
                    if source_normalizes_to(&self.strings[p], &want) {
                        assert(b[t as int] < ss.len());
                        assert(first_with_source(ss, b, norm@, t as int) == Some(p as int));
                        return Some(p);
                    }
                    t = t + 1;
                }
                None
            },
            None => {
                assert(b.len() == 0);
                None
            },
        }
    }
}

/// Whether the normalised source of `s` is `want`.
fn source_normalizes_to(s: &SkyString, want: &Vec<char>) -> (r: bool)
    ensures
        r == (normalized(s@.source) == want@),
{
    let src = normalize(s.source.as_str());
    let got = chars_of(src.as_str());
    chars_eq(&got, want)
}

proof fn lemma_norm_bounds(ss: Seq<SkyStringView>, h: u32, sig: Seq<u8>, n: int)
    ensures
        forall|t: int| 0 <= t < norm_positions(ss, h, sig, n).len() ==> #[trigger] norm_positions(ss, h, sig, n)[t] < n,
        n <= ss.len() ==> forall|t: int| 0 <= t < norm_positions(ss, h, sig, n).len() ==> #[trigger] norm_positions(ss, h, sig, n)[t] < ss.len(),
    decreases n,
{
    if n > 0 && n <= ss.len() {
        lemma_norm_bounds(ss, h, sig, n - 1);
        let w = norm_positions(ss, h, sig, n - 1);
        assert forall|t: int| 0 <= t < norm_positions(ss, h, sig, n).len() implies #[trigger] norm_positions(ss, h, sig, n)[t] < n by {
            if t < w.len() {
                assert(norm_positions(ss, h, sig, n)[t] == w[t]);
            }
        }
    }
}

/// Files every string that has a normalised-source hash under that hash
/// and its field signature, in list order.
pub fn build_normalized_index<'a>(strings: &'a [SkyString]) -> (r: NormalizedIndex<'a>)
    ensures
        r.wf(),
        r.strings@ == strings@,
{
    let mut m: HashMap<u64, Vec<usize>> = HashMap::new();
    let ghost ss = strings_view(strings@);
    let mut i: usize = 0;
    while i < strings.len()
        invariant
            i <= strings@.len(),
            ss == strings_view(strings@),
            forall|k: u64| #[trigger] crate::esp::compare::bucket(m@, k) == norm_keyed_positions(ss, k, i as int),
        decreases strings@.len() - i,
    {
        assert(ss[i as int] == strings@[i as int]@);
        match strings[i].normalized_hash {
            Some(h) => {
                let k = pair_key_of(h, &strings[i].field_sig);
                let ghost orig = m@;
                let mut v: Vec<usize> = match m.remove(&k) {
                    Some(v) => v,
                    None => Vec::new(),
                };
                assert(v@ == crate::esp::compare::bucket(orig, k));
                v.push(i);
                m.insert(k, v);
                proof {
                    assert(norm_keyed_positions(ss, k, i + 1) == norm_keyed_positions(ss, k, i as int).push(i));
                    assert forall|g: u64| #[trigger] crate::esp::compare::bucket(m@, g) == norm_keyed_positions(ss, g, i + 1) by {
                        if g != k {
                            assert(crate::esp::compare::bucket(m@, g) == crate::esp::compare::bucket(orig, g));
                        }
                    }
                }
            },
            None => {
                proof {
                    assert forall|g: u64| #[trigger] crate::esp::compare::bucket(m@, g) == norm_keyed_positions(ss, g, i + 1) by {
                        assert(norm_keyed_positions(ss, g, i + 1) == norm_keyed_positions(ss, g, i as int));
                    }
                }
            },
        }
        i = i + 1;
    }
    NormalizedIndex { strings, buckets: m }
}

/// How many of the first `k` fields are fields other than `XXXX` with
/// signature `name`.
pub open spec fn name_count(fs: Seq<FieldView>, name: Seq<u8>, k: int) -> nat
    decreases k,
{
    if k <= 0 || k > fs.len() {
        0
    } else {
        name_count(fs, name, k - 1) + if !fs[k - 1].is_xxxx && fs[k - 1].name == name { 1nat } else { 0nat }
    }
}

/// No signature is carried by more than 65535 of a record's fields (the
/// occurrence numbers are 16-bit).
pub open spec fn fields_fit(fs: Seq<FieldView>) -> bool {
    forall|name: Seq<u8>| #[trigger] name_count(fs, name, fs.len() as int) <= 65535
}

/// A text without its trailing NUL characters.
pub open spec fn trim_nuls(t: Seq<char>) -> Seq<char>
    decreases t.len(),
{
    if t.len() > 0 && t.last() == '\0' { trim_nuls(t.drop_last()) } else { t }
}

/// The inline text of a field's data: data of more than four bytes that is
/// valid UTF-8, decoded and without its trailing NULs, when that leaves any
/// text.
pub open spec fn inline_text(buf: Seq<u8>) -> Option<Seq<char>> {
    if buf.len() > 4 && vstd::utf8::valid_utf8(buf) && trim_nuls(vstd::utf8::decode_utf8(buf)).len() > 0 {
        Some(trim_nuls(vstd::utf8::decode_utf8(buf)))
    } else {
        None
    }
}

/// The relaxed pick for a field with signature `sig` and data `buf`: by the
/// normalised inline text, when there is one and it is not empty.
pub open spec fn relaxed_pick(ss: Seq<SkyStringView>, buf: Seq<u8>, sig: Seq<u8>) -> Option<int> {
    match inline_text(buf) {
        Some(t) => if normalized(t).len() > 0 { relaxed_match(ss, normalized(t), sig) } else { None },
        None => None,
    }
}

/// The string picked for field `k` of the record with form id `f`: none for
/// an `XXXX` field; else the strict match for its signature and its
/// occurrence number among the record's fields, or failing that the relaxed
/// match.
pub open spec fn field_pick(ss: Seq<SkyStringView>, f: u32, fs: Seq<FieldView>, k: int) -> Option<int> {
    let fd = fs[k];
    if fd.is_xxxx {
        None
    } else {
        match strict_match(ss, f, fd.name, name_count(fs, fd.name, k) as int) {
            Some(i) => Some(i),
            None => relaxed_pick(ss, fd.buffer, fd.name),
        }
    }
}

/// A field whose data is replaced by the UTF-8 bytes of `t`, its size set to
/// their number taken to 16 bits.
pub open spec fn with_text(fd: FieldView, t: Seq<char>) -> FieldView {
    let b = vstd::utf8::encode_utf8(t);
    FieldView { name: fd.name, dsize: b.len() as u16, buffer: b, is_xxxx: fd.is_xxxx }
}

/// Field `k` of the record with form id `f` after delocalization.
pub open spec fn field_after(ss: Seq<SkyStringView>, f: u32, fs: Seq<FieldView>, k: int) -> FieldView {
    match field_pick(ss, f, fs, k) {
        Some(i) => with_text(fs[k], chosen_text(ss[i])),
        None => fs[k],
    }
}

/// How many of the first `n` fields get a string.
pub open spec fn picked_count(ss: Seq<SkyStringView>, f: u32, fs: Seq<FieldView>, n: int) -> nat
    decreases n,
{
    if n <= 0 || n > fs.len() {
        0
    } else {
        picked_count(ss, f, fs, n - 1) + if field_pick(ss, f, fs, n - 1) is Some { 1nat } else { 0nat }
    }
}

/// `new` is `old` delocalized: a raw record is kept; otherwise every field
/// becomes [`field_after`] and nothing else changes.
pub open spec fn record_delocalized(new: EspRecord, old: EspRecord, ss: Seq<SkyStringView>) -> bool {
    if old.raw {
        new == old
    } else {
        let fs = fields_view(old.fields@);
        &&& new == (EspRecord { fields: new.fields, ..old })
        &&& fields_view(new.fields@) == Seq::new(fs.len(), |k: int| field_after(ss, old.form_id, fs, k))
    }
}

/// How many fields of a record get a string.
pub open spec fn record_count(r: EspRecord, ss: Seq<SkyStringView>) -> nat {
    if r.raw { 0 } else { picked_count(ss, r.form_id, fields_view(r.fields@), r.fields@.len() as int) }
}

/// A raw record, or one whose signatures fit their occurrence numbers.
pub open spec fn record_fits(r: EspRecord) -> bool {
    r.raw || fields_fit(fields_view(r.fields@))
}

proof fn lemma_name_count_mono(fs: Seq<FieldView>, name: Seq<u8>, a: int, b: int)
    requires
        0 <= a <= b <= fs.len(),
    ensures
        name_count(fs, name, a) <= name_count(fs, name, b),
    decreases b - a,
{
    if a < b {
        lemma_name_count_mono(fs, name, a, b - 1);
    }
}

proof fn lemma_picked_count_le(ss: Seq<SkyStringView>, f: u32, fs: Seq<FieldView>, n: int)
    requires
        0 <= n <= fs.len(),
    ensures
        picked_count(ss, f, fs, n) <= n,
    decreases n,
{
    if n > 0 {
        lemma_picked_count_le(ss, f, fs, n - 1);
    }
}

/// The occurrence number of every field: how many earlier fields other than
/// `XXXX` share its signature.
fn occurrence_numbers(fields: &Vec<EspField>) -> (r: Vec<usize>)
    ensures
        r@.len() == fields@.len(),
        forall|k: int| 0 <= k < fields@.len()
            ==> #[trigger] r@[k] == name_count(fields_view(fields@), fields@[k].header.name@, k),
{
    let ghost fs = fields_view(fields@);
    let mut out: Vec<usize> = Vec::new();
    let mut k: usize = 0;
    while k < fields.len()
        invariant
            k <= fields@.len(),
            fs == fields_view(fields@),
            out@.len() == k,
            forall|t: int| 0 <= t < k ==> #[trigger] out@[t] == name_count(fs, fields@[t].header.name@, t),
        decreases fields@.len() - k,
    {
        let mut c: usize = 0;
        let mut j: usize = 0;
        while j < k
            invariant
                j <= k < fields@.len(),
                fs == fields_view(fields@),
                c == name_count(fs, fields@[k as int].header.name@, j as int),
                c <= j,
            decreases k - j,
        {
            assert(fs[j as int] == fields@[j as int]@);
            if !fields[j].is_size_xxxx && crate::bytes::sig_eq(&fields[j].header.name, &fields[k].header.name) {
                c = c + 1;
            }
            j = j + 1;
        }
        out.push(c);
        k = k + 1;
    }
    out
}

/// A text without its trailing NULs (see [`trim_nuls`]).
fn trim_nul_chars(s: &str) -> (r: String)
    ensures
        r@ == trim_nuls(s@),
{
    let v = chars_of(s);
    let mut e: usize = v.len();
    assert(v@.take(e as int) =~= v@);
    while e > 0 && v[e - 1] == '\0'
        invariant
            e <= v@.len(),
            trim_nuls(v@.take(e as int)) == trim_nuls(v@),
        decreases e,
    {
        assert(v@.take(e as int).drop_last() =~= v@.take(e - 1));
        e = e - 1;
    }
    assert(v@.take(e as int) == trim_nuls(v@.take(e as int)));
    string_from_chars(vstd::slice::slice_subrange(v.as_slice(), 0, e))
}

/// The relaxed pick for a field (see [`relaxed_pick`]).
fn relaxed_pick_of(buf: &Vec<u8>, sig: &[u8; 4], nidx: &NormalizedIndex) -> (r: Option<usize>)
    requires
        nidx.wf(),
    ensures
        match r {
            Some(i) => relaxed_pick(strings_view(nidx.strings@), buf@, sig@) == Some(i as int),
            None => relaxed_pick(strings_view(nidx.strings@), buf@, sig@) is None,
        },
{
    match inline_text_of(buf) {
        Some(t) => {
            let norm = normalize(t.as_str());
            if norm.as_str().unicode_len() == 0 {
                return None;
            }
            nidx.find(norm.as_str(), sig)
        },
        None => None,
    }
}

/// The text a string puts into a field (see [`chosen_text`]).
fn chosen_of(s: &SkyString) -> (r: &String)
    ensures
        r@ == chosen_text(s@),
{
    if s.translation.as_str().unicode_len() > 0 { &s.translation } else { &s.source }
}

proof fn lemma_key_positions_bounds(ss: Seq<SkyStringView>, f: u32, sig: Seq<u8>, n: int)
    ensures
        n <= ss.len() ==> forall|t: int| 0 <= t < key_positions(ss, f, sig, n).len()
            ==> #[trigger] key_positions(ss, f, sig, n)[t] < ss.len(),
    decreases n,
{
    if n > 0 && n <= ss.len() {
        lemma_key_positions_bounds(ss, f, sig, n - 1);
        let w = key_positions(ss, f, sig, n - 1);
        assert forall|t: int| 0 <= t < key_positions(ss, f, sig, n).len() implies #[trigger] key_positions(ss, f, sig, n)[t] < ss.len() by {
            if t < w.len() {
                assert(key_positions(ss, f, sig, n)[t] == w[t]);
            }
        }
    }
}

proof fn lemma_first_in_range(ss: Seq<SkyStringView>, b: Seq<usize>, norm: Seq<char>, k: int)
    ensures
        first_with_source(ss, b, norm, k) matches Some(i) ==> 0 <= i < ss.len(),
    decreases b.len() - k,
{
    if 0 <= k < b.len() {
        lemma_first_in_range(ss, b, norm, k + 1);
    }
}

proof fn lemma_pick_in_range(ss: Seq<SkyStringView>, f: u32, fs: Seq<FieldView>, k: int)
    requires
        0 <= k < fs.len(),
    ensures
        field_pick(ss, f, fs, k) matches Some(i) ==> 0 <= i < ss.len(),
{
    let fd = fs[k];
    lemma_key_positions_bounds(ss, f, fd.name, ss.len() as int);
    match inline_text(fd.buffer) {
        Some(t) => {
            let norm = normalized(t);
            lemma_first_in_range(ss, norm_positions(ss, crate::types::str_hash(norm), fd.name, ss.len() as int), norm, 0);
        },
        None => {},
    }
}

/// Delocalizes one record: each field other than `XXXX` that strict or
/// relaxed matching pairs with a string gets that string's text (see
/// [`record_delocalized`]). Returns how many fields did.
pub fn delocalize_record(record: &mut EspRecord, string_map: &StringMap, normalized_index: &NormalizedIndex) -> (r: usize)
    requires
        string_map.wf(),
        normalized_index.wf(),
        string_map.strings@ == normalized_index.strings@,
        record_fits(*old(record)),
    ensures
        record_delocalized(*final(record), *old(record), strings_view(string_map.strings@)),
        r == record_count(*old(record), strings_view(string_map.strings@)),
{
    if record.raw {
        return 0;
    }
    let ghost ss = strings_view(string_map.strings@);
    let ghost old_rec = *record;
    let ghost fs = fields_view(old_rec.fields@);
    let occs = occurrence_numbers(&record.fields);
    let n = record.fields.len();
    let mut count: usize = 0;
    let mut k: usize = 0;
    while k < n
        invariant
            k <= n,
            n == fs.len(),
            ss == strings_view(string_map.strings@),
            string_map.wf(),
            normalized_index.wf(),
            string_map.strings@ == normalized_index.strings@,
            !old_rec.raw,
            fields_fit(fs),
            fs == fields_view(old_rec.fields@),
            occs@.len() == n,
            forall|t: int| 0 <= t < n ==> #[trigger] occs@[t] == name_count(fs, fs[t].name, t),
            *record == (EspRecord { fields: record.fields, ..old_rec }),
            record.fields@.len() == n,
            forall|t: int| 0 <= t < k ==> #[trigger] record.fields@[t]@ == field_after(ss, old_rec.form_id, fs, t),
            forall|t: int| k <= t < n ==> #[trigger] record.fields@[t] == old_rec.fields@[t],
            count == picked_count(ss, old_rec.form_id, fs, k as int),
            count <= k,
        decreases n - k,
    {
        assert(fs[k as int] == old_rec.fields@[k as int]@);
        let ghost fd = fs[k as int];
        if record.fields[k].is_size_xxxx {
            assert(field_after(ss, old_rec.form_id, fs, k as int) == fd);
        } else {
            proof {
                lemma_name_count_mono(fs, fd.name, k + 1, n as int);
                assert(name_count(fs, fd.name, k + 1) == name_count(fs, fd.name, k as int) + 1);
                assert(name_count(fs, fd.name, n as int) <= 65535);
            }
            let occ = occs[k] as u16;
            let key = (record.form_id, record.fields[k].header.name, occ);
            let pick: Option<usize> = match string_map.get(&key) {
                Some(i) => Some(i),
                None => relaxed_pick_of(&record.fields[k].buffer, &record.fields[k].header.name, normalized_index),
            };
            assert(pick matches Some(i) ==> field_pick(ss, old_rec.form_id, fs, k as int) == Some(i as int));
            assert(pick is None ==> field_pick(ss, old_rec.form_id, fs, k as int) is None);
            match pick {
                Some(i) => {
                    proof {
                        lemma_pick_in_range(ss, old_rec.form_id, fs, k as int);
                    }
                    assert(string_map.strings@[i as int]@ == ss[i as int]);
                    let text = chosen_of(&string_map.strings[i]);
                    let bytes = vstd::slice::slice_to_vec(text.as_str().as_bytes());
                    let size = bytes.len() as u16;
                    record.fields[k].header.dsize = size;
                    record.fields[k].buffer = bytes;
                    assert(record.fields@[k as int]@ == with_text(fd, chosen_text(ss[i as int])));
                    count = count + 1;
                },
                None => {},
            }
        }
        k = k + 1;
    }
    proof {
        assert(fields_view(record.fields@) =~= Seq::new(fs.len(), |t: int| field_after(ss, old_rec.form_id, fs, t)));
    }
    count
}

/// `new` is `old` with every record, at every depth, delocalized.
pub open spec fn grup_delocalized(new: EspGrup, old: EspGrup, ss: Seq<SkyStringView>) -> bool
    decreases old,
{
    &&& new.header == old.header
    &&& new.grup_header == old.grup_header
    &&& new.records@.len() == old.records@.len()
    &&& forall|i: int| 0 <= i < old.records@.len() ==> record_delocalized(#[trigger] new.records[i], old.records[i], ss)
    &&& new.children@.len() == old.children@.len()
    &&& forall|i: int| 0 <= i < old.children@.len() ==> grup_delocalized(#[trigger] new.children[i], old.children[i], ss)
}

/// How many fields of the first `n` records get a string.
pub open spec fn records_count(rs: Seq<EspRecord>, ss: Seq<SkyStringView>, n: int) -> nat
    decreases n,
{
    if n <= 0 || n > rs.len() { 0 } else { records_count(rs, ss, n - 1) + record_count(rs[n - 1], ss) }
}

/// How many fields of a group, at every depth, get a string.
pub open spec fn grup_count(g: EspGrup, ss: Seq<SkyStringView>) -> nat
    decreases g, 1int, 0int,
{
    records_count(g.records@, ss, g.records@.len() as int) + children_count(g, ss, g.children@.len() as int)
}

/// How many fields of the first `n` nested groups of `g` get a string.
pub open spec fn children_count(g: EspGrup, ss: Seq<SkyStringView>, n: int) -> nat
    decreases g, 0int, n,
{
    if n <= 0 || n > g.children@.len() { 0 } else { children_count(g, ss, n - 1) + grup_count(g.children[n - 1], ss) }
}

/// Every record of a group, at every depth, fits its occurrence numbers.
pub open spec fn grup_fits(g: EspGrup) -> bool
    decreases g,
{
    &&& forall|i: int| 0 <= i < g.records@.len() ==> record_fits(#[trigger] g.records[i])
    &&& forall|i: int| 0 <= i < g.children@.len() ==> grup_fits(#[trigger] g.children[i])
}

proof fn lemma_records_count_mono(rs: Seq<EspRecord>, ss: Seq<SkyStringView>, a: int, b: int)
    requires
        0 <= a <= b <= rs.len(),
    ensures
        records_count(rs, ss, a) <= records_count(rs, ss, b),
    decreases b - a,
{
    if a < b {
        lemma_records_count_mono(rs, ss, a, b - 1);
    }
}

proof fn lemma_children_count_mono(g: EspGrup, ss: Seq<SkyStringView>, a: int, b: int)
    requires
        0 <= a <= b <= g.children@.len(),
    ensures
        children_count(g, ss, a) <= children_count(g, ss, b),
    decreases b - a,
{
    if a < b {
        lemma_children_count_mono(g, ss, a, b - 1);
    }
}

/// Delocalizes every record of a group and of its nested groups (see
/// [`grup_delocalized`]). Returns how many fields got a string.
pub fn delocalize_grup(grup: &mut EspGrup, string_map: &StringMap, normalized_index: &NormalizedIndex) -> (r: usize)
    requires
        string_map.wf(),
        normalized_index.wf(),
        string_map.strings@ == normalized_index.strings@,
        grup_fits(*old(grup)),
        grup_count(*old(grup), strings_view(string_map.strings@)) <= usize::MAX,
    ensures
        grup_delocalized(*final(grup), *old(grup), strings_view(string_map.strings@)),
        r == grup_count(*old(grup), strings_view(string_map.strings@)),
    decreases *old(grup),
{
    let ghost ss = strings_view(string_map.strings@);
    let ghost old_g = *grup;
    let mut count: usize = 0;
    let nr = grup.records.len();
    let mut i: usize = 0;
    while i < nr
        invariant
            i <= nr,
            nr == old_g.records@.len(),
            ss == strings_view(string_map.strings@),
            string_map.wf(),
            normalized_index.wf(),
            string_map.strings@ == normalized_index.strings@,
            grup_fits(old_g),
            grup_count(old_g, ss) <= usize::MAX,
            grup.records@.len() == nr,
            grup.header == old_g.header,
            grup.grup_header == old_g.grup_header,
            grup.children == old_g.children,
            forall|t: int| 0 <= t < i ==> record_delocalized(#[trigger] grup.records[t], old_g.records[t], ss),
            forall|t: int| i <= t < nr ==> #[trigger] grup.records[t] == old_g.records[t],
            count == records_count(old_g.records@, ss, i as int),
        decreases nr - i,
    {
        proof {
            lemma_records_count_mono(old_g.records@, ss, i + 1, nr as int);
            assert(record_fits(old_g.records[i as int]));
        }
        let c = delocalize_record(&mut grup.records[i], string_map, normalized_index);
        count = count + c;
        i = i + 1;
    }
    let n = grup.children.len();
    let mut j: usize = 0;
    while j < n
        invariant
            j <= n,
            n == old_g.children@.len(),
            old_g == *old(grup),
            ss == strings_view(string_map.strings@),
            string_map.wf(),
            normalized_index.wf(),
            string_map.strings@ == normalized_index.strings@,
            grup_fits(old_g),
            grup_count(old_g, ss) <= usize::MAX,
            grup.children@.len() == n,
            grup.header == old_g.header,
            grup.grup_header == old_g.grup_header,
            grup.records@.len() == nr,
            nr == old_g.records@.len(),
            forall|t: int| 0 <= t < nr ==> record_delocalized(#[trigger] grup.records[t], old_g.records[t], ss),
            forall|t: int| 0 <= t < j ==> grup_delocalized(#[trigger] grup.children[t], old_g.children[t], ss),
            forall|t: int| j <= t < n ==> #[trigger] grup.children[t] == old_g.children[t],
            count == records_count(old_g.records@, ss, nr as int) + children_count(old_g, ss, j as int),
        decreases n - j,
    {
        proof {
            assert(decreases_to!(old_g => old_g.children));
            assert(decreases_to!(old_g.children => old_g.children[j as int]));
            assert(grup.children[j as int] == old_g.children[j as int]);
            lemma_children_count_mono(old_g, ss, j + 1, n as int);
            assert(grup_fits(old_g.children[j as int]));
        }
        let c = delocalize_grup(&mut grup.children[j], string_map, normalized_index);
        count = count + c;
        j = j + 1;
    }
    count
}

/// The inline texts (see [`inline_text`]) of the first `n` fields other
/// than `XXXX`, in order.
pub open spec fn field_texts(fs: Seq<FieldView>, n: int) -> Seq<Seq<char>>
    decreases n,
{
    if n <= 0 || n > fs.len() {
        Seq::empty()
    } else if !fs[n - 1].is_xxxx && inline_text(fs[n - 1].buffer) is Some {
        field_texts(fs, n - 1).push(inline_text(fs[n - 1].buffer)->0)
    } else {
        field_texts(fs, n - 1)
    }
}

/// The inline texts of a record: none for a raw record.
pub open spec fn record_texts(r: EspRecord) -> Seq<Seq<char>> {
    if r.raw { Seq::empty() } else { field_texts(fields_view(r.fields@), r.fields@.len() as int) }
}

/// The inline texts of the first `n` records, in order.
pub open spec fn records_texts(rs: Seq<EspRecord>, n: int) -> Seq<Seq<char>>
    decreases n,
{
    if n <= 0 || n > rs.len() { Seq::empty() } else { records_texts(rs, n - 1) + record_texts(rs[n - 1]) }
}

/// The inline texts of a group: its records', then its nested groups', in
/// order.
pub open spec fn grup_texts(g: EspGrup) -> Seq<Seq<char>>
    decreases g, 1int, 0int,
{
    records_texts(g.records@, g.records@.len() as int) + children_texts(g, g.children@.len() as int)
}

/// The inline texts of the first `n` nested groups of `g`, in order.
pub open spec fn children_texts(g: EspGrup, n: int) -> Seq<Seq<char>>
    decreases g, 0int, n,
{
    if n <= 0 || n > g.children@.len() { Seq::empty() } else { children_texts(g, n - 1) + grup_texts(g.children[n - 1]) }
}

/// The inline texts of the first `n` groups of a list, in order.
pub open spec fn grups_texts(gs: Seq<EspGrup>, n: int) -> Seq<Seq<char>>
    decreases n,
{
    if n <= 0 || n > gs.len() { Seq::empty() } else { grups_texts(gs, n - 1) + grup_texts(gs[n - 1]) }
}

/// `v` holds the texts `ts` in order, numbered from `start`, all for the
/// `.STRINGS` list (0).
pub open spec fn numbered(v: Seq<(u32, String, u8)>, ts: Seq<Seq<char>>, start: int) -> bool {
    &&& v.len() == ts.len()
    &&& forall|j: int| 0 <= j < ts.len() ==> (#[trigger] v[j]).0 == start + j && v[j].1@ == ts[j] && v[j].2 == 0
}

/// The inline text of a field's data (see [`inline_text`]).
fn inline_text_of(buf: &Vec<u8>) -> (r: Option<String>)
    ensures
        match r {
            Some(t) => inline_text(buf@) == Some(t@),
            None => inline_text(buf@) is None,
        },
{
    if buf.len() <= 4 {
        return None;
    }
    match utf8_text(buf.as_slice()) {
        Some(raw) => {
            let t = trim_nul_chars(raw.as_str());
            if t.as_str().unicode_len() == 0 { None } else { Some(t) }
        },
        None => None,
    }
}

proof fn lemma_numbered_push(v: Seq<(u32, String, u8)>, ts: Seq<Seq<char>>, start: int, e: (u32, String, u8), t: Seq<char>)
    requires
        numbered(v, ts, start),
        e.0 == start + ts.len(),
        e.1@ == t,
        e.2 == 0,
    ensures
        numbered(v.push(e), ts.push(t), start),
{
    assert forall|j: int| 0 <= j < ts.push(t).len() implies (#[trigger] v.push(e)[j]).0 == start + j
        && v.push(e)[j].1@ == ts.push(t)[j] && v.push(e)[j].2 == 0 by {
        if j < ts.len() {
            assert(v.push(e)[j] == v[j]);
        }
    }
}

proof fn lemma_numbered_concat(v: Seq<(u32, String, u8)>, ts: Seq<Seq<char>>, w: Seq<(u32, String, u8)>, us: Seq<Seq<char>>, start: int)
    requires
        numbered(v, ts, start),
        numbered(w, us, start + ts.len()),
    ensures
        numbered(v + w, ts + us, start),
{
    assert forall|j: int| 0 <= j < (ts + us).len() implies (#[trigger] (v + w)[j]).0 == start + j
        && (v + w)[j].1@ == (ts + us)[j] && (v + w)[j].2 == 0 by {
        if j >= ts.len() {
            assert((v + w)[j] == w[j - ts.len()]);
        }
    }
}

proof fn lemma_field_texts_mono(fs: Seq<FieldView>, a: int, b: int)
    requires
        0 <= a <= b <= fs.len(),
    ensures
        field_texts(fs, a).len() <= field_texts(fs, b).len(),
    decreases b - a,
{
    if a < b {
        lemma_field_texts_mono(fs, a, b - 1);
    }
}

/// Numbers the inline texts of a record from `*next_id` on, appending them
/// to `result`.
fn reassign_record(record: &EspRecord, next_id: &mut u32, result: &mut Vec<(u32, String, u8)>)
    requires
        *old(next_id) + record_texts(*record).len() <= u32::MAX,
    ensures
        final(result)@.len() == old(result)@.len() + record_texts(*record).len(),
        final(result)@.take(old(result)@.len() as int) == old(result)@,
        numbered(final(result)@.skip(old(result)@.len() as int), record_texts(*record), *old(next_id) as int),
        *final(next_id) == *old(next_id) + record_texts(*record).len(),
{
    let ghost r0 = result@;
    let ghost id0 = *next_id;
    if record.raw {
        assert(result@.skip(r0.len() as int) =~= Seq::<(u32, String, u8)>::empty());
        assert(result@.take(r0.len() as int) =~= r0);
        return;
    }
    let ghost fs = fields_view(record.fields@);
    let n = record.fields.len();
    let mut k: usize = 0;
    assert(result@.skip(r0.len() as int) =~= Seq::<(u32, String, u8)>::empty());
    assert(result@.take(r0.len() as int) =~= r0);
    while k < n
        invariant
            k <= n,
            n == fs.len(),
            fs == fields_view(record.fields@),
            !record.raw,
            id0 + field_texts(fs, n as int).len() <= u32::MAX,
            result@.len() == r0.len() + field_texts(fs, k as int).len(),
            result@.take(r0.len() as int) == r0,
            numbered(result@.skip(r0.len() as int), field_texts(fs, k as int), id0 as int),
            *next_id == id0 + field_texts(fs, k as int).len(),
        decreases n - k,
    {
        assert(fs[k as int] == record.fields@[k as int]@);
        if !record.fields[k].is_size_xxxx {
            match inline_text_of(&record.fields[k].buffer) {
                Some(t) => {
                    proof {
                        lemma_field_texts_mono(fs, k + 1, n as int);
                    }
                    let ghost before = result@;
                    let ghost ts = field_texts(fs, k as int);
                    result.push((*next_id, t, 0u8));
                    proof {
                        assert(result@.skip(r0.len() as int) =~= before.skip(r0.len() as int).push(result@.last()));
                        lemma_numbered_push(before.skip(r0.len() as int), ts, id0 as int, result@.last(), inline_text(fs[k as int].buffer)->0);
                        assert(result@.take(r0.len() as int) =~= before.take(r0.len() as int));
                    }
                    *next_id = *next_id + 1;
                },
                None => {},
            }
        }
        k = k + 1;
    }
}

proof fn lemma_extend(r0: Seq<(u32, String, u8)>, before: Seq<(u32, String, u8)>, after: Seq<(u32, String, u8)>,
    ts: Seq<Seq<char>>, us: Seq<Seq<char>>, id0: int)
    requires
        before.len() >= r0.len(),
        before.take(r0.len() as int) == r0,
        numbered(before.skip(r0.len() as int), ts, id0),
        after.len() >= before.len(),
        after.take(before.len() as int) == before,
        numbered(after.skip(before.len() as int), us, id0 + ts.len()),
    ensures
        after.take(r0.len() as int) == r0,
        numbered(after.skip(r0.len() as int), ts + us, id0),
{
    assert(after.take(r0.len() as int) =~= before.take(r0.len() as int));
    assert(after.skip(r0.len() as int) =~= before.skip(r0.len() as int) + after.skip(before.len() as int));
    lemma_numbered_concat(before.skip(r0.len() as int), ts, after.skip(before.len() as int), us, id0);
}

proof fn lemma_records_texts_mono(rs: Seq<EspRecord>, a: int, b: int)
    requires
        0 <= a <= b <= rs.len(),
    ensures
        records_texts(rs, a).len() <= records_texts(rs, b).len(),
    decreases b - a,
{
    if a < b {
        lemma_records_texts_mono(rs, a, b - 1);
    }
}

proof fn lemma_children_texts_mono(g: EspGrup, a: int, b: int)
    requires
        0 <= a <= b <= g.children@.len(),
    ensures
        children_texts(g, a).len() <= children_texts(g, b).len(),
    decreases b - a,
{
    if a < b {
        lemma_children_texts_mono(g, a, b - 1);
    }
}

/// Numbers the inline texts of a group, at every depth, from `*next_id`
/// on, appending them to `result`.
fn reassign_grup(grup: &EspGrup, next_id: &mut u32, result: &mut Vec<(u32, String, u8)>)
    requires
        *old(next_id) + grup_texts(*grup).len() <= u32::MAX,
    ensures
        final(result)@.len() == old(result)@.len() + grup_texts(*grup).len(),
        final(result)@.take(old(result)@.len() as int) == old(result)@,
        numbered(final(result)@.skip(old(result)@.len() as int), grup_texts(*grup), *old(next_id) as int),
        *final(next_id) == *old(next_id) + grup_texts(*grup).len(),
    decreases *grup,
{
    let ghost r0 = result@;
    let ghost id0 = *next_id;
    let ghost rs = grup.records@;
    assert(result@.skip(r0.len() as int) =~= Seq::<(u32, String, u8)>::empty());
    assert(result@.take(r0.len() as int) =~= r0);
    let nr = grup.records.len();
    let mut i: usize = 0;
    while i < nr
        invariant
            i <= nr,
            nr == rs.len(),
            rs == grup.records@,
            id0 + grup_texts(*grup).len() <= u32::MAX,
            result@.len() == r0.len() + records_texts(rs, i as int).len(),
            result@.take(r0.len() as int) == r0,
            numbered(result@.skip(r0.len() as int), records_texts(rs, i as int), id0 as int),
            *next_id == id0 + records_texts(rs, i as int).len(),
        decreases nr - i,
    {
        proof {
            lemma_records_texts_mono(rs, i + 1, nr as int);
        }
        let ghost before = result@;
        reassign_record(&grup.records[i], next_id, result);
        proof {
            lemma_extend(r0, before, result@, records_texts(rs, i as int), record_texts(rs[i as int]), id0 as int);
            assert(records_texts(rs, i + 1) == records_texts(rs, i as int) + record_texts(rs[i as int]));
        }
        i = i + 1;
    }
    let n = grup.children.len();
    let mut j: usize = 0;
    while j < n
        invariant
            j <= n,
            n == grup.children@.len(),
            nr == rs.len(),
            rs == grup.records@,
            id0 + grup_texts(*grup).len() <= u32::MAX,
            result@.len() == r0.len() + records_texts(rs, nr as int).len() + children_texts(*grup, j as int).len(),
            result@.take(r0.len() as int) == r0,
            numbered(result@.skip(r0.len() as int), records_texts(rs, nr as int) + children_texts(*grup, j as int), id0 as int),
            *next_id == id0 + records_texts(rs, nr as int).len() + children_texts(*grup, j as int).len(),
        decreases n - j,
    {
        proof {
            assert(decreases_to!(*grup => grup.children));
            assert(decreases_to!(grup.children => grup.children[j as int]));
            lemma_children_texts_mono(*grup, j + 1, n as int);
        }
        let ghost before = result@;
        let ghost acc = records_texts(rs, nr as int) + children_texts(*grup, j as int);
        reassign_grup(&grup.children[j], next_id, result);
        proof {
            lemma_extend(r0, before, result@, acc, grup_texts(grup.children[j as int]), id0 as int);
            assert(children_texts(*grup, j + 1) == children_texts(*grup, j as int) + grup_texts(grup.children[j as int]));
            assert(acc + grup_texts(grup.children[j as int])
                =~= records_texts(rs, nr as int) + children_texts(*grup, j + 1));
        }
        j = j + 1;
    }
}

/// Numbers the inline texts of a plugin from 1, in tree order, all for the
/// `.STRINGS` list (see [`grups_texts`]).
pub fn reassign_string_ids(esp: &EspFile) -> (r: Vec<(u32, String, u8)>)
    requires
        1 + grups_texts(esp.top_level_grups@, esp.top_level_grups@.len() as int).len() <= u32::MAX,
    ensures
        numbered(r@, grups_texts(esp.top_level_grups@, esp.top_level_grups@.len() as int), 1),
{
    let ghost gs = esp.top_level_grups@;
    let mut result: Vec<(u32, String, u8)> = Vec::new();
    let mut next_id: u32 = 1;
    let n = esp.top_level_grups.len();
    let mut i: usize = 0;
    assert(result@.skip(0) =~= result@);
    assert(result@.take(0) =~= Seq::<(u32, String, u8)>::empty());
    while i < n
        invariant
            i <= n,
            n == gs.len(),
            gs == esp.top_level_grups@,
            1 + grups_texts(gs, n as int).len() <= u32::MAX,
            result@.len() == grups_texts(gs, i as int).len(),
            numbered(result@, grups_texts(gs, i as int), 1),
            next_id == 1 + grups_texts(gs, i as int).len(),
        decreases n - i,
    {
        proof {
            lemma_grups_texts_mono(gs, i + 1, n as int);
        }
        let ghost before = result@;
        reassign_grup(&esp.top_level_grups[i], &mut next_id, &mut result);
        proof {
            assert(before.take(0) =~= Seq::<(u32, String, u8)>::empty());
            assert(before.skip(0) =~= before);
            lemma_extend(Seq::empty(), before, result@, grups_texts(gs, i as int), grup_texts(gs[i as int]), 1);
            assert(result@.skip(0) =~= result@);
        }
        i = i + 1;
    }
    result
}

proof fn lemma_grups_texts_mono(gs: Seq<EspGrup>, a: int, b: int)
    requires
        0 <= a <= b <= gs.len(),
    ensures
        grups_texts(gs, a).len() <= grups_texts(gs, b).len(),
    decreases b - a,
{
    if a < b {
        lemma_grups_texts_mono(gs, a, b - 1);
    }
}

/// `new` is the list of groups `old` with every group delocalized.
pub open spec fn tree_delocalized(new: Seq<EspGrup>, old: Seq<EspGrup>, ss: Seq<SkyStringView>) -> bool {
    &&& new.len() == old.len()
    &&& forall|i: int| 0 <= i < old.len() ==> grup_delocalized(#[trigger] new[i], old[i], ss)
}

/// How many fields of the first `n` groups of a list get a string.
pub open spec fn grups_count(gs: Seq<EspGrup>, ss: Seq<SkyStringView>, n: int) -> nat
    decreases n,
{
    if n <= 0 || n > gs.len() { 0 } else { grups_count(gs, ss, n - 1) + grup_count(gs[n - 1], ss) }
}

proof fn lemma_grups_count_mono(gs: Seq<EspGrup>, ss: Seq<SkyStringView>, a: int, b: int)
    requires
        0 <= a <= b <= gs.len(),
    ensures
        grups_count(gs, ss, a) <= grups_count(gs, ss, b),
    decreases b - a,
{
    if a < b {
        lemma_grups_count_mono(gs, ss, a, b - 1);
    }
}

/// The name of a strings file: `{base}_{language}.{ext}`.
pub open spec fn strings_file_name(base: Seq<char>, language: Seq<char>, ext: Seq<char>) -> Seq<char> {
    base + "_"@ + language + "."@ + ext
}

/// Whether some entry is for list `li`.
pub open spec fn has_list(v: Seq<(u32, String, u8)>, li: u8) -> bool {
    exists|j: int| 0 <= j < v.len() && (#[trigger] v[j]).2 == li
}

/// The files that a set of entries is written to: for lists 0, 1 and 2 in
/// that order, the `.STRINGS`, `.DLSTRINGS` and `.ILSTRINGS` file, when some
/// entry is for that list.
pub open spec fn strings_file_names(v: Seq<(u32, String, u8)>, base: Seq<char>, language: Seq<char>) -> Seq<Seq<char>> {
    (if has_list(v, 0) { seq![strings_file_name(base, language, "STRINGS"@)] } else { Seq::empty() })
    + (if has_list(v, 1) { seq![strings_file_name(base, language, "DLSTRINGS"@)] } else { Seq::empty() })
    + (if has_list(v, 2) { seq![strings_file_name(base, language, "ILSTRINGS"@)] } else { Seq::empty() })
}

/// Whether some entry is for list `li` (see [`has_list`]).
fn has_list_of(v: &Vec<(u32, String, u8)>, li: u8) -> (r: bool)
    ensures
        r == has_list(v@, li),
{
    let mut j: usize = 0;
    while j < v.len()
        invariant
            j <= v@.len(),
            forall|t: int| 0 <= t < j ==> (#[trigger] v@[t]).2 != li,
        decreases v@.len() - j,
    {
        if v[j].2 == li {
            assert(v@[j as int].2 == li);
            return true;
        }
        j = j + 1;
    }
    false
}

/// `{base}_{language}.{ext}` (see [`strings_file_name`]).
fn file_name_of(base: &str, language: &str, ext: &str) -> (r: String)
    ensures
        r@ == strings_file_name(base@, language@, ext@),
{
    let mut out: Vec<char> = chars_of(base);
    crate::header_processor::push_lit(&mut out, "_");
    crate::header_processor::push_lit(&mut out, language);
    crate::header_processor::push_lit(&mut out, ".");
    crate::header_processor::push_lit(&mut out, ext);
    string_from_chars(out.as_slice())
}

/// The files that a set of entries is written to (see
/// [`strings_file_names`]).
pub fn strings_files_for(entries: &Vec<(u32, String, u8)>, base_name: &str, language: &str) -> (r: Vec<String>)
    ensures
        crate::header_processor::texts(r@) == strings_file_names(entries@, base_name@, language@),
{
    let mut out: Vec<String> = Vec::new();
    if has_list_of(entries, 0) {
        out.push(file_name_of(base_name, language, "STRINGS"));
    }
    if has_list_of(entries, 1) {
        out.push(file_name_of(base_name, language, "DLSTRINGS"));
    }
    if has_list_of(entries, 2) {
        out.push(file_name_of(base_name, language, "ILSTRINGS"));
    }
    assert(crate::header_processor::texts(out@) =~= strings_file_names(entries@, base_name@, language@));
    out
}

/// What delocalizing a plugin gives: how many fields got a string, the
/// strings files to export and the numbered texts they hold.
pub struct DelocalizeResult {
    pub string_count: usize,
    pub strings_files: Vec<String>,
    pub entries: Vec<(u32, String, u8)>,
}

/// Delocalizes a plugin: every record of every group gets the text of the
/// strings that strict or relaxed matching pairs with its fields; then the
/// inline texts of the whole plugin are numbered from 1 in tree order, and
/// the files to hold them are named from `base_name` and `language`.
pub fn delocalize_esp(esp: &mut EspFile, strings: &[SkyString], base_name: &str, language: &str) -> (r: DelocalizeResult)
    requires
        keys_fit(strings_view(strings@)),
        forall|i: int| 0 <= i < old(esp).top_level_grups@.len() ==> grup_fits(#[trigger] old(esp).top_level_grups@[i]),
        grups_count(old(esp).top_level_grups@, strings_view(strings@), old(esp).top_level_grups@.len() as int) <= usize::MAX,
        forall|gs: Seq<EspGrup>| #[trigger] tree_delocalized(gs, old(esp).top_level_grups@, strings_view(strings@))
            ==> 1 + grups_texts(gs, gs.len() as int).len() <= u32::MAX,
    ensures
        final(esp).tes4 == old(esp).tes4,
        tree_delocalized(final(esp).top_level_grups@, old(esp).top_level_grups@, strings_view(strings@)),
        r.string_count == grups_count(old(esp).top_level_grups@, strings_view(strings@), old(esp).top_level_grups@.len() as int),
        numbered(r.entries@, grups_texts(final(esp).top_level_grups@, final(esp).top_level_grups@.len() as int), 1),
        crate::header_processor::texts(r.strings_files@) == strings_file_names(r.entries@, base_name@, language@),
{
    let ghost ss = strings_view(strings@);
    let ghost old_gs = esp.top_level_grups@;
    let string_map = build_string_map(strings);
    let normalized_index = build_normalized_index(strings);
    let n = esp.top_level_grups.len();
    let mut total: usize = 0;
    let mut i: usize = 0;
    while i < n
        invariant
            i <= n,
            n == old_gs.len(),
            ss == strings_view(strings@),
            string_map.wf(),
            normalized_index.wf(),
            string_map.strings@ == strings@,
            normalized_index.strings@ == strings@,
            esp.tes4 == old(esp).tes4,
            old_gs == old(esp).top_level_grups@,
            forall|t: int| 0 <= t < n ==> grup_fits(#[trigger] old_gs[t]),
            grups_count(old_gs, ss, n as int) <= usize::MAX,
            esp.top_level_grups@.len() == n,
            forall|t: int| 0 <= t < i ==> grup_delocalized(#[trigger] esp.top_level_grups@[t], old_gs[t], ss),
            forall|t: int| i <= t < n ==> #[trigger] esp.top_level_grups@[t] == old_gs[t],
            total == grups_count(old_gs, ss, i as int),
        decreases n - i,
    {
        proof {
            lemma_grups_count_mono(old_gs, ss, i + 1, n as int);
            assert(grup_fits(old_gs[i as int]));
        }
        let c = delocalize_grup(&mut esp.top_level_grups[i], &string_map, &normalized_index);
        total = total + c;
        i = i + 1;
    }
    assert(tree_delocalized(esp.top_level_grups@, old_gs, ss));
    let entries = reassign_string_ids(esp);
    let strings_files = strings_files_for(&entries, base_name, language);
    DelocalizeResult { string_count: total, strings_files, entries }
}

} // verus!
