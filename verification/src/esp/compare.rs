//! Comparing the strings of two plugins: each string is keyed by where it
//! sits (form id and field occurrence, or string id for strings without a
//! form id), and the strings of the new plugin are sorted into identical,
//! modified and added ones; strings of the old plugin whose place is gone
//! are removed.
use vstd::prelude::*;
use std::collections::{HashMap, HashSet};
use crate::types::{SkyString, string_hash, str_hash};
use crate::bytes::{read_u16_le, read_u32_le, copy_range, le_u16, le_u32};
use crate::esp::defs::{TranslatableField, StringsFiles, decompress_bethesda_record};
use crate::esp::header::{sig_grup, sig_tes4, sig_xxxx};
use crate::esp::parser::{spec_find_def, source_text, nul_prefix, edid_is_string, edid_hash, sig_edid, sig_gmst,
    sig_data, decompressed, last_def};
use crate::text::{utf8_lossy, lossy_string, chars_of, trim_chars, ascii_lower_vec, string_from_chars};

verus! {

/// One string of a plugin, as far as comparing needs it.
#[derive(Clone, Debug)]
pub struct CompareEntry {
    pub id: u32,
    pub str_id: i32,
    pub source: String,
    pub record_sig: [u8; 4],
    pub field_sig: [u8; 4],
    pub form_id: u32,
    /// Hash of the plugin the form belongs to (0 when unknown).
    pub form_owner_hash: u32,
    pub local_form_id: u32,
    /// Occurrence of the field signature within its record.
    pub field_index: u16,
    pub field_index_max: u16,
    pub edid_hash: u32,
    pub source_hash: u32,
}

impl CompareEntry {
    /// The entry of a loaded string: its pointer, its source and the hash
    /// of that source; the form id stands for itself.
    pub fn from_sky_string(s: &SkyString) -> (r: Self)
        ensures
            r.id == s.id,
            r.str_id == s.esp_ptr.str_id,
            r.source@ == s.source@,
            r.record_sig == s.esp_ptr.record_sig,
            r.field_sig == s.esp_ptr.field_sig,
            r.form_id == s.esp_ptr.form_id,
            r.form_owner_hash == 0,
            r.local_form_id == s.esp_ptr.form_id,
            r.field_index == s.esp_ptr.index,
            r.field_index_max == s.esp_ptr.index_max,
            r.edid_hash == s.esp_ptr.edid_hash,
            r.source_hash == str_hash(s.source@),
    {
        CompareEntry {
            id: s.id,
            str_id: s.esp_ptr.str_id,
            source: s.source.clone(),
            record_sig: s.esp_ptr.record_sig,
            field_sig: s.esp_ptr.field_sig,
            form_id: s.esp_ptr.form_id,
            form_owner_hash: 0,
            local_form_id: s.esp_ptr.form_id,
            field_index: s.esp_ptr.index,
            field_index_max: s.esp_ptr.index_max,
            edid_hash: s.esp_ptr.edid_hash,
            source_hash: string_hash(s.source.as_str()),
        }
    }
}

/// Where a string sits, for matching it between two plugins.
#[derive(Clone, Copy, Debug)]
pub struct StringKey {
    pub str_id: i32,
    pub form_owner_hash: u32,
    pub local_form_id: u32,
    pub record_sig: [u8; 4],
    pub field_sig: [u8; 4],
    pub field_index: u16,
    pub edid_hash: u32,
}

/// Signature `VMAD`.
pub open spec fn sig_vmad() -> Seq<u8> { seq![0x56u8, 0x4D, 0x41, 0x44] }

/// The key of an entry. Without a form id: string id and signatures.
/// With one: owner and local form id (the form id itself when the owner is
/// unknown), signatures and field occurrence; script strings also keep
/// their editor-id hash.
pub open spec fn key_of(e: CompareEntry) -> StringKey {
    if e.form_id == 0 {
        StringKey {
            str_id: e.str_id,
            form_owner_hash: 0,
            local_form_id: 0,
            record_sig: e.record_sig,
            field_sig: e.field_sig,
            field_index: 0,
            edid_hash: 0,
        }
    } else {
        StringKey {
            str_id: 0,
            form_owner_hash: e.form_owner_hash,
            local_form_id: if e.form_owner_hash == 0 { e.form_id } else { e.local_form_id },
            record_sig: e.record_sig,
            field_sig: e.field_sig,
            field_index: e.field_index,
            edid_hash: if e.field_sig@ == sig_vmad() { e.edid_hash } else { 0 },
        }
    }
}

/// Two keys name the same place.
pub open spec fn key_same(a: StringKey, b: StringKey) -> bool {
    &&& a.str_id == b.str_id
    &&& a.form_owner_hash == b.form_owner_hash
    &&& a.local_form_id == b.local_form_id
    &&& a.record_sig@ == b.record_sig@
    &&& a.field_sig@ == b.field_sig@
    &&& a.field_index == b.field_index
    &&& a.edid_hash == b.edid_hash
}

impl StringKey {
    /// The key of an entry (see [`key_of`]).
    pub fn from_compare_entry(e: &CompareEntry) -> (r: Self)
        ensures
            key_same(r, key_of(*e)),
    {
        if e.form_id == 0 {
            return StringKey {
                str_id: e.str_id,
                form_owner_hash: 0,
                local_form_id: 0,
                record_sig: e.record_sig,
                field_sig: e.field_sig,
                field_index: 0,
                edid_hash: 0,
            };
        }
        let is_vmad = e.field_sig[0] == 0x56 && e.field_sig[1] == 0x4D && e.field_sig[2] == 0x41
            && e.field_sig[3] == 0x44;
        assert(is_vmad == (e.field_sig@ == sig_vmad())) by {
            if is_vmad {
                assert(e.field_sig@ =~= sig_vmad());
            }
        }
        StringKey {
            str_id: 0,
            form_owner_hash: e.form_owner_hash,
            local_form_id: if e.form_owner_hash == 0 { e.form_id } else { e.local_form_id },
            record_sig: e.record_sig,
            field_sig: e.field_sig,
            field_index: e.field_index,
            edid_hash: if is_vmad { e.edid_hash } else { 0 },
        }
    }

    /// Whether two keys name the same place.
    pub fn same(&self, other: &StringKey) -> (r: bool)
        ensures
            r == key_same(*self, *other),
    {
        self.str_id == other.str_id && self.form_owner_hash == other.form_owner_hash
            && self.local_form_id == other.local_form_id
            && crate::bytes::sig_eq(&self.record_sig, &other.record_sig)
            && crate::bytes::sig_eq(&self.field_sig, &other.field_sig)
            && self.field_index == other.field_index && self.edid_hash == other.edid_hash
    }

    /// A 64-bit fingerprint of the key: equal keys have equal fingerprints.
    pub fn fingerprint(&self) -> (r: u64)
        ensures
            r == key_print(*self),
    {
        let a: u64 = (self.str_id as u32) as u64;
        let b: u64 = self.local_form_id as u64;
        let c: u64 = (self.field_index as u64) ^ (self.form_owner_hash as u64) ^ (self.edid_hash as u64)
            ^ (self.field_sig[0] as u64) ^ ((self.record_sig[0] as u64) << 8);
        (a << 32) ^ b ^ (c << 16)
    }
}

/// The fingerprint of a key (see [`StringKey::fingerprint`]).
pub open spec fn key_print(k: StringKey) -> u64 {
    let a: u64 = (k.str_id as u32) as u64;
    let b: u64 = k.local_form_id as u64;
    let c: u64 = (k.field_index as u64) ^ (k.form_owner_hash as u64) ^ (k.edid_hash as u64)
        ^ (k.field_sig[0] as u64) ^ ((k.record_sig[0] as u64) << 8);
    (a << 32) ^ b ^ (c << 16)
}

proof fn lemma_key_print(a: StringKey, b: StringKey)
    requires
        key_same(a, b),
    ensures
        key_print(a) == key_print(b),
{
    assert(a.field_sig[0] == a.field_sig@[0]);
    assert(b.field_sig[0] == b.field_sig@[0]);
    assert(a.record_sig[0] == a.record_sig@[0]);
    assert(b.record_sig[0] == b.record_sig@[0]);
}

/// The last of the first `n` entries whose key is `k`.
pub open spec fn last_with_key(es: Seq<CompareEntry>, k: StringKey, n: int) -> Option<int>
    decreases n,
{
    if n <= 0 || n > es.len() {
        None
    } else if key_same(key_of(es[n - 1]), k) {
        Some(n - 1)
    } else {
        last_with_key(es, k, n - 1)
    }
}

/// Whether two entries hold the same text (and the same stored hash of it).
pub open spec fn same_text(a: CompareEntry, b: CompareEntry) -> bool {
    a.source_hash == b.source_hash && a.source@ == b.source@
}

/// The sorting so far: identical pairs (new id to old id), added ids,
/// modified ids and modified pairs.
pub struct SortState {
    pub matched: Map<u32, u32>,
    pub added: Set<u32>,
    pub modified: Set<u32>,
    pub modified_pairs: Map<u32, u32>,
}

/// The sorting of the new entries from position `j` on, taken from the
/// last to position `j`. Only the last new entry with a given key counts.
/// When the last old entry with its key holds the same text, the pair is
/// identical; with another text, modified; without such an old entry, the
/// new entry is added. Later records of the same id replace earlier ones.
pub open spec fn sorting_from(olds: Seq<CompareEntry>, news: Seq<CompareEntry>, j: int) -> SortState
    decreases news.len() - j,
{
    if j < 0 || j >= news.len() {
        SortState { matched: Map::empty(), added: Set::empty(), modified: Set::empty(), modified_pairs: Map::empty() }
    } else {
        let s = sorting_from(olds, news, j + 1);
        let e = news[j];
        let k = key_of(e);
        if last_with_key(news, k, news.len() as int) != Some(j) {
            s
        } else {
            match last_with_key(olds, k, olds.len() as int) {
                Some(oi) => if same_text(olds[oi], e) {
                    SortState { matched: s.matched.insert(e.id, olds[oi].id), ..s }
                } else {
                    SortState {
                        modified: s.modified.insert(e.id),
                        modified_pairs: s.modified_pairs.insert(e.id, olds[oi].id),
                        ..s
                    }
                },
                None => SortState { added: s.added.insert(e.id), ..s },
            }
        }
    }
}

/// The ids of old entries that are the last with their key and whose key
/// no new entry has.
pub open spec fn removed_ids(olds: Seq<CompareEntry>, news: Seq<CompareEntry>) -> Set<u32> {
    Set::new(|id: u32| exists|i: int| 0 <= i < olds.len() && #[trigger] olds[i].id == id
        && last_with_key(olds, key_of(olds[i]), olds.len() as int) == Some(i)
        && last_with_key(news, key_of(olds[i]), news.len() as int) is None)
}

/// The result of comparing two plugins.
pub struct EspComparison {
    pub old_strings: Vec<CompareEntry>,
    pub new_strings: Vec<CompareEntry>,
    /// New id to old id of identical strings.
    pub matched_pairs: HashMap<u32, u32>,
    /// Ids of new strings with no old counterpart.
    pub added: HashSet<u32>,
    /// Ids of old strings with no new counterpart.
    pub removed: HashSet<u32>,
    /// Ids of new strings whose old counterpart holds another text.
    pub modified: HashSet<u32>,
    /// New id to old id of modified strings.
    pub modified_pairs: HashMap<u32, u32>,
}

/// `c` is the comparison of `olds` with `news`.
pub open spec fn comparison_of(c: EspComparison, olds: Seq<CompareEntry>, news: Seq<CompareEntry>) -> bool {
    let s = sorting_from(olds, news, 0);
    &&& c.old_strings@ == olds
    &&& c.new_strings@ == news
    &&& c.matched_pairs@ == s.matched
    &&& c.added@ == s.added
    &&& c.modified@ == s.modified
    &&& c.modified_pairs@ == s.modified_pairs
    &&& c.removed@ == removed_ids(olds, news)
}

/// The positions among the first `n` entries whose key has fingerprint
/// `f`, in order.
pub open spec fn with_print(es: Seq<CompareEntry>, f: u64, n: int) -> Seq<usize>
    decreases n,
{
    if n <= 0 || n > es.len() {
        Seq::empty()
    } else if key_print(key_of(es[n - 1])) == f {
        with_print(es, f, n - 1).push((n - 1) as usize)
    } else {
        with_print(es, f, n - 1)
    }
}

/// The last of the first `m` positions of `b` whose entry has key `k`.
pub open spec fn last_in(es: Seq<CompareEntry>, k: StringKey, b: Seq<usize>, m: int) -> Option<int>
    decreases m,
{
    if m <= 0 || m > b.len() {
        None
    } else if 0 <= b[m - 1] < es.len() && key_same(key_of(es[b[m - 1] as int]), k) {
        Some(b[m - 1] as int)
    } else {
        last_in(es, k, b, m - 1)
    }
}

/// The positions held in bucket `f` of an index.
pub open spec fn bucket(m: Map<u64, Vec<usize>>, f: u64) -> Seq<usize> {
    if m.contains_key(f) { m[f]@ } else { Seq::empty() }
}

proof fn lemma_last_in_prefix(es: Seq<CompareEntry>, k: StringKey, b: Seq<usize>, x: usize, m: int)
    requires
        0 <= m <= b.len(),
    ensures
        last_in(es, k, b.push(x), m) == last_in(es, k, b, m),
    decreases m,
{
    if m > 0 {
        assert(b.push(x)[m - 1] == b[m - 1]);
        lemma_last_in_prefix(es, k, b, x, m - 1);
    }
}

proof fn lemma_with_print_bounds(es: Seq<CompareEntry>, f: u64, n: int)
    ensures
        forall|t: int| 0 <= t < with_print(es, f, n).len() ==> #[trigger] with_print(es, f, n)[t] < n
            && with_print(es, f, n)[t] < es.len(),
    decreases n,
{
    if n > 0 && n <= es.len() {
        lemma_with_print_bounds(es, f, n - 1);
        let w = with_print(es, f, n - 1);
        if key_print(key_of(es[n - 1])) == f {
            assert forall|t: int| 0 <= t < with_print(es, f, n).len() implies #[trigger] with_print(es, f, n)[t] < n
                && with_print(es, f, n)[t] < es.len() by {
                if t < w.len() {
                    assert(with_print(es, f, n)[t] == w[t]);
                }
            }
        }
    }
}

proof fn lemma_last_in_print(es: Seq<CompareEntry>, k: StringKey, n: int)
    requires
        0 <= n <= es.len(),
        es.len() <= usize::MAX,
    ensures
        last_in(es, k, with_print(es, key_print(k), n), with_print(es, key_print(k), n).len() as int)
            == last_with_key(es, k, n),
    decreases n,
{
    if n > 0 {
        let f = key_print(k);
        let prev = with_print(es, f, n - 1);
        lemma_last_in_print(es, k, n - 1);
        if key_same(key_of(es[n - 1]), k) {
            lemma_key_print(key_of(es[n - 1]), k);
        } else if key_print(key_of(es[n - 1])) == f {
            lemma_last_in_prefix(es, k, prev, (n - 1) as usize, prev.len() as int);
        }
    }
}

proof fn lemma_last_with_key_congruent(es: Seq<CompareEntry>, a: StringKey, b: StringKey, n: int)
    requires
        key_same(a, b),
    ensures
        last_with_key(es, a, n) == last_with_key(es, b, n),
    decreases n,
{
    if n > 0 && n <= es.len() {
        lemma_last_with_key_congruent(es, a, b, n - 1);
    }
}

proof fn lemma_last_with_key_found(es: Seq<CompareEntry>, k: StringKey, n: int)
    requires
        0 <= n <= es.len(),
    ensures
        match last_with_key(es, k, n) {
            Some(i) => 0 <= i < n && i < es.len() && key_same(key_of(es[i]), k)
                && forall|t: int| i < t < n ==> !key_same(#[trigger] key_of(es[t]), k),
            None => forall|t: int| 0 <= t < n && t < es.len() ==> !key_same(#[trigger] key_of(es[t]), k),
        },
    decreases n,
{
    if n > 0 {
        lemma_last_with_key_found(es, k, n - 1);
    }
}

/// The keys of a list of entries.
fn keys_of(es: &Vec<CompareEntry>) -> (r: Vec<StringKey>)
    ensures
        r@.len() == es@.len(),
        forall|i: int| 0 <= i < es@.len() ==> key_same(#[trigger] r@[i], key_of(es@[i])),
{
    let mut out: Vec<StringKey> = Vec::new();
    let mut i: usize = 0;
    while i < es.len()
        invariant
            i <= es@.len(),
            out@.len() == i,
            forall|t: int| 0 <= t < i ==> key_same(#[trigger] out@[t], key_of(es@[t])),
        decreases es@.len() - i,
    {
        out.push(StringKey::from_compare_entry(&es[i]));
        i = i + 1;
    }
    out
}

/// An index from key fingerprints to the positions of the entries (see
/// [`with_print`]).
fn build_index(es: &Vec<CompareEntry>, keys: &Vec<StringKey>) -> (r: HashMap<u64, Vec<usize>>)
    requires
        keys@.len() == es@.len(),
        forall|i: int| 0 <= i < es@.len() ==> key_same(#[trigger] keys@[i], key_of(es@[i])),
    ensures
        forall|f: u64| #[trigger] bucket(r@, f) == with_print(es@, f, es@.len() as int),
{
    let mut m: HashMap<u64, Vec<usize>> = HashMap::new();
    let mut i: usize = 0;
    while i < es.len()
        invariant
            i <= es@.len(),
            keys@.len() == es@.len(),
            forall|t: int| 0 <= t < es@.len() ==> key_same(#[trigger] keys@[t], key_of(es@[t])),
            forall|f: u64| #[trigger] bucket(m@, f) == with_print(es@, f, i as int),
        decreases es@.len() - i,
    {
        let f = keys[i].fingerprint();
        proof {
            lemma_key_print(keys@[i as int], key_of(es@[i as int]));
        }
        let ghost orig = m@;
        let mut v: Vec<usize> = match m.remove(&f) {
            Some(v) => v,
            None => Vec::new(),
        };
        assert(v@ == bucket(orig, f));
        v.push(i);
        m.insert(f, v);
        proof {
            assert(with_print(es@, f, i + 1) == with_print(es@, f, i as int).push(i));
            assert(bucket(m@, f) == with_print(es@, f, i + 1));
            assert forall|g: u64| #[trigger] bucket(m@, g) == with_print(es@, g, i + 1) by {
                if g != f {
                    assert(bucket(m@, g) == bucket(orig, g));
                }
            }
        }
        i = i + 1;
    }
    m
}

/// The last entry whose key is `k` (see [`last_with_key`]).
fn find_last(es: &Vec<CompareEntry>, keys: &Vec<StringKey>, index: &HashMap<u64, Vec<usize>>, k: &StringKey)
    -> (r: Option<usize>)
    requires
        keys@.len() == es@.len(),
        forall|i: int| 0 <= i < es@.len() ==> key_same(#[trigger] keys@[i], key_of(es@[i])),
        forall|f: u64| #[trigger] bucket(index@, f) == with_print(es@, f, es@.len() as int),
    ensures
        match r {
            Some(i) => last_with_key(es@, *k, es@.len() as int) == Some(i as int),
            None => last_with_key(es@, *k, es@.len() as int) is None,
        },
{
    let f = k.fingerprint();
    let _n = es.len();
    let ghost b = with_print(es@, f, es@.len() as int);
    proof {
        assert(bucket(index@, f) == b);
        lemma_last_in_print(es@, *k, es@.len() as int);
        lemma_with_print_bounds(es@, f, es@.len() as int);
    }
    match index.get(&f) {
        Some(v) => {
            assert(v@ == b);
            let mut m: usize = v.len();
            while m > 0
                invariant
                    m <= v@.len(),
                    v@ == b,
                    keys@.len() == es@.len(),
                    forall|i: int| 0 <= i < es@.len() ==> key_same(#[trigger] keys@[i], key_of(es@[i])),
                    forall|t: int| 0 <= t < b.len() ==> #[trigger] b[t] < es@.len(),
                    last_in(es@, *k, b, b.len() as int) == last_in(es@, *k, b, m as int),
                    last_in(es@, *k, b, b.len() as int) == last_with_key(es@, *k, es@.len() as int),
                decreases m,
            {
                let p = v[m - 1];
                assert(b[m - 1] == p);
                if keys[p].same(k) {
                    assert(key_same(key_of(es@[p as int]), *k));
                    assert(0 <= b[m - 1] < es@.len());
                    assert(last_in(es@, *k, b, m as int) == Some(p as int));
                    return Some(p);
                }
                m = m - 1;
            }
            None
        },
        None => {
            assert(b.len() == 0);
            None
        },
    }
}

/// Old entry `i` is the last with its key, and one of the new entries from
/// position `j` on that counts has that key.
pub open spec fn old_taken(olds: Seq<CompareEntry>, news: Seq<CompareEntry>, j: int, i: int) -> bool {
    &&& last_with_key(olds, key_of(olds[i]), olds.len() as int) == Some(i)
    &&& exists|jj: int| j <= jj < news.len()
        && #[trigger] last_with_key(news, key_of(news[jj]), news.len() as int) == Some(jj)
        && key_same(key_of(news[jj]), key_of(olds[i]))
}

/// The ids of the first `n` old entries that are the last with their key
/// and whose key no new entry has.
pub open spec fn removed_upto(olds: Seq<CompareEntry>, news: Seq<CompareEntry>, n: int) -> Set<u32> {
    Set::new(|id: u32| exists|i: int| 0 <= i < n && i < olds.len() && #[trigger] olds[i].id == id
        && last_with_key(olds, key_of(olds[i]), olds.len() as int) == Some(i)
        && last_with_key(news, key_of(olds[i]), news.len() as int) is None)
}

proof fn lemma_old_taken_step(olds: Seq<CompareEntry>, news: Seq<CompareEntry>, j: int, i: int)
    requires
        0 <= j < news.len(),
        0 <= i < olds.len(),
    ensures
        old_taken(olds, news, j, i) == (old_taken(olds, news, j + 1, i) || (
            last_with_key(olds, key_of(olds[i]), olds.len() as int) == Some(i)
            && last_with_key(news, key_of(news[j]), news.len() as int) == Some(j)
            && key_same(key_of(news[j]), key_of(olds[i])))),
{
    if old_taken(olds, news, j, i) {
        let jj = choose|jj: int| j <= jj < news.len()
            && #[trigger] last_with_key(news, key_of(news[jj]), news.len() as int) == Some(jj)
            && key_same(key_of(news[jj]), key_of(olds[i]));
        if jj != j {
            assert(old_taken(olds, news, j + 1, i));
        }
    }
    if old_taken(olds, news, j + 1, i) {
        let jj = choose|jj: int| j + 1 <= jj < news.len()
            && #[trigger] last_with_key(news, key_of(news[jj]), news.len() as int) == Some(jj)
            && key_same(key_of(news[jj]), key_of(olds[i]));
        assert(old_taken(olds, news, j, i));
    }
}

proof fn lemma_old_taken_end(olds: Seq<CompareEntry>, news: Seq<CompareEntry>, i: int)
    requires
        0 <= i < olds.len(),
    ensures
        !old_taken(olds, news, news.len() as int, i),
{
}

proof fn lemma_old_taken_all(olds: Seq<CompareEntry>, news: Seq<CompareEntry>, i: int)
    requires
        0 <= i < olds.len(),
        last_with_key(olds, key_of(olds[i]), olds.len() as int) == Some(i),
    ensures
        old_taken(olds, news, 0, i) == (last_with_key(news, key_of(olds[i]), news.len() as int) is Some),
{
    lemma_last_with_key_found(news, key_of(olds[i]), news.len() as int);
    if old_taken(olds, news, 0, i) {
        let jj = choose|jj: int| 0 <= jj < news.len()
            && #[trigger] last_with_key(news, key_of(news[jj]), news.len() as int) == Some(jj)
            && key_same(key_of(news[jj]), key_of(olds[i]));
        assert(key_same(key_of(news[jj]), key_of(olds[i])));
    }
    if let Some(jj) = last_with_key(news, key_of(olds[i]), news.len() as int) {
        lemma_last_with_key_congruent(news, key_of(news[jj]), key_of(olds[i]), news.len() as int);
        assert(last_with_key(news, key_of(news[jj]), news.len() as int) == Some(jj));
    }
}

/// Whether two entries hold the same text (see [`same_text`]).
fn texts_equal(a: &CompareEntry, b: &CompareEntry) -> (r: bool)
    ensures
        r == same_text(*a, *b),
{
    a.source_hash == b.source_hash && a.source == b.source
}

/// Compares two lists of entries (see [`comparison_of`]): each key is
/// looked up by the fingerprint index of the old entries.
pub fn build_comparison_from_entries(old_entries: Vec<CompareEntry>, new_entries: Vec<CompareEntry>)
    -> (r: EspComparison)
    ensures
        comparison_of(r, old_entries@, new_entries@),
{
    let ghost olds = old_entries@;
    let ghost news = new_entries@;
    let old_keys = keys_of(&old_entries);
    let old_index = build_index(&old_entries, &old_keys);
    let new_keys = keys_of(&new_entries);
    let new_index = build_index(&new_entries, &new_keys);
    let no = old_entries.len();
    let nn = new_entries.len();
    let mut matched_pairs: HashMap<u32, u32> = HashMap::new();
    let mut added: HashSet<u32> = HashSet::new();
    let mut modified: HashSet<u32> = HashSet::new();
    let mut modified_pairs: HashMap<u32, u32> = HashMap::new();
    let mut taken: Vec<bool> = Vec::new();
    while taken.len() < no
        invariant
            taken@.len() <= no,
            no == olds.len(),
            forall|t: int| 0 <= t < taken@.len() ==> !#[trigger] taken@[t],
        decreases no - taken@.len(),
    {
        taken.push(false);
    }
    proof {
        assert forall|i: int| 0 <= i < no implies taken@[i] == old_taken(olds, news, nn as int, i) by {
            lemma_old_taken_end(olds, news, i);
        }
    }
    let mut j: usize = nn;
    while j > 0
        invariant
            j <= nn,
            nn == news.len(),
            no == olds.len(),
            olds == old_entries@,
            news == new_entries@,
            old_keys@.len() == olds.len(),
            forall|i: int| 0 <= i < olds.len() ==> key_same(#[trigger] old_keys@[i], key_of(olds[i])),
            forall|f: u64| #[trigger] bucket(old_index@, f) == with_print(olds, f, olds.len() as int),
            new_keys@.len() == news.len(),
            forall|i: int| 0 <= i < news.len() ==> key_same(#[trigger] new_keys@[i], key_of(news[i])),
            forall|f: u64| #[trigger] bucket(new_index@, f) == with_print(news, f, news.len() as int),
            matched_pairs@ == sorting_from(olds, news, j as int).matched,
            added@ == sorting_from(olds, news, j as int).added,
            modified@ == sorting_from(olds, news, j as int).modified,
            modified_pairs@ == sorting_from(olds, news, j as int).modified_pairs,
            taken@.len() == no,
            forall|i: int| 0 <= i < no ==> #[trigger] taken@[i] == old_taken(olds, news, j as int, i),
        decreases j,
    {
        j = j - 1;
        let k = new_keys[j];
        proof {
            lemma_last_with_key_congruent(news, k, key_of(news[j as int]), news.len() as int);
            lemma_last_with_key_congruent(olds, k, key_of(news[j as int]), olds.len() as int);
        }
        let last_new = find_last(&new_entries, &new_keys, &new_index, &k);
        let processed = match last_new {
            Some(q) => q == j,
            None => false,
        };
        let ghost before = taken@;
        if processed {
            let e = &new_entries[j];
            match find_last(&old_entries, &old_keys, &old_index, &k) {
                Some(oi) => {
                    proof {
                        lemma_last_with_key_found(olds, key_of(news[j as int]), olds.len() as int);
                        lemma_last_with_key_congruent(olds, key_of(olds[oi as int]), key_of(news[j as int]), olds.len() as int);
                    }
                    taken.set(oi, true);
                    let o = &old_entries[oi];
                    if texts_equal(o, e) {
                        matched_pairs.insert(e.id, o.id);
                    } else {
                        modified.insert(e.id);
                        modified_pairs.insert(e.id, o.id);
                    }
                    proof {
                        assert forall|i: int| 0 <= i < no implies #[trigger] taken@[i] == old_taken(olds, news, j as int, i) by {
                            lemma_old_taken_step(olds, news, j as int, i);
                            if i != oi && key_same(key_of(news[j as int]), key_of(olds[i])) {
                                lemma_last_with_key_congruent(olds, key_of(olds[i]), key_of(news[j as int]), olds.len() as int);
                            }
                        }
                    }
                },
                None => {
                    added.insert(e.id);
                    proof {
                        lemma_last_with_key_found(olds, key_of(news[j as int]), olds.len() as int);
                        assert forall|i: int| 0 <= i < no implies #[trigger] taken@[i] == old_taken(olds, news, j as int, i) by {
                            lemma_old_taken_step(olds, news, j as int, i);
                        }
                    }
                },
            }
        } else {
            proof {
                assert forall|i: int| 0 <= i < no implies #[trigger] taken@[i] == old_taken(olds, news, j as int, i) by {
                    lemma_old_taken_step(olds, news, j as int, i);
                }
            }
        }
    }
    let mut removed: HashSet<u32> = HashSet::new();
    let mut i: usize = 0;
    proof {
        assert(removed@ =~= removed_upto(olds, news, 0));
    }
    while i < no
        invariant
            i <= no,
            no == olds.len(),
            olds == old_entries@,
            news == new_entries@,
            old_keys@.len() == olds.len(),
            forall|t: int| 0 <= t < olds.len() ==> key_same(#[trigger] old_keys@[t], key_of(olds[t])),
            forall|f: u64| #[trigger] bucket(old_index@, f) == with_print(olds, f, olds.len() as int),
            taken@.len() == no,
            forall|t: int| 0 <= t < no ==> #[trigger] taken@[t] == old_taken(olds, news, 0, t),
            removed@ == removed_upto(olds, news, i as int),
        decreases no - i,
    {
        let k = old_keys[i];
        proof {
            lemma_last_with_key_congruent(olds, k, key_of(olds[i as int]), olds.len() as int);
        }
        let is_last = match find_last(&old_entries, &old_keys, &old_index, &k) {
            Some(q) => q == i,
            None => false,
        };
        let ghost before = removed@;
        if is_last && !taken[i] {
            removed.insert(old_entries[i].id);
        }
        proof {
            if is_last {
                lemma_old_taken_all(olds, news, i as int);
            }
            assert forall|id: u32| #[trigger] removed@.contains(id) == removed_upto(olds, news, i + 1).contains(id) by {
                if removed_upto(olds, news, i + 1).contains(id) {
                    let t = choose|t: int| 0 <= t < i + 1 && t < olds.len() && #[trigger] olds[t].id == id
                        && last_with_key(olds, key_of(olds[t]), olds.len() as int) == Some(t)
                        && last_with_key(news, key_of(olds[t]), news.len() as int) is None;
                    if t < i {
                        assert(removed_upto(olds, news, i as int).contains(id));
                    }
                }
                if before.contains(id) {
                    let t = choose|t: int| 0 <= t < i && t < olds.len() && #[trigger] olds[t].id == id
                        && last_with_key(olds, key_of(olds[t]), olds.len() as int) == Some(t)
                        && last_with_key(news, key_of(olds[t]), news.len() as int) is None;
                    assert(removed_upto(olds, news, i + 1).contains(id));
                }
            }
            assert(removed@ =~= removed_upto(olds, news, i + 1));
        }
        i = i + 1;
    }
    proof {
        assert forall|id: u32| #[trigger] removed_upto(olds, news, no as int).contains(id) == removed_ids(olds, news).contains(id) by {
            if removed_ids(olds, news).contains(id) {
                let t = choose|t: int| 0 <= t < olds.len() && #[trigger] olds[t].id == id
                    && last_with_key(olds, key_of(olds[t]), olds.len() as int) == Some(t)
                    && last_with_key(news, key_of(olds[t]), news.len() as int) is None;
                assert(removed_upto(olds, news, no as int).contains(id));
            }
        }
        assert(removed@ =~= removed_ids(olds, news));
    }
    EspComparison {
        old_strings: old_entries,
        new_strings: new_entries,
        matched_pairs,
        added,
        removed,
        modified,
        modified_pairs,
    }
}

/// Whether `s` is strictly increasing.
pub open spec fn strictly_increasing(s: Seq<u32>) -> bool {
    forall|a: int, b: int| 0 <= a < b < s.len() ==> s[a] < s[b]
}

/// Whether some entry has id `id`.
pub open spec fn has_id(es: Seq<CompareEntry>, id: u32) -> bool {
    exists|i: int| 0 <= i < es.len() && #[trigger] es[i].id == id
}

/// The first position of the increasing `v` whose value is not below `x`.
fn lower_bound(v: &Vec<u32>, x: u32) -> (r: usize)
    requires
        strictly_increasing(v@),
    ensures
        r <= v@.len(),
        forall|a: int| 0 <= a < r ==> v@[a] < x,
        forall|a: int| r <= a < v@.len() ==> v@[a] >= x,
{
    let mut lo: usize = 0;
    let mut hi: usize = v.len();
    while lo < hi
        invariant
            lo <= hi <= v@.len(),
            strictly_increasing(v@),
            forall|a: int| 0 <= a < lo ==> v@[a] < x,
            forall|a: int| hi <= a < v@.len() ==> v@[a] >= x,
        decreases hi - lo,
    {
        let mid = lo + (hi - lo) / 2;
        if v[mid] < x {
            lo = mid + 1;
        } else {
            hi = mid;
        }
    }
    lo
}

impl EspComparison {
    /// Number of identical pairs.
    pub fn identical_count(&self) -> (r: usize)
        ensures
            r == self.matched_pairs@.len(),
    {
        self.matched_pairs.len()
    }

    /// Number of added strings.
    pub fn added_count(&self) -> (r: usize)
        ensures
            r == self.added@.len(),
    {
        self.added.len()
    }

    /// Number of removed strings.
    pub fn removed_count(&self) -> (r: usize)
        ensures
            r == self.removed@.len(),
    {
        self.removed.len()
    }

    /// Number of modified strings.
    pub fn modified_count(&self) -> (r: usize)
        ensures
            r == self.modified@.len(),
    {
        self.modified.len()
    }

    /// The ids of the new strings, ascending and without repeats.
    pub fn all_ids(&self) -> (r: Vec<u32>)
        ensures
            strictly_increasing(r@),
            forall|id: u32| r@.contains(id) <==> has_id(self.new_strings@, id),
    {
        let es = &self.new_strings;
        let mut out: Vec<u32> = Vec::new();
        let mut k: usize = 0;
        while k < es.len()
            invariant
                k <= es@.len(),
                strictly_increasing(out@),
                forall|id: u32| out@.contains(id) <==> exists|i: int| 0 <= i < k && #[trigger] es@[i].id == id,
            decreases es@.len() - k,
        {
            let x = es[k].id;
            let pos = lower_bound(&out, x);
            let ghost before = out@;
            if pos < out.len() && out[pos] == x {
                assert forall|id: u32| out@.contains(id) <==> exists|i: int| 0 <= i < k + 1 && #[trigger] es@[i].id == id by {
                    if exists|i: int| 0 <= i < k + 1 && #[trigger] es@[i].id == id {
                        let i = choose|i: int| 0 <= i < k + 1 && #[trigger] es@[i].id == id;
                        if i == k {
                            assert(out@[pos as int] == id);
                        }
                    }
                }
            } else {
                out.insert(pos, x);
                assert forall|a: int, b: int| 0 <= a < b < out@.len() implies out@[a] < out@[b] by {
                    if a < pos && b > pos {
                        assert(out@[b] == before[b - 1]);
                    } else if a > pos {
                        assert(out@[a] == before[a - 1]);
                        assert(out@[b] == before[b - 1]);
                    } else if a == pos {
                        assert(out@[b] == before[b - 1]);
                    }
                }
                assert forall|id: u32| out@.contains(id) <==> exists|i: int| 0 <= i < k + 1 && #[trigger] es@[i].id == id by {
                    if out@.contains(id) {
                        let t = choose|t: int| 0 <= t < out@.len() && out@[t] == id;
                        if t < pos {
                            assert(before[t] == id);
                            assert(before.contains(id));
                        } else if t > pos {
                            assert(before[t - 1] == id);
                            assert(before.contains(id));
                        }
                    }
                    if exists|i: int| 0 <= i < k + 1 && #[trigger] es@[i].id == id {
                        let i = choose|i: int| 0 <= i < k + 1 && #[trigger] es@[i].id == id;
                        if i == k {
                            assert(out@[pos as int] == id);
                        } else {
                            assert(before.contains(id));
                            let t = choose|t: int| 0 <= t < before.len() && before[t] == id;
                            if t < pos {
                                assert(out@[t] == id);
                            } else {
                                assert(out@[t + 1] == id);
                            }
                        }
                    }
                }
            }
            k = k + 1;
        }
        out
    }

    /// The old id identical to new string `new_id`, if any.
    pub fn get_match(&self, new_id: u32) -> (r: Option<u32>)
        ensures
            r == (if self.matched_pairs@.contains_key(new_id) { Some(self.matched_pairs@[new_id]) } else { None }),
    {
        match self.matched_pairs.get(&new_id) {
            Some(v) => Some(*v),
            None => None,
        }
    }

    pub fn is_added(&self, new_id: u32) -> (r: bool)
        ensures
            r == self.added@.contains(new_id),
    {
        self.added.contains(&new_id)
    }

    pub fn is_removed(&self, old_id: u32) -> (r: bool)
        ensures
            r == self.removed@.contains(old_id),
    {
        self.removed.contains(&old_id)
    }

    pub fn is_modified(&self, new_id: u32) -> (r: bool)
        ensures
            r == self.modified@.contains(new_id),
    {
        self.modified.contains(&new_id)
    }
}

/// `e` is the entry of the loaded string `s` (see
/// [`CompareEntry::from_sky_string`]).
pub open spec fn entry_from(e: CompareEntry, s: SkyString) -> bool {
    &&& e.id == s.id
    &&& e.str_id == s.esp_ptr.str_id
    &&& e.source@ == s.source@
    &&& e.record_sig == s.esp_ptr.record_sig
    &&& e.field_sig == s.esp_ptr.field_sig
    &&& e.form_id == s.esp_ptr.form_id
    &&& e.form_owner_hash == 0
    &&& e.local_form_id == s.esp_ptr.form_id
    &&& e.field_index == s.esp_ptr.index
    &&& e.field_index_max == s.esp_ptr.index_max
    &&& e.edid_hash == s.esp_ptr.edid_hash
    &&& e.source_hash == str_hash(s.source@)
}

/// The entries of loaded strings, in order.
fn entries_of(ss: &[SkyString]) -> (r: Vec<CompareEntry>)
    ensures
        r@.len() == ss@.len(),
        forall|i: int| 0 <= i < ss@.len() ==> entry_from(#[trigger] r@[i], ss@[i]),
{
    let mut out: Vec<CompareEntry> = Vec::new();
    let mut i: usize = 0;
    while i < ss.len()
        invariant
            i <= ss@.len(),
            out@.len() == i,
            forall|t: int| 0 <= t < i ==> entry_from(#[trigger] out@[t], ss@[t]),
        decreases ss@.len() - i,
    {
        out.push(CompareEntry::from_sky_string(&ss[i]));
        i = i + 1;
    }
    out
}

/// Compares two lists of loaded strings: their entries (see
/// [`entry_from`]) are compared as [`build_comparison_from_entries`] does.
pub fn compare_string_sets(old_strings: &[SkyString], new_strings: &[SkyString]) -> (r: EspComparison)
    ensures
        r.old_strings@.len() == old_strings@.len(),
        forall|i: int| 0 <= i < old_strings@.len() ==> entry_from(#[trigger] r.old_strings@[i], old_strings@[i]),
        r.new_strings@.len() == new_strings@.len(),
        forall|i: int| 0 <= i < new_strings@.len() ==> entry_from(#[trigger] r.new_strings@[i], new_strings@[i]),
        comparison_of(r, r.old_strings@, r.new_strings@),
{
    let olds = entries_of(old_strings);
    let news = entries_of(new_strings);
    build_comparison_from_entries(olds, news)
}

/// A string found while comparing: its text, field signature, string id
/// and the hash of the last editor id seen.
pub struct CFound {
    pub text: Seq<char>,
    pub field_sig: Seq<u8>,
    pub str_id: u32,
    pub edid_hash: u32,
}

/// The strings found in a record's fields, read field by field from
/// `pos`: an `XXXX` field gives the full 32-bit size of the next field; a
/// field that runs past the end stops the reading; a field named by a
/// definition gives a string when it holds a four-byte id and its text is
/// not empty; `DATA` of a `GMST` counts only when the last editor id seen
/// starts with `s`.
pub open spec fn compare_found(defs: Seq<TranslatableField>, files: StringsFiles, rec: Seq<u8>, data: Seq<u8>,
    pos: int, next: u32, edid: Option<Seq<char>>) -> Seq<CFound>
    decreases data.len() - pos,
{
    if pos < 0 || pos + 6 > data.len() {
        Seq::empty()
    } else {
        let name = data.subrange(pos, pos + 4);
        let size: int = if next > 0 { next as int } else { le_u16(data, pos + 4) as int };
        let p2 = pos + 6;
        if size > data.len() - p2 {
            Seq::empty()
        } else {
            let fd = data.subrange(p2, p2 + size);
            let p3 = p2 + size;
            if name == sig_xxxx() {
                compare_found(defs, files, rec, data, p3, if fd.len() >= 4 { le_u32(fd, 0) } else { 0 }, edid)
            } else {
                let e2 = if name == sig_edid() && fd.len() > 0 { Some(utf8_lossy(nul_prefix(fd))) } else { edid };
                let rest = compare_found(defs, files, rec, data, p3, 0, e2);
                match spec_find_def(defs, rec, name) {
                    Some(d) => if rec == sig_gmst() && name == sig_data() && !edid_is_string(e2) {
                        rest
                    } else if fd.len() >= 4 && source_text(files, d.list_index, le_u32(fd, 0)).len() > 0 {
                        seq![CFound {
                            text: source_text(files, d.list_index, le_u32(fd, 0)),
                            field_sig: name,
                            str_id: le_u32(fd, 0),
                            edid_hash: edid_hash(e2),
                        }] + rest
                    } else {
                        rest
                    },
                    None => rest,
                }
            }
        }
    }
}

/// How many of the first `n` found strings have field signature `sig`.
pub open spec fn sig_count(ps: Seq<CFound>, sig: Seq<u8>, n: int) -> nat
    decreases n,
{
    if n <= 0 || n > ps.len() {
        0
    } else {
        sig_count(ps, sig, n - 1) + if ps[n - 1].field_sig == sig { 1nat } else { 0nat }
    }
}

/// `n`, at most 65535.
pub open spec fn cap16(n: nat) -> u16 {
    if n > 0xFFFF { 0xFFFF } else { n as u16 }
}

/// The occurrence of found string `t` among the record's strings of its
/// field signature (counted in 16 bits, stopping at 65535).
pub open spec fn occurrence(ps: Seq<CFound>, t: int) -> u16 {
    cap16(sig_count(ps, ps[t].field_sig, t))
}

/// The last occurrence of the field signature of found string `t` in the
/// record, 0 when it occurs once.
pub open spec fn last_occurrence(ps: Seq<CFound>, t: int) -> u16 {
    let c = cap16(sig_count(ps, ps[t].field_sig, ps.len() as int));
    if c >= 2 { (c - 1) as u16 } else { 0 }
}

/// The plugin a form id belongs to and its id within it: ids with top byte
/// `FE` (light plugins) keep 12 bits, `FD` keeps 16 bits, others 24 bits.
pub open spec fn spec_split_form_id(form_id: u32) -> (int, u32) {
    let high = form_id >> 24u32;
    if high == 0xFE {
        (((form_id >> 12u32) & 0x0FFF) as int, 0xFE00_0000u32 | (form_id & 0x0000_0FFF))
    } else if high == 0xFD {
        (((form_id >> 16u32) & 0x00FF) as int, 0xFD00_0000u32 | (form_id & 0x0000_FFFF))
    } else {
        (high as int, form_id & 0x00FF_FFFF)
    }
}

/// The plugin index and the id within the plugin of a form id (see
/// [`spec_split_form_id`]).
pub fn split_form_id(form_id: u32) -> (r: (usize, u32))
    ensures
        r.0 as int == spec_split_form_id(form_id).0,
        r.1 == spec_split_form_id(form_id).1,
{
    let high = form_id >> 24u32;
    assert(high < 256) by (bit_vector)
        requires high == form_id >> 24u32;
    if high == 0xFE {
        let i = (form_id >> 12u32) & 0x0FFF;
        assert(i < 4096) by (bit_vector)
            requires i == (form_id >> 12u32) & 0x0FFF;
        (i as usize, 0xFE00_0000u32 | (form_id & 0x0000_0FFF))
    } else if high == 0xFD {
        let i = (form_id >> 16u32) & 0x00FF;
        assert(i < 256) by (bit_vector)
            requires i == (form_id >> 16u32) & 0x00FF;
        (i as usize, 0xFD00_0000u32 | (form_id & 0x0000_FFFF))
    } else {
        (high as usize, form_id & 0x00FF_FFFF)
    }
}

/// The hash of the plugin with index `i`: a master's hash, the plugin's
/// own hash right after the masters, 0 beyond.
pub open spec fn owner_hash(masters: Seq<u32>, self_hash: u32, i: int) -> u32 {
    if 0 <= i < masters.len() { masters[i] } else if i == masters.len() { self_hash } else { 0 }
}

/// The owner hash and local id of a form id: (0, 0) for no form id; the
/// form id itself when its owner is unknown.
pub open spec fn form_identity(masters: Seq<u32>, self_hash: u32, form_id: u32) -> (u32, u32) {
    if form_id == 0 {
        (0, 0)
    } else {
        let (i, local) = spec_split_form_id(form_id);
        let h = owner_hash(masters, self_hash, i);
        if h == 0 { (0, form_id) } else { (h, local) }
    }
}

/// An entry as plain values.
pub struct EntryV {
    pub id: u32,
    pub str_id: i32,
    pub text: Seq<char>,
    pub record_sig: Seq<u8>,
    pub field_sig: Seq<u8>,
    pub form_id: u32,
    pub form_owner_hash: u32,
    pub local_form_id: u32,
    pub field_index: u16,
    pub field_index_max: u16,
    pub edid_hash: u32,
}

/// `e` holds what `v` describes (its source hash is that of its text).
pub open spec fn entry_is(e: CompareEntry, v: EntryV) -> bool {
    &&& e.id == v.id
    &&& e.str_id == v.str_id
    &&& e.source@ == v.text
    &&& e.record_sig@ == v.record_sig
    &&& e.field_sig@ == v.field_sig
    &&& e.form_id == v.form_id
    &&& e.form_owner_hash == v.form_owner_hash
    &&& e.local_form_id == v.local_form_id
    &&& e.field_index == v.field_index
    &&& e.field_index_max == v.field_index_max
    &&& e.edid_hash == v.edid_hash
    &&& e.source_hash == str_hash(v.text)
}

/// `es` holds what `vs` describes, in order.
pub open spec fn entries_are(es: Seq<CompareEntry>, vs: Seq<EntryV>) -> bool {
    &&& es.len() == vs.len()
    &&& forall|i: int| 0 <= i < es.len() ==> entry_is(#[trigger] es[i], vs[i])
}

/// The entries of the strings found in one record, numbered from `base`.
pub open spec fn record_entries(ps: Seq<CFound>, base: nat, rec: Seq<u8>, form_id: u32, owner: u32, local: u32)
    -> Seq<EntryV> {
    Seq::new(ps.len(), |t: int| EntryV {
        id: (base + t) as u32,
        str_id: ps[t].str_id as i32,
        text: ps[t].text,
        record_sig: rec,
        field_sig: ps[t].field_sig,
        form_id,
        form_owner_hash: owner,
        local_form_id: local,
        field_index: occurrence(ps, t),
        field_index_max: last_occurrence(ps, t),
        edid_hash: ps[t].edid_hash,
    })
}

/// Signature `MAST`.
pub open spec fn sig_mast() -> Seq<u8> { seq![0x4Du8, 0x41, 0x53, 0x54] }

/// The hashes of the master names of a plugin header's fields, read as
/// [`compare_found`] reads fields: each non-empty `MAST` field gives the
/// hash of its text before the first zero byte, trimmed and lowercased.
pub open spec fn master_hashes(data: Seq<u8>, pos: int, next: u32) -> Seq<u32>
    decreases data.len() - pos,
{
    if pos < 0 || pos + 6 > data.len() {
        Seq::empty()
    } else {
        let name = data.subrange(pos, pos + 4);
        let size: int = if next > 0 { next as int } else { le_u16(data, pos + 4) as int };
        let p2 = pos + 6;
        if size > data.len() - p2 {
            Seq::empty()
        } else {
            let fd = data.subrange(p2, p2 + size);
            let p3 = p2 + size;
            if name == sig_xxxx() {
                master_hashes(data, p3, if fd.len() >= 4 { le_u32(fd, 0) } else { 0 })
            } else if name == sig_mast() && fd.len() > 0 {
                seq![str_hash(crate::text::ascii_lower(crate::text::trim(utf8_lossy(nul_prefix(fd)))))]
                    + master_hashes(data, p3, 0)
            } else {
                master_hashes(data, p3, 0)
            }
        }
    }
}

/// What the comparing reader holds: master hashes and the entries added
/// (numbered after the entries it held before).
pub struct ExtractState {
    pub masters: Seq<u32>,
    pub entries: Seq<EntryV>,
}

/// What reading the records of a plugin from `pos` gives, or `None` when
/// a group or record header, or a record's data, is cut short. Groups are
/// not descended into as units: after a group header the records that
/// follow are read in file order. Compressed records that cannot be
/// decompressed are passed over. The plugin header's masters are taken
/// before its fields are read.
pub open spec fn extract_from(defs: Seq<TranslatableField>, files: StringsFiles, self_hash: u32, data: Seq<u8>,
    pos: int, base: nat, st: ExtractState) -> Option<ExtractState>
    decreases data.len() - pos,
{
    if pos < 0 || pos + 8 > data.len() {
        Some(st)
    } else if pos + 24 > data.len() {
        None
    } else if data.subrange(pos, pos + 4) == sig_grup() {
        extract_from(defs, files, self_hash, data, pos + 24, base, st)
    } else {
        let dsize = le_u32(data, pos + 4);
        if dsize > data.len() - pos - 24 {
            None
        } else {
            let name = data.subrange(pos, pos + 4);
            let rd = data.subrange(pos + 24, pos + 24 + dsize);
            let flags = le_u32(data, pos + 8);
            let form_id = le_u32(data, pos + 12);
            let q = pos + 24 + dsize;
            let fields = if flags & 0x0004_0000 != 0 { decompressed(rd) } else { Some(rd) };
            match fields {
                None => extract_from(defs, files, self_hash, data, q, base, st),
                Some(f) => {
                    let masters = if name == sig_tes4() { master_hashes(f, 0, 0) } else { st.masters };
                    let (owner, local) = form_identity(masters, self_hash, form_id);
                    let ps = compare_found(defs, files, name, f, 0, 0, None);
                    let st2 = ExtractState {
                        masters,
                        entries: st.entries + record_entries(ps, base + st.entries.len(), name, form_id, owner, local),
                    };
                    extract_from(defs, files, self_hash, data, q, base, st2)
                },
            }
        }
    }
}

/// Why a plugin could not be read for comparing.
#[derive(Clone, Copy, Debug, PartialEq, Eq, Structural)]
pub enum CompareReadError {
    /// A group or record header, or a record's data, is cut short.
    UnexpectedEof,
}

/// The reader that collects the strings of a plugin for comparing.
pub struct CompareExtractor {
    pub record_defs: Vec<TranslatableField>,
    pub strings_files: StringsFiles,
    pub master_owner_hashes: Vec<u32>,
    pub self_owner_hash: u32,
    pub entries: Vec<CompareEntry>,
}

/// The text whose hash marks a plugin's own forms.
pub open spec fn self_tag() -> Seq<char> {
    seq!['\0', 'c', 'o', 'm', 'p', 'a', 'r', 'e', '-', 's', 'e', 'l', 'f', '\0']
}

/// The hash that marks a plugin's own forms.
pub fn self_owner_hash() -> (r: u32)
    ensures
        r == str_hash(self_tag()),
{
    let tag: [char; 14] = ['\0', 'c', 'o', 'm', 'p', 'a', 'r', 'e', '-', 's', 'e', 'l', 'f', '\0'];
    let s = string_from_chars(&tag);
    assert(tag@ =~= self_tag());
    string_hash(s.as_str())
}

/// A string found in a record, before it is numbered.
struct PendingString {
    text: String,
    field_sig: [u8; 4],
    str_id: u32,
    edid_hash: u32,
}

/// `p` holds what `c` describes.
spec fn pending_is(p: PendingString, c: CFound) -> bool {
    p.text@ == c.text && p.field_sig@ == c.field_sig && p.str_id == c.str_id && p.edid_hash == c.edid_hash
}

/// The definition that applies to a field of a record.
fn find_def_in(defs: &Vec<TranslatableField>, rec: &[u8; 4], field: &[u8; 4]) -> (r: Option<TranslatableField>)
    ensures
        r == spec_find_def(defs@, rec@, field@),
{
    match crate::esp::parser::last_def_index(defs, rec, field) {
        Some(i) => Some(defs[i]),
        None => {
            let any: [u8; 4] = [0x2Au8, 0x2A, 0x2A, 0x2A];
            assert(any@ =~= crate::esp::parser::sig_any());
            match crate::esp::parser::last_def_index(defs, &any, field) {
                Some(i) => Some(defs[i]),
                None => None,
            }
        },
    }
}

/// The text of a string id, or `<ID:n>`.
fn text_of(files: &StringsFiles, list_index: u8, id: u32) -> (r: String)
    ensures
        r@ == source_text(*files, list_index, id),
{
    match files.get(list_index, id) {
        Some(t) => t.clone(),
        None => crate::esp::parser::placeholder_string(id),
    }
}

/// The strings found in a record's fields (see [`compare_found`]).
fn record_strings(defs: &Vec<TranslatableField>, files: &StringsFiles, record_sig: &[u8; 4], data: &[u8])
    -> (r: Vec<PendingString>)
    ensures
        r@.len() == compare_found(defs@, *files, record_sig@, data@, 0, 0, None).len(),
        forall|t: int| 0 <= t < r@.len()
            ==> pending_is(#[trigger] r@[t], compare_found(defs@, *files, record_sig@, data@, 0, 0, None)[t]),
{
    let ghost total = compare_found(defs@, *files, record_sig@, data@, 0, 0, None);
    let mut out: Vec<PendingString> = Vec::new();
    let mut pos: usize = 0;
    let mut next: u32 = 0;
    let mut edid: Option<String> = None;
    let mut done = false;
    let ghost mut acc: Seq<CFound> = Seq::empty();
    let is_gmst = crate::esp::parser::sig_is(record_sig, 0x47, 0x4D, 0x53, 0x54);
    while !done && pos < data.len() && data.len() - pos >= 6
        invariant
            pos <= data@.len(),
            is_gmst == (record_sig@ == sig_gmst()),
            out@.len() == acc.len(),
            forall|t: int| 0 <= t < out@.len() ==> pending_is(#[trigger] out@[t], acc[t]),
            done ==> compare_found(defs@, *files, record_sig@, data@, pos as int, next, crate::esp::parser::opt_text(edid)) == Seq::<CFound>::empty(),
            acc + compare_found(defs@, *files, record_sig@, data@, pos as int, next, crate::esp::parser::opt_text(edid)) == total,
        decreases data@.len() - pos, if done { 0int } else { 1int },
    {
        let name: [u8; 4] = [data[pos], data[pos + 1], data[pos + 2], data[pos + 3]];
        assert(name@ =~= data@.subrange(pos as int, pos + 4));
        let dsize = read_u16_le(data, pos + 4);
        let size: u32 = if next > 0 { next } else { dsize as u32 };
        let p2 = pos + 6;
        if size as usize > data.len() - p2 {
            done = true;
        } else {
            let ghost pos0 = pos as int;
            let ghost next0 = next;
            let ghost e0 = crate::esp::parser::opt_text(edid);
            let fd = copy_range(data, p2, p2 + size as usize);
            pos = p2 + size as usize;
            if crate::esp::parser::sig_is(&name, 0x58, 0x58, 0x58, 0x58) {
                next = if fd.len() >= 4 { read_u32_le(fd.as_slice(), 0) } else { 0 };
            } else {
                next = 0;
                if crate::esp::parser::sig_is(&name, 0x45, 0x44, 0x49, 0x44) && fd.len() > 0 {
                    let pre = crate::esp::parser::nul_prefix_of(fd.as_slice());
                    edid = Some(lossy_string(pre.as_slice()));
                }
                let ghost e2 = crate::esp::parser::opt_text(edid);
                let ghost rest = compare_found(defs@, *files, record_sig@, data@, pos as int, 0, e2);
                match find_def_in(defs, record_sig, &name) {
                    Some(d) => {
                        let is_string_gmst = match &edid {
                            Some(e) => e.as_str().unicode_len() > 0 && e.as_str().get_char(0) == 's',
                            None => false,
                        };
                        if is_gmst && crate::esp::parser::sig_is(&name, 0x44, 0x41, 0x54, 0x41) && !is_string_gmst {
                        } else if fd.len() >= 4 {
                            let sid = read_u32_le(fd.as_slice(), 0);
                            let text = text_of(files, d.list_index, sid);
                            if text.as_str().unicode_len() > 0 {
                                let eh = match &edid {
                                    Some(e) => string_hash(e.as_str()),
                                    None => 0,
                                };
                                let ghost c = CFound { text: text@, field_sig: name@, str_id: sid, edid_hash: eh };
                                out.push(PendingString { text, field_sig: name, str_id: sid, edid_hash: eh });
                                proof {
                                    assert(compare_found(defs@, *files, record_sig@, data@, pos0, next0, e0) == seq![c] + rest);
                                    assert(acc.push(c) + rest =~= acc + (seq![c] + rest));
                                    acc = acc.push(c);
                                }
                            }
                        }
                    },
                    None => {},
                }
            }
        }
    }
    proof {
        if !done {
            assert(compare_found(defs@, *files, record_sig@, data@, pos as int, next, crate::esp::parser::opt_text(edid)) =~= Seq::<CFound>::empty());
        }
        assert(acc =~= total);
    }
    out
}

/// How many of the first `n` pending strings have field signature `sig`.
fn count_sig(ps: &Vec<PendingString>, sig: &[u8; 4], n: usize, Ghost(cs): Ghost<Seq<CFound>>) -> (r: usize)
    requires
        n <= ps@.len(),
        ps@.len() == cs.len(),
        forall|t: int| 0 <= t < ps@.len() ==> pending_is(#[trigger] ps@[t], cs[t]),
    ensures
        r == sig_count(cs, sig@, n as int),
{
    let mut c: usize = 0;
    let mut i: usize = 0;
    while i < n
        invariant
            i <= n <= ps@.len(),
            ps@.len() == cs.len(),
            forall|t: int| 0 <= t < ps@.len() ==> pending_is(#[trigger] ps@[t], cs[t]),
            c == sig_count(cs, sig@, i as int),
            c <= i,
        decreases n - i,
    {
        assert(pending_is(ps@[i as int], cs[i as int]));
        if crate::bytes::sig_eq(&ps[i].field_sig, sig) {
            c = c + 1;
        }
        i = i + 1;
    }
    c
}

/// `n`, at most 65535 (see [`cap16`]).
fn cap_u16(n: usize) -> (r: u16)
    ensures
        r == cap16(n as nat),
{
    if n > 0xFFFF { 0xFFFF } else { n as u16 }
}

impl CompareExtractor {
    /// A reader with these definitions and tables, no master, and no entry.
    pub fn with_defs(record_defs: Vec<TranslatableField>, strings_files: StringsFiles) -> (r: Self)
        ensures
            r.record_defs@ == record_defs@,
            r.strings_files == strings_files,
            r.master_owner_hashes@.len() == 0,
            r.self_owner_hash == str_hash(self_tag()),
            r.entries@.len() == 0,
    {
        CompareExtractor {
            record_defs,
            strings_files,
            master_owner_hashes: Vec::new(),
            self_owner_hash: self_owner_hash(),
            entries: Vec::new(),
        }
    }

    /// The owner hash of plugin index `i` (see [`owner_hash`]).
    pub fn owner_hash_for_index(&self, i: usize) -> (r: u32)
        ensures
            r == owner_hash(self.master_owner_hashes@, self.self_owner_hash, i as int),
    {
        if i < self.master_owner_hashes.len() {
            self.master_owner_hashes[i]
        } else if i == self.master_owner_hashes.len() {
            self.self_owner_hash
        } else {
            0
        }
    }

    /// The owner hash and local id of a form id (see [`form_identity`]).
    pub fn normalize_form_identity(&self, form_id: u32) -> (r: (u32, u32))
        ensures
            r == form_identity(self.master_owner_hashes@, self.self_owner_hash, form_id),
    {
        if form_id == 0 {
            return (0, 0);
        }
        let (i, local) = split_form_id(form_id);
        let h = self.owner_hash_for_index(i);
        if h == 0 { (0, form_id) } else { (h, local) }
    }

    /// Replaces the master hashes by those of a plugin header's fields (see
    /// [`master_hashes`]).
    pub fn capture_tes4_masters(&mut self, data: &[u8])
        ensures
            final(self).master_owner_hashes@ == master_hashes(data@, 0, 0),
            final(self).record_defs == old(self).record_defs,
            final(self).strings_files == old(self).strings_files,
            final(self).self_owner_hash == old(self).self_owner_hash,
            final(self).entries == old(self).entries,
    {
        let mut hashes: Vec<u32> = Vec::new();
        let mut pos: usize = 0;
        let mut next: u32 = 0;
        let mut done = false;
        while !done && pos < data.len() && data.len() - pos >= 6
            invariant
                pos <= data@.len(),
                done ==> master_hashes(data@, pos as int, next) == Seq::<u32>::empty(),
                hashes@ + master_hashes(data@, pos as int, next) == master_hashes(data@, 0, 0),
            decreases data@.len() - pos, if done { 0int } else { 1int },
        {
            let name: [u8; 4] = [data[pos], data[pos + 1], data[pos + 2], data[pos + 3]];
            assert(name@ =~= data@.subrange(pos as int, pos + 4));
            let dsize = read_u16_le(data, pos + 4);
            let size: u32 = if next > 0 { next } else { dsize as u32 };
            let p2 = pos + 6;
            if size as usize > data.len() - p2 {
                done = true;
            } else {
                let ghost pos0 = pos as int;
                let ghost next0 = next;
                let fd = copy_range(data, p2, p2 + size as usize);
                pos = p2 + size as usize;
                if crate::esp::parser::sig_is(&name, 0x58, 0x58, 0x58, 0x58) {
                    next = if fd.len() >= 4 { read_u32_le(fd.as_slice(), 0) } else { 0 };
                } else {
                    next = 0;
                    if crate::esp::parser::sig_is(&name, 0x4D, 0x41, 0x53, 0x54) && fd.len() > 0 {
                        let pre = crate::esp::parser::nul_prefix_of(fd.as_slice());
                        let text = lossy_string(pre.as_slice());
                        let chars = chars_of(text.as_str());
                        let trimmed = trim_chars(&chars);
                        let lower = ascii_lower_vec(&trimmed);
                        let name_text = string_from_chars(lower.as_slice());
                        let h = string_hash(name_text.as_str());
                        let ghost before = hashes@;
                        hashes.push(h);
                        proof {
                            let rest = master_hashes(data@, pos as int, 0);
                            assert(master_hashes(data@, pos0, next0) == seq![h] + rest);
                            assert(hashes@ + rest =~= before + (seq![h] + rest));
                        }
                    }
                }
            }
        }
        proof {
            if !done {
                assert(master_hashes(data@, pos as int, next) =~= Seq::<u32>::empty());
            }
            assert(hashes@ =~= master_hashes(data@, 0, 0));
        }
        self.master_owner_hashes = hashes;
    }

    /// Adds the strings of one record's fields as entries (see
    /// [`compare_found`] and [`record_entries`]).
    pub fn parse_record_fields(&mut self, record_sig: &[u8; 4], form_id: u32, data: &[u8])
        ensures
            final(self).record_defs == old(self).record_defs,
            final(self).strings_files == old(self).strings_files,
            final(self).self_owner_hash == old(self).self_owner_hash,
            final(self).master_owner_hashes == old(self).master_owner_hashes,
            ({
                let id = form_identity(old(self).master_owner_hashes@, old(self).self_owner_hash, form_id);
                let ps = compare_found(old(self).record_defs@, old(self).strings_files, record_sig@, data@, 0, 0, None);
                let vs = record_entries(ps, old(self).entries@.len(), record_sig@, form_id, id.0, id.1);
                &&& final(self).entries@.len() == old(self).entries@.len() + vs.len()
                &&& forall|i: int| 0 <= i < old(self).entries@.len() ==> #[trigger] final(self).entries@[i] == old(self).entries@[i]
                &&& forall|t: int| 0 <= t < vs.len() ==> entry_is(#[trigger] final(self).entries@[old(self).entries@.len() + t], vs[t])
            }),
    {
        let ghost old_entries = self.entries@;
        let ghost s0 = *self;
        let ghost cs = compare_found(self.record_defs@, self.strings_files, record_sig@, data@, 0, 0, None);
        let ps = record_strings(&self.record_defs, &self.strings_files, record_sig, data);
        let (owner, local) = self.normalize_form_identity(form_id);
        let ghost vs = record_entries(cs, old_entries.len(), record_sig@, form_id, owner, local);
        let base = self.entries.len();
        let mut t: usize = 0;
        while t < ps.len()
            invariant
                t <= ps@.len(),
                ps@.len() == cs.len(),
                forall|k: int| 0 <= k < ps@.len() ==> pending_is(#[trigger] ps@[k], cs[k]),
                base == old_entries.len(),
                self.record_defs == s0.record_defs,
                self.strings_files == s0.strings_files,
                self.self_owner_hash == s0.self_owner_hash,
                self.master_owner_hashes == s0.master_owner_hashes,
                vs == record_entries(cs, old_entries.len(), record_sig@, form_id, owner, local),
                self.entries@.len() == base + t,
                forall|i: int| 0 <= i < base ==> #[trigger] self.entries@[i] == old_entries[i],
                forall|k: int| 0 <= k < t ==> entry_is(#[trigger] self.entries@[base + k], vs[k]),
            decreases ps@.len() - t,
        {
            let p = &ps[t];
            assert(pending_is(ps@[t as int], cs[t as int]));
            let before = count_sig(&ps, &p.field_sig, t, Ghost(cs));
            let total = count_sig(&ps, &p.field_sig, ps.len(), Ghost(cs));
            let occ = cap_u16(before);
            let all = cap_u16(total);
            let max: u16 = if all >= 2 { all - 1 } else { 0 };
            let id = (self.entries.len()) as u32;
            let source = p.text.clone();
            let e = CompareEntry {
                id,
                str_id: p.str_id as i32,
                source_hash: string_hash(source.as_str()),
                source,
                record_sig: *record_sig,
                field_sig: p.field_sig,
                form_id,
                form_owner_hash: owner,
                local_form_id: local,
                field_index: occ,
                field_index_max: max,
                edid_hash: p.edid_hash,
            };
            assert(entry_is(e, vs[t as int]));
            self.entries.push(e);
            t = t + 1;
        }
    }

    /// Reads the records of a plugin and adds their entries (see
    /// [`extract_from`]); fails when a header or a record's data is cut
    /// short.
    pub fn parse_data(&mut self, data: &[u8]) -> (r: Result<(), CompareReadError>)
        ensures
            final(self).record_defs == old(self).record_defs,
            final(self).strings_files == old(self).strings_files,
            final(self).self_owner_hash == old(self).self_owner_hash,
            match extract_from(old(self).record_defs@, old(self).strings_files, old(self).self_owner_hash, data@, 0,
                old(self).entries@.len(), ExtractState { masters: old(self).master_owner_hashes@, entries: Seq::empty() }) {
                Some(st) => r is Ok && final(self).master_owner_hashes@ == st.masters
                    && final(self).entries@.len() == old(self).entries@.len() + st.entries.len()
                    && (forall|i: int| 0 <= i < old(self).entries@.len() ==> #[trigger] final(self).entries@[i] == old(self).entries@[i])
                    && (forall|t: int| 0 <= t < st.entries.len()
                        ==> entry_is(#[trigger] final(self).entries@[old(self).entries@.len() + t], st.entries[t])),
                None => r is Err,
            },
    {
        let ghost defs = self.record_defs@;
        let ghost files = self.strings_files;
        let ghost sh = self.self_owner_hash;
        let ghost old_entries = self.entries@;
        let ghost base = old_entries.len();
        let ghost s0 = *self;
        let ghost total = extract_from(defs, files, sh, data@, 0, base,
            ExtractState { masters: self.master_owner_hashes@, entries: Seq::empty() });
        let ghost mut st = ExtractState { masters: self.master_owner_hashes@, entries: Seq::empty() };
        let mut pos: usize = 0;
        while pos < data.len() && data.len() - pos >= 8
            invariant
                pos <= data@.len(),
                defs == self.record_defs@,
                files == self.strings_files,
                sh == self.self_owner_hash,
                self.record_defs == old(self).record_defs,
                self.strings_files == old(self).strings_files,
                self.self_owner_hash == old(self).self_owner_hash,
                base == old_entries.len(),
                old_entries == old(self).entries@,
                total == extract_from(old(self).record_defs@, old(self).strings_files, old(self).self_owner_hash, data@, 0,
                    old(self).entries@.len(), ExtractState { masters: old(self).master_owner_hashes@, entries: Seq::empty() }),
                extract_from(defs, files, sh, data@, pos as int, base, st) == total,
                self.master_owner_hashes@ == st.masters,
                self.entries@.len() == base + st.entries.len(),
                forall|i: int| 0 <= i < base ==> #[trigger] self.entries@[i] == old_entries[i],
                forall|t: int| 0 <= t < st.entries.len() ==> entry_is(#[trigger] self.entries@[base + t], st.entries[t]),
            decreases data@.len() - pos,
        {
            if data.len() - pos < 24 {
                return Err(CompareReadError::UnexpectedEof);
            }
            let name: [u8; 4] = [data[pos], data[pos + 1], data[pos + 2], data[pos + 3]];
            assert(name@ =~= data@.subrange(pos as int, pos + 4));
            if crate::esp::parser::sig_is(&name, 0x47, 0x52, 0x55, 0x50) {
                pos = pos + 24;
            } else {
                let dsize = read_u32_le(data, pos + 4);
                if dsize as usize > data.len() - pos - 24 {
                    return Err(CompareReadError::UnexpectedEof);
                }
                let flags = read_u32_le(data, pos + 8);
                let form_id = read_u32_le(data, pos + 12);
                let rd = copy_range(data, pos + 24, pos + 24 + dsize as usize);
                let q = pos + 24 + dsize as usize;
                let fields: Option<Vec<u8>> = if flags & 0x0004_0000 != 0 {
                    match decompress_bethesda_record(rd.as_slice()) {
                        Ok(d) => {
                            assert(decompressed(rd@) == Some(d@));
                            Some(d)
                        },
                        Err(_) => {
                            assert(decompressed(rd@) is None);
                            None
                        },
                    }
                } else {
                    Some(rd)
                };
                match fields {
                    None => {},
                    Some(f) => {
                        if crate::esp::parser::sig_is(&name, 0x54, 0x45, 0x53, 0x34) {
                            self.capture_tes4_masters(f.as_slice());
                        }
                        let ghost masters = self.master_owner_hashes@;
                        let ghost idn = form_identity(masters, sh, form_id);
                        let ghost ps = compare_found(defs, files, name@, f@, 0, 0, None);
                        let ghost vs = record_entries(ps, base + st.entries.len(), name@, form_id, idn.0, idn.1);
                        let ghost prev = self.entries@;
                        self.parse_record_fields(&name, form_id, f.as_slice());
                        proof {
                            let st2 = ExtractState { masters, entries: st.entries + vs };
                            assert forall|t: int| 0 <= t < st2.entries.len() implies entry_is(#[trigger] self.entries@[base + t], st2.entries[t]) by {
                                if t < st.entries.len() {
                                    assert(self.entries@[base + t] == prev[base + t]);
                                } else {
                                    let u = t - st.entries.len();
                                    assert(self.entries@[prev.len() + u] == self.entries@[base + t]);
                                }
                            }
                            st = st2;
                        }
                    },
                }
                pos = q;
            }
        }
        Ok(())
    }
}

/// The entries of a plugin's strings for comparing, read with these
/// definitions and tables (see [`extract_from`]).
pub fn extract_compare_entries(record_defs: Vec<TranslatableField>, strings_files: StringsFiles, data: &[u8])
    -> (r: Result<Vec<CompareEntry>, CompareReadError>)
    ensures
        match extract_from(record_defs@, strings_files, str_hash(self_tag()), data@, 0, 0,
            ExtractState { masters: Seq::empty(), entries: Seq::empty() }) {
            Some(st) => r matches Ok(es) && entries_are(es@, st.entries),
            None => r is Err,
        },
{
    let mut ex = CompareExtractor::with_defs(record_defs, strings_files);
    assert(ex.master_owner_hashes@ =~= Seq::<u32>::empty());
    let ghost defs = ex.record_defs@;
    let ghost files = ex.strings_files;
    match ex.parse_data(data) {
        Ok(()) => {
            proof {
                let total = extract_from(defs, files, str_hash(self_tag()), data@, 0, 0,
                    ExtractState { masters: Seq::empty(), entries: Seq::empty() });
                if let Some(st) = total {
                    assert forall|i: int| 0 <= i < ex.entries@.len() implies entry_is(#[trigger] ex.entries@[i], st.entries[i]) by {
                        assert(ex.entries@[0 + i] == ex.entries@[i]);
                    }
                }
            }
            Ok(ex.entries)
        },
        Err(e) => Err(e),
    }
}

proof fn lemma_self_sorting(es: Seq<CompareEntry>, j: int)
    requires
        0 <= j <= es.len(),
    ensures
        sorting_from(es, es, j).added == Set::<u32>::empty(),
        sorting_from(es, es, j).modified == Set::<u32>::empty(),
    decreases es.len() - j,
{
    if j < es.len() {
        lemma_self_sorting(es, j + 1);
    }
}

/// Comparing a list of strings with itself finds nothing added, modified
/// or removed.
pub proof fn law_self_comparison_is_identical(es: Seq<CompareEntry>)
    ensures
        sorting_from(es, es, 0).added == Set::<u32>::empty(),
        sorting_from(es, es, 0).modified == Set::<u32>::empty(),
        removed_ids(es, es) == Set::<u32>::empty(),
{
    lemma_self_sorting(es, 0);
    assert forall|id: u32| !removed_ids(es, es).contains(id) by {
        if removed_ids(es, es).contains(id) {
            let i = choose|i: int| 0 <= i < es.len() && #[trigger] es[i].id == id
                && last_with_key(es, key_of(es[i]), es.len() as int) == Some(i)
                && last_with_key(es, key_of(es[i]), es.len() as int) is None;
        }
    }
    assert(removed_ids(es, es) =~= Set::<u32>::empty());
}

/// The ids of entries are all different.
pub open spec fn distinct_ids(es: Seq<CompareEntry>) -> bool {
    forall|a: int, b: int| 0 <= a < es.len() && 0 <= b < es.len() && a != b ==> es[a].id != es[b].id
}

proof fn lemma_sorting_untouched(olds: Seq<CompareEntry>, news: Seq<CompareEntry>, m: int, id: u32)
    requires
        0 <= m <= news.len(),
        forall|t: int| m <= t < news.len() ==> #[trigger] news[t].id != id,
    ensures
        !sorting_from(olds, news, m).matched.contains_key(id),
        !sorting_from(olds, news, m).added.contains(id),
        !sorting_from(olds, news, m).modified.contains(id),
        !sorting_from(olds, news, m).modified_pairs.contains_key(id),
    decreases news.len() - m,
{
    if m < news.len() {
        lemma_sorting_untouched(olds, news, m + 1, id);
    }
}

proof fn lemma_sorting_kept(olds: Seq<CompareEntry>, news: Seq<CompareEntry>, m: int, j: int)
    requires
        0 <= m <= j < news.len(),
        distinct_ids(news),
    ensures
        ({
            let id = news[j].id;
            let a = sorting_from(olds, news, m);
            let b = sorting_from(olds, news, j);
            &&& a.matched.contains_key(id) == b.matched.contains_key(id)
            &&& (b.matched.contains_key(id) ==> a.matched[id] == b.matched[id])
            &&& a.added.contains(id) == b.added.contains(id)
            &&& a.modified.contains(id) == b.modified.contains(id)
            &&& a.modified_pairs.contains_key(id) == b.modified_pairs.contains_key(id)
            &&& (b.modified_pairs.contains_key(id) ==> a.modified_pairs[id] == b.modified_pairs[id])
        }),
    decreases j - m,
{
    if m < j {
        lemma_sorting_kept(olds, news, m + 1, j);
        assert(news[m].id != news[j].id);
    }
}

/// With distinct ids, a new string that is the last with its key ends up
/// in exactly one place: identical (paired with the last old string of its
/// key) when that old string holds the same text, modified (paired the same
/// way) when it holds another, and added when no old string has its key.
pub proof fn law_new_string_sorted_once(olds: Seq<CompareEntry>, news: Seq<CompareEntry>, j: int)
    requires
        0 <= j < news.len(),
        distinct_ids(news),
        last_with_key(news, key_of(news[j]), news.len() as int) == Some(j),
    ensures
        ({
            let s = sorting_from(olds, news, 0);
            let id = news[j].id;
            match last_with_key(olds, key_of(news[j]), olds.len() as int) {
                Some(oi) => if same_text(olds[oi], news[j]) {
                    s.matched.contains_key(id) && s.matched[id] == olds[oi].id
                        && !s.added.contains(id) && !s.modified.contains(id)
                } else {
                    s.modified.contains(id) && s.modified_pairs.contains_key(id) && s.modified_pairs[id] == olds[oi].id
                        && !s.matched.contains_key(id) && !s.added.contains(id)
                },
                None => s.added.contains(id) && !s.matched.contains_key(id) && !s.modified.contains(id),
            }
        }),
{
    assert forall|t: int| j + 1 <= t < news.len() implies #[trigger] news[t].id != news[j].id by {}
    lemma_sorting_untouched(olds, news, j + 1, news[j].id);
    lemma_sorting_kept(olds, news, 0, j);
}

} // verus!
