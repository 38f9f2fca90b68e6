//! The cache of parsed plugins: the content hash that keys a plugin's
//! cache file, payload, version check, record counts and which old cache
//! files to remove. Files are read and written around it.
use vstd::prelude::*;
use crate::types::{SkyString, SkyStringView};
use crate::md5::{hex_lower, hex_digit_char};
use crate::text::string_push;
use sha2::Digest;

verus! {

/// The SHA-256 digest of a byte sequence.
pub uninterp spec fn sha256_of(data: Seq<u8>) -> Seq<u8>;

/// `Sha256::digest` of the `sha2` crate. Claims only that the result is the
/// digest of the input and that a digest has 32 bytes; the algorithm itself
/// is the crate's.
#[verifier::external_body]
fn sha256_digest(data: &[u8]) -> (r: Vec<u8>)
    ensures
        r@ == sha256_of(data@),
        r@.len() == 32,
{
    sha2::Sha256::digest(data).to_vec()
}

/// The SHA-256 of `data` as 64 lower-case hexadecimal digits: the key of a
/// plugin's cache file.
pub fn sha256_hex(data: &[u8]) -> (r: String)
    ensures
        r@ == hex_lower(sha256_of(data@)),
        r@.len() == 64,
{
    let digest = sha256_digest(data);
    let mut out = String::new();
    let mut i: usize = 0;
    while i < digest.len()
        invariant
            i <= digest@.len(),
            out@ == hex_lower(digest@.take(i as int)),
        decreases digest@.len() - i,
    {
        let b = digest[i];
        assert(digest@.take(i + 1).drop_last() =~= digest@.take(i as int));
        string_push(&mut out, hex_digit_char(b / 16));
        string_push(&mut out, hex_digit_char(b % 16));
        i = i + 1;
        assert(out@ =~= hex_lower(digest@.take(i as int)));
    }
    assert(digest@.take(digest@.len() as int) =~= digest@);
    proof {
        crate::md5::lemma_hex_lower_len(digest@);
    }
    out
}

/// The version of the cache format.
pub const CACHE_VERSION: u32 = 1;

/// What a cache file holds: the parsed strings and parse statistics.
pub struct CachePayload {
    pub version: u32,
    pub strings: Vec<SkyString>,
    pub compressed_records: u32,
    pub strings_loaded: u8,
}

/// The cache of parsed plugins kept in `cache_dir`, at most `max_entries` files.
pub struct EsmCache {
    pub cache_dir: String,
    pub max_entries: usize,
}

/// How many of the first `k` strings have record signature text `label`.
pub open spec fn label_count(ss: Seq<SkyStringView>, label: Seq<char>, k: int) -> nat
    decreases k,
{
    if k <= 0 {
        0
    } else {
        label_count(ss, label, k - 1) + if crate::text::utf8_lossy(ss[k - 1].esp_ptr.record_sig@) == label { 1nat } else { 0nat }
    }
}

impl EsmCache {
    /// A cache in `cache_dir` keeping at most `max_entries` files.
    pub fn new(cache_dir: String, max_entries: usize) -> (r: Self)
        ensures
            r.cache_dir@ == cache_dir@,
            r.max_entries == max_entries,
    {
        EsmCache { cache_dir, max_entries }
    }

    /// A payload read from the cache is used only when it has the current
    /// version.
    pub fn accept_payload(payload: CachePayload) -> (r: Option<CachePayload>)
        ensures
            payload.version == CACHE_VERSION ==> r == Some(payload),
            payload.version != CACHE_VERSION ==> r is None,
    {
        if payload.version != CACHE_VERSION {
            None
        } else {
            Some(payload)
        }
    }

    /// The number of strings of each record signature (as text), each
    /// signature once, in order of first appearance.
    pub fn compute_record_counts(strings: &[SkyString]) -> (r: Vec<(String, usize)>)
        ensures
            forall|a: int, b: int| 0 <= a < b < r@.len() ==> r@[a].0@ != r@[b].0@,
            forall|k: int| 0 <= k < r@.len() ==> #[trigger] r@[k].1 == label_count(
                crate::matching::select::views(strings@), r@[k].0@, strings@.len() as int),
            forall|i: int| #![trigger strings@[i]] 0 <= i < strings@.len() ==> exists|k: int| 0 <= k < r@.len()
                && #[trigger] r@[k].0@ == crate::text::utf8_lossy(strings@[i].esp_ptr.record_sig@),
    {
        let ghost sv = crate::matching::select::views(strings@);
        let mut out: Vec<(String, usize)> = Vec::new();
        let mut i: usize = 0;
        while i < strings.len()
            invariant
                i <= strings@.len(),
                sv == crate::matching::select::views(strings@),
                forall|a: int, b: int| 0 <= a < b < out@.len() ==> out@[a].0@ != out@[b].0@,
                forall|k: int| 0 <= k < out@.len() ==> #[trigger] out@[k].1 == label_count(sv, out@[k].0@, i as int),
                forall|k: int| 0 <= k < out@.len() ==> label_count(sv, #[trigger] out@[k].0@, i as int) > 0,
                forall|j: int| #![trigger sv[j]] 0 <= j < i ==> exists|k: int| 0 <= k < out@.len()
                    && #[trigger] out@[k].0@ == crate::text::utf8_lossy(sv[j].esp_ptr.record_sig@),
                forall|lab: Seq<char>| #[trigger] label_count(sv, lab, i as int) > 0 ==>
                    exists|k: int| 0 <= k < out@.len() && #[trigger] out@[k].0@ == lab,
                forall|lab: Seq<char>| #[trigger] label_count(sv, lab, i as int) <= i,
            decreases strings@.len() - i,
        {
            let label = crate::text::lossy_string(strings[i].esp_ptr.record_sig.as_slice());
            assert(sv[i as int].esp_ptr.record_sig == strings@[i as int].esp_ptr.record_sig);
            let ghost old_out = out@;
            let mut found: Option<usize> = None;
            let mut k: usize = 0;
            while k < out.len()
                invariant
                    k <= out@.len(),
                    found is None ==> forall|q: int| 0 <= q < k ==> out@[q].0@ != label@,
                    found matches Some(f) ==> f < out@.len() && out@[f as int].0@ == label@,
                decreases out@.len() - k,
            {
                if found.is_none() && out[k].0 == label {
                    found = Some(k);
                }
                k = k + 1;
            }
            match found {
                Some(f) => {
                    let c = out[f].1;
                    assert(c as int == label_count(sv, out@[f as int].0@, i as int));
                    let name = out[f].0.clone();
                    out.set(f, (name, c + 1));
                },
                None => {
                    out.push((label, 1));
                },
            }
            proof {
                let lab_i = crate::text::utf8_lossy(sv[i as int].esp_ptr.record_sig@);
                assert(lab_i == label@);
                assert forall|lab: Seq<char>| #[trigger] label_count(sv, lab, i + 1) == label_count(sv, lab, i as int)
                    + if lab == lab_i { 1nat } else { 0nat } by {}
                assert forall|k: int| 0 <= k < out@.len() implies #[trigger] out@[k].1 == label_count(sv, out@[k].0@, i + 1) by {
                    if k < old_out.len() {
                        if found != Some(k as usize) {
                            assert(out@[k] == old_out[k]);
                        }
                    }
                }
                assert forall|j: int| #![trigger sv[j]] 0 <= j < i + 1 implies exists|k: int| 0 <= k < out@.len()
                    && #[trigger] out@[k].0@ == crate::text::utf8_lossy(sv[j].esp_ptr.record_sig@) by {
                    if j < i {
                        let k0 = choose|k: int| 0 <= k < old_out.len() && #[trigger] old_out[k].0@ == crate::text::utf8_lossy(sv[j].esp_ptr.record_sig@);
                        assert(out@[k0].0@ == old_out[k0].0@);
                    } else {
                        match found {
                            Some(f) => assert(out@[f as int].0@ == label@),
                            None => assert(out@[old_out.len() as int].0@ == label@),
                        }
                    }
                }
                assert forall|lab: Seq<char>| #[trigger] label_count(sv, lab, i + 1) > 0 implies
                    exists|k: int| 0 <= k < out@.len() && #[trigger] out@[k].0@ == lab by {
                    if lab == lab_i {
                        match found {
                            Some(f) => assert(out@[f as int].0@ == label@),
                            None => assert(out@[old_out.len() as int].0@ == label@),
                        }
                    } else {
                        assert(label_count(sv, lab, i as int) > 0);
                        let k0 = choose|k: int| 0 <= k < old_out.len() && #[trigger] old_out[k].0@ == lab;
                        assert(out@[k0].0@ == old_out[k0].0@);
                    }
                }
            }
            i = i + 1;
        }
        assert forall|i: int| #![trigger strings@[i]] 0 <= i < strings@.len() implies exists|k: int| 0 <= k < out@.len()
            && #[trigger] out@[k].0@ == crate::text::utf8_lossy(strings@[i].esp_ptr.record_sig@) by {
            assert(sv[i].esp_ptr.record_sig == strings@[i].esp_ptr.record_sig);
        }
        out
    }

    /// The cache files to remove when there are more than `max_entries`:
    /// the oldest first (by modification time; files of equal time in the
    /// order given), as many as exceed the limit.
    pub fn files_to_prune(&self, files: &Vec<(u64, String)>) -> (r: Vec<String>)
        ensures
            files@.len() <= self.max_entries ==> r@.len() == 0,
            files@.len() > self.max_entries ==> exists|p: Seq<usize>| #[trigger] u64_stable_sorted(times_of(files@), p)
                && r@.len() == files@.len() - self.max_entries
                && forall|k: int| 0 <= k < r@.len() ==> #[trigger] r@[k]@ == files@[p[k] as int].1@,
    {
        let mut out: Vec<String> = Vec::new();
        if files.len() <= self.max_entries {
            return out;
        }
        let mut times: Vec<u64> = Vec::new();
        let mut i: usize = 0;
        while i < files.len()
            invariant
                i <= files@.len(),
                times@ == times_of(files@).take(i as int),
            decreases files@.len() - i,
        {
            times.push(files[i].0);
            i = i + 1;
            assert(times@ =~= times_of(files@).take(i as int));
        }
        assert(times_of(files@).take(files@.len() as int) =~= times_of(files@));
        let order = sort_indices_by_u64(&times);
        let to_remove = files.len() - self.max_entries;
        let mut k: usize = 0;
        while k < to_remove
            invariant
                k <= to_remove,
                to_remove == files@.len() - self.max_entries,
                u64_stable_sorted(times_of(files@), order@),
                out@.len() == k,
                forall|q: int| 0 <= q < k ==> #[trigger] out@[q]@ == files@[order@[q] as int].1@,
            decreases to_remove - k,
        {
            let j = order[k];
            out.push(files[j].1.clone());
            k = k + 1;
        }
        out
    }
}

/// The times of a list of (time, path) pairs.
pub open spec fn times_of(files: Seq<(u64, String)>) -> Seq<u64> {
    files.map_values(|f: (u64, String)| f.0)
}

/// `p` lists every index of `keys` once, by ascending key, equal keys in
/// index order.
pub open spec fn u64_stable_sorted(keys: Seq<u64>, p: Seq<usize>) -> bool {
    &&& p.len() == keys.len()
    &&& forall|i: int| 0 <= i < p.len() ==> #[trigger] p[i] < keys.len()
    &&& forall|i: int, j: int| 0 <= i < j < p.len() ==> p[i] != p[j]
    &&& forall|i: int, j: int| 0 <= i < j < p.len() ==>
            keys[#[trigger] p[i] as int] < keys[#[trigger] p[j] as int]
            || (keys[p[i] as int] == keys[p[j] as int] && p[i] < p[j])
}

/// The indices of `keys` in stable ascending order (see [`u64_stable_sorted`]).
pub fn sort_indices_by_u64(keys: &Vec<u64>) -> (r: Vec<usize>)
    ensures
        u64_stable_sorted(keys@, r@),
{
    let n = keys.len();
    let mut r: Vec<usize> = Vec::new();
    let mut k: usize = 0;
    while k < n
        invariant
            k <= n,
            n == keys@.len(),
            r@.len() == k,
            forall|i: int| 0 <= i < r@.len() ==> #[trigger] r@[i] < k,
            forall|i: int, j: int| 0 <= i < j < r@.len() ==> r@[i] != r@[j],
            forall|i: int, j: int| 0 <= i < j < r@.len() ==>
                keys@[#[trigger] r@[i] as int] < keys@[#[trigger] r@[j] as int]
                || (keys@[r@[i] as int] == keys@[r@[j] as int] && r@[i] < r@[j]),
        decreases n - k,
    {
        let mut pos: usize = r.len();
        while pos > 0 && keys[k] < keys[r[pos - 1]]
            invariant
                pos <= r@.len(),
                r@.len() == k,
                k < n,
                n == keys@.len(),
                forall|i: int| 0 <= i < r@.len() ==> #[trigger] r@[i] < k,
                forall|i: int| pos <= i < r@.len() ==> keys@[k as int] < keys@[#[trigger] r@[i] as int],
            decreases pos,
        {
            pos = pos - 1;
        }
        let ghost old_r = r@;
        r.insert(pos, k);
        proof {
            assert(r@ =~= old_r.insert(pos as int, k));
            assert forall|i: int, j: int| 0 <= i < j < r@.len() implies
                keys@[#[trigger] r@[i] as int] < keys@[#[trigger] r@[j] as int]
                || (keys@[r@[i] as int] == keys@[r@[j] as int] && r@[i] < r@[j]) by {
                if j < pos {
                    assert(r@[i] == old_r[i] && r@[j] == old_r[j]);
                } else if j == pos {
                    assert(r@[i] == old_r[i]);
                    if pos > 0 && i == pos - 1 {
                    } else {
                        assert(keys@[old_r[i] as int] < keys@[old_r[pos - 1] as int]
                            || (keys@[old_r[i] as int] == keys@[old_r[pos - 1] as int] && old_r[i] < old_r[pos - 1]));
                    }
                } else if i == pos {
                    assert(r@[j] == old_r[j - 1]);
                } else if i < pos {
                    assert(r@[i] == old_r[i] && r@[j] == old_r[j - 1]);
                } else {
                    assert(r@[i] == old_r[i - 1] && r@[j] == old_r[j - 1]);
                }
            }
        }
        k = k + 1;
    }
    r
}

} // verus!
