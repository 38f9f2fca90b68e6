//! Finding the candidate strings of a dictionary entry, tier by tier.
use vstd::prelude::*;
use crate::matching::{DictionaryApplyEntry, SstOverwriteScope, SstMatchMode, ApplyPolicy, MatchTier};
use crate::matching::model::{TierMatch, EntryOutcome};
use crate::types::{SkyString, SkyStringView, SkyStringParams, SkyStringInternalParams};
use crate::bytes::sig_eq;

verus! {

/// The views of a list of strings.
pub open spec fn views(s: Seq<SkyString>) -> Seq<SkyStringView> {
    s.map_values(|x: SkyString| x@)
}

/// Whether a field signature is VMAD (see [`crate::matching::model::is_vmad_sig`]).
pub fn is_vmad_field(sig: &[u8; 4]) -> (r: bool)
    ensures
        r == crate::matching::model::is_vmad_sig(*sig),
{
    let r = sig[0] == 0x56u8 && sig[1] == 0x4Du8 && sig[2] == 0x41u8 && sig[3] == 0x44u8;
    if r {
        assert(sig@ =~= seq![0x56u8, 0x4Du8, 0x41u8, 0x44u8]);
    } else {
        assert(sig@[0] == sig[0] && sig@[1] == sig[1] && sig@[2] == sig[2] && sig@[3] == sig[3]);
    }
    r
}

/// Whether the string is a script string (see [`crate::matching::model::is_vmad`]).
pub fn is_vmad_string(sk: &SkyString) -> (r: bool)
    ensures
        r == crate::matching::model::is_vmad(sk@),
{
    sk.internal_params.is_set(SkyStringInternalParams::IS_VMAD_STRING)
        || (sk.esp_ptr.str_id < 0 && is_vmad_field(&sk.esp_ptr.field_sig))
}

/// Whether `v` holds `x`.
pub fn u32s_contain(v: &Vec<u32>, x: u32) -> (r: bool)
    ensures
        r == v@.contains(x),
{
    let mut i: usize = 0;
    while i < v.len()
        invariant
            i <= v@.len(),
            forall|k: int| 0 <= k < i ==> v@[k] != x,
        decreases v@.len() - i,
    {
        if v[i] == x {
            assert(v@[i as int] == x);
            return true;
        }
        i = i + 1;
    }
    false
}

/// Whether an optional id list is given and holds `id`.
pub fn id_listed(ids: &Option<Vec<u32>>, id: u32) -> (r: bool)
    ensures
        r == crate::matching::model::id_in(*ids, id),
{
    match ids {
        Some(v) => u32s_contain(v, id),
        None => false,
    }
}

/// Whether the string may receive an entry under the policy
/// (see [`crate::matching::model::eligible`]).
pub fn is_candidate_eligible(sk: &SkyString, policy: &ApplyPolicy) -> (r: bool)
    ensures
        r == crate::matching::model::eligible(sk@, *policy),
{
    let is_vmad = is_vmad_string(sk);
    let locked_vmad_is_target = is_vmad && policy.sst_options.is_some();
    if (sk.params.is_locked() && !locked_vmad_is_target)
        || sk.internal_params.is_set(SkyStringInternalParams::PEX_NO_TRANS) {
        return false;
    }
    match &policy.sst_options {
        None => true,
        Some(opts) => {
            if is_vmad && opts.match_mode == SstMatchMode::StringOnly {
                match opts.overwrite_scope {
                    SstOverwriteScope::All
                    | SstOverwriteScope::NoTransExclusive
                    | SstOverwriteScope::NoTransAndPartial => {
                        return false;
                    },
                    SstOverwriteScope::PartialOnly | SstOverwriteScope::Selection => {},
                }
            }
            if opts.restrict_to_filter && !id_listed(&opts.filtered_ids, sk.id) {
                return false;
            }
            match opts.overwrite_scope {
                SstOverwriteScope::All => true,
                SstOverwriteScope::NoTransExclusive => !sk.params.is_translated() && !sk.params.is_validated(),
                SstOverwriteScope::NoTransAndPartial => !sk.params.is_translated() && !sk.params.is_validated()
                    && !sk.params.is_incomplete(),
                SstOverwriteScope::PartialOnly => sk.params.is_incomplete(),
                SstOverwriteScope::Selection => id_listed(&opts.selected_ids, sk.id),
            }
        },
    }
}

/// Whether the string is not yet matched and may receive an entry.
pub fn is_open_candidate(sk: &SkyString, matched: &Vec<u32>, policy: &ApplyPolicy) -> (r: bool)
    ensures
        r == crate::matching::model::open_candidate(sk@, matched@, *policy),
{
    !u32s_contain(matched, sk.id) && is_candidate_eligible(sk, policy)
}

/// The exact tier (see [`crate::matching::model::tier_exact`]).
pub fn find_exact(strings: &Vec<SkyString>, e: &DictionaryApplyEntry, matched: &Vec<u32>, policy: &ApplyPolicy) -> (r: TierMatch)
    ensures
        r == crate::matching::model::tier_exact(views(strings@), *e, matched@, *policy),
        r matches TierMatch::Unique(i) ==> i < strings@.len(),
{
    let ghost sv = views(strings@);
    let ghost n = strings@.len() as int;
    let ghost p = |i: int| crate::matching::model::exact_candidate(sv, *e, matched@, *policy, i);
    let mut found: Option<usize> = None;
    let mut i: usize = 0;
    while i < strings.len()
        invariant
            i <= n,
            n == strings@.len(),
            sv == views(strings@),
            p == (|i: int| crate::matching::model::exact_candidate(sv, *e, matched@, *policy, i)),
            match found {
                None => forall|k: int| 0 <= k < i ==> !#[trigger] p(k),
                Some(f) => f < i && p(f as int) && forall|k: int| 0 <= k < i && k != f ==> !#[trigger] p(k),
            },
        decreases n - i,
    {
        let sk = &strings[i];
        let hit = sk.esp_ptr.str_id == e.str_id && sig_eq(&sk.esp_ptr.record_sig, &e.record_sig)
            && sig_eq(&sk.esp_ptr.field_sig, &e.field_sig) && is_open_candidate(sk, matched, policy);
        assert(hit == p(i as int));
        if hit {
            match found {
                Some(f) => {
                    proof { crate::matching::model::lemma_pick_ambiguous(n, p, f as int, i as int); }
                    return TierMatch::Ambiguous;
                },
                None => {
                    found = Some(i);
                },
            }
        }
        i = i + 1;
    }
    match found {
        None => {
            proof { crate::matching::model::lemma_pick_none(n, p); }
            TierMatch::NoMatch
        },
        Some(f) => {
            proof { crate::matching::model::lemma_pick_unique(n, p, f as int); }
            TierMatch::Unique(f)
        },
    }
}

/// What a tier finds from the list of which strings are its candidates.
fn pick_hits(hits: &Vec<bool>, Ghost(p): Ghost<spec_fn(int) -> bool>) -> (r: TierMatch)
    requires
        forall|i: int| 0 <= i < hits@.len() ==> hits@[i] == #[trigger] p(i),
    ensures
        r == crate::matching::model::pick(hits@.len() as int, p),
        r matches TierMatch::Unique(i) ==> i < hits@.len(),
{
    let ghost n = hits@.len() as int;
    let mut found: Option<usize> = None;
    let mut i: usize = 0;
    while i < hits.len()
        invariant
            i <= n,
            n == hits@.len(),
            forall|i: int| 0 <= i < hits@.len() ==> hits@[i] == #[trigger] p(i),
            match found {
                None => forall|k: int| 0 <= k < i ==> !#[trigger] p(k),
                Some(f) => f < i && p(f as int) && forall|k: int| 0 <= k < i && k != f ==> !#[trigger] p(k),
            },
        decreases n - i,
    {
        if hits[i] {
            assert(p(i as int));
            match found {
                Some(f) => {
                    proof { crate::matching::model::lemma_pick_ambiguous(n, p, f as int, i as int); }
                    return TierMatch::Ambiguous;
                },
                None => {
                    found = Some(i);
                },
            }
        } else {
            assert(!p(i as int));
        }
        i = i + 1;
    }
    match found {
        None => {
            proof { crate::matching::model::lemma_pick_none(n, p); }
            TierMatch::NoMatch
        },
        Some(f) => {
            proof { crate::matching::model::lemma_pick_unique(n, p, f as int); }
            TierMatch::Unique(f)
        },
    }
}

/// Whether the string's pointer names the entry's record and field.
fn names_rec_field(sk: &SkyString, e: &DictionaryApplyEntry) -> (r: bool)
    ensures
        r == crate::matching::model::rec_field_eq(sk@, *e),
{
    sig_eq(&sk.esp_ptr.record_sig, &e.record_sig) && sig_eq(&sk.esp_ptr.field_sig, &e.field_sig)
}

/// The editor id hash of an entry (see [`crate::matching::model::entry_edid_hash`]).
pub fn entry_edid_hash(e: &DictionaryApplyEntry) -> (r: Option<u32>)
    ensures
        r == crate::matching::model::entry_edid_hash(*e),
{
    match e.edid_hash {
        Some(h) => Some(h),
        None => match &e.edid {
            Some(edid) => {
                if edid.as_str().unicode_len() > 0 {
                    Some(crate::types::string_hash(edid.as_str()))
                } else {
                    None
                }
            },
            None => None,
        },
    }
}

/// The editor id tier (see [`crate::matching::model::tier_edid`]).
pub fn find_edid(strings: &Vec<SkyString>, e: &DictionaryApplyEntry, matched: &Vec<u32>, policy: &ApplyPolicy) -> (r: TierMatch)
    ensures
        r == crate::matching::model::tier_edid(views(strings@), *e, matched@, *policy),
        r matches TierMatch::Unique(i) ==> i < strings@.len(),
{
    let ghost sv = views(strings@);
    let ghost n = strings@.len() as int;
    let h = match entry_edid_hash(e) {
        None => {
            return TierMatch::NoMatch;
        },
        Some(h) => h,
    };
    let ghost p = |i: int| crate::matching::model::edid_candidate(sv, *e, matched@, *policy, h, i);
    let mut hits: Vec<bool> = Vec::new();
    let mut i: usize = 0;
    while i < strings.len()
        invariant
            i <= n,
            n == strings@.len(),
            sv == views(strings@),
            p == (|i: int| crate::matching::model::edid_candidate(sv, *e, matched@, *policy, h, i)),
            hits@.len() == i,
            forall|k: int| 0 <= k < i ==> hits@[k] == #[trigger] p(k),
        decreases n - i,
    {
        let sk = &strings[i];
        let hit = sk.esp_ptr.edid_hash == h && names_rec_field(sk, e) && is_open_candidate(sk, matched, policy);
        hits.push(hit);
        i = i + 1;
    }
    let first = pick_hits(&hits, Ghost(p));
    match first {
        TierMatch::Ambiguous => {},
        _ => {
            return first;
        },
    }
    let nh = match crate::types::normalized_source_hash(e.source.as_str()) {
        None => {
            return TierMatch::Ambiguous;
        },
        Some(nh) => nh,
    };
    let ghost q = |i: int| crate::matching::model::edid_norm_candidate(sv, *e, matched@, *policy, h, nh, i);
    let mut hits2: Vec<bool> = Vec::new();
    let mut j: usize = 0;
    while j < strings.len()
        invariant
            j <= n,
            n == strings@.len(),
            sv == views(strings@),
            q == (|i: int| crate::matching::model::edid_norm_candidate(sv, *e, matched@, *policy, h, nh, i)),
            hits2@.len() == j,
            forall|k: int| 0 <= k < j ==> hits2@[k] == #[trigger] q(k),
        decreases n - j,
    {
        let sk = &strings[j];
        let hit = sk.esp_ptr.edid_hash == h && names_rec_field(sk, e) && is_open_candidate(sk, matched, policy)
            && sk.normalized_hash == Some(nh);
        hits2.push(hit);
        j = j + 1;
    }
    match pick_hits(&hits2, Ghost(q)) {
        TierMatch::Unique(k) => TierMatch::Unique(k),
        _ => TierMatch::Ambiguous,
    }
}

/// The normalised tier (see [`crate::matching::model::tier_normalized`]).
pub fn find_normalized(strings: &Vec<SkyString>, e: &DictionaryApplyEntry, matched: &Vec<u32>, policy: &ApplyPolicy) -> (r: TierMatch)
    ensures
        r == crate::matching::model::tier_normalized(views(strings@), *e, matched@, *policy),
        r matches TierMatch::Unique(i) ==> i < strings@.len(),
{
    let ghost sv = views(strings@);
    let ghost n = strings@.len() as int;
    let nh = match crate::types::normalized_source_hash(e.source.as_str()) {
        None => {
            return TierMatch::NoMatch;
        },
        Some(nh) => nh,
    };
    let ghost p = |i: int| crate::matching::model::norm_candidate(sv, *e, matched@, *policy, nh, i);
    let mut hits: Vec<bool> = Vec::new();
    let mut i: usize = 0;
    while i < strings.len()
        invariant
            i <= n,
            n == strings@.len(),
            sv == views(strings@),
            p == (|i: int| crate::matching::model::norm_candidate(sv, *e, matched@, *policy, nh, i)),
            hits@.len() == i,
            forall|k: int| 0 <= k < i ==> hits@[k] == #[trigger] p(k),
        decreases n - i,
    {
        let sk = &strings[i];
        let hit = sk.normalized_hash == Some(nh) && names_rec_field(sk, e) && is_open_candidate(sk, matched, policy);
        hits.push(hit);
        i = i + 1;
    }
    pick_hits(&hits, Ghost(p))
}

/// The FormID with a uniform load-order byte
/// (see [`crate::matching::model::sanitize_form_id`]).
pub fn sanitize_form_id(form_id: u32) -> (r: u32)
    ensures
        r == crate::matching::model::sanitize_form_id(form_id),
{
    let high = (form_id >> 24u32) as u8;
    if high == 0 {
        form_id
    } else if high == 0xFE {
        if ((form_id >> 12u32) & 0xFF) == 0 {
            form_id
        } else {
            (form_id & !(0xFFFu32 << 12u32)) | (1u32 << 12u32)
        }
    } else if high == 0xFD {
        if ((form_id >> 16u32) & 0xFF) == 0 {
            form_id
        } else {
            (form_id & !(0xFFu32 << 16u32)) | (1u32 << 16u32)
        }
    } else {
        (form_id & 0x00FF_FFFFu32) | (1u32 << 24u32)
    }
}

/// The SST FormID key (see [`crate::matching::model::tier_form_id`]).
pub fn find_form_id(
    strings: &Vec<SkyString>,
    e: &DictionaryApplyEntry,
    matched: &Vec<u32>,
    policy: &ApplyPolicy,
    require_source: bool,
    require_index: bool,
) -> (r: TierMatch)
    ensures
        r == crate::matching::model::tier_form_id(views(strings@), *e, matched@, *policy, require_source, require_index),
        r matches TierMatch::Unique(i) ==> i < strings@.len(),
{
    let ghost sv = views(strings@);
    let ghost n = strings@.len() as int;
    let ghost p = |i: int| crate::matching::model::form_id_candidate(sv, *e, matched@, *policy, require_source, require_index, i);
    let key = sanitize_form_id(e.form_id);
    let edid_hash: u32 = match e.edid_hash {
        Some(h) => h,
        None => 0,
    };
    let entry_is_vmad = is_vmad_field(&e.field_sig);
    let source_hash = crate::types::string_hash(e.source.as_str());
    let mut hits: Vec<bool> = Vec::new();
    let mut i: usize = 0;
    while i < strings.len()
        invariant
            i <= n,
            n == strings@.len(),
            sv == views(strings@),
            p == (|i: int| crate::matching::model::form_id_candidate(sv, *e, matched@, *policy, require_source, require_index, i)),
            key == crate::matching::model::sanitize_form_id(e.form_id),
            edid_hash == (match e.edid_hash { Some(h) => h, None => 0u32 }),
            entry_is_vmad == crate::matching::model::is_vmad_sig(e.field_sig),
            source_hash == crate::types::str_hash(e.source@),
            hits@.len() == i,
            forall|k: int| 0 <= k < i ==> hits@[k] == #[trigger] p(k),
        decreases n - i,
    {
        let sk = &strings[i];
        let hit = sanitize_form_id(sk.esp_ptr.form_id) == key
            && sk.esp_ptr.edid_hash == edid_hash
            && is_open_candidate(sk, matched, policy)
            && sig_eq(&sk.esp_ptr.field_sig, &e.field_sig)
            && is_vmad_string(sk) == entry_is_vmad
            && (!require_source || (sk.hash == source_hash && sk.source == e.source))
            && (!require_index || sk.esp_ptr.index == e.index);
        hits.push(hit);
        i = i + 1;
    }
    pick_hits(&hits, Ghost(p))
}

/// The elements of `v` without repetition (see [`crate::matching::model::distinct`]).
pub fn distinct_u32(v: &Vec<u32>) -> (r: Vec<u32>)
    ensures
        r@ == crate::matching::model::distinct(v@),
{
    let mut out: Vec<u32> = Vec::new();
    let mut i: usize = 0;
    while i < v.len()
        invariant
            i <= v@.len(),
            out@ == crate::matching::model::distinct(v@.take(i as int)),
        decreases v@.len() - i,
    {
        assert(v@.take(i + 1).drop_last() =~= v@.take(i as int));
        if !u32s_contain(&out, v[i]) {
            out.push(v[i]);
        }
        i = i + 1;
    }
    assert(v@.take(v@.len() as int) =~= v@);
    out
}

/// How many elements of `d` occur in `b` (see [`crate::matching::model::count_in`]).
pub fn count_in_u32(d: &Vec<u32>, b: &Vec<u32>) -> (r: usize)
    ensures
        r == crate::matching::model::count_in(d@, b@),
{
    let mut c: usize = 0;
    let mut i: usize = 0;
    while i < d.len()
        invariant
            i <= d@.len(),
            c == crate::matching::model::count_in(d@.take(i as int), b@),
        decreases d@.len() - i,
    {
        assert(d@.take(i + 1).drop_last() =~= d@.take(i as int));
        proof { crate::matching::model::lemma_count_in_len(d@.take(i as int), b@); }
        if u32s_contain(b, d[i]) {
            c = c + 1;
        }
        i = i + 1;
    }
    assert(d@.take(d@.len() as int) =~= d@);
    c
}

/// The vocabulary tier (see [`crate::matching::model::tier_vocab`]): the
/// candidate with the strictly highest Jaccard similarity, compared exactly
/// as fractions.
pub fn find_vocab(strings: &Vec<SkyString>, e: &DictionaryApplyEntry, matched: &Vec<u32>, policy: &ApplyPolicy) -> (r: TierMatch)
    requires
        e.source@.len() <= u32::MAX,
        forall|k: int| 0 <= k < strings@.len() ==> #[trigger] strings@[k].word_hashes@.len() <= u32::MAX,
    ensures
        r == crate::matching::model::tier_vocab(views(strings@), *e, matched@, *policy),
        r matches TierMatch::Unique(i) ==> i < strings@.len(),
{
    let ghost sv = views(strings@);
    let ghost n = strings@.len() as int;
    let ew = crate::types::source_word_hashes(e.source.as_str());
    if ew.len() == 0 {
        return TierMatch::NoMatch;
    }
    let de = distinct_u32(&ew);
    proof {
        crate::text::lemma_alnum_runs_len(e.source@);
        crate::matching::model::lemma_distinct_len(ew@);
    }
    let ghost q = |k: int| crate::matching::model::vocab_candidate(sv, *e, matched@, *policy, ew@, k);
    let ghost o = |k: int| crate::matching::model::overlap(ew@, sv[k].word_hashes) as int;
    let ghost u = |k: int| crate::matching::model::union_size(ew@, sv[k].word_hashes);
    let mut best: Option<usize> = None;
    let mut best_ov: u128 = 0;
    let mut best_un: u128 = 1;
    let mut tied = false;
    let mut i: usize = 0;
    while i < strings.len()
        invariant
            i <= n,
            n == strings@.len(),
            sv == views(strings@),
            ew@ == crate::types::run_hashes(e.source@),
            de@ == crate::matching::model::distinct(ew@),
            0 < de@.len() <= u32::MAX,
            best_ov <= 0x1_0000_0000u128,
            best_un <= 0x2_0000_0000u128,
            forall|k: int| 0 <= k < strings@.len() ==> #[trigger] strings@[k].word_hashes@.len() <= u32::MAX,
            q == (|k: int| crate::matching::model::vocab_candidate(sv, *e, matched@, *policy, ew@, k)),
            o == (|k: int| crate::matching::model::overlap(ew@, sv[k].word_hashes) as int),
            u == (|k: int| crate::matching::model::union_size(ew@, sv[k].word_hashes)),
            match best {
                None => forall|k: int| 0 <= k < i ==> !#[trigger] q(k),
                Some(b) => {
                    &&& b < i
                    &&& q(b as int)
                    &&& best_ov == o(b as int)
                    &&& best_un == u(b as int)
                    &&& u(b as int) > 0
                    &&& forall|k: int| 0 <= k < i && #[trigger] q(k) ==> o(k) * u(b as int) <= o(b as int) * u(k)
                    &&& tied <==> exists|k: int| 0 <= k < i && k != b && #[trigger] q(k) && o(b as int) * u(k) <= o(k) * u(b as int)
                },
            },
        decreases n - i,
    {
        let sk = &strings[i];
        let cand = names_rec_field(sk, e) && is_open_candidate(sk, matched, policy) && sk.word_hashes.len() > 0;
        if cand {
            let ov = count_in_u32(&de, &sk.word_hashes);
            let db = distinct_u32(&sk.word_hashes);
            proof {
                crate::matching::model::lemma_count_in_len(de@, sk.word_hashes@);
                crate::matching::model::lemma_distinct_len(sk.word_hashes@);
            }
            let un: u64 = de.len() as u64 + db.len() as u64 - ov as u64;
            assert(ov as int == o(i as int) && un as int == u(i as int));
            if 2 * (ov as u64) >= un {
                assert(q(i as int));
                let ov128 = ov as u128;
                let un128 = un as u128;
                assert(ov128 * best_un <= 0x1_0000_0000u128 * 0x2_0000_0000u128) by (nonlinear_arith)
                    requires ov128 <= 0x1_0000_0000u128, best_un <= 0x2_0000_0000u128;
                assert(best_ov * un128 <= 0x1_0000_0000u128 * 0x2_0000_0000u128) by (nonlinear_arith)
                    requires best_ov <= 0x1_0000_0000u128, un128 <= 0x2_0000_0000u128;
                let left = ov128 * best_un;
                let right = best_ov * un128;
                match best {
                    None => {
                        best = Some(i);
                        best_ov = ov128;
                        best_un = un128;
                        tied = false;
                    },
                    Some(b) => {
                        if left > right {
                            proof {
                                assert forall|k: int| 0 <= k < i + 1 && #[trigger] q(k) implies o(k) * u(i as int) <= o(i as int) * u(k) by {
                                    if k < i {
                                        crate::matching::model::lemma_union_pos(ew@, sv[k].word_hashes);
                                        crate::matching::model::lemma_frac_trans(o(k), u(k), o(b as int), u(b as int), o(i as int), u(i as int));
                                    }
                                }
                                assert forall|k: int| 0 <= k < i + 1 && k != i && #[trigger] q(k) implies !(o(i as int) * u(k) <= o(k) * u(i as int)) by {
                                    crate::matching::model::lemma_union_pos(ew@, sv[k].word_hashes);
                                    crate::matching::model::lemma_frac_trans(o(k), u(k), o(b as int), u(b as int), o(i as int), u(i as int));
                                }
                            }
                            best = Some(i);
                            best_ov = ov128;
                            best_un = un128;
                            tied = false;
                        } else if left == right {
                            tied = true;
                        }
                    },
                }
            } else {
                assert(!q(i as int));
            }
        } else {
            assert(!q(i as int));
        }
        i = i + 1;
    }
    match best {
        None => {
            assert forall|k: int| 0 <= k < n implies !#[trigger] crate::matching::model::vocab_candidate(sv, *e, matched@, *policy, ew@, k) by {
                assert(!q(k));
            }
            TierMatch::NoMatch
        },
        Some(b) => {
            assert(crate::matching::model::vocab_candidate(sv, *e, matched@, *policy, ew@, b as int));
            if tied {
                proof {
                    assert forall|c: int| !#[trigger] crate::matching::model::vocab_best(sv, *e, matched@, *policy, ew@, c) by {
                        let k = choose|k: int| 0 <= k < n && k != b && #[trigger] q(k) && o(b as int) * u(k) <= o(k) * u(b as int);
                        if crate::matching::model::vocab_best(sv, *e, matched@, *policy, ew@, c) {
                            if c == b as int {
                                assert(q(k));
                            } else {
                                assert(q(c));
                                assert(q(b as int));
                            }
                        }
                    }
                }
                TierMatch::Ambiguous
            } else {
                proof {
                    assert forall|j: int| 0 <= j < n && j != b && #[trigger] crate::matching::model::vocab_candidate(sv, *e, matched@, *policy, ew@, j)
                        implies crate::matching::model::jaccard_lt(ew@, sv[j].word_hashes, sv[b as int].word_hashes) by {
                        assert(q(j));
                    }
                    assert(crate::matching::model::vocab_best(sv, *e, matched@, *policy, ew@, b as int));
                    assert forall|c: int| #[trigger] crate::matching::model::vocab_best(sv, *e, matched@, *policy, ew@, c) implies c == b as int by {
                        if c != b as int {
                            assert(q(c));
                            assert(q(b as int));
                        }
                    }
                }
                TierMatch::Unique(b)
            }
        },
    }
}

/// Whether the strings' word lists and the entries' sources stay within the
/// sizes the exact similarity arithmetic handles.
pub open spec fn sizes_ok(strings: Seq<SkyString>, entries: Seq<DictionaryApplyEntry>) -> bool {
    &&& forall|k: int| 0 <= k < strings.len() ==> #[trigger] strings[k].word_hashes@.len() <= u32::MAX
    &&& forall|k: int| 0 <= k < entries.len() ==> #[trigger] entries[k].source@.len() <= u32::MAX
}

/// What the tiers find for an entry (see [`crate::matching::model::match_entry`]).
pub fn match_entry_with_policy(strings: &Vec<SkyString>, e: &DictionaryApplyEntry, matched: &Vec<u32>, policy: &ApplyPolicy) -> (r: EntryOutcome)
    requires
        e.source@.len() <= u32::MAX,
        forall|k: int| 0 <= k < strings@.len() ==> #[trigger] strings@[k].word_hashes@.len() <= u32::MAX,
    ensures
        r == crate::matching::model::match_entry(views(strings@), *e, matched@, *policy),
        r matches EntryOutcome::Matched(_, i) ==> i < strings@.len(),
{
    match &policy.sst_options {
        Some(opts) => {
            let is_vmad_entry = is_vmad_field(&e.field_sig);
            let t = match opts.match_mode {
                SstMatchMode::FormIdOnly => find_form_id(strings, e, matched, policy, is_vmad_entry, true),
                SstMatchMode::FormIdStrictString => find_form_id(strings, e, matched, policy, true, true),
                SstMatchMode::FormIdRelaxedString => find_form_id(strings, e, matched, policy, true, is_vmad_entry),
                SstMatchMode::StringOnly => {
                    // The string-only mode goes target by target instead.
                    return EntryOutcome::Unmatched;
                },
            };
            match t {
                TierMatch::Unique(idx) => EntryOutcome::Matched(MatchTier::Exact, idx),
                TierMatch::Ambiguous => EntryOutcome::Ambiguous,
                TierMatch::NoMatch => EntryOutcome::Unmatched,
            }
        },
        None => {
            match find_exact(strings, e, matched, policy) {
                TierMatch::Unique(idx) => {
                    return EntryOutcome::Matched(MatchTier::Exact, idx);
                },
                TierMatch::Ambiguous => {
                    return EntryOutcome::Ambiguous;
                },
                TierMatch::NoMatch => {},
            }
            match find_edid(strings, e, matched, policy) {
                TierMatch::Unique(idx) => {
                    return EntryOutcome::Matched(MatchTier::Edid, idx);
                },
                TierMatch::Ambiguous => {
                    return EntryOutcome::Ambiguous;
                },
                TierMatch::NoMatch => {},
            }
            match find_normalized(strings, e, matched, policy) {
                TierMatch::Unique(idx) => {
                    return EntryOutcome::Matched(MatchTier::Normalized, idx);
                },
                TierMatch::Ambiguous => {
                    return EntryOutcome::Ambiguous;
                },
                TierMatch::NoMatch => {},
            }
            match find_vocab(strings, e, matched, policy) {
                TierMatch::Unique(idx) => EntryOutcome::Matched(MatchTier::Vocab, idx),
                TierMatch::Ambiguous => EntryOutcome::Ambiguous,
                TierMatch::NoMatch => EntryOutcome::Unmatched,
            }
        },
    }
}

/// The two terms of the Jaccard similarity of two hash lists taken as
/// sets: the number of hashes they share and the number in either.
pub fn jaccard_terms(a: &Vec<u32>, b: &Vec<u32>) -> (r: (usize, u128))
    ensures
        r.0 as int == crate::matching::model::overlap(a@, b@),
        r.1 as int == crate::matching::model::union_size(a@, b@),
{
    let da = distinct_u32(a);
    let db = distinct_u32(b);
    let common = count_in_u32(&da, b);
    proof {
        crate::matching::model::lemma_count_in_len(da@, b@);
    }
    (common, da.len() as u128 + db.len() as u128 - common as u128)
}

} // verus!
