//! The matcher as mathematics: which strings are candidates, what each tier
//! selects, what applying an entry does to a string, and the passes over the
//! entries and the targets.
use vstd::prelude::*;
use crate::matching::{
    DictionaryApplyEntry, DictionarySourceFormat, SstOverwriteScope, SstMatchMode,
    SstApplyOptions, ApplyPolicy, MatchTier,
};
use crate::types::{SkyStringView, SkyStringParams, SkyStringInternalParams, EspPointer};

verus! {

/// What one tier found for an entry.
#[derive(Debug, Clone, Copy, PartialEq, Eq, Structural)]
pub enum TierMatch {
    /// No candidate.
    NoMatch,
    /// Exactly one candidate: the index of the string.
    Unique(usize),
    /// More than one candidate.
    Ambiguous,
}

/// What the tiers together found for an entry.
#[derive(Debug, Clone, Copy, PartialEq, Eq, Structural)]
pub enum EntryOutcome {
    Matched(MatchTier, usize),
    Ambiguous,
    Unmatched,
}

/// Whether a matched entry was applied or skipped as pending.
#[derive(Debug, Clone, Copy, PartialEq, Eq, Structural)]
pub enum ApplyEffect {
    Applied,
    PendingSkipped,
}

// ---------------------------------------------------------------------------
// Candidates

/// The field signature of script (VMAD) strings.
pub open spec fn is_vmad_sig(sig: [u8; 4]) -> bool {
    sig@ == seq![0x56u8, 0x4Du8, 0x41u8, 0x44u8]
}

/// A script string: flagged as one, or with a negative string id in a VMAD field.
pub open spec fn is_vmad(sk: SkyStringView) -> bool {
    crate::types::has_flag(sk.internal, SkyStringInternalParams::IS_VMAD_STRING)
        || (sk.esp_ptr.str_id < 0 && is_vmad_sig(sk.esp_ptr.field_sig))
}

/// Whether an optional id list is given and holds `id`.
pub open spec fn id_in(ids: Option<Vec<u32>>, id: u32) -> bool {
    match ids {
        Some(v) => v@.contains(id),
        None => false,
    }
}

/// Whether the string lies in the overwrite scope of the SST options.
pub open spec fn in_scope(sk: SkyStringView, o: SstApplyOptions) -> bool {
    let p = sk.params;
    match o.overwrite_scope {
        SstOverwriteScope::All => true,
        SstOverwriteScope::NoTransExclusive => !crate::types::has_flag(p, SkyStringParams::TRANSLATED)
            && !crate::types::has_flag(p, SkyStringParams::VALIDATED),
        SstOverwriteScope::NoTransAndPartial => !crate::types::has_flag(p, SkyStringParams::TRANSLATED)
            && !crate::types::has_flag(p, SkyStringParams::VALIDATED)
            && !crate::types::has_flag(p, SkyStringParams::INCOMPLETE_TRANS),
        SstOverwriteScope::PartialOnly => crate::types::has_flag(p, SkyStringParams::INCOMPLETE_TRANS),
        SstOverwriteScope::Selection => id_in(o.selected_ids, sk.id),
    }
}

/// Whether a string may receive a dictionary entry under the policy: it is
/// not locked (script strings may be, under SST options), not marked as
/// untranslatable, and, under SST options, it is in scope and filter; in the
/// string-only mode script strings are only taken from the partial-only and
/// selection scopes.
pub open spec fn eligible(sk: SkyStringView, policy: ApplyPolicy) -> bool {
    let vmad = is_vmad(sk);
    let locked_vmad_ok = vmad && policy.sst_options is Some;
    if (crate::types::has_flag(sk.params, SkyStringParams::LOCKED_TRANS) && !locked_vmad_ok)
        || crate::types::has_flag(sk.internal, SkyStringInternalParams::PEX_NO_TRANS) {
        false
    } else {
        match policy.sst_options {
            None => true,
            Some(o) => {
                &&& !(vmad && o.match_mode == SstMatchMode::StringOnly
                    && (o.overwrite_scope == SstOverwriteScope::All
                        || o.overwrite_scope == SstOverwriteScope::NoTransExclusive
                        || o.overwrite_scope == SstOverwriteScope::NoTransAndPartial))
                &&& (!o.restrict_to_filter || id_in(o.filtered_ids, sk.id))
                &&& in_scope(sk, o)
            },
        }
    }
}

/// A string not yet matched in this pass that may receive an entry.
pub open spec fn open_candidate(sk: SkyStringView, matched: Seq<u32>, policy: ApplyPolicy) -> bool {
    !matched.contains(sk.id) && eligible(sk, policy)
}

/// What a tier finds among `n` strings of which those satisfying `p` are candidates.
pub open spec fn pick(n: int, p: spec_fn(int) -> bool) -> TierMatch {
    if !(exists|i: int| 0 <= i < n && #[trigger] p(i)) {
        TierMatch::NoMatch
    } else if exists|i: int, j: int| 0 <= i < j < n && #[trigger] p(i) && #[trigger] p(j) {
        TierMatch::Ambiguous
    } else {
        TierMatch::Unique((choose|i: int| 0 <= i < n && #[trigger] p(i)) as usize)
    }
}

pub proof fn lemma_pick_none(n: int, p: spec_fn(int) -> bool)
    requires
        forall|i: int| 0 <= i < n ==> !#[trigger] p(i),
    ensures
        pick(n, p) == TierMatch::NoMatch,
{
}

pub proof fn lemma_pick_unique(n: int, p: spec_fn(int) -> bool, f: int)
    requires
        0 <= f < n,
        f <= usize::MAX,
        p(f),
        forall|i: int| 0 <= i < n && i != f ==> !#[trigger] p(i),
    ensures
        pick(n, p) == TierMatch::Unique(f as usize),
{
    assert(exists|i: int| 0 <= i < n && #[trigger] p(i));
}

pub proof fn lemma_pick_ambiguous(n: int, p: spec_fn(int) -> bool, f: int, g: int)
    requires
        0 <= f < g < n,
        p(f),
        p(g),
    ensures
        pick(n, p) == TierMatch::Ambiguous,
{
    assert(exists|i: int| 0 <= i < n && #[trigger] p(i));
    assert(exists|i: int, j: int| 0 <= i < j < n && #[trigger] p(i) && #[trigger] p(j));
}

/// Record and field signature of the string's pointer equal the entry's.
pub open spec fn rec_field_eq(sk: SkyStringView, e: DictionaryApplyEntry) -> bool {
    sk.esp_ptr.record_sig@ == e.record_sig@ && sk.esp_ptr.field_sig@ == e.field_sig@
}

/// Exact tier: same string id, record and field.
pub open spec fn exact_candidate(strings: Seq<SkyStringView>, e: DictionaryApplyEntry, matched: Seq<u32>, policy: ApplyPolicy, i: int) -> bool {
    strings[i].esp_ptr.str_id == e.str_id && rec_field_eq(strings[i], e)
        && open_candidate(strings[i], matched, policy)
}

pub open spec fn tier_exact(strings: Seq<SkyStringView>, e: DictionaryApplyEntry, matched: Seq<u32>, policy: ApplyPolicy) -> TierMatch {
    pick(strings.len() as int, |i: int| exact_candidate(strings, e, matched, policy, i))
}

/// The editor id hash of an entry: the one it carries, else the hash of a
/// non-empty editor id.
pub open spec fn entry_edid_hash(e: DictionaryApplyEntry) -> Option<u32> {
    match e.edid_hash {
        Some(h) => Some(h),
        None => match e.edid {
            Some(s) => if s@.len() > 0 { Some(crate::types::str_hash(s@)) } else { None },
            None => None,
        },
    }
}

/// Editor id tier: same editor id hash, record and field.
pub open spec fn edid_candidate(strings: Seq<SkyStringView>, e: DictionaryApplyEntry, matched: Seq<u32>, policy: ApplyPolicy, h: u32, i: int) -> bool {
    strings[i].esp_ptr.edid_hash == h && rec_field_eq(strings[i], e)
        && open_candidate(strings[i], matched, policy)
}

/// An editor id candidate whose normalised source hashes to `nh`.
pub open spec fn edid_norm_candidate(strings: Seq<SkyStringView>, e: DictionaryApplyEntry, matched: Seq<u32>, policy: ApplyPolicy, h: u32, nh: u32, i: int) -> bool {
    edid_candidate(strings, e, matched, policy, h, i) && strings[i].normalized_hash == Some(nh)
}

/// Editor id tier: a single candidate wins; among several, the one whose
/// normalised source equals the entry's wins if it is alone.
pub open spec fn tier_edid(strings: Seq<SkyStringView>, e: DictionaryApplyEntry, matched: Seq<u32>, policy: ApplyPolicy) -> TierMatch {
    let n = strings.len() as int;
    match entry_edid_hash(e) {
        None => TierMatch::NoMatch,
        Some(h) => match pick(n, |i: int| edid_candidate(strings, e, matched, policy, h, i)) {
            TierMatch::Ambiguous => match crate::types::normalized_hash_of(e.source@) {
                None => TierMatch::Ambiguous,
                Some(nh) => match pick(n, |i: int| edid_norm_candidate(strings, e, matched, policy, h, nh, i)) {
                    TierMatch::Unique(i) => TierMatch::Unique(i),
                    _ => TierMatch::Ambiguous,
                },
            },
            other => other,
        },
    }
}

/// Normalised tier: same normalised source hash, record and field.
pub open spec fn norm_candidate(strings: Seq<SkyStringView>, e: DictionaryApplyEntry, matched: Seq<u32>, policy: ApplyPolicy, nh: u32, i: int) -> bool {
    strings[i].normalized_hash == Some(nh) && rec_field_eq(strings[i], e)
        && open_candidate(strings[i], matched, policy)
}

pub open spec fn tier_normalized(strings: Seq<SkyStringView>, e: DictionaryApplyEntry, matched: Seq<u32>, policy: ApplyPolicy) -> TierMatch {
    match crate::types::normalized_hash_of(e.source@) {
        None => TierMatch::NoMatch,
        Some(nh) => pick(strings.len() as int, |i: int| norm_candidate(strings, e, matched, policy, nh, i)),
    }
}

/// The elements of `s` without repetition, in order of first occurrence.
pub open spec fn distinct(s: Seq<u32>) -> Seq<u32>
    decreases s.len(),
{
    if s.len() == 0 {
        s
    } else {
        let d = distinct(s.drop_last());
        if d.contains(s.last()) { d } else { d.push(s.last()) }
    }
}

/// How many elements of `d` occur in `b`.
pub open spec fn count_in(d: Seq<u32>, b: Seq<u32>) -> nat
    decreases d.len(),
{
    if d.len() == 0 {
        0
    } else {
        count_in(d.drop_last(), b) + if b.contains(d.last()) { 1nat } else { 0nat }
    }
}

/// Dropping repetitions never lengthens a list, and keeps a non-empty list non-empty.
pub proof fn lemma_distinct_len(s: Seq<u32>)
    ensures
        distinct(s).len() <= s.len(),
        s.len() > 0 ==> distinct(s).len() > 0,
    decreases s.len(),
{
    if s.len() > 0 {
        lemma_distinct_len(s.drop_last());
    }
}

/// At most every element of `d` occurs in `b`.
pub proof fn lemma_count_in_len(d: Seq<u32>, b: Seq<u32>)
    ensures
        count_in(d, b) <= d.len(),
    decreases d.len(),
{
    if d.len() > 0 {
        lemma_count_in_len(d.drop_last(), b);
    }
}

/// The union of a list with a non-empty list is not empty.
pub proof fn lemma_union_pos(a: Seq<u32>, b: Seq<u32>)
    requires
        b.len() > 0,
    ensures
        union_size(a, b) >= distinct(b).len() > 0,
{
    lemma_count_in_len(distinct(a), b);
    lemma_distinct_len(b);
}

/// Comparing fractions with positive denominators is transitive.
pub proof fn lemma_frac_trans(ok: int, uk: int, ob: int, ub: int, oi: int, ui: int)
    by (nonlinear_arith)
    requires
        uk > 0,
        ub > 0,
        ui > 0,
        ok * ub <= ob * uk,
        ob * ui < oi * ub,
    ensures
        ok * ui < oi * uk,
{
    assert(ok * ub * ui <= ob * uk * ui);
    assert(ob * ui * uk < oi * ub * uk);
    assert(ok * ui * ub < oi * uk * ub);
}

/// The number of distinct hashes the two lists share.
pub open spec fn overlap(a: Seq<u32>, b: Seq<u32>) -> nat {
    count_in(distinct(a), b)
}

/// The number of distinct hashes in either list.
pub open spec fn union_size(a: Seq<u32>, b: Seq<u32>) -> int {
    distinct(a).len() + distinct(b).len() - overlap(a, b)
}

/// The Jaccard similarity of the two hash sets is at least one half.
pub open spec fn jaccard_at_least_half(a: Seq<u32>, b: Seq<u32>) -> bool {
    2 * overlap(a, b) >= union_size(a, b)
}

/// The Jaccard similarity of `a` with `b1` is below that with `b2`.
pub open spec fn jaccard_lt(a: Seq<u32>, b1: Seq<u32>, b2: Seq<u32>) -> bool {
    overlap(a, b1) * union_size(a, b2) < overlap(a, b2) * union_size(a, b1)
}

/// Vocabulary tier: same record and field, words in common with at least
/// half of the words of both.
pub open spec fn vocab_candidate(strings: Seq<SkyStringView>, e: DictionaryApplyEntry, matched: Seq<u32>, policy: ApplyPolicy, ew: Seq<u32>, i: int) -> bool {
    &&& rec_field_eq(strings[i], e)
    &&& open_candidate(strings[i], matched, policy)
    &&& strings[i].word_hashes.len() > 0
    &&& jaccard_at_least_half(ew, strings[i].word_hashes)
}

/// The candidate whose similarity exceeds that of every other candidate.
pub open spec fn vocab_best(strings: Seq<SkyStringView>, e: DictionaryApplyEntry, matched: Seq<u32>, policy: ApplyPolicy, ew: Seq<u32>, i: int) -> bool {
    &&& 0 <= i < strings.len()
    &&& vocab_candidate(strings, e, matched, policy, ew, i)
    &&& forall|j: int| 0 <= j < strings.len() && j != i && #[trigger] vocab_candidate(strings, e, matched, policy, ew, j)
            ==> jaccard_lt(ew, strings[j].word_hashes, strings[i].word_hashes)
}

/// Vocabulary tier: the candidate with the strictly highest similarity
/// wins; a tie at the top is ambiguous.
pub open spec fn tier_vocab(strings: Seq<SkyStringView>, e: DictionaryApplyEntry, matched: Seq<u32>, policy: ApplyPolicy) -> TierMatch {
    let ew = crate::types::run_hashes(e.source@);
    let n = strings.len() as int;
    if ew.len() == 0 {
        TierMatch::NoMatch
    } else if !(exists|i: int| 0 <= i < n && #[trigger] vocab_candidate(strings, e, matched, policy, ew, i)) {
        TierMatch::NoMatch
    } else if exists|i: int| #[trigger] vocab_best(strings, e, matched, policy, ew, i) {
        TierMatch::Unique((choose|i: int| #[trigger] vocab_best(strings, e, matched, policy, ew, i)) as usize)
    } else {
        TierMatch::Ambiguous
    }
}

/// The FormID with its load-order byte made uniform: plugin masters get 1;
/// light and medium masters get their index bits set to 1.
pub open spec fn sanitize_form_id(form_id: u32) -> u32 {
    let high = (form_id >> 24u32) as u8;
    if high == 0 {
        form_id
    } else if high == 0xFE {
        if ((form_id >> 12u32) & 0xFF) == 0 {
            form_id
        } else {
            (form_id & !(0xFFFu32 << 12u32)) | (1u32 << 12u32)
        }
    } else if high == 0xFD {
        if ((form_id >> 16u32) & 0xFF) == 0 {
            form_id
        } else {
            (form_id & !(0xFFu32 << 16u32)) | (1u32 << 16u32)
        }
    } else {
        (form_id & 0x00FF_FFFFu32) | (1u32 << 24u32)
    }
}

/// SST FormID key: same sanitised FormID, editor id hash and field, same
/// script-ness, and, as asked, the same source and field index.
pub open spec fn form_id_candidate(strings: Seq<SkyStringView>, e: DictionaryApplyEntry, matched: Seq<u32>, policy: ApplyPolicy, require_source: bool, require_index: bool, i: int) -> bool {
    let sk = strings[i];
    &&& sanitize_form_id(sk.esp_ptr.form_id) == sanitize_form_id(e.form_id)
    &&& sk.esp_ptr.edid_hash == (match e.edid_hash { Some(h) => h, None => 0u32 })
    &&& open_candidate(sk, matched, policy)
    &&& sk.esp_ptr.field_sig@ == e.field_sig@
    &&& is_vmad(sk) == is_vmad_sig(e.field_sig)
    &&& (!require_source || (sk.hash == crate::types::str_hash(e.source@) && sk.source == e.source@))
    &&& (!require_index || sk.esp_ptr.index == e.index)
}

pub open spec fn tier_form_id(strings: Seq<SkyStringView>, e: DictionaryApplyEntry, matched: Seq<u32>, policy: ApplyPolicy, require_source: bool, require_index: bool) -> TierMatch {
    pick(strings.len() as int, |i: int| form_id_candidate(strings, e, matched, policy, require_source, require_index, i))
}

/// The outcome of one tier's answer, given the tier.
pub open spec fn outcome_of(t: TierMatch, tier: MatchTier) -> EntryOutcome {
    match t {
        TierMatch::Unique(i) => EntryOutcome::Matched(tier, i),
        TierMatch::Ambiguous => EntryOutcome::Ambiguous,
        TierMatch::NoMatch => EntryOutcome::Unmatched,
    }
}

/// What the matcher finds for one entry: under SST options the FormID key
/// of the chosen mode (script entries always require source and index);
/// otherwise the first tier that finds something.
pub open spec fn match_entry(strings: Seq<SkyStringView>, e: DictionaryApplyEntry, matched: Seq<u32>, policy: ApplyPolicy) -> EntryOutcome {
    match policy.sst_options {
        Some(o) => {
            let vm = is_vmad_sig(e.field_sig);
            match o.match_mode {
                SstMatchMode::FormIdOnly => outcome_of(tier_form_id(strings, e, matched, policy, vm, true), MatchTier::Exact),
                SstMatchMode::FormIdStrictString => outcome_of(tier_form_id(strings, e, matched, policy, true, true), MatchTier::Exact),
                SstMatchMode::FormIdRelaxedString => outcome_of(tier_form_id(strings, e, matched, policy, true, vm), MatchTier::Exact),
                SstMatchMode::StringOnly => EntryOutcome::Unmatched,
            }
        },
        None => match tier_exact(strings, e, matched, policy) {
            TierMatch::NoMatch => match tier_edid(strings, e, matched, policy) {
                TierMatch::NoMatch => match tier_normalized(strings, e, matched, policy) {
                    TierMatch::NoMatch => outcome_of(tier_vocab(strings, e, matched, policy), MatchTier::Vocab),
                    t => outcome_of(t, MatchTier::Normalized),
                },
                t => outcome_of(t, MatchTier::Edid),
            },
            t => outcome_of(t, MatchTier::Exact),
        },
    }
}

// ---------------------------------------------------------------------------
// Applying an entry to a string

/// The warning flags, cleared.
pub open spec fn clear_warnings(bits: u32) -> u32 {
    crate::types::with_flag(crate::types::with_flag(crate::types::with_flag(crate::types::with_flag(
        crate::types::with_flag(bits, SkyStringInternalParams::LOW_WARNING, false),
        SkyStringInternalParams::WARNING, false), SkyStringInternalParams::BIG_WARNING, false),
        SkyStringInternalParams::N_TRANS, false), SkyStringInternalParams::SPELL_CHECK_FAULT, false)
}

/// The translation status flags, cleared.
pub open spec fn clear_status(bits: u32) -> u32 {
    crate::types::with_flag(crate::types::with_flag(crate::types::with_flag(
        crate::types::with_flag(bits, SkyStringParams::TRANSLATED, false),
        SkyStringParams::LOCKED_TRANS, false), SkyStringParams::INCOMPLETE_TRANS, false),
        SkyStringParams::VALIDATED, false)
}

/// A string reset to untranslated, and whether anything changed. A plain
/// string loses its translation; a script string (when `reset_vmad`) gets its
/// source back as translation and is locked, unless it was locked already, in
/// which case only the text is restored. Status, warnings and similarity
/// results are cleared.
pub open spec fn reset(sk: SkyStringView, reset_vmad: bool) -> (SkyStringView, bool) {
    let vr = reset_vmad && is_vmad(sk);
    let was_locked = vr && crate::types::has_flag(sk.params, SkyStringParams::LOCKED_TRANS);
    let rt = if vr { sk.source } else { Seq::<char>::empty() };
    let s1 = if sk.translation != rt { crate::types::with_translation(sk, rt) } else { sk };
    let s2 = if !was_locked {
        SkyStringView {
            params: if vr { crate::types::with_flag(0, SkyStringParams::LOCKED_TRANS, true) } else { 0 },
            internal: clear_warnings(s1.internal),
            ld_result: 99,
            ld_found: 0,
            ..s1
        }
    } else {
        s1
    };
    (s2, s2.translation != sk.translation || s2.params != sk.params || s2.internal != sk.internal
        || s2.ld_result != sk.ld_result || s2.ld_found != sk.ld_found)
}

/// The status flag a matched string gets: the entry's lock or partial status
/// first; then validated in the string-only mode; for script strings from a
/// dictionary, validated when the text changed (or, in the same language,
/// when source and translation differ) and translated otherwise; validated in
/// the same language; translated when there is a translation, partial when not.
pub open spec fn status_flag(sk: SkyStringView, e: DictionaryApplyEntry, policy: ApplyPolicy, hash_before: u32) -> u32 {
    let p = match e.params { Some(x) => x.bits, None => 0u32 };
    let from_sst = e.source_format == DictionarySourceFormat::Sst;
    let string_only = from_sst && (policy.sst_options matches Some(o) && o.match_mode == SstMatchMode::StringOnly);
    if crate::types::has_flag(p, SkyStringParams::LOCKED_TRANS) {
        SkyStringParams::LOCKED_TRANS
    } else if crate::types::has_flag(p, SkyStringParams::INCOMPLETE_TRANS) {
        SkyStringParams::INCOMPLETE_TRANS
    } else if string_only {
        SkyStringParams::VALIDATED
    } else if from_sst && is_vmad(sk) {
        if hash_before != crate::types::str_hash(e.translation@) || (policy.same_language && sk.hash != sk.hash_trans) {
            SkyStringParams::VALIDATED
        } else {
            SkyStringParams::TRANSLATED
        }
    } else if policy.same_language {
        SkyStringParams::VALIDATED
    } else if sk.translation.len() > 0 {
        SkyStringParams::TRANSLATED
    } else {
        SkyStringParams::INCOMPLETE_TRANS
    }
}

/// A fallback match on a string with field counts: partial status, and a
/// warning (same count) or a big warning (different count). Returns the
/// string and the warning and big warning increments.
pub open spec fn index_warning(sk: SkyStringView, e: DictionaryApplyEntry, tier: MatchTier) -> (SkyStringView, int, int) {
    if tier == MatchTier::Exact || (e.index_max == 0 && sk.esp_ptr.index_max == 0) {
        (sk, 0, 0)
    } else {
        let params = crate::types::with_flag(clear_status(sk.params), SkyStringParams::INCOMPLETE_TRANS, true);
        if e.index_max != sk.esp_ptr.index_max {
            (SkyStringView { params, internal: crate::types::with_flag(sk.internal, SkyStringInternalParams::BIG_WARNING, true), ..sk }, 0, 1)
        } else {
            (SkyStringView { params, internal: crate::types::with_flag(sk.internal, SkyStringInternalParams::WARNING, true), ..sk }, 1, 0)
        }
    }
}

/// The effect of applying an entry to one string.
#[verifier::ext_equal]
pub struct Applied {
    pub sk: SkyStringView,
    pub effect: ApplyEffect,
    pub changed: bool,
    pub warning: int,
    pub big_warning: int,
}

/// Applies a matched entry to a string: optional reset, string id swap,
/// collaboration tag; then, unless only tagging, either a pending entry
/// (which resets SST targets) or the translation, the status and the field
/// index warning.
pub open spec fn apply_one(sk: SkyStringView, e: DictionaryApplyEntry, tier: MatchTier, policy: ApplyPolicy, reset_first: bool) -> Applied {
    let target_vmad = is_vmad(sk);
    let r = if reset_first { reset(sk, target_vmad) } else { (sk, false) };
    let s1 = r.0;
    let hash_before = s1.hash_trans;
    let id_swap = policy.replace_string_id && s1.esp_ptr.str_id != e.str_id;
    let s2 = if id_swap {
        SkyStringView {
            esp_ptr: EspPointer { str_id: e.str_id, ..s1.esp_ptr },
            internal: crate::types::with_flag(s1.internal, SkyStringInternalParams::STRING_ID_CHANGED, true),
            ..s1
        }
    } else {
        s1
    };
    let tag_sync = e.source_format == DictionarySourceFormat::Sst && s2.colab_id != e.colab_id;
    let s3 = if tag_sync { SkyStringView { colab_id: e.colab_id, ..s2 } } else { s2 };
    let c3 = r.1 || id_swap || tag_sync;
    if policy.tag_only {
        Applied { sk: s3, effect: ApplyEffect::Applied, changed: c3, warning: 0, big_warning: 0 }
    } else if (e.params matches Some(p) && crate::types::has_flag(p.bits, SkyStringParams::PENDING)) {
        let r2 = if e.source_format == DictionarySourceFormat::Sst { reset(s3, target_vmad) } else { (s3, false) };
        Applied { sk: r2.0, effect: ApplyEffect::PendingSkipped, changed: c3 || r2.1, warning: 0, big_warning: 0 }
    } else {
        let tr = e.translation@.len() > 0 && s3.translation != e.translation@;
        let s4 = if tr { crate::types::with_translation(s3, e.translation@) } else { s3 };
        let s5 = SkyStringView { internal: clear_warnings(s4.internal), ..s4 };
        let s6 = SkyStringView {
            params: crate::types::with_flag(0, status_flag(s5, e, policy, hash_before), true),
            ..s5
        };
        let w = index_warning(s6, e, tier);
        Applied {
            sk: w.0,
            effect: ApplyEffect::Applied,
            changed: c3 || tr || w.0.params != s4.params || w.0.internal != s4.internal,
            warning: w.1,
            big_warning: w.2,
        }
    }
}

// ---------------------------------------------------------------------------
// Passes

/// The counts and lists of a dictionary application.
#[verifier::ext_equal]
pub struct Tally {
    pub tier_exact: int,
    pub tier_edid: int,
    pub tier_normalized: int,
    pub tier_vocab: int,
    pub ambiguous: int,
    pub unmatched: int,
    pub pending_skipped: int,
    pub old_data_preserved: int,
    pub warning: int,
    pub big_warning: int,
    pub updated_ids: Seq<u32>,
    pub old_data_entries: Seq<DictionaryApplyEntry>,
}

pub open spec fn empty_tally() -> Tally {
    Tally {
        tier_exact: 0,
        tier_edid: 0,
        tier_normalized: 0,
        tier_vocab: 0,
        ambiguous: 0,
        unmatched: 0,
        pending_skipped: 0,
        old_data_preserved: 0,
        warning: 0,
        big_warning: 0,
        updated_ids: Seq::empty(),
        old_data_entries: Seq::empty(),
    }
}

/// `s` with `id` appended unless it holds it already.
pub open spec fn push_unique(s: Seq<u32>, id: u32) -> Seq<u32> {
    if s.contains(id) { s } else { s.push(id) }
}

/// The tally with `id` noted as updated when `changed`.
pub open spec fn note(t: Tally, id: u32, changed: bool) -> Tally {
    if changed { Tally { updated_ids: push_unique(t.updated_ids, id), ..t } } else { t }
}

/// The tally with an SST entry kept as old data when the policy asks for it.
pub open spec fn preserve(t: Tally, e: DictionaryApplyEntry, policy: ApplyPolicy) -> Tally {
    if policy.preserve_old_data && e.source_format == DictionarySourceFormat::Sst {
        Tally { old_data_preserved: t.old_data_preserved + 1, old_data_entries: t.old_data_entries.push(e), ..t }
    } else {
        t
    }
}

/// The tally with one more match in `tier`.
pub open spec fn count_tier(t: Tally, tier: MatchTier) -> Tally {
    match tier {
        MatchTier::Exact => Tally { tier_exact: t.tier_exact + 1, ..t },
        MatchTier::Edid => Tally { tier_edid: t.tier_edid + 1, ..t },
        MatchTier::Normalized => Tally { tier_normalized: t.tier_normalized + 1, ..t },
        MatchTier::Vocab => Tally { tier_vocab: t.tier_vocab + 1, ..t },
    }
}

/// The state of a pass over the entries.
#[verifier::ext_equal]
pub struct Pass {
    pub strings: Seq<SkyStringView>,
    pub tally: Tally,
    /// Ids of the strings matched so far.
    pub matched: Seq<u32>,
}

/// One entry of the pass over the entries.
pub open spec fn entry_step(st: Pass, e: DictionaryApplyEntry, policy: ApplyPolicy, reset_ids: Seq<u32>) -> Pass {
    match match_entry(st.strings, e, st.matched, policy) {
        EntryOutcome::Matched(tier, idx) => {
            let sk = st.strings[idx as int];
            let a = apply_one(sk, e, tier, policy, reset_ids.contains(sk.id));
            let t1 = note(Tally { warning: st.tally.warning + a.warning, big_warning: st.tally.big_warning + a.big_warning, ..st.tally }, sk.id, a.changed);
            let t2 = if a.effect == ApplyEffect::Applied { count_tier(t1, tier) } else { Tally { pending_skipped: t1.pending_skipped + 1, ..t1 } };
            Pass { strings: st.strings.update(idx as int, a.sk), tally: t2, matched: st.matched.push(sk.id) }
        },
        EntryOutcome::Ambiguous => Pass { tally: preserve(Tally { ambiguous: st.tally.ambiguous + 1, ..st.tally }, e, policy), ..st },
        EntryOutcome::Unmatched => Pass { tally: preserve(Tally { unmatched: st.tally.unmatched + 1, ..st.tally }, e, policy), ..st },
    }
}

/// The pass over the first `k` entries.
pub open spec fn entries_pass(strings: Seq<SkyStringView>, entries: Seq<DictionaryApplyEntry>, policy: ApplyPolicy, reset_ids: Seq<u32>, k: int) -> Pass
    decreases k,
{
    if k <= 0 {
        Pass { strings, tally: empty_tally(), matched: Seq::empty() }
    } else {
        entry_step(entries_pass(strings, entries, policy, reset_ids, k - 1), entries[k - 1], policy, reset_ids)
    }
}

/// The ids of the first `k` strings that satisfy `p`, in order.
pub open spec fn ids_where(strings: Seq<SkyStringView>, p: spec_fn(SkyStringView) -> bool, k: int) -> Seq<u32>
    decreases k,
{
    if k <= 0 {
        Seq::empty()
    } else if p(strings[k - 1]) {
        ids_where(strings, p, k - 1).push(strings[k - 1].id)
    } else {
        ids_where(strings, p, k - 1)
    }
}

/// Ids of the strings that are candidates before anything is applied.
pub open spec fn eligible_ids(strings: Seq<SkyStringView>, policy: ApplyPolicy) -> Seq<u32> {
    ids_where(strings, |s: SkyStringView| eligible(s, policy), strings.len() as int)
}

/// Whether a string is to be reset before matching: SST options are given,
/// its id is a candidate's, and the options ask for a reset or the string
/// carries the not-translated marker.
pub open spec fn reset_wanted(s: SkyStringView, strings: Seq<SkyStringView>, policy: ApplyPolicy) -> bool {
    match policy.sst_options {
        None => false,
        Some(o) => eligible_ids(strings, policy).contains(s.id)
            && (o.reset_state || crate::types::has_flag(s.internal, SkyStringInternalParams::N_TRANS)),
    }
}

/// Ids of the strings to be reset before matching.
pub open spec fn reset_ids(strings: Seq<SkyStringView>, policy: ApplyPolicy) -> Seq<u32> {
    ids_where(strings, |s: SkyStringView| reset_wanted(s, strings, policy), strings.len() as int)
}

/// After the pass over the entries, the first `k` strings due for a reset
/// that no entry matched are reset.
pub open spec fn reset_pass(st: Pass, reset_ids: Seq<u32>, k: int) -> Pass
    decreases k,
{
    if k <= 0 {
        st
    } else {
        let p = reset_pass(st, reset_ids, k - 1);
        let sk = p.strings[k - 1];
        if reset_ids.contains(sk.id) && !p.matched.contains(sk.id) {
            let r = reset(sk, is_vmad(sk));
            Pass { strings: p.strings.update(k - 1, r.0), tally: note(p.tally, sk.id, r.1), ..p }
        } else {
            p
        }
    }
}

/// The application that goes entry by entry.
pub open spec fn entry_centric(strings: Seq<SkyStringView>, entries: Seq<DictionaryApplyEntry>, policy: ApplyPolicy) -> Pass {
    let rids = reset_ids(strings, policy);
    let p = entries_pass(strings, entries, policy, rids, entries.len() as int);
    reset_pass(p, rids, strings.len() as int)
}

/// The indices of the first `k` entries whose source is `src`, in order.
pub open spec fn source_matches(entries: Seq<DictionaryApplyEntry>, src: Seq<char>, k: int) -> Seq<int>
    decreases k,
{
    if k <= 0 {
        Seq::empty()
    } else if entries[k - 1].source@ == src {
        source_matches(entries, src, k - 1).push(k - 1)
    } else {
        source_matches(entries, src, k - 1)
    }
}

/// The first `k` of `cands` whose entry names the string's record and field.
pub open spec fn referenced(entries: Seq<DictionaryApplyEntry>, cands: Seq<int>, sk: SkyStringView, k: int) -> Seq<int>
    decreases k,
{
    if k <= 0 {
        Seq::empty()
    } else if rec_field_eq(sk, entries[cands[k - 1]]) {
        referenced(entries, cands, sk, k - 1).push(cands[k - 1])
    } else {
        referenced(entries, cands, sk, k - 1)
    }
}

/// The entry a target takes among those with its source, and whether the
/// choice is doubtful: a single one is taken; among several, the single one
/// naming the target's record and field; else the first naming them, or the
/// first of all, as a doubtful choice.
pub open spec fn choose_entry(sk: SkyStringView, entries: Seq<DictionaryApplyEntry>, cands: Seq<int>) -> Option<(int, bool)> {
    if cands.len() == 0 {
        None
    } else if cands.len() == 1 {
        Some((cands[0], false))
    } else {
        let r = referenced(entries, cands, sk, cands.len() as int);
        if r.len() == 1 {
            Some((r[0], false))
        } else if r.len() >= 2 {
            Some((r[0], true))
        } else {
            Some((cands[0], true))
        }
    }
}

/// The state of the pass over the targets.
#[verifier::ext_equal]
pub struct TargetPass {
    pub strings: Seq<SkyStringView>,
    pub tally: Tally,
    /// Indices of the entries taken so far.
    pub used: Seq<int>,
}

/// What the string-only pass does with one target: the string, the tally
/// and the list of taken entries afterwards.
#[verifier::ext_equal]
pub struct TargetEffect {
    pub sk: SkyStringView,
    pub tally: Tally,
    pub used: Seq<int>,
}

/// One target of the string-only pass: a candidate is reset first when the
/// options or its marker ask for it; in the same language nothing more
/// happens; an empty string counts as translated; otherwise it takes the
/// entry with its source (see [`choose_entry`]), or is reset when there is
/// none (unless only tagging). A doubtful choice leaves it partial and
/// marked, and counts as ambiguous.
pub open spec fn target_effect(sk: SkyStringView, tally: Tally, used: Seq<int>, entries: Seq<DictionaryApplyEntry>, policy: ApplyPolicy) -> TargetEffect {
    if !eligible(sk, policy) {
        TargetEffect { sk, tally, used }
    } else {
        let o = policy.sst_options->0;
        let rb = o.reset_state || crate::types::has_flag(sk.internal, SkyStringInternalParams::N_TRANS);
        let r = if rb { reset(sk, is_vmad(sk)) } else { (sk, false) };
        let s1 = r.0;
        let t1 = note(tally, sk.id, r.1);
        if policy.same_language {
            TargetEffect { sk: s1, tally: t1, used }
        } else if s1.source.len() == 0 && s1.translation.len() == 0 {
            if !policy.tag_only {
                let s2 = SkyStringView { params: crate::types::with_flag(0, SkyStringParams::TRANSLATED, true), ..s1 };
                TargetEffect { sk: s2, tally: note(t1, sk.id, true), used }
            } else {
                TargetEffect { sk: s1, tally: t1, used }
            }
        } else {
            match choose_entry(s1, entries, source_matches(entries, s1.source, entries.len() as int)) {
                None => if !policy.tag_only {
                    let r2 = reset(s1, is_vmad(s1));
                    TargetEffect { sk: r2.0, tally: note(t1, sk.id, r2.1), used }
                } else {
                    TargetEffect { sk: s1, tally: t1, used }
                },
                Some((j, doubtful)) => {
                    let a = apply_one(s1, entries[j], MatchTier::Exact, policy, false);
                    let t2 = note(Tally { warning: t1.warning + a.warning, big_warning: t1.big_warning + a.big_warning, ..t1 }, sk.id, a.changed);
                    let used2 = used.push(j);
                    if a.effect == ApplyEffect::PendingSkipped {
                        TargetEffect { sk: a.sk, tally: Tally { pending_skipped: t2.pending_skipped + 1, ..t2 }, used: used2 }
                    } else {
                        let t3 = Tally { tier_exact: t2.tier_exact + 1, ..t2 };
                        if doubtful && !policy.tag_only {
                            let s3 = SkyStringView {
                                params: crate::types::with_flag(0, SkyStringParams::INCOMPLETE_TRANS, true),
                                internal: crate::types::with_flag(a.sk.internal, SkyStringInternalParams::N_TRANS, true),
                                ..a.sk
                            };
                            let t4 = note(t3, sk.id, true);
                            TargetEffect { sk: s3, tally: Tally { ambiguous: t4.ambiguous + 1, ..t4 }, used: used2 }
                        } else {
                            TargetEffect { sk: a.sk, tally: t3, used: used2 }
                        }
                    }
                },
            }
        }
    }
}

/// One target of the string-only pass, within the whole state.
pub open spec fn target_step(st: TargetPass, t: int, entries: Seq<DictionaryApplyEntry>, policy: ApplyPolicy) -> TargetPass {
    let r = target_effect(st.strings[t], st.tally, st.used, entries, policy);
    TargetPass { strings: st.strings.update(t, r.sk), tally: r.tally, used: r.used }
}

/// The string-only pass over the first `k` targets.
pub open spec fn targets_pass(strings: Seq<SkyStringView>, entries: Seq<DictionaryApplyEntry>, policy: ApplyPolicy, k: int) -> TargetPass
    decreases k,
{
    if k <= 0 {
        TargetPass { strings, tally: empty_tally(), used: Seq::empty() }
    } else {
        target_step(targets_pass(strings, entries, policy, k - 1), k - 1, entries, policy)
    }
}

/// The first `k` entries that no target took count as unmatched and are kept
/// as old data when the policy asks for it.
pub open spec fn leftover(t: Tally, entries: Seq<DictionaryApplyEntry>, used: Seq<int>, policy: ApplyPolicy, k: int) -> Tally
    decreases k,
{
    if k <= 0 {
        t
    } else {
        let p = leftover(t, entries, used, policy, k - 1);
        if used.contains(k - 1) {
            p
        } else {
            preserve(Tally { unmatched: p.unmatched + 1, ..p }, entries[k - 1], policy)
        }
    }
}

/// The SST options ask for the string-only mode.
pub open spec fn string_only_mode(policy: ApplyPolicy) -> bool {
    policy.sst_options matches Some(o) && o.match_mode == SstMatchMode::StringOnly
}

/// The strings and the tally after applying `entries` under `policy`.
pub open spec fn apply_model(strings: Seq<SkyStringView>, entries: Seq<DictionaryApplyEntry>, policy: ApplyPolicy) -> (Seq<SkyStringView>, Tally) {
    if string_only_mode(policy) {
        let tp = targets_pass(strings, entries, policy, strings.len() as int);
        (tp.strings, leftover(tp.tally, entries, tp.used, policy, entries.len() as int))
    } else {
        let p = entry_centric(strings, entries, policy);
        (p.strings, p.tally)
    }
}

} // verus!
