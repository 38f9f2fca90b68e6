//! The two passes of a dictionary application: entry by entry, and, in the
//! string-only mode, target by target.
use vstd::prelude::*;
use crate::matching::{DictionaryApplyEntry, DictionarySourceFormat, ApplyPolicy, MatchTier, MatchResult};
use crate::matching::model::{ApplyEffect, EntryOutcome, Tally, Pass};
use crate::matching::select::{views, is_candidate_eligible, u32s_contain, match_entry_with_policy, is_vmad_string};
use crate::matching::apply::{apply_match, push_updated_id, reset_target};
use crate::types::{SkyString, SkyStringInternalParams};

verus! {

impl View for MatchResult {
    type V = Tally;

    open spec fn view(&self) -> Tally {
        Tally {
            tier_exact: self.tier_exact as int,
            tier_edid: self.tier_edid as int,
            tier_normalized: self.tier_normalized as int,
            tier_vocab: self.tier_vocab as int,
            ambiguous: self.ambiguous as int,
            unmatched: self.unmatched as int,
            pending_skipped: self.pending_skipped as int,
            old_data_preserved: self.old_data_preserved as int,
            warning: self.warning as int,
            big_warning: self.big_warning as int,
            updated_ids: self.updated_ids@,
            old_data_entries: self.old_data_entries@,
        }
    }
}

/// A result with every count zero and empty lists.
pub fn empty_result() -> (r: MatchResult)
    ensures
        r@ == crate::matching::model::empty_tally(),
{
    MatchResult {
        tier_exact: 0,
        tier_edid: 0,
        tier_normalized: 0,
        tier_vocab: 0,
        ambiguous: 0,
        unmatched: 0,
        pending_skipped: 0,
        old_data_preserved: 0,
        warning: 0,
        big_warning: 0,
        updated_ids: Vec::new(),
        old_data_entries: Vec::new(),
    }
}

impl DictionaryApplyEntry {
    /// A copy of the entry.
    pub fn duplicate(&self) -> (r: DictionaryApplyEntry)
        ensures
            r == *self,
    {
        DictionaryApplyEntry {
            source_format: self.source_format,
            list_index: self.list_index,
            str_id: self.str_id,
            form_id: self.form_id,
            record_sig: self.record_sig,
            field_sig: self.field_sig,
            index: self.index,
            index_max: self.index_max,
            source: self.source.clone(),
            translation: self.translation.clone(),
            edid: match &self.edid {
                Some(s) => Some(s.clone()),
                None => None,
            },
            edid_hash: self.edid_hash,
            params: self.params,
            colab_id: self.colab_id,
        }
    }
}

/// Keeps an SST entry as old data when the policy asks for it
/// (see [`crate::matching::model::preserve`]).
pub fn preserve_old_data(entry: &DictionaryApplyEntry, policy: &ApplyPolicy, result: &mut MatchResult)
    requires
        old(result).old_data_preserved < u32::MAX,
    ensures
        final(result)@ == crate::matching::model::preserve(old(result)@, *entry, *policy),
{
    if policy.preserve_old_data && entry.source_format == DictionarySourceFormat::Sst {
        result.old_data_preserved = result.old_data_preserved + 1;
        result.old_data_entries.push(entry.duplicate());
    }
}

/// The ids of the strings due for a reset before matching
/// (see [`crate::matching::model::reset_ids`]).
pub fn collect_reset_ids(strings: &Vec<SkyString>, policy: &ApplyPolicy) -> (r: Vec<u32>)
    ensures
        r@ == crate::matching::model::reset_ids(views(strings@), *policy),
{
    let ghost sv = views(strings@);
    let ghost n = strings@.len() as int;
    let ghost pe = |s: crate::types::SkyStringView| crate::matching::model::eligible(s, *policy);
    let mut eligible: Vec<u32> = Vec::new();
    let mut i: usize = 0;
    while i < strings.len()
        invariant
            i <= n,
            n == strings@.len(),
            sv == views(strings@),
            pe == (|s: crate::types::SkyStringView| crate::matching::model::eligible(s, *policy)),
            eligible@ == crate::matching::model::ids_where(sv, pe, i as int),
        decreases n - i,
    {
        if is_candidate_eligible(&strings[i], policy) {
            eligible.push(strings[i].id);
        }
        i = i + 1;
    }
    assert(eligible@ == crate::matching::model::eligible_ids(sv, *policy));
    let ghost pr = |s: crate::types::SkyStringView| crate::matching::model::reset_wanted(s, sv, *policy);
    let mut out: Vec<u32> = Vec::new();
    let mut j: usize = 0;
    while j < strings.len()
        invariant
            j <= n,
            n == strings@.len(),
            sv == views(strings@),
            eligible@ == crate::matching::model::eligible_ids(sv, *policy),
            pr == (|s: crate::types::SkyStringView| crate::matching::model::reset_wanted(s, sv, *policy)),
            out@ == crate::matching::model::ids_where(sv, pr, j as int),
        decreases n - j,
    {
        let wanted = match &policy.sst_options {
            None => false,
            Some(opts) => u32s_contain(&eligible, strings[j].id)
                && (opts.reset_state || strings[j].internal_params.is_set(SkyStringInternalParams::N_TRANS)),
        };
        if wanted {
            out.push(strings[j].id);
        }
        j = j + 1;
    }
    out
}

/// Counts of the entry pass stay within the number of entries seen.
pub open spec fn pass_bounded(t: Tally, k: int) -> bool {
    &&& t.tier_exact + t.tier_edid + t.tier_normalized + t.tier_vocab + t.ambiguous + t.unmatched + t.pending_skipped <= k
    &&& t.tier_exact >= 0 && t.tier_edid >= 0 && t.tier_normalized >= 0 && t.tier_vocab >= 0
    &&& t.ambiguous >= 0 && t.unmatched >= 0 && t.pending_skipped >= 0
    &&& 0 <= t.old_data_preserved <= k
    &&& t.warning >= 0 && t.big_warning >= 0 && t.warning + t.big_warning <= k
}

/// One entry of the entry pass (see [`crate::matching::model::entry_step`]).
fn entry_pass_step(
    strings: &mut Vec<SkyString>,
    entry: &DictionaryApplyEntry,
    matched: &mut Vec<u32>,
    policy: &ApplyPolicy,
    rids: &Vec<u32>,
    result: &mut MatchResult,
    Ghost(k): Ghost<int>,
)
    requires
        0 <= k < u32::MAX,
        pass_bounded(old(result)@, k),
        entry.source@.len() <= u32::MAX,
        forall|q: int| 0 <= q < old(strings)@.len() ==> #[trigger] old(strings)@[q].word_hashes@.len() <= u32::MAX,
    ensures
        ({
            let before = Pass { strings: views(old(strings)@), tally: old(result)@, matched: old(matched)@ };
            let after = crate::matching::model::entry_step(before, *entry, *policy, rids@);
            &&& views(final(strings)@) == after.strings
            &&& final(result)@ == after.tally
            &&& final(matched)@ == after.matched
        }),
        final(strings)@.len() == old(strings)@.len(),
        forall|q: int| 0 <= q < final(strings)@.len() ==> #[trigger] final(strings)@[q].word_hashes@ == old(strings)@[q].word_hashes@,
        pass_bounded(final(result)@, k + 1),
{
    match match_entry_with_policy(strings, entry, matched, policy) {
        EntryOutcome::Matched(tier, idx) => {
            let id = strings[idx].id;
            let reset_first = u32s_contain(rids, id);
            let ghost old_strings = strings@;
            let (effect, changed, w, b) = apply_match(&mut strings[idx], entry, tier, policy, reset_first);
            proof {
                assert(views(strings@) =~= views(old_strings).update(idx as int, strings@[idx as int]@));
            }
            result.warning = result.warning + w;
            result.big_warning = result.big_warning + b;
            if changed {
                push_updated_id(&mut result.updated_ids, id);
            }
            matched.push(id);
            match effect {
                ApplyEffect::Applied => {
                    match tier {
                        MatchTier::Exact => result.tier_exact = result.tier_exact + 1,
                        MatchTier::Edid => result.tier_edid = result.tier_edid + 1,
                        MatchTier::Normalized => result.tier_normalized = result.tier_normalized + 1,
                        MatchTier::Vocab => result.tier_vocab = result.tier_vocab + 1,
                    }
                },
                ApplyEffect::PendingSkipped => {
                    result.pending_skipped = result.pending_skipped + 1;
                },
            }
        },
        EntryOutcome::Ambiguous => {
            result.ambiguous = result.ambiguous + 1;
            preserve_old_data(entry, policy, result);
        },
        EntryOutcome::Unmatched => {
            result.unmatched = result.unmatched + 1;
            preserve_old_data(entry, policy, result);
        },
    }
}

/// The application that goes entry by entry
/// (see [`crate::matching::model::entry_centric`]).
pub fn apply_entry_centric(strings: &mut Vec<SkyString>, entries: &[DictionaryApplyEntry], policy: &ApplyPolicy) -> (r: MatchResult)
    requires
        crate::matching::select::sizes_ok(old(strings)@, entries@),
        entries@.len() <= u32::MAX,
    ensures
        ({
            let p = crate::matching::model::entry_centric(views(old(strings)@), entries@, *policy);
            views(final(strings)@) == p.strings && r@ == p.tally
        }),
{
    let ghost s0 = views(strings@);
    let ghost n = strings@.len() as int;
    let rids = collect_reset_ids(strings, policy);
    let mut result = empty_result();
    let mut matched: Vec<u32> = Vec::new();
    let mut k: usize = 0;
    while k < entries.len()
        invariant
            k <= entries@.len(),
            entries@.len() <= u32::MAX,
            strings@.len() == n,
            rids@ == crate::matching::model::reset_ids(s0, *policy),
            forall|q: int| 0 <= q < strings@.len() ==> #[trigger] strings@[q].word_hashes@.len() <= u32::MAX,
            forall|q: int| 0 <= q < entries@.len() ==> #[trigger] entries@[q].source@.len() <= u32::MAX,
            ({
                let p = crate::matching::model::entries_pass(s0, entries@, *policy, rids@, k as int);
                &&& views(strings@) == p.strings
                &&& result@ == p.tally
                &&& matched@ == p.matched
            }),
            pass_bounded(result@, k as int),
        decreases entries@.len() - k,
    {
        let entry = &entries[k];
        proof { assert(pass_bounded(result@, k as int)); }
        entry_pass_step(strings, entry, &mut matched, policy, &rids, &mut result, Ghost(k as int));
        k = k + 1;
    }
    let ghost mid = Pass { strings: views(strings@), tally: result@, matched: matched@ };
    let mut i: usize = 0;
    while i < strings.len()
        invariant
            i <= n,
            strings@.len() == n,
            ({
                let p = crate::matching::model::reset_pass(mid, rids@, i as int);
                &&& views(strings@) == p.strings
                &&& result@ == p.tally
                &&& matched@ == p.matched
            }),
        decreases n - i,
    {
        let id = strings[i].id;
        if u32s_contain(&rids, id) && !u32s_contain(&matched, id) {
            let reset_vmad = is_vmad_string(&strings[i]);
            let ghost old_strings = strings@;
            let changed = reset_target(&mut strings[i], reset_vmad);
            proof {
                assert(views(strings@) =~= views(old_strings).update(i as int, strings@[i as int]@));
            }
            if changed {
                push_updated_id(&mut result.updated_ids, id);
            }
        }
        i = i + 1;
    }
    result
}

/// A list of indices as integers.
pub open spec fn as_ints(v: Seq<usize>) -> Seq<int> {
    v.map_values(|x: usize| x as int)
}

/// The indices of the entries whose source is `src`, in order
/// (see [`crate::matching::model::source_matches`]).
pub fn source_candidates(entries: &[DictionaryApplyEntry], src: &String) -> (r: Vec<usize>)
    ensures
        as_ints(r@) == crate::matching::model::source_matches(entries@, src@, entries@.len() as int),
        forall|k: int| 0 <= k < r@.len() ==> #[trigger] r@[k] < entries@.len(),
{
    let mut out: Vec<usize> = Vec::new();
    let mut j: usize = 0;
    while j < entries.len()
        invariant
            j <= entries@.len(),
            as_ints(out@) == crate::matching::model::source_matches(entries@, src@, j as int),
            forall|k: int| 0 <= k < out@.len() ==> #[trigger] out@[k] < entries@.len(),
        decreases entries@.len() - j,
    {
        if entries[j].source == *src {
            let ghost prev = out@;
            out.push(j);
            assert(as_ints(out@) =~= as_ints(prev).push(j as int));
        }
        j = j + 1;
    }
    out
}

/// The candidates whose entry names the target's record and field
/// (see [`crate::matching::model::referenced`]).
fn referenced_entries(target: &SkyString, entries: &[DictionaryApplyEntry], cands: &Vec<usize>) -> (r: Vec<usize>)
    requires
        forall|k: int| 0 <= k < cands@.len() ==> #[trigger] cands@[k] < entries@.len(),
    ensures
        as_ints(r@) == crate::matching::model::referenced(entries@, as_ints(cands@), target@, cands@.len() as int),
        forall|k: int| 0 <= k < r@.len() ==> #[trigger] r@[k] < entries@.len(),
{
    let mut out: Vec<usize> = Vec::new();
    let mut j: usize = 0;
    while j < cands.len()
        invariant
            j <= cands@.len(),
            forall|k: int| 0 <= k < cands@.len() ==> #[trigger] cands@[k] < entries@.len(),
            as_ints(out@) == crate::matching::model::referenced(entries@, as_ints(cands@), target@, j as int),
            forall|k: int| 0 <= k < out@.len() ==> #[trigger] out@[k] < entries@.len(),
        decreases cands@.len() - j,
    {
        let c = cands[j];
        let entry = &entries[c];
        if crate::bytes::sig_eq(&entry.record_sig, &target.esp_ptr.record_sig)
            && crate::bytes::sig_eq(&entry.field_sig, &target.esp_ptr.field_sig) {
            let ghost prev = out@;
            out.push(c);
            assert(as_ints(out@) =~= as_ints(prev).push(c as int));
        }
        j = j + 1;
    }
    out
}

/// The entry a target takes and whether the choice is doubtful
/// (see [`crate::matching::model::choose_entry`]).
pub fn choose_string_only_entry(target: &SkyString, entries: &[DictionaryApplyEntry], cands: &Vec<usize>) -> (r: Option<(usize, bool)>)
    requires
        forall|k: int| 0 <= k < cands@.len() ==> #[trigger] cands@[k] < entries@.len(),
    ensures
        match r {
            None => crate::matching::model::choose_entry(target@, entries@, as_ints(cands@)) is None,
            Some((j, b)) => crate::matching::model::choose_entry(target@, entries@, as_ints(cands@)) == Some((j as int, b))
                && j < entries@.len(),
        },
{
    if cands.len() == 0 {
        return None;
    }
    if cands.len() == 1 {
        return Some((cands[0], false));
    }
    let referenced = referenced_entries(target, entries, cands);
    if referenced.len() == 1 {
        Some((referenced[0], false))
    } else if referenced.len() >= 2 {
        Some((referenced[0], true))
    } else {
        Some((cands[0], true))
    }
}

/// Counts of the target pass stay within the number of targets seen.
pub open spec fn target_bounded(t: Tally, k: int) -> bool {
    &&& t.tier_exact >= 0 && t.pending_skipped >= 0 && t.tier_exact + t.pending_skipped <= k
    &&& 0 <= t.ambiguous <= k
    &&& t.warning >= 0 && t.big_warning >= 0 && t.warning + t.big_warning <= k
    &&& t.tier_edid == 0 && t.tier_normalized == 0 && t.tier_vocab == 0
    &&& t.unmatched == 0 && t.old_data_preserved == 0
}

/// What the string-only pass does with one target
/// (see [`crate::matching::model::target_effect`]).
fn target_work(
    sk: &mut SkyString,
    entries: &[DictionaryApplyEntry],
    policy: &ApplyPolicy,
    used: &mut Vec<usize>,
    result: &mut MatchResult,
    Ghost(k): Ghost<int>,
)
    requires
        policy.sst_options is Some,
        0 <= k < u32::MAX,
        target_bounded(old(result)@, k),
        forall|q: int| 0 <= q < old(used)@.len() ==> #[trigger] old(used)@[q] < entries@.len(),
    ensures
        ({
            let e = crate::matching::model::target_effect(old(sk)@, old(result)@, as_ints(old(used)@), entries@, *policy);
            &&& final(sk)@ == e.sk
            &&& final(result)@ == e.tally
            &&& as_ints(final(used)@) == e.used
        }),
        final(sk).word_hashes@ == old(sk).word_hashes@,
        target_bounded(final(result)@, k + 1),
        forall|q: int| 0 <= q < final(used)@.len() ==> #[trigger] final(used)@[q] < entries@.len(),
{
    if !is_candidate_eligible(sk, policy) {
        return;
    }
    let reset_state = match &policy.sst_options {
        Some(o) => o.reset_state,
        None => false,
    };
    let id = sk.id;
    if reset_state || sk.internal_params.is_set(SkyStringInternalParams::N_TRANS) {
        let reset_vmad = is_vmad_string(sk);
        if reset_target(sk, reset_vmad) {
            push_updated_id(&mut result.updated_ids, id);
        }
    }
    if policy.same_language {
        return;
    }
    if sk.source.as_str().unicode_len() == 0 && sk.translation.as_str().unicode_len() == 0 {
        if !policy.tag_only {
            sk.params = crate::types::SkyStringParams::new();
            sk.params.set(crate::types::SkyStringParams::TRANSLATED, true);
            push_updated_id(&mut result.updated_ids, id);
        }
        return;
    }
    let cands = source_candidates(entries, &sk.source);
    match choose_string_only_entry(sk, entries, &cands) {
        None => {
            if !policy.tag_only {
                let reset_vmad = is_vmad_string(sk);
                if reset_target(sk, reset_vmad) {
                    push_updated_id(&mut result.updated_ids, id);
                }
            }
        },
        Some((j, doubtful)) => {
            let ghost prev_used = used@;
            used.push(j);
            assert(as_ints(used@) =~= as_ints(prev_used).push(j as int));
            let (effect, changed, w, b) = apply_match(sk, &entries[j], MatchTier::Exact, policy, false);
            result.warning = result.warning + w;
            result.big_warning = result.big_warning + b;
            if changed {
                push_updated_id(&mut result.updated_ids, id);
            }
            match effect {
                ApplyEffect::PendingSkipped => {
                    result.pending_skipped = result.pending_skipped + 1;
                },
                ApplyEffect::Applied => {
                    result.tier_exact = result.tier_exact + 1;
                    if doubtful && !policy.tag_only {
                        sk.params = crate::types::SkyStringParams::new();
                        sk.params.set(crate::types::SkyStringParams::INCOMPLETE_TRANS, true);
                        sk.internal_params.set(SkyStringInternalParams::N_TRANS, true);
                        push_updated_id(&mut result.updated_ids, id);
                        result.ambiguous = result.ambiguous + 1;
                    }
                },
            }
        },
    }
}

/// Whether `v` holds `x`.
fn usizes_contain(v: &Vec<usize>, x: usize) -> (r: bool)
    ensures
        r == as_ints(v@).contains(x as int),
{
    let mut i: usize = 0;
    while i < v.len()
        invariant
            i <= v@.len(),
            forall|k: int| 0 <= k < i ==> v@[k] != x,
        decreases v@.len() - i,
    {
        if v[i] == x {
            assert(as_ints(v@)[i as int] == x as int);
            return true;
        }
        i = i + 1;
    }
    assert forall|k: int| 0 <= k < as_ints(v@).len() implies as_ints(v@)[k] != x as int by {
        assert(v@[k] != x);
    }
    false
}

/// The string-only application: target by target, then the entries no
/// target took (see [`crate::matching::model::targets_pass`] and
/// [`crate::matching::model::leftover`]).
pub fn apply_string_only(strings: &mut Vec<SkyString>, entries: &[DictionaryApplyEntry], policy: &ApplyPolicy) -> (r: MatchResult)
    requires
        policy.sst_options is Some,
        old(strings)@.len() <= u32::MAX,
        entries@.len() <= u32::MAX,
    ensures
        ({
            let tp = crate::matching::model::targets_pass(views(old(strings)@), entries@, *policy, old(strings)@.len() as int);
            &&& views(final(strings)@) == tp.strings
            &&& r@ == crate::matching::model::leftover(tp.tally, entries@, tp.used, *policy, entries@.len() as int)
        }),
{
    let ghost s0 = views(strings@);
    let ghost n = strings@.len() as int;
    let mut result = empty_result();
    let mut used: Vec<usize> = Vec::new();
    let mut t: usize = 0;
    while t < strings.len()
        invariant
            t <= n,
            n == strings@.len(),
            n <= u32::MAX,
            policy.sst_options is Some,
            ({
                let tp = crate::matching::model::targets_pass(s0, entries@, *policy, t as int);
                &&& views(strings@) == tp.strings
                &&& result@ == tp.tally
                &&& as_ints(used@) == tp.used
            }),
            target_bounded(result@, t as int),
            forall|q: int| 0 <= q < used@.len() ==> #[trigger] used@[q] < entries@.len(),
        decreases n - t,
    {
        let ghost before = strings@;
        target_work(&mut strings[t], entries, policy, &mut used, &mut result, Ghost(t as int));
        proof {
            assert(views(strings@) =~= views(before).update(t as int, strings@[t as int]@));
        }
        t = t + 1;
    }
    let ghost tp_tally = result@;
    let ghost tp_used = as_ints(used@);
    let mut j: usize = 0;
    while j < entries.len()
        invariant
            j <= entries@.len(),
            entries@.len() <= u32::MAX,
            as_ints(used@) == tp_used,
            result@ == crate::matching::model::leftover(tp_tally, entries@, tp_used, *policy, j as int),
            0 <= result.unmatched <= j,
            0 <= result.old_data_preserved <= j,
        decreases entries@.len() - j,
    {
        if !usizes_contain(&used, j) {
            result.unmatched = result.unmatched + 1;
            preserve_old_data(&entries[j], policy, &mut result);
        }
        j = j + 1;
    }
    result
}

} // verus!
