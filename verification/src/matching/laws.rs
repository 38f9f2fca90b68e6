//! What every dictionary application keeps: each entry is accounted for
//! once, no string is matched twice, ambiguous entries change nothing, the
//! strings keep their identity, updated ids are listed once, and only SST
//! entries are kept as old data, and only when asked.
use vstd::prelude::*;
use crate::matching::{DictionaryApplyEntry, DictionarySourceFormat, ApplyPolicy};
use crate::matching::model;
use crate::matching::model::{TierMatch, EntryOutcome, Tally, Pass};
use crate::types::SkyStringView;

verus! {

/// A tier's single candidate is a candidate.
pub proof fn lemma_pick_unique_sat(n: int, p: spec_fn(int) -> bool, i: usize)
    requires
        n <= usize::MAX,
        model::pick(n, p) == TierMatch::Unique(i),
    ensures
        0 <= i < n,
        p(i as int),
{
    let c = choose|k: int| 0 <= k < n && #[trigger] p(k);
    assert(0 <= c < n && p(c));
}

/// The string an entry matches is one not matched before that may receive
/// entries.
pub proof fn lemma_match_entry_open(strings: Seq<SkyStringView>, e: DictionaryApplyEntry, matched: Seq<u32>, policy: ApplyPolicy)
    requires
        strings.len() <= usize::MAX,
    ensures
        model::match_entry(strings, e, matched, policy) matches EntryOutcome::Matched(_, idx)
            ==> (idx < strings.len() && model::open_candidate(strings[idx as int], matched, policy)),
{
    let n = strings.len() as int;
    match model::match_entry(strings, e, matched, policy) {
        EntryOutcome::Matched(_, idx) => {
            match policy.sst_options {
                Some(o) => {
                    let vm = model::is_vmad_sig(e.field_sig);
                    let (rs, ri) = match o.match_mode {
                        crate::matching::SstMatchMode::FormIdOnly => (vm, true),
                        crate::matching::SstMatchMode::FormIdStrictString => (true, true),
                        _ => (true, vm),
                    };
                    lemma_pick_unique_sat(n, |i: int| model::form_id_candidate(strings, e, matched, policy, rs, ri, i), idx);
                },
                None => {
                    if model::tier_exact(strings, e, matched, policy) is Unique {
                        lemma_pick_unique_sat(n, |i: int| model::exact_candidate(strings, e, matched, policy, i), idx);
                    } else if model::tier_edid(strings, e, matched, policy) is Unique {
                        let h = model::entry_edid_hash(e)->0;
                        if model::pick(n, |i: int| model::edid_candidate(strings, e, matched, policy, h, i)) is Unique {
                            lemma_pick_unique_sat(n, |i: int| model::edid_candidate(strings, e, matched, policy, h, i), idx);
                        } else {
                            let nh = crate::types::normalized_hash_of(e.source@)->0;
                            lemma_pick_unique_sat(n, |i: int| model::edid_norm_candidate(strings, e, matched, policy, h, nh, i), idx);
                        }
                    } else if model::tier_normalized(strings, e, matched, policy) is Unique {
                        let nh = crate::types::normalized_hash_of(e.source@)->0;
                        lemma_pick_unique_sat(n, |i: int| model::norm_candidate(strings, e, matched, policy, nh, i), idx);
                    } else {
                        let ew = crate::types::run_hashes(e.source@);
                        let c = choose|i: int| #[trigger] model::vocab_best(strings, e, matched, policy, ew, i);
                        assert(model::vocab_best(strings, e, matched, policy, ew, c));
                    }
                },
            }
        },
        _ => {},
    }
}

/// Counts of the entry pass after `k` entries.
pub open spec fn entry_count(t: Tally) -> int {
    t.tier_exact + t.tier_edid + t.tier_normalized + t.tier_vocab + t.ambiguous + t.unmatched + t.pending_skipped
}

/// Facts the entry pass keeps after any number of entries.
pub open spec fn pass_facts(p: Pass, n: int, policy: ApplyPolicy) -> bool {
    &&& p.strings.len() == n
    &&& p.matched.no_duplicates()
    &&& p.tally.updated_ids.no_duplicates()
    &&& p.tally.old_data_entries.len() == p.tally.old_data_preserved
    &&& forall|k: int| 0 <= k < p.tally.old_data_entries.len()
            ==> (#[trigger] p.tally.old_data_entries[k]).source_format == DictionarySourceFormat::Sst
    &&& (!policy.preserve_old_data ==> p.tally.old_data_entries.len() == 0)
}

/// The fields that no application changes: id, source, signatures and the
/// pointer's FormID, editor id hash and field index.
pub open spec fn same_identity(a: SkyStringView, b: SkyStringView) -> bool {
    &&& a.id == b.id
    &&& a.source == b.source
    &&& a.record_sig == b.record_sig
    &&& a.field_sig == b.field_sig
    &&& a.esp_ptr.form_id == b.esp_ptr.form_id
    &&& a.esp_ptr.record_sig == b.esp_ptr.record_sig
    &&& a.esp_ptr.field_sig == b.esp_ptr.field_sig
    &&& a.esp_ptr.edid_hash == b.esp_ptr.edid_hash
    &&& a.esp_ptr.index == b.esp_ptr.index
    &&& a.esp_ptr.index_max == b.esp_ptr.index_max
    &&& a.word_hashes == b.word_hashes
    &&& a.normalized_hash == b.normalized_hash
    &&& a.hash == b.hash
}

/// Resetting keeps a string's identity.
pub proof fn lemma_reset_identity(sk: SkyStringView, reset_vmad: bool)
    ensures
        same_identity(model::reset(sk, reset_vmad).0, sk),
{
}

/// Applying an entry keeps a string's identity.
pub proof fn lemma_apply_identity(sk: SkyStringView, e: DictionaryApplyEntry, tier: crate::matching::MatchTier, policy: ApplyPolicy, reset_first: bool)
    ensures
        same_identity(model::apply_one(sk, e, tier, policy, reset_first).sk, sk),
{
}

/// Noting an update keeps the list of updated ids free of repetition.
pub proof fn lemma_note_distinct(t: Tally, id: u32, changed: bool)
    requires
        t.updated_ids.no_duplicates(),
    ensures
        model::note(t, id, changed).updated_ids.no_duplicates(),
        model::note(t, id, changed).old_data_entries == t.old_data_entries,
        model::note(t, id, changed).old_data_preserved == t.old_data_preserved,
{
}

/// One step of the entry pass keeps the pass facts, counts the entry once
/// and keeps every string's identity.
pub proof fn lemma_entry_step(st: Pass, e: DictionaryApplyEntry, policy: ApplyPolicy, reset_ids: Seq<u32>, n: int)
    requires
        n <= usize::MAX,
        pass_facts(st, n, policy),
    ensures
        pass_facts(model::entry_step(st, e, policy, reset_ids), n, policy),
        entry_count(model::entry_step(st, e, policy, reset_ids).tally) == entry_count(st.tally) + 1,
        forall|i: int| 0 <= i < n ==> same_identity(#[trigger] model::entry_step(st, e, policy, reset_ids).strings[i], st.strings[i]),
{
    lemma_match_entry_open(st.strings, e, st.matched, policy);
    let r = model::entry_step(st, e, policy, reset_ids);
    match model::match_entry(st.strings, e, st.matched, policy) {
        EntryOutcome::Matched(tier, idx) => {
            let sk = st.strings[idx as int];
            let a = model::apply_one(sk, e, tier, policy, reset_ids.contains(sk.id));
            lemma_apply_identity(sk, e, tier, policy, reset_ids.contains(sk.id));
            lemma_note_distinct(Tally { warning: st.tally.warning + a.warning, big_warning: st.tally.big_warning + a.big_warning, ..st.tally }, sk.id, a.changed);
            assert(!st.matched.contains(sk.id));
            assert(r.matched.no_duplicates()) by {
                assert forall|i: int, j: int| 0 <= i < r.matched.len() && 0 <= j < r.matched.len() && i != j
                    implies r.matched[i] != r.matched[j] by {
                    if i < st.matched.len() && j < st.matched.len() {
                    } else if i == st.matched.len() as int {
                        assert(st.matched[j] == r.matched[j]);
                    } else {
                        assert(st.matched[i] == r.matched[i]);
                    }
                }
            }
        },
        _ => {
            assert(r.tally.old_data_entries.len() == r.tally.old_data_preserved);
        },
    }
}

/// The entry pass after `k` entries.
pub proof fn lemma_entries_pass(strings: Seq<SkyStringView>, entries: Seq<DictionaryApplyEntry>, policy: ApplyPolicy, reset_ids: Seq<u32>, k: int)
    requires
        strings.len() <= usize::MAX,
        0 <= k <= entries.len(),
    ensures
        pass_facts(model::entries_pass(strings, entries, policy, reset_ids, k), strings.len() as int, policy),
        entry_count(model::entries_pass(strings, entries, policy, reset_ids, k).tally) == k,
        forall|i: int| 0 <= i < strings.len() ==> same_identity(#[trigger] model::entries_pass(strings, entries, policy, reset_ids, k).strings[i], strings[i]),
    decreases k,
{
    if k > 0 {
        lemma_entries_pass(strings, entries, policy, reset_ids, k - 1);
        let prev = model::entries_pass(strings, entries, policy, reset_ids, k - 1);
        lemma_entry_step(prev, entries[k - 1], policy, reset_ids, strings.len() as int);
        assert forall|i: int| 0 <= i < strings.len() implies same_identity(#[trigger] model::entries_pass(strings, entries, policy, reset_ids, k).strings[i], strings[i]) by {
            assert(same_identity(prev.strings[i], strings[i]));
        }
    }
}

/// The reset pass keeps the pass facts, the counts and every string's identity.
pub proof fn lemma_reset_pass(st: Pass, reset_ids: Seq<u32>, policy: ApplyPolicy, k: int)
    requires
        pass_facts(st, st.strings.len() as int, policy),
        0 <= k <= st.strings.len(),
    ensures
        pass_facts(model::reset_pass(st, reset_ids, k), st.strings.len() as int, policy),
        model::reset_pass(st, reset_ids, k).tally == (Tally { updated_ids: model::reset_pass(st, reset_ids, k).tally.updated_ids, ..st.tally }),
        model::reset_pass(st, reset_ids, k).matched == st.matched,
        forall|i: int| 0 <= i < st.strings.len() ==> same_identity(#[trigger] model::reset_pass(st, reset_ids, k).strings[i], st.strings[i]),
    decreases k,
{
    if k > 0 {
        lemma_reset_pass(st, reset_ids, policy, k - 1);
        let p = model::reset_pass(st, reset_ids, k - 1);
        let sk = p.strings[k - 1];
        lemma_reset_identity(sk, model::is_vmad(sk));
        lemma_note_distinct(p.tally, sk.id, model::reset(sk, model::is_vmad(sk)).1);
        assert forall|i: int| 0 <= i < st.strings.len() implies same_identity(#[trigger] model::reset_pass(st, reset_ids, k).strings[i], st.strings[i]) by {
            assert(same_identity(p.strings[i], st.strings[i]));
        }
    }
}

/// Entry by entry, every entry is counted exactly once: as a match of one
/// tier, as ambiguous, as unmatched, or as a skipped pending entry.
pub proof fn law_every_entry_counted_once(strings: Seq<SkyStringView>, entries: Seq<DictionaryApplyEntry>, policy: ApplyPolicy)
    requires
        strings.len() <= usize::MAX,
        !model::string_only_mode(policy),
    ensures
        ({
            let t = model::apply_model(strings, entries, policy).1;
            t.tier_exact + t.tier_edid + t.tier_normalized + t.tier_vocab + t.ambiguous + t.unmatched + t.pending_skipped
                == entries.len()
        }),
{
    let rids = model::reset_ids(strings, policy);
    lemma_entries_pass(strings, entries, policy, rids, entries.len() as int);
    let p = model::entries_pass(strings, entries, policy, rids, entries.len() as int);
    lemma_reset_pass(p, rids, policy, strings.len() as int);
}

/// Entry by entry, no string is matched by two entries.
pub proof fn law_no_string_matched_twice(strings: Seq<SkyStringView>, entries: Seq<DictionaryApplyEntry>, policy: ApplyPolicy)
    requires
        strings.len() <= usize::MAX,
    ensures
        model::entry_centric(strings, entries, policy).matched.no_duplicates(),
{
    let rids = model::reset_ids(strings, policy);
    lemma_entries_pass(strings, entries, policy, rids, entries.len() as int);
    let p = model::entries_pass(strings, entries, policy, rids, entries.len() as int);
    lemma_reset_pass(p, rids, policy, strings.len() as int);
}

/// An ambiguous or unmatched entry changes no string.
pub proof fn law_ambiguous_entry_changes_nothing(st: Pass, e: DictionaryApplyEntry, policy: ApplyPolicy, reset_ids: Seq<u32>)
    requires
        !(model::match_entry(st.strings, e, st.matched, policy) is Matched),
    ensures
        model::entry_step(st, e, policy, reset_ids).strings == st.strings,
        model::entry_step(st, e, policy, reset_ids).matched == st.matched,
{
}

/// Facts of a tally that every pass keeps.
pub open spec fn tally_facts(t: Tally, policy: ApplyPolicy) -> bool {
    &&& t.updated_ids.no_duplicates()
    &&& t.old_data_entries.len() == t.old_data_preserved
    &&& forall|k: int| 0 <= k < t.old_data_entries.len()
            ==> (#[trigger] t.old_data_entries[k]).source_format == DictionarySourceFormat::Sst
    &&& (!policy.preserve_old_data ==> t.old_data_entries.len() == 0)
}

/// One target of the string-only pass keeps the tally facts and the
/// target's identity.
pub proof fn lemma_target_effect(sk: SkyStringView, t: Tally, used: Seq<int>, entries: Seq<DictionaryApplyEntry>, policy: ApplyPolicy)
    requires
        tally_facts(t, policy),
    ensures
        tally_facts(model::target_effect(sk, t, used, entries, policy).tally, policy),
        same_identity(model::target_effect(sk, t, used, entries, policy).sk, sk),
{
    if model::eligible(sk, policy) {
        let o = policy.sst_options->0;
        let rb = o.reset_state || crate::types::has_flag(sk.internal, crate::types::SkyStringInternalParams::N_TRANS);
        let r = if rb { model::reset(sk, model::is_vmad(sk)) } else { (sk, false) };
        lemma_reset_identity(sk, model::is_vmad(sk));
        let s1 = r.0;
        let t1 = model::note(t, sk.id, r.1);
        lemma_note_distinct(t, sk.id, r.1);
        lemma_note_distinct(t1, sk.id, true);
        lemma_reset_identity(s1, model::is_vmad(s1));
        lemma_note_distinct(t1, sk.id, model::reset(s1, model::is_vmad(s1)).1);
        match model::choose_entry(s1, entries, model::source_matches(entries, s1.source, entries.len() as int)) {
            Some((j, doubtful)) => {
                let a = model::apply_one(s1, entries[j], crate::matching::MatchTier::Exact, policy, false);
                lemma_apply_identity(s1, entries[j], crate::matching::MatchTier::Exact, policy, false);
                let tw = Tally { warning: t1.warning + a.warning, big_warning: t1.big_warning + a.big_warning, ..t1 };
                lemma_note_distinct(tw, sk.id, a.changed);
                let t2 = model::note(tw, sk.id, a.changed);
                lemma_note_distinct(Tally { tier_exact: t2.tier_exact + 1, ..t2 }, sk.id, true);
            },
            None => {},
        }
    }
}

/// The string-only pass over `k` targets keeps the tally facts and every
/// string's identity.
pub proof fn lemma_targets_pass(strings: Seq<SkyStringView>, entries: Seq<DictionaryApplyEntry>, policy: ApplyPolicy, k: int)
    requires
        0 <= k <= strings.len(),
    ensures
        tally_facts(model::targets_pass(strings, entries, policy, k).tally, policy),
        model::targets_pass(strings, entries, policy, k).strings.len() == strings.len(),
        forall|i: int| 0 <= i < strings.len() ==> same_identity(#[trigger] model::targets_pass(strings, entries, policy, k).strings[i], strings[i]),
    decreases k,
{
    if k > 0 {
        lemma_targets_pass(strings, entries, policy, k - 1);
        let p = model::targets_pass(strings, entries, policy, k - 1);
        lemma_target_effect(p.strings[k - 1], p.tally, p.used, entries, policy);
        assert forall|i: int| 0 <= i < strings.len() implies same_identity(#[trigger] model::targets_pass(strings, entries, policy, k).strings[i], strings[i]) by {
            assert(same_identity(p.strings[i], strings[i]));
        }
    }
}

/// Counting the entries no target took keeps the tally facts.
pub proof fn lemma_leftover(t: Tally, entries: Seq<DictionaryApplyEntry>, used: Seq<int>, policy: ApplyPolicy, k: int)
    requires
        tally_facts(t, policy),
    ensures
        tally_facts(model::leftover(t, entries, used, policy, k), policy),
    decreases k,
{
    if k > 0 {
        lemma_leftover(t, entries, used, policy, k - 1);
    }
}

/// Whatever the policy, the updated ids are listed once each, and the
/// entries kept as old data are SST entries, as many as counted, and none
/// unless the policy asks for them.
pub proof fn law_updated_ids_and_old_data(strings: Seq<SkyStringView>, entries: Seq<DictionaryApplyEntry>, policy: ApplyPolicy)
    requires
        strings.len() <= usize::MAX,
    ensures
        tally_facts(model::apply_model(strings, entries, policy).1, policy),
{
    if model::string_only_mode(policy) {
        lemma_targets_pass(strings, entries, policy, strings.len() as int);
        let tp = model::targets_pass(strings, entries, policy, strings.len() as int);
        lemma_leftover(tp.tally, entries, tp.used, policy, entries.len() as int);
    } else {
        let rids = model::reset_ids(strings, policy);
        lemma_entries_pass(strings, entries, policy, rids, entries.len() as int);
        let p = model::entries_pass(strings, entries, policy, rids, entries.len() as int);
        lemma_reset_pass(p, rids, policy, strings.len() as int);
    }
}

/// Whatever the policy, the strings stay the same strings: as many, in the
/// same order, each with its id, source, signatures and pointer.
pub proof fn law_strings_keep_identity(strings: Seq<SkyStringView>, entries: Seq<DictionaryApplyEntry>, policy: ApplyPolicy)
    requires
        strings.len() <= usize::MAX,
    ensures
        model::apply_model(strings, entries, policy).0.len() == strings.len(),
        forall|i: int| 0 <= i < strings.len() ==> same_identity(#[trigger] model::apply_model(strings, entries, policy).0[i], strings[i]),
{
    if model::string_only_mode(policy) {
        lemma_targets_pass(strings, entries, policy, strings.len() as int);
    } else {
        let rids = model::reset_ids(strings, policy);
        lemma_entries_pass(strings, entries, policy, rids, entries.len() as int);
        let p = model::entries_pass(strings, entries, policy, rids, entries.len() as int);
        lemma_reset_pass(p, rids, policy, strings.len() as int);
        assert forall|i: int| 0 <= i < strings.len() implies same_identity(#[trigger] model::apply_model(strings, entries, policy).0[i], strings[i]) by {
            assert(same_identity(p.strings[i], strings[i]));
        }
    }
}

/// No reset is asked for: either no SST options, or options without reset
/// and no string carrying the not-translated marker.
pub open spec fn no_reset_asked(strings: Seq<SkyStringView>, policy: ApplyPolicy) -> bool {
    match policy.sst_options {
        None => true,
        Some(o) => !o.reset_state && forall|i: int| 0 <= i < strings.len()
            ==> !crate::types::has_flag(#[trigger] strings[i].internal, crate::types::SkyStringInternalParams::N_TRANS),
    }
}

/// With nothing to collect, the id list is empty.
pub proof fn lemma_ids_where_none(strings: Seq<SkyStringView>, p: spec_fn(SkyStringView) -> bool, k: int)
    requires
        forall|i: int| 0 <= i < k && i < strings.len() ==> !#[trigger] p(strings[i]),
        k <= strings.len(),
    ensures
        model::ids_where(strings, p, k) == Seq::<u32>::empty(),
    decreases k,
{
    if k > 0 {
        lemma_ids_where_none(strings, p, k - 1);
    }
}

/// The string-only pass leaves the targets it has not reached as they were.
pub proof fn lemma_targets_pass_ahead(strings: Seq<SkyStringView>, entries: Seq<DictionaryApplyEntry>, policy: ApplyPolicy, k: int)
    requires
        0 <= k <= strings.len(),
    ensures
        model::targets_pass(strings, entries, policy, k).strings.len() == strings.len(),
        forall|i: int| k <= i < strings.len() ==> #[trigger] model::targets_pass(strings, entries, policy, k).strings[i] == strings[i],
    decreases k,
{
    if k > 0 {
        lemma_targets_pass_ahead(strings, entries, policy, k - 1);
    }
}

/// Only tagging, with no reset asked for, no translation changes: entries
/// only tag the strings they match.
pub proof fn law_tag_only_keeps_translations(strings: Seq<SkyStringView>, entries: Seq<DictionaryApplyEntry>, policy: ApplyPolicy)
    requires
        strings.len() <= usize::MAX,
        policy.tag_only,
        no_reset_asked(strings, policy),
    ensures
        model::apply_model(strings, entries, policy).0.len() == strings.len(),
        forall|i: int| 0 <= i < strings.len()
            ==> (#[trigger] model::apply_model(strings, entries, policy).0[i]).translation == strings[i].translation,
{
    law_strings_keep_identity(strings, entries, policy);
    if model::string_only_mode(policy) {
        lemma_tag_only_targets(strings, entries, policy, strings.len() as int);
    } else {
        let rids = model::reset_ids(strings, policy);
        lemma_ids_where_none(strings, |s: SkyStringView| model::reset_wanted(s, strings, policy), strings.len() as int);
        assert(rids == Seq::<u32>::empty());
        lemma_tag_only_entries(strings, entries, policy, rids, entries.len() as int);
        let p = model::entries_pass(strings, entries, policy, rids, entries.len() as int);
        lemma_reset_pass_nothing(p, rids, strings.len() as int);
    }
}

/// Only tagging, the entry pass changes no translation.
pub proof fn lemma_tag_only_entries(strings: Seq<SkyStringView>, entries: Seq<DictionaryApplyEntry>, policy: ApplyPolicy, rids: Seq<u32>, k: int)
    requires
        policy.tag_only,
        rids == Seq::<u32>::empty(),
        0 <= k <= entries.len(),
    ensures
        model::entries_pass(strings, entries, policy, rids, k).strings.len() == strings.len(),
        forall|i: int| 0 <= i < strings.len()
            ==> (#[trigger] model::entries_pass(strings, entries, policy, rids, k).strings[i]).translation == strings[i].translation,
    decreases k,
{
    if k > 0 {
        lemma_tag_only_entries(strings, entries, policy, rids, k - 1);
        let p = model::entries_pass(strings, entries, policy, rids, k - 1);
        assert forall|i: int| 0 <= i < strings.len()
            implies (#[trigger] model::entries_pass(strings, entries, policy, rids, k).strings[i]).translation == strings[i].translation by {
            assert(p.strings[i].translation == strings[i].translation);
        }
    }
}

/// With no id due for a reset, the reset pass changes no string.
pub proof fn lemma_reset_pass_nothing(st: Pass, rids: Seq<u32>, k: int)
    requires
        rids == Seq::<u32>::empty(),
    ensures
        model::reset_pass(st, rids, k).strings == st.strings,
    decreases k,
{
    if k > 0 {
        lemma_reset_pass_nothing(st, rids, k - 1);
    }
}

/// Only tagging, with no reset asked for, one target keeps its translation.
pub proof fn lemma_target_effect_tag_only(sk: SkyStringView, t: Tally, used: Seq<int>, entries: Seq<DictionaryApplyEntry>, policy: ApplyPolicy)
    requires
        policy.tag_only,
        policy.sst_options is Some,
        !policy.sst_options->0.reset_state,
        !crate::types::has_flag(sk.internal, crate::types::SkyStringInternalParams::N_TRANS),
    ensures
        model::target_effect(sk, t, used, entries, policy).sk.translation == sk.translation,
{
    let cands = model::source_matches(entries, sk.source, entries.len() as int);
    match model::choose_entry(sk, entries, cands) {
        Some((j, d)) => {
            let a = model::apply_one(sk, entries[j], crate::matching::MatchTier::Exact, policy, false);
            assert(a.sk.translation == sk.translation);
        },
        None => {},
    }
}

/// Only tagging, with no reset asked for, the string-only pass changes no translation.
pub proof fn lemma_tag_only_targets(strings: Seq<SkyStringView>, entries: Seq<DictionaryApplyEntry>, policy: ApplyPolicy, k: int)
    requires
        policy.tag_only,
        policy.sst_options is Some,
        no_reset_asked(strings, policy),
        0 <= k <= strings.len(),
    ensures
        model::targets_pass(strings, entries, policy, k).strings.len() == strings.len(),
        forall|i: int| 0 <= i < strings.len()
            ==> (#[trigger] model::targets_pass(strings, entries, policy, k).strings[i]).translation == strings[i].translation,
    decreases k,
{
    if k > 0 {
        lemma_tag_only_targets(strings, entries, policy, k - 1);
        lemma_targets_pass_ahead(strings, entries, policy, k - 1);
        let p = model::targets_pass(strings, entries, policy, k - 1);
        assert(p.strings[k - 1] == strings[k - 1]);
        lemma_target_effect_tag_only(p.strings[k - 1], p.tally, p.used, entries, policy);
        assert forall|i: int| 0 <= i < strings.len()
            implies (#[trigger] model::targets_pass(strings, entries, policy, k).strings[i]).translation == strings[i].translation by {
            assert(p.strings[i].translation == strings[i].translation);
        }
    }
}

/// In the string-only mode with the same language, nothing is matched.
pub proof fn law_same_language_string_only_matches_nothing(strings: Seq<SkyStringView>, entries: Seq<DictionaryApplyEntry>, policy: ApplyPolicy)
    requires
        model::string_only_mode(policy),
        policy.same_language,
    ensures
        model::apply_model(strings, entries, policy).1.tier_exact == 0,
        model::apply_model(strings, entries, policy).1.pending_skipped == 0,
{
    lemma_same_language_targets(strings, entries, policy, strings.len() as int);
    let tp = model::targets_pass(strings, entries, policy, strings.len() as int);
    lemma_leftover_keeps_matches(tp.tally, entries, tp.used, policy, entries.len() as int);
}

/// In the same language the string-only pass takes no entry.
pub proof fn lemma_same_language_targets(strings: Seq<SkyStringView>, entries: Seq<DictionaryApplyEntry>, policy: ApplyPolicy, k: int)
    requires
        policy.same_language,
    ensures
        model::targets_pass(strings, entries, policy, k).tally.tier_exact == 0,
        model::targets_pass(strings, entries, policy, k).tally.pending_skipped == 0,
    decreases k,
{
    if k > 0 {
        lemma_same_language_targets(strings, entries, policy, k - 1);
    }
}

/// Counting the untaken entries changes no match count.
pub proof fn lemma_leftover_keeps_matches(t: Tally, entries: Seq<DictionaryApplyEntry>, used: Seq<int>, policy: ApplyPolicy, k: int)
    ensures
        model::leftover(t, entries, used, policy, k).tier_exact == t.tier_exact,
        model::leftover(t, entries, used, policy, k).pending_skipped == t.pending_skipped,
    decreases k,
{
    if k > 0 {
        lemma_leftover_keeps_matches(t, entries, used, policy, k - 1);
    }
}

} // verus!
