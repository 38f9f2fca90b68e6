//! Applying a matched dictionary entry to a string: resets, status,
//! warnings and the list of updated ids.
use vstd::prelude::*;
use crate::matching::{DictionaryApplyEntry, DictionarySourceFormat, SstMatchMode, ApplyPolicy, MatchTier};
use crate::matching::model::ApplyEffect;
use crate::matching::select::is_vmad_string;
use crate::types::{SkyString, SkyStringParams, SkyStringInternalParams};

verus! {

/// Clears the warning flags (see [`crate::matching::model::clear_warnings`]).
pub fn clear_warning_flags(params: &mut SkyStringInternalParams)
    ensures
        final(params).bits == crate::matching::model::clear_warnings(old(params).bits),
{
    params.set(SkyStringInternalParams::LOW_WARNING, false);
    params.set(SkyStringInternalParams::WARNING, false);
    params.set(SkyStringInternalParams::BIG_WARNING, false);
    params.set(SkyStringInternalParams::N_TRANS, false);
    params.set(SkyStringInternalParams::SPELL_CHECK_FAULT, false);
}

/// Clears the translation status flags (see [`crate::matching::model::clear_status`]).
pub fn clear_translation_status(params: &mut SkyStringParams)
    ensures
        final(params).bits == crate::matching::model::clear_status(old(params).bits),
{
    params.set(SkyStringParams::TRANSLATED, false);
    params.set(SkyStringParams::LOCKED_TRANS, false);
    params.set(SkyStringParams::INCOMPLETE_TRANS, false);
    params.set(SkyStringParams::VALIDATED, false);
}

/// Resets a string to untranslated and tells whether anything changed
/// (see [`crate::matching::model::reset`]).
pub fn reset_target(sk: &mut SkyString, reset_vmad: bool) -> (changed: bool)
    ensures
        (final(sk)@, changed) == crate::matching::model::reset(old(sk)@, reset_vmad),
{
    let old_translation = sk.translation.clone();
    let old_params = sk.params.bits;
    let old_internal = sk.internal_params.bits;
    let old_ld_result = sk.ld_result;
    let old_ld_found = sk.ld_found;
    let is_vmad_reset = reset_vmad && is_vmad_string(sk);
    let was_locked_vmad = is_vmad_reset && sk.params.is_locked();
    let reset_translation = if is_vmad_reset {
        sk.source.clone()
    } else {
        String::new()
    };
    if !(sk.translation == reset_translation) {
        sk.set_translation(reset_translation);
    }
    if !was_locked_vmad {
        sk.params = SkyStringParams::new();
        if is_vmad_reset {
            sk.params.set(SkyStringParams::LOCKED_TRANS, true);
        }
        clear_warning_flags(&mut sk.internal_params);
        sk.ld_result = 99;
        sk.ld_found = 0;
    }
    !(sk.translation == old_translation) || sk.params.bits != old_params
        || sk.internal_params.bits != old_internal || sk.ld_result != old_ld_result
        || sk.ld_found != old_ld_found
}

/// Sets the status a matched string gets
/// (see [`crate::matching::model::status_flag`]).
pub fn apply_status(sk: &mut SkyString, entry: &DictionaryApplyEntry, policy: &ApplyPolicy, hash_before: u32)
    ensures
        final(sk)@ == (crate::types::SkyStringView {
            params: crate::types::with_flag(0, crate::matching::model::status_flag(old(sk)@, *entry, *policy, hash_before), true),
            ..old(sk)@
        }),
{
    let entry_bits: u32 = match entry.params {
        Some(p) => p.bits,
        None => 0,
    };
    let params = SkyStringParams { bits: entry_bits };
    let from_sst = entry.source_format == DictionarySourceFormat::Sst;
    let is_sst_string_only = from_sst && match &policy.sst_options {
        Some(opts) => opts.match_mode == SstMatchMode::StringOnly,
        None => false,
    };
    let is_sst_vmad = from_sst && is_vmad_string(sk);
    let flag = if params.is_locked() {
        SkyStringParams::LOCKED_TRANS
    } else if params.is_incomplete() {
        SkyStringParams::INCOMPLETE_TRANS
    } else if is_sst_string_only {
        SkyStringParams::VALIDATED
    } else if is_sst_vmad {
        if hash_before != crate::types::string_hash(entry.translation.as_str())
            || (policy.same_language && sk.hash != sk.hash_trans) {
            SkyStringParams::VALIDATED
        } else {
            SkyStringParams::TRANSLATED
        }
    } else if policy.same_language {
        SkyStringParams::VALIDATED
    } else if sk.translation.as_str().unicode_len() > 0 {
        SkyStringParams::TRANSLATED
    } else {
        SkyStringParams::INCOMPLETE_TRANS
    };
    sk.params = SkyStringParams::new();
    sk.params.set(flag, true);
}

/// Marks a fallback match on a string with field counts; returns the warning
/// and big warning increments (see [`crate::matching::model::index_warning`]).
pub fn apply_index_warning(sk: &mut SkyString, entry: &DictionaryApplyEntry, tier: MatchTier) -> (r: (u32, u32))
    ensures
        (final(sk)@, r.0 as int, r.1 as int) == crate::matching::model::index_warning(old(sk)@, *entry, tier),
{
    if tier == MatchTier::Exact || (entry.index_max == 0 && sk.esp_ptr.index_max == 0) {
        return (0, 0);
    }
    clear_translation_status(&mut sk.params);
    sk.params.set(SkyStringParams::INCOMPLETE_TRANS, true);
    if entry.index_max != sk.esp_ptr.index_max {
        sk.internal_params.set(SkyStringInternalParams::BIG_WARNING, true);
        (0, 1)
    } else {
        sk.internal_params.set(SkyStringInternalParams::WARNING, true);
        (1, 0)
    }
}

/// Applies a matched entry to a string (see [`crate::matching::model::apply_one`]);
/// returns the effect, whether the string changed, and the warning and big
/// warning increments.
pub fn apply_match(
    sk: &mut SkyString,
    entry: &DictionaryApplyEntry,
    tier: MatchTier,
    policy: &ApplyPolicy,
    reset_state: bool,
) -> (r: (ApplyEffect, bool, u32, u32))
    ensures
        ({
            let a = crate::matching::model::apply_one(old(sk)@, *entry, tier, *policy, reset_state);
            &&& final(sk)@ == a.sk
            &&& r.0 == a.effect
            &&& r.1 == a.changed
            &&& r.2 as int == a.warning
            &&& r.3 as int == a.big_warning
            &&& r.2 <= 1 && r.3 <= 1
        }),
{
    let target_is_vmad = is_vmad_string(sk);
    let mut changed = false;
    if reset_state {
        changed = reset_target(sk, target_is_vmad);
    }
    let hash_before = sk.hash_trans;
    if policy.replace_string_id && sk.esp_ptr.str_id != entry.str_id {
        sk.esp_ptr.str_id = entry.str_id;
        sk.internal_params.set(SkyStringInternalParams::STRING_ID_CHANGED, true);
        changed = true;
    }
    if entry.source_format == DictionarySourceFormat::Sst && sk.colab_id != entry.colab_id {
        sk.colab_id = entry.colab_id;
        changed = true;
    }
    if policy.tag_only {
        return (ApplyEffect::Applied, changed, 0, 0);
    }
    let pending = match entry.params {
        Some(p) => p.is_pending(),
        None => false,
    };
    if pending {
        if entry.source_format == DictionarySourceFormat::Sst {
            let c = reset_target(sk, target_is_vmad);
            changed = changed || c;
        }
        return (ApplyEffect::PendingSkipped, changed, 0, 0);
    }
    if entry.translation.as_str().unicode_len() > 0 && !(sk.translation == entry.translation) {
        sk.set_translation(entry.translation.clone());
        changed = true;
    }
    let old_params = sk.params.bits;
    let old_internal = sk.internal_params.bits;
    clear_warning_flags(&mut sk.internal_params);
    apply_status(sk, entry, policy, hash_before);
    let (w, b) = apply_index_warning(sk, entry, tier);
    changed = changed || sk.params.bits != old_params || sk.internal_params.bits != old_internal;
    (ApplyEffect::Applied, changed, w, b)
}

/// Appends `id` unless the list holds it already
/// (see [`crate::matching::model::push_unique`]).
pub fn push_updated_id(updated_ids: &mut Vec<u32>, id: u32)
    ensures
        final(updated_ids)@ == crate::matching::model::push_unique(old(updated_ids)@, id),
{
    if !crate::matching::select::u32s_contain(updated_ids, id) {
        updated_ids.push(id);
    }
}

} // verus!
