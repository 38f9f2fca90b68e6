//! FormID offset arithmetic used when merging or migrating plugins.
use vstd::prelude::*;

verus! {

/// Which strings a FormID offset is applied to.
#[derive(Clone, Copy, Debug, PartialEq, Eq)]
pub enum AddIdScope {
    /// Every entry.
    All,
    /// Only entries that are not translated yet.
    UntranslatedOnly,
    /// Only the selected entries.
    SelectedOnly,
}

impl AddIdScope {
    /// The default scope: untranslated entries only.
    pub fn default_scope() -> (r: AddIdScope)
        ensures
            r == AddIdScope::UntranslatedOnly,
    {
        AddIdScope::UntranslatedOnly
    }
}

/// Options of a FormID offset operation.
#[derive(Clone, Debug)]
pub struct AddIdOptions {
    /// Offset added to every FormID.
    pub offset_value: i64,
    /// Whether FormID references are shifted too.
    pub apply_to_form_id: bool,
    /// Which entries are affected.
    pub scope: AddIdScope,
    /// The selected ids, used when the scope is `SelectedOnly`.
    pub selected_ids: Option<Vec<u32>>,
}

impl AddIdOptions {
    /// Default options: no offset, FormIDs shifted, untranslated entries only.
    pub fn default_options() -> (r: AddIdOptions)
        ensures
            r.offset_value == 0,
            r.apply_to_form_id,
            r.scope == AddIdScope::UntranslatedOnly,
            r.selected_ids is None,
    {
        AddIdOptions {
            offset_value: 0,
            apply_to_form_id: true,
            scope: AddIdScope::UntranslatedOnly,
            selected_ids: None,
        }
    }
}

/// Summary of a FormID offset operation.
#[derive(Clone, Debug)]
pub struct AddIdResult {
    pub modified_count: u32,
    pub total_processed: u32,
}

/// `form_id + offset`, saturated into the range of `u32`.
pub open spec fn spec_offset_form_id(form_id: u32, offset: i64) -> u32 {
    let r = form_id + offset;
    if r < 0 {
        0
    } else if r > u32::MAX {
        u32::MAX
    } else {
        r as u32
    }
}

/// Adds `offset` to a FormID, clamping the result to `0..=u32::MAX`.
pub fn calculate_offset_form_id(original_form_id: u32, offset: i64) -> (r: u32)
    ensures
        r == spec_offset_form_id(original_form_id, offset),
{
    let base = original_form_id as i128;
    let result: i128 = base + offset as i128;
    if result < 0 {
        0
    } else if result > 0xFFFF_FFFFi128 {
        u32::MAX
    } else {
        result as u32
    }
}

} // verus!
