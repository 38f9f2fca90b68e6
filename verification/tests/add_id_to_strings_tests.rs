use std::collections::HashSet;
use xt_core::add_id_to_strings::{add_id_to_strings, AddIdToStringsOptions, AddIdToStringsScope};
use xt_core::types::{EspPointer, SkyString, SkyStringInternalParams, SkyStringParams};
fn make_sk(
    id: u32,
    source: &str,
    translation: &str,
    str_id: i32,
    form_id: u32,
    record_sig: [u8; 4],
    field_sig: [u8; 4],
) -> SkyString {
    let mut sk = SkyString::new(
        id,
        source.to_string(),
        translation.to_string(),
        record_sig,
        field_sig,
    );
    sk.esp_ptr = EspPointer {
        str_id,
        form_id,
        record_sig,
        field_sig,
        ..EspPointer::null()
    };
    sk
}

#[test]
fn test_add_id_prefixes_all_combinations() {
    let sk = make_sk(0, "Hello", "你好", 42, 0x0001A4B2, *b"INFO", *b"NAM1");
    let mut strings = vec![sk];
    let opts = AddIdToStringsOptions {
        scope: AddIdToStringsScope::Everything,
        add_string_id: true,
        add_form_id: true,
        add_record_ref: true,
        add_dial_ref: false,
        ..Default::default()
    };
    let result = add_id_to_strings(&mut strings, None, &opts);
    assert_eq!(result.modified_count, 1);
    // [%.5x] = 0002a, [%.8x] = 0001a4b2, [INFO:NAM1]
    assert_eq!(strings[0].translation, "[0002a][0001a4b2][INFO:NAM1] 你好");
}

#[test]
fn test_scope_notrans_valid_skips_translated() {
    let mut sk1 = make_sk(0, "A", "", 1, 0, *b"QUST", *b"FULL");
    sk1.params.set(SkyStringParams::TRANSLATED, true);
    let sk2 = make_sk(1, "B", "", 2, 0, *b"QUST", *b"FULL");
    let mut strings = vec![sk1, sk2];
    let opts = AddIdToStringsOptions {
        scope: AddIdToStringsScope::NoTransValid,
        add_string_id: true,
        ..Default::default()
    };
    let result = add_id_to_strings(&mut strings, None, &opts);
    assert_eq!(result.modified_count, 1);
    assert_eq!(strings[0].translation, ""); // skipped
    assert_eq!(strings[1].translation, "[00002] ");
}

#[test]
fn test_locked_and_empty_skipped() {
    let mut sk1 = make_sk(0, "A", "a", 1, 0, *b"QUST", *b"FULL");
    sk1.internal_params
        .set(SkyStringInternalParams::PEX_NO_TRANS, true);
    let sk2 = make_sk(1, "", "", 2, 0, *b"QUST", *b"FULL");
    let mut strings = vec![sk1, sk2];
    let opts = AddIdToStringsOptions {
        scope: AddIdToStringsScope::Everything,
        add_string_id: true,
        ..Default::default()
    };
    let result = add_id_to_strings(&mut strings, None, &opts);
    assert_eq!(result.modified_count, 0);
    assert_eq!(strings[0].translation, "a");
    assert_eq!(strings[1].translation, "");
}

#[test]
fn test_selection_scope() {
    let sk1 = make_sk(0, "A", "a", 1, 0, *b"QUST", *b"FULL");
    let sk2 = make_sk(1, "B", "b", 2, 0, *b"QUST", *b"FULL");
    let mut strings = vec![sk1, sk2];
    let mut selected = HashSet::new();
    selected.insert(1);
    let opts = AddIdToStringsOptions {
        scope: AddIdToStringsScope::Selection,
        selected_ids: Some(selected),
        add_string_id: true,
        ..Default::default()
    };
    add_id_to_strings(&mut strings, None, &opts);
    assert_eq!(strings[0].translation, "a");
    assert_eq!(strings[1].translation, "[00002] b");
}

#[test]
fn test_no_prefix_does_nothing() {
    let sk = make_sk(0, "A", "a", 1, 0, *b"QUST", *b"FULL");
    let mut strings = vec![sk];
    let opts = AddIdToStringsOptions {
        scope: AddIdToStringsScope::Everything,
        ..Default::default()
    };
    let result = add_id_to_strings(&mut strings, None, &opts);
    assert_eq!(result.modified_count, 0);
    assert_eq!(strings[0].translation, "a");
}
