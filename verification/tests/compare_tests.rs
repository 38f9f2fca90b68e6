use xt_core::esp::compare::{
    build_comparison_from_entries, compare_string_sets, extract_compare_entries, split_form_id, CompareEntry,
    CompareExtractor, CompareReadError,
};
use xt_core::esp::defs::{StringsFiles, TranslatableField};
use xt_core::types::{
    string_hash, EspPointer, SkyString, SkyStringInternalParams, SkyStringParams,
};

fn push_field(data: &mut Vec<u8>, sig: &[u8; 4], value: u32) {
    data.extend_from_slice(sig);
    data.extend_from_slice(&4u16.to_le_bytes());
    data.extend_from_slice(&value.to_le_bytes());
}

fn make_test_string(id: u32, str_id: i32, source: &str, record_sig: &[u8; 4]) -> SkyString {
    make_test_string_with_pointer(id, str_id, source, record_sig, 0, 0)
}

fn make_test_string_with_pointer(
    id: u32,
    str_id: i32,
    source: &str,
    record_sig: &[u8; 4],
    form_id: u32,
    field_index: u16,
) -> SkyString {
    SkyString {
        id,
        source: source.to_string(),
        translation: String::new(),
        record_sig: *record_sig,
        field_sig: *b"TEST",
        esp_ptr: EspPointer {
            str_id,
            form_id,
            record_sig: *record_sig,
            field_sig: *b"TEST",
            index: field_index,
            index_max: 0,
            edid_hash: 0,
        },
        params: SkyStringParams::default(),
        internal_params: SkyStringInternalParams::new(),
        list_index: 0,
        colab_id: 0,
        ld_result: 0,
        ld_found: 0,
        normalized_hash: None,
        hash: 0,
        hash_trans: 0,
        word_hashes: Vec::new(),
        parent_form_id: 0,
        field_ref: None,
    }
}

fn make_compare_entry(
    id: u32,
    source: &str,
    form_id: u32,
    form_owner_hash: u32,
    local_form_id: u32,
    field_index: u16,
) -> CompareEntry {
    CompareEntry {
        id,
        str_id: 0,
        source: source.to_string(),
        record_sig: *b"TEST",
        field_sig: *b"FULL",
        form_id,
        form_owner_hash,
        local_form_id,
        field_index,
        field_index_max: 0,
        edid_hash: 0,
        source_hash: string_hash(source),
    }
}

#[test]
fn test_compare_identical() {
    let old = vec![
        make_test_string(0, 1, "Hello", b"TEST"),
        make_test_string(1, 2, "World", b"TEST"),
    ];
    let new = vec![
        make_test_string(10, 1, "Hello", b"TEST"),
        make_test_string(11, 2, "World", b"TEST"),
    ];

    let comp = compare_string_sets(&old, &new);

    assert_eq!(comp.identical_count(), 2);
    assert_eq!(comp.added_count(), 0);
    assert_eq!(comp.removed_count(), 0);
    assert_eq!(comp.modified_count(), 0);
}

#[test]
fn test_compare_added_removed() {
    let old = vec![make_test_string(0, 1, "Hello", b"TEST")];
    let new = vec![
        make_test_string(10, 1, "Hello", b"TEST"),
        make_test_string(11, 2, "New", b"TEST"),
    ];

    let comp = compare_string_sets(&old, &new);

    assert_eq!(comp.identical_count(), 1);
    assert_eq!(comp.added_count(), 1);
    assert_eq!(comp.removed_count(), 0);
}

#[test]
fn test_compare_modified() {
    let old = vec![make_test_string(0, 1, "Hello", b"TEST")];
    let new = vec![make_test_string(10, 1, "Hola", b"TEST")];

    let comp = compare_string_sets(&old, &new);

    assert_eq!(comp.identical_count(), 0);
    assert_eq!(comp.modified_count(), 1);
    assert_eq!(comp.added_count(), 0);
    assert_eq!(comp.removed_count(), 0);
}

#[test]
fn test_compare_prefers_form_id_over_shared_string_id() {
    let old = vec![make_test_string_with_pointer(0, 1, "Hello", b"TEST", 0x0100_0001, 0)];
    let new = vec![make_test_string_with_pointer(10, 1, "Hola", b"TEST", 0x0100_0002, 0)];

    let comp = compare_string_sets(&old, &new);

    assert_eq!(comp.identical_count(), 0);
    assert_eq!(comp.modified_count(), 0);
    assert_eq!(comp.added_count(), 1);
    assert_eq!(comp.removed_count(), 1);
}

#[test]
fn test_compare_uses_duplicate_field_occurrence() {
    let old = vec![
        make_test_string_with_pointer(0, 1, "First", b"TEST", 0x0100_0001, 0),
        make_test_string_with_pointer(1, 2, "Second", b"TEST", 0x0100_0001, 1),
    ];
    let new = vec![
        make_test_string_with_pointer(10, 1, "First", b"TEST", 0x0100_0001, 0),
        make_test_string_with_pointer(11, 2, "Second changed", b"TEST", 0x0100_0001, 1),
    ];

    let comp = compare_string_sets(&old, &new);

    assert_eq!(comp.identical_count(), 1);
    assert_eq!(comp.modified_count(), 1);
    assert_eq!(comp.added_count(), 0);
    assert_eq!(comp.removed_count(), 0);
}

#[test]
fn test_compare_extractor_keeps_only_string_fields_with_occurrence_indexes() {
    let record_defs = vec![TranslatableField::new(*b"TEST", *b"FULL", 0)];
    let mut extractor = CompareExtractor {
        record_defs,
        strings_files: StringsFiles::empty(),
        master_owner_hashes: Vec::new(),
        self_owner_hash: string_hash("\0compare-self\0"),
        entries: Vec::new(),
    };
    let mut data = Vec::new();
    push_field(&mut data, b"FULL", 1);
    push_field(&mut data, b"EDID", 99);
    push_field(&mut data, b"FULL", 2);

    extractor.parse_record_fields(b"TEST", 0x0100_0001, &data);

    assert_eq!(extractor.entries.len(), 2);
    assert_eq!(extractor.entries[0].source, "<ID:1>");
    assert_eq!(extractor.entries[0].field_index, 0);
    assert_eq!(extractor.entries[0].field_index_max, 1);
    assert_eq!(extractor.entries[1].source, "<ID:2>");
    assert_eq!(extractor.entries[1].field_index, 1);
    assert_eq!(extractor.entries[1].field_index_max, 1);
}

#[test]
fn test_compare_uses_normalized_master_identity() {
    let owner_hash = string_hash("skyrim.esm");
    let old = vec![make_compare_entry(0, "Shared", 0x0100_0042, owner_hash, 0x0000_0042, 0)];
    let new = vec![make_compare_entry(10, "Shared", 0x0200_0042, owner_hash, 0x0000_0042, 0)];

    let comp = build_comparison_from_entries(old, new);

    assert_eq!(comp.identical_count(), 1);
    assert_eq!(comp.added_count(), 0);
    assert_eq!(comp.removed_count(), 0);
}

#[test]
fn test_compare_large_dataset_performance() {
    let count = 75_000;
    let old: Vec<SkyString> = (0..count)
        .map(|i| make_test_string(i, i as i32, &format!("Source text {}", i), b"TEST"))
        .collect();
    let new: Vec<SkyString> = (0..count)
        .map(|i| make_test_string(i + count, i as i32, &format!("Source text {}", i), b"TEST"))
        .collect();

    let start = std::time::Instant::now();
    let comp = compare_string_sets(&old, &new);
    let elapsed = start.elapsed();

    assert_eq!(comp.identical_count(), count as usize);
    assert_eq!(comp.added_count(), 0);
    assert_eq!(comp.removed_count(), 0);

    let query_start = std::time::Instant::now();
    for i in 0..count as u32 {
        let _ = comp.is_added(i);
        let _ = comp.is_removed(i);
        let _ = comp.is_modified(i);
    }
    let query_elapsed = query_start.elapsed();

    assert!(elapsed.as_millis() < 5000, "Comparison took {}ms", elapsed.as_millis());
    assert!(query_elapsed.as_millis() < 1000, "Queries took {}ms", query_elapsed.as_millis());
}

#[test]
fn self_comparison_is_all_identical() {
    let strings = vec![
        make_test_string(0, 1, "A", b"TEST"),
        make_test_string(1, 1, "A again", b"TEST"),
        make_test_string(2, 2, "B", b"TEST"),
    ];
    let comp = compare_string_sets(&strings, &strings);
    assert_eq!(comp.added_count(), 0);
    assert_eq!(comp.modified_count(), 0);
    assert_eq!(comp.removed_count(), 0);
    assert_eq!(comp.identical_count(), 2);
    assert_eq!(comp.get_match(1), Some(1));
    assert_eq!(comp.get_match(0), None);
    assert_eq!(comp.all_ids(), vec![0, 1, 2]);
}

#[test]
fn modified_pairs_and_removed_ids() {
    let old = vec![
        make_test_string(5, 1, "Hello", b"TEST"),
        make_test_string(6, 3, "Gone", b"TEST"),
    ];
    let new = vec![make_test_string(7, 1, "Hallo", b"TEST")];
    let comp = compare_string_sets(&old, &new);
    assert!(comp.is_modified(7));
    assert_eq!(comp.modified_pairs.get(&7), Some(&5));
    assert!(comp.is_removed(6));
    assert!(!comp.is_added(7));
}

#[test]
fn split_form_id_by_plugin_kind() {
    assert_eq!(split_form_id(0x0100_0042), (1, 0x0000_0042));
    assert_eq!(split_form_id(0xFE00_3042), (3, 0xFE00_0042));
    assert_eq!(split_form_id(0xFD02_1234), (2, 0xFD00_1234));
}

fn record(sig: &[u8; 4], form_id: u32, data: &[u8]) -> Vec<u8> {
    let mut out = sig.to_vec();
    out.extend_from_slice(&(data.len() as u32).to_le_bytes());
    out.extend_from_slice(&0u32.to_le_bytes());
    out.extend_from_slice(&form_id.to_le_bytes());
    out.extend_from_slice(&[0u8; 8]);
    out.extend_from_slice(data);
    out
}

#[test]
fn extract_entries_use_master_identity() {
    let mut hdr = Vec::new();
    hdr.extend_from_slice(b"MAST");
    hdr.extend_from_slice(&12u16.to_le_bytes());
    hdr.extend_from_slice(b" Skyrim.ESM\0");
    let mut data = record(b"TES4", 0, &hdr);
    let mut grup = b"GRUP".to_vec();
    let mut body = Vec::new();
    push_field(&mut body, b"FULL", 5);
    let weap = record(b"WEAP", 0x0000_0042, &body);
    grup.extend_from_slice(&((weap.len() + 24) as u32).to_le_bytes());
    grup.extend_from_slice(b"WEAP");
    grup.extend_from_slice(&[0u8; 12]);
    grup.extend(weap);
    data.extend(grup);
    let defs = vec![TranslatableField::new(*b"****", *b"FULL", 0)];
    let entries = extract_compare_entries(defs.clone(), StringsFiles::empty(), &data).unwrap();
    assert_eq!(entries.len(), 1);
    assert_eq!(entries[0].form_owner_hash, string_hash("skyrim.esm"));
    assert_eq!(entries[0].local_form_id, 0x42);
    assert_eq!(entries[0].source, "<ID:5>");
    let mut cut = data.clone();
    cut.truncate(data.len() - 2);
    assert_eq!(extract_compare_entries(defs, StringsFiles::empty(), &cut).unwrap_err(), CompareReadError::UnexpectedEof);
}
