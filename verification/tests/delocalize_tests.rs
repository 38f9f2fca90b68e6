use xt_core::esp::delocalize::{
    build_normalized_index, build_string_map, delocalize_esp, delocalize_grup, delocalize_record,
    reassign_string_ids, strings_files_for,
};
use xt_core::esp::header::{FieldHeader, GenericHeader, GrupHeader, RecordHeaderData};
use xt_core::esp::record_tree::{EspField, EspFile, EspGrup, EspRecord, Tes4Header};
use xt_core::types::SkyString;

fn make_test_record(form_id: u32, fields: Vec<EspField>) -> EspRecord {
    EspRecord {
        header: GenericHeader { name: *b"INFO", dsize: 0 },
        record_header_data: RecordHeaderData { flags: 0, form_id, version: 44, f_version: 15, v_info: 0 },
        fields,
        compressed: false,
        raw: false,
        form_id,
        editor_id: None,
        original_raw_data: Vec::new(),
    }
}

fn make_string_field(name: [u8; 4], text: &str) -> EspField {
    let mut buffer = text.as_bytes().to_vec();
    buffer.push(0);
    EspField { header: FieldHeader { name, dsize: buffer.len() as u16 }, buffer, is_size_xxxx: false }
}

fn make_id_field(name: [u8; 4], id: u32) -> EspField {
    let buffer = id.to_le_bytes().to_vec();
    EspField { header: FieldHeader { name, dsize: 4 }, buffer, is_size_xxxx: false }
}

fn make_grup(ident: [u8; 4], records: Vec<EspRecord>, children: Vec<EspGrup>) -> EspGrup {
    EspGrup {
        header: GenericHeader { name: *b"GRUP", dsize: 0 },
        grup_header: GrupHeader { s_ident: ident, s_type: 0, s_tstamp: 0, param1: 0, param2: 0, param3: 0 },
        records,
        children,
    }
}

fn make_esp(grups: Vec<EspGrup>) -> EspFile {
    EspFile {
        tes4: Tes4Header {
            generic: GenericHeader { name: *b"TES4", dsize: 0 },
            record_header_data: RecordHeaderData { flags: 0, form_id: 0, version: 44, f_version: 15, v_info: 0 },
            field_data: Vec::new(),
        },
        top_level_grups: grups,
    }
}

fn string_for(form_id: u32, source: &str, translation: &str, field: [u8; 4]) -> SkyString {
    let mut sk = SkyString::new(0, source.to_string(), translation.to_string(), *b"INFO", field);
    sk.esp_ptr.form_id = form_id;
    sk
}

#[test]
fn test_delocalize_minimal() {
    let record = make_test_record(0x1234, vec![
        make_string_field(*b"EDID", "TestNPC"),
        make_string_field(*b"FULL", "Hello World"),
    ]);
    let grup = make_grup(*b"NPC_", vec![record], Vec::new());
    let esp = make_esp(vec![grup]);
    assert_eq!(esp.top_level_grups[0].records[0].fields[1].buffer, b"Hello World\0");
}

#[test]
fn test_string_map_building() {
    let mut sk = SkyString::new(0, "Hello".to_string(), String::new(), *b"INFO", *b"FULL");
    sk.esp_ptr.form_id = 0x1234;

    let entries = vec![sk];
    let map = build_string_map(&entries);
    assert!(map.contains_key(&(0x1234, *b"FULL", 0)));
}

#[test]
fn test_2pass_normalized_match() {
    let mut sk = SkyString::new(0, "Hello World".to_string(), "你好世界".to_string(), *b"INFO", *b"FULL");
    sk.esp_ptr.form_id = 0x1234;

    let entries = vec![sk];
    let string_map = build_string_map(&entries);
    let normalized_index = build_normalized_index(&entries);

    let record = make_test_record(
        0x9999,
        vec![
            make_string_field(*b"EDID", "SomeNPC"),
            make_string_field(*b"FULL", "Hello World"),
        ],
    );
    let mut grup = make_grup(*b"INFO", vec![record], Vec::new());

    let count = delocalize_grup(&mut grup, &string_map, &normalized_index);
    assert_eq!(count, 1);

    let full_field = &grup.records[0].fields[1];
    let text = std::str::from_utf8(&full_field.buffer).unwrap();
    assert_eq!(text, "你好世界");
}

#[test]
fn string_map_counts_occurrences_per_form_and_field() {
    let entries = vec![
        string_for(0x10, "One", "", *b"NAM1"),
        string_for(0x10, "Two", "", *b"NAM1"),
        string_for(0x10, "Three", "", *b"FULL"),
        string_for(0x20, "Four", "", *b"NAM1"),
    ];
    let map = build_string_map(&entries);
    assert_eq!(map.get(&(0x10, *b"NAM1", 0)), Some(0));
    assert_eq!(map.get(&(0x10, *b"NAM1", 1)), Some(1));
    assert_eq!(map.get(&(0x10, *b"NAM1", 2)), None);
    assert_eq!(map.get(&(0x10, *b"FULL", 0)), Some(2));
    assert_eq!(map.get(&(0x20, *b"NAM1", 0)), Some(3));
    assert!(!map.contains_key(&(0x30, *b"NAM1", 0)));
}

#[test]
fn strict_match_uses_translation_and_field_occurrence() {
    let entries = vec![
        string_for(0x10, "First", "Erste", *b"NAM1"),
        string_for(0x10, "Second", "", *b"NAM1"),
    ];
    let map = build_string_map(&entries);
    let index = build_normalized_index(&entries);
    let mut record = make_test_record(0x10, vec![
        make_id_field(*b"NAM1", 7),
        make_id_field(*b"NAM1", 8),
        make_id_field(*b"NAM1", 9),
    ]);
    let count = delocalize_record(&mut record, &map, &index);
    assert_eq!(count, 2);
    assert_eq!(record.fields[0].buffer, b"Erste".to_vec());
    assert_eq!(record.fields[0].header.dsize, 5);
    // no translation: the source is used
    assert_eq!(record.fields[1].buffer, b"Second".to_vec());
    assert_eq!(record.fields[1].header.dsize, 6);
    // third occurrence has no string and stays
    assert_eq!(record.fields[2].buffer, 9u32.to_le_bytes().to_vec());
}

#[test]
fn xxxx_fields_are_skipped_and_not_counted() {
    let entries = vec![string_for(0x10, "Name", "Nom", *b"FULL")];
    let map = build_string_map(&entries);
    let index = build_normalized_index(&entries);
    let xxxx = EspField { header: FieldHeader { name: *b"XXXX", dsize: 4 }, buffer: vec![4, 0, 0, 0], is_size_xxxx: true };
    let mut record = make_test_record(0x10, vec![xxxx, make_id_field(*b"FULL", 1)]);
    assert_eq!(delocalize_record(&mut record, &map, &index), 1);
    assert_eq!(record.fields[0].buffer, vec![4, 0, 0, 0]);
    assert_eq!(record.fields[1].buffer, b"Nom".to_vec());
}

#[test]
fn raw_records_are_left_alone() {
    let entries = vec![string_for(0x10, "Name", "Nom", *b"FULL")];
    let map = build_string_map(&entries);
    let index = build_normalized_index(&entries);
    let mut record = make_test_record(0x10, vec![make_id_field(*b"FULL", 1)]);
    record.raw = true;
    assert_eq!(delocalize_record(&mut record, &map, &index), 0);
    assert_eq!(record.fields[0].buffer, 1u32.to_le_bytes().to_vec());
}

#[test]
fn relaxed_match_needs_same_field_signature() {
    let entries = vec![string_for(0x1234, "Hello World", "Bonjour", *b"DESC")];
    let map = build_string_map(&entries);
    let index = build_normalized_index(&entries);
    let mut record = make_test_record(0x9999, vec![make_string_field(*b"FULL", "hello, world!")]);
    assert_eq!(delocalize_record(&mut record, &map, &index), 0);
    assert_eq!(record.fields[0].buffer, b"hello, world!\0".to_vec());
}

#[test]
fn relaxed_match_ignores_case_and_punctuation() {
    let entries = vec![string_for(0x1234, "Hello World", "Bonjour", *b"FULL")];
    let map = build_string_map(&entries);
    let index = build_normalized_index(&entries);
    let mut record = make_test_record(0x9999, vec![make_string_field(*b"FULL", "hello,   WORLD!")]);
    assert_eq!(delocalize_record(&mut record, &map, &index), 1);
    assert_eq!(record.fields[0].buffer, b"Bonjour".to_vec());
}

#[test]
fn nested_groups_are_delocalized_and_renumbered_in_order() {
    let entries = vec![
        string_for(0x1, "Sword", "Schwert", *b"FULL"),
        string_for(0x2, "Shield", "Schild", *b"FULL"),
    ];
    let inner = make_grup(*b"WEAP", vec![make_test_record(0x2, vec![make_id_field(*b"FULL", 5)])], Vec::new());
    let outer = make_grup(*b"WEAP", vec![make_test_record(0x1, vec![make_id_field(*b"FULL", 4)])], vec![inner]);
    let mut esp = make_esp(vec![outer]);
    let result = delocalize_esp(&mut esp, &entries, "Mod", "german");
    assert_eq!(result.string_count, 2);
    assert_eq!(esp.top_level_grups[0].records[0].fields[0].buffer, b"Schwert".to_vec());
    assert_eq!(esp.top_level_grups[0].children[0].records[0].fields[0].buffer, b"Schild".to_vec());
    assert_eq!(result.entries, vec![(1, "Schwert".to_string(), 0), (2, "Schild".to_string(), 0)]);
    assert_eq!(result.strings_files, vec!["Mod_german.STRINGS".to_string()]);
}

#[test]
fn reassign_skips_short_and_nul_only_fields() {
    let record = make_test_record(0x1, vec![
        make_id_field(*b"FULL", 3),
        EspField { header: FieldHeader { name: *b"DESC", dsize: 6 }, buffer: vec![0; 6], is_size_xxxx: false },
        make_string_field(*b"NAM1", "Long text"),
    ]);
    let esp = make_esp(vec![make_grup(*b"INFO", vec![record], Vec::new())]);
    let entries = reassign_string_ids(&esp);
    assert_eq!(entries, vec![(1, "Long text".to_string(), 0)]);
}

#[test]
fn no_entries_no_files() {
    let entries: Vec<(u32, String, u8)> = Vec::new();
    assert!(strings_files_for(&entries, "Mod", "english").is_empty());
    let mixed = vec![(1, "a".to_string(), 2), (2, "b".to_string(), 0)];
    assert_eq!(
        strings_files_for(&mixed, "Mod", "english"),
        vec!["Mod_english.STRINGS".to_string(), "Mod_english.ILSTRINGS".to_string()]
    );
}
