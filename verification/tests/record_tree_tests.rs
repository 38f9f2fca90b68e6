use flate2::read::ZlibDecoder;
use xt_core::esp::header::{FieldHeader, GenericHeader, GrupHeader, RecordHeaderData};
use xt_core::esp::record_tree::{EspField, EspGrup, EspRecord};

#[test]
fn test_parse_fields_basic() {
    // Create a minimal field buffer: 2 fields
    let mut data = Vec::new();
    // Field 1: EDID, 5 bytes
    data.extend_from_slice(b"EDID");
    data.extend_from_slice(&5u16.to_le_bytes());
    data.extend_from_slice(b"Hello");
    // Field 2: FULL, 3 bytes
    data.extend_from_slice(b"FULL");
    data.extend_from_slice(&3u16.to_le_bytes());
    data.extend_from_slice(b"Bob");

    let fields = EspField::parse_fields(&data);
    assert_eq!(fields.len(), 2);
    assert_eq!(fields[0].header.name, *b"EDID");
    assert_eq!(fields[0].buffer, b"Hello");
    assert_eq!(fields[1].header.name, *b"FULL");
    assert_eq!(fields[1].buffer, b"Bob");
}

#[test]
fn test_parse_fields_with_xxxx() {
    // XXXX field followed by a large field
    let mut data = Vec::new();
    // XXXX field
    data.extend_from_slice(b"XXXX");
    data.extend_from_slice(&4u16.to_le_bytes()); // dsize=4 for XXXX itself
    data.extend_from_slice(&70000u32.to_le_bytes()); // next field size
                                                     // Large field
    data.extend_from_slice(b"DESC");
    // dsize in header is 0 (overridden by XXXX)
    data.extend_from_slice(&0u16.to_le_bytes());
    data.extend_from_slice(&vec![0xAA; 70000]);

    let fields = EspField::parse_fields(&data);
    assert_eq!(fields.len(), 2);
    assert!(fields[0].is_size_xxxx);
    assert_eq!(fields[0].buffer, 70000u32.to_le_bytes());
    assert_eq!(fields[1].header.name, *b"DESC");
    assert_eq!(fields[1].buffer.len(), 70000);
}

fn make_test_record(fields: Vec<EspField>, compressed: bool) -> EspRecord {
    let data_len: usize = fields.iter().map(|f| 6 + f.buffer.len()).sum();
    EspRecord {
        header: GenericHeader {
            name: *b"NPC_",
            dsize: data_len as u32,
        },
        record_header_data: RecordHeaderData {
            flags: if compressed { 0x00040000 } else { 0 },
            form_id: 0x1234,
            version: 44,
            f_version: 15,
            v_info: 0,
        },
        fields,
        compressed,
        raw: false,
        form_id: 0x1234,
        editor_id: None,
        original_raw_data: Vec::new(),
    }
}

fn make_field(sig: &[u8; 4], data: &[u8]) -> EspField {
    EspField {
        header: FieldHeader {
            name: *sig,
            dsize: data.len() as u16,
        },
        buffer: data.to_vec(),
        is_size_xxxx: false,
    }
}

#[test]
fn test_rebuild_no_change() {
    let fields = vec![
        make_field(b"EDID", b"TestNPC"),
        make_field(b"FULL", b"Test Name"),
    ];
    let mut record = make_test_record(fields, false);
    let original_dsize = record.header.dsize;

    record.rebuild_data().unwrap();

    // dsize should remain the same since nothing changed
    assert_eq!(record.header.dsize, original_dsize);
    assert_eq!(record.fields.len(), 2);
    assert_eq!(record.fields[0].buffer, b"TestNPC");
    assert_eq!(record.fields[1].buffer, b"Test Name");
}

#[test]
fn test_rebuild_with_translation() {
    let fields = vec![
        make_field(b"EDID", b"TestNPC"),
        make_field(b"FULL", b"Hello"),
    ];
    let mut record = make_test_record(fields, false);
    let original_dsize = record.header.dsize;

    // Simulate translation: update FULL field
    record.fields[1].buffer = b"Translated Greeting in Chinese".to_vec();
    record.fields[1].header.dsize = record.fields[1].buffer.len() as u16;

    record.rebuild_data().unwrap();

    // dsize should increase
    assert!(record.header.dsize > original_dsize);
    assert_eq!(record.fields[1].buffer, b"Translated Greeting in Chinese");
}

#[test]
fn test_rebuild_compressed() {
    let fields = vec![
        make_field(b"EDID", b"TestNPC"),
        make_field(b"FULL", b"Some text for compression"),
    ];
    let mut record = make_test_record(fields, true);

    record.rebuild_data().unwrap();

    // Should have compressed data in original_raw_data
    assert!(!record.original_raw_data.is_empty());

    // Verify compressed format: first 4 bytes = decompressed size LE
    assert!(record.original_raw_data.len() >= 4);
    let decompressed_size = u32::from_le_bytes([
        record.original_raw_data[0],
        record.original_raw_data[1],
        record.original_raw_data[2],
        record.original_raw_data[3],
    ]);

    // Decompress and verify
    let mut decoder = ZlibDecoder::new(&record.original_raw_data[4..]);
    let mut decompressed = Vec::new();
    std::io::Read::read_to_end(&mut decoder, &mut decompressed).unwrap();
    assert_eq!(decompressed.len() as u32, decompressed_size);

    // The decompressed data should contain our field data
    assert!(decompressed.windows(4).any(|w| w == b"EDID"));
    assert!(decompressed.windows(4).any(|w| w == b"FULL"));
}

#[test]
fn test_rebuild_xxxx_field() {
    let fields = vec![
        make_field(b"EDID", b"TestNPC"),
        make_field(b"DESC", &vec![0xAA; 70000]), // large field > 65535
    ];
    let mut record = make_test_record(fields, false);

    assert_eq!(record.fields.len(), 2);
    assert!(!record.fields[0].is_size_xxxx);
    assert!(!record.fields[1].is_size_xxxx);

    record.rebuild_data().unwrap();

    // Should have inserted a XXXX field before DESC
    assert_eq!(record.fields.len(), 3);
    assert!(record.fields[0].is_size_xxxx || record.fields[1].is_size_xxxx);

    // Find the XXXX field and verify its value
    let xxxx_idx = record.fields.iter().position(|f| f.is_size_xxxx).unwrap();
    assert!(xxxx_idx < record.fields.len() - 1);
    let xxxx_value = u32::from_le_bytes([
        record.fields[xxxx_idx].buffer[0],
        record.fields[xxxx_idx].buffer[1],
        record.fields[xxxx_idx].buffer[2],
        record.fields[xxxx_idx].buffer[3],
    ]);
    assert_eq!(xxxx_value, 70000);

    // The DESC field should still be 70000 bytes
    let desc_idx = record
        .fields
        .iter()
        .position(|f| f.header.name == *b"DESC")
        .unwrap();
    assert_eq!(record.fields[desc_idx].buffer.len(), 70000);
}

#[test]
fn test_rebuild_xxxx_remove_when_shrink() {
    // Start with a large field that needs XXXX
    let fields = vec![make_field(b"DESC", &vec![0xBB; 70000])];
    let mut record = make_test_record(fields, false);

    record.rebuild_data().unwrap();
    // XXXX should be inserted
    assert_eq!(record.fields.len(), 2);
    assert!(record.fields[0].is_size_xxxx);

    // Now shrink the field below 65536
    record.fields[1].buffer = vec![0xCC; 100];
    record.fields[1].header.dsize = 100;

    record.rebuild_data().unwrap();

    // XXXX should be removed
    assert_eq!(record.fields.len(), 1);
    assert!(!record.fields[0].is_size_xxxx);
    assert_eq!(record.fields[0].header.name, *b"DESC");
}

#[test]
fn test_rebuild_raw_passthrough() {
    let raw_data = vec![0xDE, 0xAD, 0xBE, 0xEF];
    let mut record = EspRecord {
        header: GenericHeader {
            name: *b"NPC_",
            dsize: 4,
        },
        record_header_data: RecordHeaderData {
            flags: 0,
            form_id: 0x1234,
            version: 44,
            f_version: 15,
            v_info: 0,
        },
        fields: Vec::new(),
        compressed: false,
        raw: true,
        form_id: 0x1234,
        editor_id: None,
        original_raw_data: raw_data.clone(),
    };

    record.rebuild_data().unwrap();

    // Raw records should pass through unchanged
    assert_eq!(record.original_raw_data, raw_data);
    assert_eq!(record.header.dsize, 4);
}

#[test]
fn test_grup_recalculate_size_nested() {
    // Test nested GRUP size calculation
    let inner_grup = EspGrup {
        header: GenericHeader {
            name: *b"GRUP",
            dsize: 0,
        },
        grup_header: GrupHeader {
            s_ident: [0; 4],
            s_type: 8,
            s_tstamp: 0,
            param1: 0,
            param2: 0,
            param3: 0,
        },
        records: vec![make_test_record(vec![make_field(b"EDID", b"Inner")], false)],
        children: Vec::new(),
    };

    let mut outer_grup = EspGrup {
        header: GenericHeader {
            name: *b"GRUP",
            dsize: 0,
        },
        grup_header: GrupHeader {
            s_ident: [0; 4],
            s_type: 0,
            s_tstamp: 0,
            param1: 0,
            param2: 0,
            param3: 0,
        },
        records: vec![make_test_record(vec![make_field(b"EDID", b"Outer")], false)],
        children: vec![inner_grup],
    };

    outer_grup.recalculate_size();

    // Outer GRUP dsize = 24 (own header) + record_size + inner_grup_dsize
    let outer_record_size = outer_grup.records[0].serialized_size();
    let inner_dsize = outer_grup.children[0].header.dsize;
    let expected = 24 + outer_record_size as u32 + inner_dsize;
    assert_eq!(outer_grup.header.dsize, expected);
}

#[test]
fn parse_then_write_fields_gives_back_the_bytes() {
    let mut data = Vec::new();
    data.extend_from_slice(b"EDID");
    data.extend_from_slice(&5u16.to_le_bytes());
    data.extend_from_slice(b"Hello");
    data.extend_from_slice(b"FULL");
    data.extend_from_slice(&3u16.to_le_bytes());
    data.extend_from_slice(b"Bob");
    let fields = EspField::parse_fields(&data);
    assert_eq!(xt_core::esp::record_tree::write_fields(&fields), data);
}

#[test]
fn parse_fields_cuts_truncated_field() {
    let mut data = Vec::new();
    data.extend_from_slice(b"FULL");
    data.extend_from_slice(&10u16.to_le_bytes());
    data.extend_from_slice(b"abc");
    let fields = EspField::parse_fields(&data);
    assert_eq!(fields.len(), 1);
    assert_eq!(fields[0].buffer, b"abc");
    assert_eq!(fields[0].header.dsize, 3);
    // fewer than six bytes left: nothing more is read
    let fields = EspField::parse_fields(b"FUL");
    assert!(fields.is_empty());
}

#[test]
fn grup_rebuild_sets_sizes() {
    let inner = EspGrup {
        header: GenericHeader { name: *b"GRUP", dsize: 0 },
        grup_header: GrupHeader { s_ident: [0; 4], s_type: 8, s_tstamp: 0, param1: 0, param2: 0, param3: 0 },
        records: vec![make_test_record(vec![make_field(b"EDID", b"Inner")], false)],
        children: Vec::new(),
    };
    let mut outer = EspGrup {
        header: GenericHeader { name: *b"GRUP", dsize: 0 },
        grup_header: GrupHeader { s_ident: [0; 4], s_type: 0, s_tstamp: 0, param1: 0, param2: 0, param3: 0 },
        records: vec![make_test_record(vec![make_field(b"EDID", b"Outer")], false)],
        children: vec![inner],
    };
    outer.rebuild().unwrap();
    // record: 24 + (6 + 5); inner group: 24 + record
    assert_eq!(outer.children[0].header.dsize, 24 + 35);
    assert_eq!(outer.header.dsize, 24 + 35 + 59);
}

#[test]
fn group_serialization_writes_computed_size() {
    let rec = EspRecord {
        header: GenericHeader { name: *b"MISC", dsize: 6 },
        record_header_data: RecordHeaderData { flags: 0, form_id: 7, version: 0, f_version: 0, v_info: 0 },
        fields: vec![EspField { header: FieldHeader { name: *b"EDID", dsize: 0 }, buffer: Vec::new(), is_size_xxxx: false }],
        compressed: false,
        raw: false,
        form_id: 7,
        editor_id: None,
        original_raw_data: Vec::new(),
    };
    let g = EspGrup {
        header: GenericHeader { name: *b"GRUP", dsize: 0 },
        grup_header: GrupHeader { s_ident: *b"MISC", s_type: 0, s_tstamp: 0, param1: 0, param2: 0, param3: 0 },
        records: vec![rec],
        children: Vec::new(),
    };
    let mut out = Vec::new();
    g.serialize(&mut out);
    assert_eq!(&out[0..4], b"GRUP");
    assert_eq!(u32::from_le_bytes([out[4], out[5], out[6], out[7]]), 54);
    assert_eq!(&out[8..12], b"MISC");
    assert_eq!(out.len(), 24 + 24 + 6);
    assert_eq!(&out[48..52], b"EDID");
}
