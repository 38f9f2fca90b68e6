use std::collections::HashMap;
use std::io::Write;

use flate2::write::ZlibEncoder;
use flate2::Compression;
use xt_core::esp::defs::{game_data_subdir, parse_record_defs, StringsFile, StringsFiles, TranslatableField};
use xt_core::esp::parser::{EspParseError, EspParser};
use xt_core::types::{GameId, SkyStringParams};

#[test]
fn test_parse_record_defs() {
    let content = r#"
Def_:FULL=****=0
Def_:DESC=****=1
Def_:NAM1=INFO=2
Def_:CNAM=QUST=1
"#;
    let defs = parse_record_defs(content);
    assert_eq!(defs.len(), 4);
    assert_eq!(&defs[0].field_sig, b"FULL");
    assert_eq!(&defs[0].record_sig, b"****");
    assert_eq!(defs[0].list_index, 0);
    assert!(!defs[0].not_null);
    assert!(!defs[0].ignored);
}

#[test]
fn test_parse_record_defs_with_markers() {
    let content = r#"
Def_:NAM1=INFO=2*
Def_:DATA=GMST=0-proc1
Def_:FULL=IMAD=0?(ignored)
Def_:CNAM=DOOR=0-proc5
"#;
    let defs = parse_record_defs(content);
    assert_eq!(defs.len(), 4);

    assert_eq!(&defs[0].field_sig, b"NAM1");
    assert_eq!(defs[0].list_index, 2);
    assert!(defs[0].not_null);
    assert!(!defs[0].ignored);

    assert_eq!(&defs[1].field_sig, b"DATA");
    assert_eq!(defs[1].list_index, 0);
    assert!(!defs[1].not_null);
    assert!(!defs[1].ignored);

    assert_eq!(&defs[2].field_sig, b"FULL");
    assert_eq!(defs[2].list_index, 0);
    assert!(!defs[2].not_null);
    assert!(defs[2].ignored);

    assert_eq!(&defs[3].field_sig, b"CNAM");
    assert_eq!(defs[3].list_index, 0);
}

#[test]
fn test_game_data_subdir() {
    assert_eq!(game_data_subdir(GameId::Skyrim), "Skyrim");
    assert_eq!(game_data_subdir(GameId::SkyrimSE), "SkyrimSE");
    assert_eq!(game_data_subdir(GameId::Fallout4), "Fallout4");
    assert_eq!(game_data_subdir(GameId::Starfield), "Starfield");
}

#[test]
fn test_find_def_ignores_ignored() {
    let defs = vec![
        TranslatableField::new(*b"TEST", *b"FULL", 0),
        TranslatableField {
            record_sig: *b"TEST",
            field_sig: *b"DESC",
            list_index: 1,
            not_null: false,
            ignored: true,
        },
    ];
    let parser = EspParser::with_defs(defs);
    assert!(parser.find_def(b"TEST", b"FULL").is_some());
    assert!(parser.find_def(b"TEST", b"DESC").is_none());
}

fn field(sig: &[u8; 4], data: &[u8]) -> Vec<u8> {
    let mut out = sig.to_vec();
    out.extend_from_slice(&(data.len() as u16).to_le_bytes());
    out.extend_from_slice(data);
    out
}

fn record(sig: &[u8; 4], flags: u32, form_id: u32, data: &[u8]) -> Vec<u8> {
    let mut out = sig.to_vec();
    out.extend_from_slice(&(data.len() as u32).to_le_bytes());
    out.extend_from_slice(&flags.to_le_bytes());
    out.extend_from_slice(&form_id.to_le_bytes());
    out.extend_from_slice(&[0u8; 8]);
    out.extend_from_slice(data);
    out
}

fn grup(label: &[u8; 4], s_type: u32, body: &[u8]) -> Vec<u8> {
    let mut out = b"GRUP".to_vec();
    out.extend_from_slice(&((body.len() + 24) as u32).to_le_bytes());
    out.extend_from_slice(label);
    out.extend_from_slice(&s_type.to_le_bytes());
    out.extend_from_slice(&[0u8; 8]);
    out.extend_from_slice(body);
    out
}

fn plugin(body: &[u8]) -> Vec<u8> {
    let mut out = record(b"TES4", 0, 0, &field(b"HEDR", &[0u8; 12]));
    out.extend_from_slice(body);
    out
}

fn tables() -> StringsFiles {
    let mut entries = HashMap::new();
    entries.insert(7u32, "Iron Sword".to_string());
    entries.insert(8u32, String::new());
    entries.insert(9u32, "Open".to_string());
    let mut files = StringsFiles::empty();
    files.strings = Some(StringsFile { entries });
    files
}

fn defs() -> Vec<TranslatableField> {
    parse_record_defs("Def_:FULL=****=0\nDef_:DATA=GMST=0\nDef_:DESC=BOOK=1\n")
}

#[test]
fn parse_rejects_short_and_foreign_files() {
    let mut parser = EspParser::with_defs(defs());
    assert_eq!(parser.parse(b"TES4"), Err(EspParseError::UnexpectedEof));
    assert_eq!(parser.parse(&record(b"WEAP", 0, 1, &[])), Err(EspParseError::NotTes4));
    let mut cut = record(b"TES4", 0, 0, &field(b"HEDR", &[0u8; 12]));
    cut.truncate(30);
    assert_eq!(parser.parse(&cut), Err(EspParseError::UnexpectedEof));
    assert!(parser.strings.is_empty());
}

#[test]
fn parse_reads_strings_of_defined_fields() {
    let mut body = Vec::new();
    body.extend(field(b"EDID", b"IronSword\0"));
    body.extend(field(b"FULL", &7u32.to_le_bytes()));
    body.extend(field(b"DESC", &9u32.to_le_bytes()));
    let weap = record(b"WEAP", 0, 0x0100_0800, &body);
    let data = plugin(&grup(b"WEAP", 0, &weap));
    let mut parser = EspParser::with_defs(defs());
    parser.set_strings_files(tables());
    assert_eq!(parser.parse(&data), Ok(()));
    assert_eq!(parser.strings.len(), 1);
    let sk = &parser.strings[0];
    assert_eq!(sk.id, 0);
    assert_eq!(sk.source, "Iron Sword");
    assert_eq!(&sk.record_sig, b"WEAP");
    assert_eq!(&sk.field_sig, b"FULL");
    assert_eq!(sk.esp_ptr.str_id, 7);
    assert_eq!(sk.esp_ptr.form_id, 0x0100_0800);
    assert_eq!(sk.esp_ptr.index, 1);
    assert_eq!(sk.esp_ptr.index_max, 1);
    assert_eq!(sk.esp_ptr.edid_hash, xt_core::types::string_hash("IronSword"));
    assert_eq!(sk.field_ref, Some(1));
    assert!(sk.params.is_set(SkyStringParams::INCOMPLETE_TRANS));
    assert!(!sk.word_hashes.is_empty());
    assert!(parser.record_tree.is_empty());
    assert!(parser.tes4_header.is_none());
}

#[test]
fn parse_uses_placeholder_and_skips_empty_text() {
    let mut body = Vec::new();
    body.extend(field(b"FULL", &8u32.to_le_bytes()));
    body.extend(field(b"FULL", &42u32.to_le_bytes()));
    let data = plugin(&grup(b"MISC", 0, &record(b"MISC", 0, 5, &body)));
    let mut parser = EspParser::with_defs(defs());
    parser.set_strings_files(tables());
    parser.set_build_search_index(false);
    assert_eq!(parser.parse(&data), Ok(()));
    assert_eq!(parser.strings.len(), 1);
    assert_eq!(parser.strings[0].source, "<ID:42>");
    assert_eq!(parser.strings[0].esp_ptr.index, 1);
    assert!(parser.strings[0].word_hashes.is_empty());
    assert_eq!(parser.strings[0].normalized_hash, None);
}

#[test]
fn parse_keeps_only_string_game_settings() {
    let mut number = Vec::new();
    number.extend(field(b"EDID", b"iMaxLevel\0"));
    number.extend(field(b"DATA", &7u32.to_le_bytes()));
    let mut text = Vec::new();
    text.extend(field(b"EDID", b"sOpen\0"));
    text.extend(field(b"DATA", &9u32.to_le_bytes()));
    let mut body = record(b"GMST", 0, 1, &number);
    body.extend(record(b"GMST", 0, 2, &text));
    let data = plugin(&grup(b"GMST", 0, &body));
    let mut parser = EspParser::with_defs(defs());
    parser.set_strings_files(tables());
    assert_eq!(parser.parse(&data), Ok(()));
    assert_eq!(parser.strings.len(), 1);
    assert_eq!(parser.strings[0].source, "Open");
    assert_eq!(parser.strings[0].esp_ptr.form_id, 2);
}

#[test]
fn parse_sets_parent_form_of_nested_groups_and_keeps_tree() {
    let inner = grup(b"\x00\x10\x00\x00", 0x1000, &record(b"BOOK", 0, 3, &field(b"FULL", &7u32.to_le_bytes())));
    let mut body = record(b"BOOK", 0, 2, &field(b"FULL", &9u32.to_le_bytes()));
    body.extend(inner);
    let data = plugin(&grup(b"BOOK", 0, &body));
    let mut parser = EspParser::with_defs(defs());
    parser.set_strings_files(tables());
    parser.enable_esp_mode();
    assert!(parser.is_esp_mode());
    assert_eq!(parser.parse(&data), Ok(()));
    assert_eq!(parser.strings.len(), 2);
    assert_eq!(parser.strings[0].parent_form_id, 0);
    assert_eq!(parser.strings[1].parent_form_id, 0x1000);
    assert_eq!(parser.strings[1].id, 1);
    assert_eq!(parser.record_tree.len(), 1);
    assert_eq!(parser.record_tree[0].records.len(), 1);
    assert_eq!(parser.record_tree[0].children.len(), 1);
    assert_eq!(parser.record_tree[0].children[0].records[0].form_id, 3);
    assert!(parser.tes4_header.is_some());
    let file = parser.build_esp_file().unwrap();
    assert_eq!(file.top_level_grups.len(), 1);
    assert_eq!(file.tes4.field_data.len(), 18);
}

#[test]
fn parse_decompresses_compressed_records() {
    let fields = field(b"FULL", &7u32.to_le_bytes());
    let mut enc = ZlibEncoder::new(Vec::new(), Compression::default());
    enc.write_all(&fields).unwrap();
    let mut stored = (fields.len() as u32).to_le_bytes().to_vec();
    stored.extend(enc.finish().unwrap());
    let data = plugin(&grup(b"WEAP", 0, &record(b"WEAP", 0x0004_0000, 9, &stored)));
    let mut parser = EspParser::with_defs(defs());
    parser.set_strings_files(tables());
    parser.enable_esp_mode();
    assert_eq!(parser.parse(&data), Ok(()));
    assert_eq!(parser.compressed_records, 1);
    assert_eq!(parser.strings.len(), 1);
    assert_eq!(parser.strings[0].source, "Iron Sword");
    let rec = &parser.record_tree[0].records[0];
    assert!(rec.compressed);
    assert!(!rec.raw);
    assert_eq!(rec.original_raw_data, fields);
}

#[test]
fn parse_reads_header_fields_directly() {
    let mut hdr = Vec::new();
    hdr.extend(field(b"XXXX", &4u32.to_le_bytes()));
    hdr.extend(field(b"FULL", &[0u8, 0]));
    let mut data = record(b"TES4", 0, 0, &hdr);
    data.truncate(data.len() - 2);
    data[4..8].copy_from_slice(&((hdr.len() - 2) as u32).to_le_bytes());
    data.extend_from_slice(&7u32.to_le_bytes());
    let new_len = (data.len() - 24) as u32;
    data[4..8].copy_from_slice(&new_len.to_le_bytes());
    let mut parser = EspParser::with_defs(defs());
    parser.set_strings_files(tables());
    assert_eq!(parser.parse(&data), Ok(()));
    assert_eq!(parser.strings.len(), 1);
    assert_eq!(&parser.strings[0].record_sig, b"TES4");
    assert_eq!(parser.strings[0].source, "Iron Sword");
    assert_eq!(parser.strings[0].field_ref, None);
}

/// A Skyrim SE definitions text in the shape of the default one.
const SKYRIMSE_DEFS: &str = "\
Def_:FULL=****=0
Def_:DESC=****=1
Def_:NAM1=INFO=2*
Def_:RNAM=INFO=0
Def_:CNAM=QUST=1
Def_:NNAM=QUST=0
Def_:ITXT=MESG=0
Def_:SHRT=NPC_=0
Def_:DNAM=MGEF=1
Def_:RNAM=ACTI=0
Def_:RNAM=FLOR=0
Def_:TNAM=WOOP=0
Def_:EPF2=PERK=0
Def_:EPFD=PERK=0
Def_:CNAM=BOOK=1
Def_:DATA=GMST=0-proc1
Def_:NAM2=QUST=0
Def_:CNAM=DOOR=0-proc5
Def_:FULL=IMAD=0?(ignored)
Def_:TNAM=NOTE=1
Def_:CNAM=LSCR=1
Def_:DESC=LSCR=1
";

#[test]
fn test_parse_skyrimse_record_defs() {
    let defs = parse_record_defs(SKYRIMSE_DEFS);
    assert!(defs.len() >= 20, "Expected at least 20 defs, got {}", defs.len());
    let full_wildcard = defs.iter().find(|d| &d.field_sig == b"FULL" && &d.record_sig == b"****");
    assert!(full_wildcard.is_some());
    assert_eq!(full_wildcard.unwrap().list_index, 0);
    let nam1_info = defs.iter().find(|d| &d.field_sig == b"NAM1" && &d.record_sig == b"INFO");
    assert!(nam1_info.is_some());
    assert!(nam1_info.unwrap().not_null);
}
