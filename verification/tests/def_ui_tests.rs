use std::collections::HashSet;
use xt_core::def_ui::{
    def_ui_candidates, def_ui_mutations, format_def_ui_string, parse_cvpa_buffer, ComponentRef, DefUiOptions,
    ItemWeight,
};
use xt_core::esp::header::{FieldHeader, GenericHeader, GrupHeader, RecordHeaderData};
use xt_core::esp::record_tree::{EspField, EspFile, EspGrup, EspRecord, Tes4Header};
use xt_core::types::{GameId, SkyString};

fn no_weight() -> ItemWeight {
    ItemWeight { positive: false, label: "0".to_string() }
}

fn field(name: [u8; 4], buffer: Vec<u8>) -> EspField {
    EspField { header: FieldHeader { name, dsize: buffer.len() as u16 }, buffer, is_size_xxxx: false }
}

fn record(form_id: u32, fields: Vec<EspField>) -> EspRecord {
    EspRecord {
        header: GenericHeader { name: *b"MISC", dsize: 0 },
        record_header_data: RecordHeaderData { flags: 0, form_id, version: 131, f_version: 0, v_info: 0 },
        fields,
        compressed: false,
        raw: false,
        form_id,
        editor_id: None,
        original_raw_data: Vec::new(),
    }
}

fn plugin(records: Vec<EspRecord>, children: Vec<EspGrup>) -> EspFile {
    EspFile {
        tes4: Tes4Header {
            generic: GenericHeader { name: *b"TES4", dsize: 0 },
            record_header_data: RecordHeaderData { flags: 0, form_id: 0, version: 131, f_version: 0, v_info: 0 },
            field_data: Vec::new(),
        },
        top_level_grups: vec![EspGrup {
            header: GenericHeader { name: *b"GRUP", dsize: 0 },
            grup_header: GrupHeader { s_ident: *b"MISC", s_type: 0, s_tstamp: 0, param1: 0, param2: 0, param3: 0 },
            records,
            children,
        }],
    }
}

fn named(rec: [u8; 4], form_id: u32, source: &str, translation: &str) -> SkyString {
    let mut s = SkyString::new(0, source.to_string(), translation.to_string(), rec, *b"FULL");
    s.esp_ptr.form_id = form_id;
    s
}

fn cvpa(items: &[(u32, u32)]) -> Vec<u8> {
    let mut buf = Vec::new();
    for (f, c) in items {
        buf.extend_from_slice(&f.to_le_bytes());
        buf.extend_from_slice(&c.to_le_bytes());
    }
    buf
}

#[test]
fn test_parse_cvpa_buffer() {
    let mut buf = Vec::new();
    buf.extend_from_slice(&0x0001EC8Bu32.to_le_bytes());
    buf.extend_from_slice(&2u32.to_le_bytes());
    buf.extend_from_slice(&0x0001EC8Cu32.to_le_bytes());
    buf.extend_from_slice(&4u32.to_le_bytes());

    let res = parse_cvpa_buffer(&buf, 8);
    assert_eq!(res.len(), 2);
    assert_eq!(res[0], (0x0001EC8B, 2));
    assert_eq!(res[1], (0x0001EC8C, 4));
}

#[test]
fn test_format_def_ui_string() {
    let opts = DefUiOptions::default();
    let comps = vec![
        ComponentRef { form_id: 1, count: 1, name: "Steel".to_string() },
        ComponentRef { form_id: 2, count: 2, name: "Spring".to_string() },
    ];

    let out = format_def_ui_string("Desk Fan", "", &comps, &no_weight(), &opts, GameId::Fallout4);
    assert_eq!(out, "Desk Fan {{{Steel, Spring}}}");

    let out_clean = format_def_ui_string("Desk Fan {{{Old, Tag}}}", "", &comps, &no_weight(), &opts, GameId::Fallout4);
    assert_eq!(out_clean, "Desk Fan {{{Steel, Spring}}}");
}

#[test]
fn test_quantity_indicators() {
    let mut opts = DefUiOptions::default();
    opts.add_quantity = true;
    let comps = vec![
        ComponentRef { form_id: 1, count: 3, name: "Steel".to_string() },
        ComponentRef { form_id: 2, count: 6, name: "Spring".to_string() },
    ];

    let out = format_def_ui_string("Desk Fan", "", &comps, &no_weight(), &opts, GameId::Fallout4);
    assert_eq!(out, "Desk Fan {{{Steel*, Spring**}}}");
}

#[test]
fn cvpa_skips_zero_form_ids_and_partial_items() {
    let mut buf = cvpa(&[(0, 5), (7, 1)]);
    buf.extend_from_slice(&[1, 2, 3]);
    assert_eq!(parse_cvpa_buffer(&buf, 8), vec![(7, 1)]);
    assert!(parse_cvpa_buffer(&buf, 0).is_empty());
    assert!(parse_cvpa_buffer(&[1, 2, 3], 8).is_empty());
}

#[test]
fn fallout76_preset_uses_round_brackets() {
    let opts = DefUiOptions::for_game(GameId::Fallout76);
    assert_eq!(opts.template, "%BASE% (%COMPOS%)");
    assert_eq!(opts.regex_clean_base, r"^(.+)\(.+\)$");
    let comps = vec![ComponentRef { form_id: 1, count: 62411, name: "[X] Wood".to_string() }];
    let mut o = opts.clone();
    o.add_quantity = true;
    let out = format_def_ui_string("Crate (Old)", "", &comps, &no_weight(), &o, GameId::Fallout76);
    assert_eq!(out, "Crate (Wood**)");
    let fo4 = DefUiOptions::for_game(GameId::Fallout4);
    assert_eq!(fo4.template, "%BASE% {{{%COMPOS%}}}");
}

#[test]
fn weight_template_and_auto_header() {
    let mut opts = DefUiOptions::default();
    opts.do_auto_header = true;
    opts.use_first_char = true;
    let comps = vec![ComponentRef { form_id: 1, count: 1, name: "Copper".to_string() }];
    let w = ItemWeight { positive: true, label: "1.5".to_string() };
    let out = format_def_ui_string("Wire", "Draht", &comps, &w, &opts, GameId::Fallout4);
    assert_eq!(out, "[C] Draht {{{1.5lb, C}}}");
}

#[test]
fn no_components_gives_cleaned_base() {
    let opts = DefUiOptions::default();
    let out = format_def_ui_string("Fan {{{A}}}", "  ", &[], &no_weight(), &opts, GameId::Fallout4);
    assert_eq!(out, "Fan");
}

#[test]
fn candidates_and_mutations_from_records() {
    let strings = vec![
        named(*b"CMPO", 0x10, "Steel", "Stahl"),
        named(*b"CMPO", 0x11, "Spring", ""),
        named(*b"MISC", 0x100, "Desk Fan", ""),
        named(*b"MISC", 0x200, "Pen", "Stift"),
    ];
    let mut data = 5u32.to_le_bytes().to_vec();
    data.extend_from_slice(&1.5f32.to_le_bytes());
    let fan = record(0x100, vec![field(*b"CVPA", cvpa(&[(0x10, 1), (0x11, 2), (0x12, 3)])), field(*b"DATA", data)]);
    let pen = record(0x200, Vec::new());
    let esp = plugin(vec![fan], vec![EspGrup {
        header: GenericHeader { name: *b"GRUP", dsize: 0 },
        grup_header: GrupHeader { s_ident: *b"MISC", s_type: 0, s_tstamp: 0, param1: 0, param2: 0, param3: 0 },
        records: vec![pen],
        children: Vec::new(),
    }]);
    assert!(esp.find_record_by_form_id(0x200).is_some());
    assert!(esp.find_record_by_form_id(0x300).is_none());

    let opts = DefUiOptions::default();
    let (cands, total) = def_ui_candidates(&strings, Some(&esp), &opts, None);
    assert_eq!(total, 2);
    assert_eq!(cands.len(), 2);
    assert_eq!(cands[0].string_index, 2);
    assert_eq!(cands[0].weight_bits, 1.5f32.to_bits());
    let names: Vec<String> = cands[0].components.iter().map(|c| c.name.clone()).collect();
    assert_eq!(names, vec!["Steel".to_string(), "Spring".to_string(), "0x00000012".to_string()]);
    assert!(cands[1].components.is_empty());

    let weights = vec![ItemWeight { positive: true, label: "1.5".to_string() }, no_weight()];
    let muts = def_ui_mutations(&strings, &cands, &weights, &opts, GameId::Fallout4);
    assert_eq!(muts, vec![(0, "Desk Fan {{{1.5lb, Steel, Spring, 0x00000012}}}".to_string(), "Desk Fan".to_string())]);

    let mut translated = opts.clone();
    translated.use_source_for_components = false;
    let (cands2, _) = def_ui_candidates(&strings, Some(&esp), &translated, None);
    assert_eq!(cands2[0].components[0].name, "Stahl");
    assert_eq!(cands2[0].components[1].name, "Spring");
}

#[test]
fn scope_filters_items() {
    let strings = vec![named(*b"MISC", 0x1, "A", ""), named(*b"MISC", 0x2, "B", "Bee")];
    let mut opts = DefUiOptions::default();
    opts.scope = "untranslated".to_string();
    let (cands, total) = def_ui_candidates(&strings, None, &opts, None);
    assert_eq!(total, 2);
    assert_eq!(cands.len(), 1);
    assert_eq!(cands[0].string_index, 0);

    opts.scope = "selection".to_string();
    let mut sel = HashSet::new();
    sel.insert(0u32);
    let (cands, _) = def_ui_candidates(&strings, None, &opts, Some(&sel));
    assert_eq!(cands.len(), 2);
    let empty: HashSet<u32> = HashSet::new();
    let (cands, _) = def_ui_candidates(&strings, None, &opts, Some(&empty));
    assert!(cands.is_empty());
}
