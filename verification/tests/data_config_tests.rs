use std::collections::HashMap;
use xt_core::data_config::{field_size_entries, parse_ctda_func, parse_dial_sub_type, parse_emote_definition, FieldSizeInfo};

fn size_map(content: &str) -> HashMap<String, FieldSizeInfo> {
    field_size_entries(content).into_iter().collect()
}

#[test]
fn test_parse_ctda_func() {
    let result = parse_ctda_func(
        "# ctda functions\n\
         000=GetWantBlocking\n\
         001=GetDistance:{1}\n\
         002=GetLocked\n\
         0x1F=HexExample\n",
    );
    assert_eq!(result.len(), 4);
    assert_eq!(result.get(&0).unwrap().name, "GetWantBlocking");
    assert_eq!(result.get(&1).unwrap().name, "GetDistance");
    assert_eq!(result.get(&1).unwrap().params, "{1}");
    assert_eq!(result.get(&2).unwrap().params, "");
    assert_eq!(result.get(&0x1F).unwrap().name, "HexExample");
}

#[test]
fn test_parse_ctda_func_decimal_not_hex() {
    let result = parse_ctda_func("010=TestFunc\n");
    assert_eq!(result.len(), 1);
    assert_eq!(result.get(&10).unwrap().name, "TestFunc");
    assert!(result.get(&16).is_none());
}

#[test]
fn test_parse_field_size_ref() {
    let result = size_map(
        "# field sizes\n\
         ACTI:FULL:0=47\n\
         ACTI:RNAM:1=36\n",
    );
    assert_eq!(result.len(), 2);
    assert_eq!(result.get("ACTI:FULL").unwrap().max_size, 47);
    assert!(!result.get("ACTI:FULL").unwrap().can_wrap);
    assert_eq!(result.get("ACTI:RNAM").unwrap().max_size, 36);
    assert!(result.get("ACTI:RNAM").unwrap().can_wrap);
}

#[test]
fn test_parse_dial_sub_type() {
    let result = parse_dial_sub_type("00000001=Anger\nFFFFFFFF=Undefined\n");
    assert_eq!(result.len(), 2);
    assert_eq!(result.get(&0x00000001).unwrap(), "Anger");
    assert_eq!(result.get(&0xFFFFFFFF).unwrap(), "Undefined");
}

#[test]
fn test_parse_emote_definition() {
    let result = parse_emote_definition("0018E866=Awed\n0018E865=Impressed\n");
    assert_eq!(result.len(), 2);
    assert_eq!(result.get(&0x0018E866).unwrap(), "Awed");
    assert_eq!(result.get(&0x0018E865).unwrap(), "Impressed");
}

#[test]
fn test_empty_file() {
    assert!(parse_ctda_func("").is_empty());
    assert!(size_map("").is_empty());
    assert!(parse_dial_sub_type("").is_empty());
    assert!(parse_emote_definition("").is_empty());
}

#[test]
fn bad_lines_are_skipped_and_later_lines_win() {
    let result = parse_dial_sub_type("  # c\nZZ=Bad\nnoequals\n 0A = First \n0a=Second\n");
    assert_eq!(result.len(), 1);
    assert_eq!(result.get(&10).unwrap(), "Second");
    let funcs = parse_ctda_func("+5=Plus\n0X10=Upper:{a}{b}\n-1=Neg\n99999999999=Big\n");
    assert_eq!(funcs.len(), 2);
    assert_eq!(funcs.get(&5).unwrap().name, "Plus");
    assert_eq!(funcs.get(&16).unwrap().params, "{a}{b}");
}

#[test]
fn field_sizes_need_three_parts_and_a_number() {
    let entries = field_size_entries("acti:full:1=10\nA:B=5\nA:B:C:D=5\nA:B:0=x\nA:B:0=7\nA:B:1=8\n");
    let keys: Vec<(String, u32, bool)> = entries.iter().map(|(k, v)| (k.clone(), v.max_size, v.can_wrap)).collect();
    assert_eq!(
        keys,
        vec![
            ("ACTI:FULL".to_string(), 10, true),
            ("A:B".to_string(), 7, false),
            ("A:B".to_string(), 8, true),
        ]
    );
    assert_eq!(size_map("A:B:0=7\nA:B:1=8\n").get("A:B").unwrap().max_size, 8);
}
