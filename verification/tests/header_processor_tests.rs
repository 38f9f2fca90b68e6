use xt_core::header_processor::{template_info, HeaderRule, HeaderRuleSet, PreProcessingOpts};

#[test]
fn test_parse_simple_rule() {
    let text = "[StartRule]\n\tHeader=[$]\n\trSig=MISC\n\tfSig=FULL\n\tenabled=-1\n[EndRule]";
    let set = HeaderRuleSet::from_ini_text(text);
    assert_eq!(set.rules.len(), 1);
    assert_eq!(set.rules[0].header, "[$]");
    assert_eq!(set.rules[0].r_sig, "MISC");
    assert!(set.rules[0].enabled);
}

#[test]
fn test_parse_keywords() {
    let text = "[StartRule]\n\trSig=BOOK\n\tfSig=FULL\n\tenabled=-1\n\tInclude_0=form|TestBook|00001234\n[EndRule]";
    let set = HeaderRuleSet::from_ini_text(text);
    assert_eq!(set.rules[0].include_keywords.len(), 1);
    assert_eq!(set.rules[0].include_keywords[0].form_id, 0x1234);
}

#[test]
fn test_roundtrip() {
    let text = "[StartRule]\n\tHeader=[$]\n\trSig=MISC\n\tfSig=FULL\n\tenabled=-1\n\tInclude_0=form|TestBook|00001234\n[EndRule]\n";
    let set = HeaderRuleSet::from_ini_text(text);
    let output = set.to_ini_text();
    let set2 = HeaderRuleSet::from_ini_text(&output);
    assert_eq!(set2.rules.len(), 1);
}

#[test]
fn test_rule_match_sig() {
    let rule = HeaderRule { r_sig: "BOOK".into(), f_sig: "FULL".into(), ..Default::default() };
    assert!(rule.matches_string("BOOK", "FULL", "", 0, &[]));
    assert!(!rule.matches_string("NPC_", "FULL", "", 0, &[]));
}

#[test]
fn test_apply() {
    let rule = HeaderRule { header: "[$]".into(), full_replace: true, ..Default::default() };
    assert_eq!(rule.apply("Hello", ""), "[$]");
}

#[test]
fn test_apply_prepend() {
    let rule = HeaderRule { header: "(Lock)".into(), ..Default::default() };
    assert_eq!(rule.apply("Chest", ""), "(Lock) Chest");
}

#[test]
fn writes_rule_file_text() {
    let text = "[StartRule]\n\tHeader=[$]\n\trSig=MISC\n\tfSig=FULL\n\tenabled=0\n\tinEdid=Gold|Coin\n\tnoKW=1\n\tInclude_0=kwd_|Key|0000abcd\n\tRegEx=^x\n[EndRule]\n";
    let set = HeaderRuleSet::from_ini_text(text);
    assert_eq!(
        set.to_ini_text(),
        "[StartRule]\n\tHeader=[$]\n\trSig=MISC\n\tfSig=FULL\n\tenabled=0\n\tinEdid=Gold|Coin\n\tnoKW=1\n\tanyKW=0\n\thasCompo=0\n\tInclude_0=kwd_|Key|0000ABCD\n\tRegEx=^x\n[EndRule]\n\n"
    );
}

#[test]
fn editor_id_and_keyword_conditions() {
    let rule = HeaderRule { in_edid: vec!["gold".into()], ..Default::default() };
    assert!(rule.matches_string("MISC", "FULL", "MyGoldCoin", 0, &[]));
    assert!(!rule.matches_string("MISC", "FULL", "Silver", 0, &[]));
    let set = HeaderRuleSet::from_ini_text(
        "[StartRule]\n\tenabled=1\n\tInclude_0=kwd_|K|00000010\n\tInclude_1=kwd_|L|00000020\n[EndRule]\n",
    );
    let r = &set.rules[0];
    assert!(r.matches_string("A", "B", "", 0, &[0x10, 0x20]));
    assert!(!r.matches_string("A", "B", "", 0, &[0x10]));
    let any = HeaderRule { any_kw: true, ..r.clone() };
    assert!(any.matches_string("A", "B", "", 0, &[0x10]));
    let exclude = HeaderRuleSet::from_ini_text("[StartRule]\n\tExclude_0=form|F|00000005\n[EndRule]\n");
    assert!(!exclude.rules[0].matches_string("A", "B", "", 5, &[]));
    assert!(exclude.rules[0].matches_string("A", "B", "", 6, &[]));
}

#[test]
fn apply_rules_uses_first_enabled_match_and_regex() {
    let set = HeaderRuleSet::from_ini_text(
        "[StartRule]\n\tHeader=(Off)\n\tenabled=0\n[EndRule]\n[StartRule]\n\tHeader=Y\n\tRegEx=a+\n[EndRule]\n",
    );
    assert_eq!(set.apply_rules("A", "B", "", 0, &[], "tr", "baaad"), Some("bYd".to_string()));
    let bad = HeaderRule { header: "(H)".into(), regex: Some("(".into()), ..Default::default() };
    assert_eq!(bad.apply("Chest", "src"), "(H) Chest");
    assert_eq!(HeaderRuleSet::new().apply_rules("A", "B", "", 0, &[], "tr", "s"), None);
}

#[test]
fn pre_processing_options_round_trip() {
    let mut opts = PreProcessingOpts::from_ini_text("[PreProcessingOpts]\n# c\na = 1\nb=two\na=3\n");
    assert_eq!(opts.get("a"), Some("3"));
    assert_eq!(opts.get("b"), Some("two"));
    assert_eq!(opts.get("c"), None);
    opts.set("c", "x");
    assert_eq!(opts.to_ini_text(), "[PreProcessingOpts]\na=3\nb=two\nc=x\n");
}

#[test]
fn template_summary_counts_rules() {
    let info = template_info("t", "[StartRule]\n\tenabled=0\n[EndRule]\n[StartRule]\n[EndRule]\n");
    assert_eq!(info.name, "t");
    assert_eq!(info.rule_count, 2);
    assert_eq!(info.enabled_count, 1);
}

#[test]
fn preprocessing_opts_round_trip() {
    let mut opts = PreProcessingOpts::from_ini_text("");
    opts.set("mode", "fast");
    opts.set("", "empty key");
    opts.set("path", "C:\\Data=1");
    opts.set("blank", "");
    let back = PreProcessingOpts::from_ini_text(&opts.to_ini_text());
    assert_eq!(back.get("mode"), Some("fast"));
    assert_eq!(back.get(""), Some("empty key"));
    assert_eq!(back.get("path"), Some("C:\\Data=1"));
    assert_eq!(back.get("blank"), Some(""));
    assert_eq!(back.to_ini_text(), opts.to_ini_text());
}
