use xt_core::matching::select::jaccard_terms;
use xt_core::matching::{
    apply_dictionary_entries, apply_dictionary_entries_with_policy, apply_xml_dictionary_entries_with_policy,
    enhanced_import_match, ApplyPolicy, DictionaryApplyEntry, DictionarySourceFormat, SstApplyOptions,
    SstMatchMode, SstOverwriteScope,
};
use xt_core::types::{string_hash, EspPointer, SkyString, SkyStringInternalParams, SkyStringParams};
use xt_core::xml::XmlStringEntry;

fn jaccard(a: &Vec<u32>, b: &Vec<u32>) -> f64 {
    let (common, union) = jaccard_terms(a, b);
    if union == 0 {
        return 0.0;
    }
    common as f64 / union as f64
}

fn make_sk(
    id: u32,
    source: &str,
    str_id: i32,
    rec: [u8; 4],
    field: [u8; 4],
    edid_hash: u32,
) -> SkyString {
    let mut sk = SkyString::new(id, source.to_string(), String::new(), rec, field);
    sk.esp_ptr = EspPointer {
        str_id,
        form_id: 0,
        record_sig: rec,
        field_sig: field,
        index: 0,
        index_max: 0,
        edid_hash,
    };
    sk
}

fn make_entry(
    str_id: i32,
    edid: Option<&str>,
    rec: [u8; 4],
    field: [u8; 4],
    source: &str,
    translation: &str,
) -> XmlStringEntry {
    XmlStringEntry {
        list_index: 0,
        str_id,
        edid: edid.map(|s| s.to_string()),
        record_sig: rec,
        field_sig: field,
        index: 0,
        index_max: 0,
        source: source.to_string(),
        translation: translation.to_string(),
    }
}

fn make_sst_entry(
    str_id: i32,
    rec: [u8; 4],
    field: [u8; 4],
    source: &str,
    translation: &str,
    params: SkyStringParams,
) -> DictionaryApplyEntry {
    let mut sk = SkyString::new(99, source.to_string(), translation.to_string(), rec, field);
    sk.esp_ptr.str_id = str_id;
    sk.esp_ptr.record_sig = rec;
    sk.esp_ptr.field_sig = field;
    sk.params = params;
    DictionaryApplyEntry::from_sst_entry(&sk)
}

#[test]
fn test_tier1_exact_match() {
    let mut strings = vec![
        make_sk(0, "Hello", 1, *b"LCTN", *b"FULL", 0),
        make_sk(1, "World", 8, *b"QUST", *b"NNAM", 0),
    ];
    let entries = vec![make_entry(1, None, *b"LCTN", *b"FULL", "Hello", "你好")];

    let result = enhanced_import_match(&mut strings, &entries);

    assert_eq!(result.tier_exact, 1);
    assert_eq!(result.tier_edid, 0);
    assert_eq!(result.tier_vocab, 0);
    assert_eq!(result.tier_normalized, 0);
    assert_eq!(result.unmatched, 0);
    assert_eq!(result.total_matched(), 1);
    assert_eq!(strings[0].translation, "你好");
    assert!(strings[0].params.is_translated());
    // 第二个字符串未被修改
    assert!(strings[1].translation.is_empty());
}

#[test]
fn test_tier2_edid_match_different_str_id() {
    // 模拟跨版本 ESP：同一记录的 str_id 改变了
    let edid_hash = string_hash("TestLocation");
    let mut strings = vec![make_sk(
        0,
        "Hello World",
        999,
        *b"LCTN",
        *b"FULL",
        edid_hash,
    )];

    let entries = vec![make_entry(
        1, // 不同的 str_id
        Some("TestLocation"),
        *b"LCTN",
        *b"FULL",
        "Hello World",
        "你好世界",
    )];

    let result = enhanced_import_match(&mut strings, &entries);

    assert_eq!(result.tier_exact, 0);
    assert_eq!(result.tier_edid, 1);
    assert_eq!(result.total_matched(), 1);
    assert_eq!(strings[0].translation, "你好世界");
}

#[test]
fn test_tier2_edid_no_match_without_edid() {
    let edid_hash = string_hash("TestLocation");
    let mut strings = vec![make_sk(0, "Hello", 999, *b"LCTN", *b"FULL", edid_hash)];

    // entry 没有 EDID → Tier 2 无法触发
    let entries = vec![make_entry(1, None, *b"LCTN", *b"FULL", "Hello", "你好")];

    let result = enhanced_import_match(&mut strings, &entries);

    // Tier 1 失败（str_id 不匹配），Tier 2 跳过（无 EDID），Tier 3 命中
    assert_eq!(result.tier_normalized, 1);
    assert_eq!(result.total_matched(), 1);
}

#[test]
fn test_tier2_edid_disambiguate_by_normalized() {
    // 同一 EDID 对应两个字段（模拟 INFO 记录有多个 NAM1）
    let edid_hash = string_hash("TestQuest");
    let mut strings = vec![
        make_sk(0, "Retrieve the sword", 10, *b"INFO", *b"NAM1", edid_hash),
        make_sk(
            1,
            "Return to Jarl Balgruuf",
            11,
            *b"INFO",
            *b"NAM1",
            edid_hash,
        ),
    ];

    let entries = vec![make_entry(
        1,
        Some("TestQuest"),
        *b"INFO",
        *b"NAM1",
        "Return to Jarl Balgruuf",
        "回到白漫领主",
    )];

    let result = enhanced_import_match(&mut strings, &entries);

    assert_eq!(result.tier_exact, 0);
    assert_eq!(result.tier_edid, 1);
    assert_eq!(result.total_matched(), 1);
    // 应该是 strings[1] 被匹配（规范化文本匹配消歧）
    assert_eq!(strings[1].translation, "回到白漫领主");
    assert!(strings[0].translation.is_empty());
}

#[test]
fn test_tier2_edid_ambiguous_without_normalized_disambiguation() {
    let edid_hash = string_hash("TestQuest");
    let mut strings = vec![
        make_sk(0, "Alpha", 10, *b"INFO", *b"NAM1", edid_hash),
        make_sk(1, "Beta", 11, *b"INFO", *b"NAM1", edid_hash),
    ];

    let entries = vec![make_entry(
        1,
        Some("TestQuest"),
        *b"INFO",
        *b"NAM1",
        "Gamma",
        "回到白漫领主",
    )];

    let result = enhanced_import_match(&mut strings, &entries);

    assert_eq!(result.tier_exact, 0);
    assert_eq!(result.tier_edid, 0);
    assert_eq!(result.ambiguous, 1);
    assert_eq!(result.total_matched(), 0);
    assert!(strings.iter().all(|sk| sk.translation.is_empty()));
}

#[test]
fn test_tier3_vocab_overlap() {
    // 原文被扩展了（加了修饰词），但核心词汇重叠 > 50%
    let mut strings = vec![make_sk(
        0,
        "Retrieve the ancient sword from the tomb",
        999,
        *b"QUST",
        *b"NNAM",
        0,
    )];

    // "the" 出现两次但去重后仍然是 "the"
    // strings 集合: {Retrieve, the, ancient, sword, from, tomb} = 6
    // entry 集合:   {Retrieve, the, sword} = 3
    // Jaccard = 3/6 = 0.5 ≥ 0.5 ✓
    let entries = vec![make_entry(
        1,
        None,
        *b"QUST",
        *b"NNAM",
        "Retrieve the sword",
        "取回剑",
    )];

    let result = enhanced_import_match(&mut strings, &entries);

    assert_eq!(result.tier_exact, 0);
    assert_eq!(result.tier_vocab, 1);
    assert_eq!(result.total_matched(), 1);
    assert_eq!(strings[0].translation, "取回剑");
}

#[test]
fn test_tier3_vocab_below_threshold() {
    // 词汇重叠不足 → 不匹配
    let mut strings = vec![make_sk(
        0,
        "Retrieve the ancient sword",
        999,
        *b"QUST",
        *b"NNAM",
        0,
    )];

    // "Find the key" vs "Retrieve the ancient sword": 只有 "the" 重叠 → Jaccard < 0.5
    let entries = vec![make_entry(
        1,
        None,
        *b"QUST",
        *b"NNAM",
        "Find the key",
        "找钥匙",
    )];

    let result = enhanced_import_match(&mut strings, &entries);

    assert_eq!(result.total_matched(), 0);
    assert_eq!(result.unmatched, 1);
}

#[test]
fn test_tier4_normalized_match() {
    // 标点、大小写不同，但规范化后完全一致
    let mut strings = vec![make_sk(0, "Hello, World!", 999, *b"LCTN", *b"FULL", 0)];

    let entries = vec![make_entry(
        1,
        None,
        *b"LCTN",
        *b"FULL",
        "hello world",
        "你好世界",
    )];

    let result = enhanced_import_match(&mut strings, &entries);

    // 规范化文本先于词汇重叠，因此这里应命中 Tier 3 normalized
    assert_eq!(result.tier_normalized, 1);
    assert_eq!(result.total_matched(), 1);
    assert_eq!(strings[0].translation, "你好世界");
}

#[test]
fn test_tier4_single_word_match() {
    // 单个词：词哈希相同但不同的 record → 不会错误匹配
    let mut strings = vec![
        make_sk(0, "Hello", 999, *b"LCTN", *b"FULL", 0),
        make_sk(1, "Hello", 888, *b"QUST", *b"NNAM", 0),
    ];

    let entries = vec![make_entry(
        1, None, *b"LCTN", *b"FULL", "hello", // 规范化后=hello，与 "Hello" 匹配
        "你好",
    )];

    let result = enhanced_import_match(&mut strings, &entries);

    // Tier 3 规范化匹配应在词汇重叠匹配之前胜出。
    assert_eq!(result.tier_normalized, 1);
    assert_eq!(result.total_matched(), 1);
    assert_eq!(strings[0].translation, "你好");
    // strings[1] 的 REC+FIELD 不同，不应被匹配
    assert!(strings[1].translation.is_empty());
}

#[test]
fn test_tier4_vocab_tie_is_ambiguous() {
    let mut strings = vec![
        make_sk(0, "Alpha Beta Gamma", 999, *b"QUST", *b"NNAM", 0),
        make_sk(1, "Gamma Alpha Beta", 998, *b"QUST", *b"NNAM", 0),
    ];

    let entries = vec![make_entry(
        1,
        None,
        *b"QUST",
        *b"NNAM",
        "Beta Gamma Alpha",
        "词汇翻译",
    )];

    let result = enhanced_import_match(&mut strings, &entries);

    assert_eq!(result.total_matched(), 0);
    assert_eq!(result.ambiguous, 1);
    assert!(strings.iter().all(|sk| sk.translation.is_empty()));
}

#[test]
fn test_sst_entry_preserves_params_and_uses_normalized_match() {
    let mut strings = vec![make_sk(0, "Hello, World!", 123, *b"LCTN", *b"FULL", 0)];

    let mut sst_entry = SkyString::new(
        99,
        "hello world".to_string(),
        "你好世界".to_string(),
        *b"LCTN",
        *b"FULL",
    );
    sst_entry.esp_ptr.str_id = 1;
    sst_entry.esp_ptr.record_sig = *b"LCTN";
    sst_entry.esp_ptr.field_sig = *b"FULL";
    sst_entry.params.set(SkyStringParams::TRANSLATED, true);
    sst_entry.params.set(SkyStringParams::VALIDATED, true);

    let entries = vec![DictionaryApplyEntry::from_sst_entry(&sst_entry)];
    let result = apply_dictionary_entries(&mut strings, &entries);

    assert_eq!(result.tier_normalized, 1);
    assert_eq!(result.total_matched(), 1);
    assert_eq!(strings[0].translation, "你好世界");
    assert!(strings[0].params.is_translated());
    assert!(!strings[0].params.is_validated());
}

#[test]
fn test_pending_sst_entry_resets_target_like_delphi() {
    let mut strings = vec![make_sk(0, "Hello", 1, *b"LCTN", *b"FULL", 0)];
    strings[0].set_translation("old".to_string());
    strings[0].params.set(SkyStringParams::TRANSLATED, true);

    let mut params = SkyStringParams::new();
    params.set(SkyStringParams::PENDING, true);
    let entries = vec![make_sst_entry(
        1, *b"LCTN", *b"FULL", "Hello", "new", params,
    )];

    let result = apply_dictionary_entries(&mut strings, &entries);

    assert_eq!(result.pending_skipped, 1);
    assert_eq!(result.total_matched(), 0);
    assert!(strings[0].translation.is_empty());
    assert!(!strings[0].params.is_translated());
}

#[test]
fn test_locked_and_incomplete_sst_params_take_precedence() {
    let mut locked_strings = vec![make_sk(0, "Hello", 1, *b"LCTN", *b"FULL", 0)];
    let mut locked_params = SkyStringParams::new();
    locked_params.set(SkyStringParams::LOCKED_TRANS, true);
    locked_params.set(SkyStringParams::TRANSLATED, true);
    locked_params.set(SkyStringParams::VALIDATED, true);
    let locked_entries = vec![make_sst_entry(
        1,
        *b"LCTN",
        *b"FULL",
        "Hello",
        "locked",
        locked_params,
    )];

    let locked_result = apply_dictionary_entries(&mut locked_strings, &locked_entries);

    assert_eq!(locked_result.total_matched(), 1);
    assert_eq!(locked_strings[0].translation, "locked");
    assert!(locked_strings[0].params.is_locked());
    assert!(!locked_strings[0].params.is_translated());
    assert!(!locked_strings[0].params.is_incomplete());
    assert!(!locked_strings[0].params.is_validated());

    let mut incomplete_strings = vec![make_sk(0, "World", 2, *b"LCTN", *b"FULL", 0)];
    let mut incomplete_params = SkyStringParams::new();
    incomplete_params.set(SkyStringParams::INCOMPLETE_TRANS, true);
    incomplete_params.set(SkyStringParams::TRANSLATED, true);
    let incomplete_entries = vec![make_sst_entry(
        2,
        *b"LCTN",
        *b"FULL",
        "World",
        "partial",
        incomplete_params,
    )];

    let incomplete_result =
        apply_dictionary_entries(&mut incomplete_strings, &incomplete_entries);

    assert_eq!(incomplete_result.total_matched(), 1);
    assert_eq!(incomplete_strings[0].translation, "partial");
    assert!(incomplete_strings[0].params.is_incomplete());
    assert!(!incomplete_strings[0].params.is_translated());
    assert!(!incomplete_strings[0].params.is_locked());
    assert!(!incomplete_strings[0].params.is_validated());
}

#[test]
fn test_language_policy_controls_translated_vs_validated() {
    let mut params = SkyStringParams::new();
    params.set(SkyStringParams::TRANSLATED, true);
    let entries = vec![make_sst_entry(
        1, *b"LCTN", *b"FULL", "Hello", "你好", params,
    )];

    let mut different_language = vec![make_sk(0, "Hello", 1, *b"LCTN", *b"FULL", 0)];
    let diff_result = apply_dictionary_entries_with_policy(
        &mut different_language,
        &entries,
        ApplyPolicy::default(),
    );
    assert_eq!(diff_result.total_matched(), 1);
    assert!(different_language[0].params.is_translated());
    assert!(!different_language[0].params.is_validated());

    let mut same_language = vec![make_sk(0, "Hello", 1, *b"LCTN", *b"FULL", 0)];
    let same_result = apply_dictionary_entries_with_policy(
        &mut same_language,
        &entries,
        ApplyPolicy {
            same_language: true,
            ..ApplyPolicy::default()
        },
    );
    assert_eq!(same_result.total_matched(), 1);
    assert!(same_language[0].params.is_validated());
    assert!(!same_language[0].params.is_translated());
}

#[test]
fn test_tag_only_and_string_id_replacement_policies() {
    let mut tag_strings = vec![make_sk(0, "Hello", 1, *b"LCTN", *b"FULL", 0)];
    tag_strings[0].set_translation("old".to_string());
    tag_strings[0].params.set(SkyStringParams::TRANSLATED, true);

    let mut tag_entry = make_sst_entry(
        7,
        *b"LCTN",
        *b"FULL",
        "Hello",
        "new",
        SkyStringParams::new(),
    );
    tag_entry.colab_id = 42;

    let tag_result = apply_dictionary_entries_with_policy(
        &mut tag_strings,
        &[tag_entry.clone()],
        ApplyPolicy {
            tag_only: true,
            ..ApplyPolicy::default()
        },
    );

    assert_eq!(tag_result.total_matched(), 1);
    assert_eq!(tag_strings[0].translation, "old");
    assert!(tag_strings[0].params.is_translated());
    assert_eq!(tag_strings[0].colab_id, 42);
    assert_eq!(tag_strings[0].esp_ptr.str_id, 1);

    let mut id_strings = vec![make_sk(0, "Hello", 1, *b"LCTN", *b"FULL", 0)];
    let id_result = apply_dictionary_entries_with_policy(
        &mut id_strings,
        &[tag_entry],
        ApplyPolicy {
            replace_string_id: true,
            ..ApplyPolicy::default()
        },
    );

    assert_eq!(id_result.total_matched(), 1);
    assert_eq!(id_strings[0].esp_ptr.str_id, 7);
    assert!(id_strings[0]
        .internal_params
        .is_set(SkyStringInternalParams::STRING_ID_CHANGED));
}

#[test]
fn test_index_max_warnings_for_fallback_matches() {
    let edid_hash = string_hash("TestQuest");
    let mut big_warning_strings = vec![make_sk(0, "Hello", 999, *b"INFO", *b"NAM1", edid_hash)];
    big_warning_strings[0].esp_ptr.index_max = 3;

    let mut big_entry = make_entry(1, Some("TestQuest"), *b"INFO", *b"NAM1", "Hello", "你好");
    big_entry.index_max = 2;

    let big_result = enhanced_import_match(&mut big_warning_strings, &[big_entry]);

    assert_eq!(big_result.tier_edid, 1);
    assert_eq!(big_result.big_warning, 1);
    assert!(big_warning_strings[0].params.is_incomplete());
    assert!(big_warning_strings[0]
        .internal_params
        .is_set(SkyStringInternalParams::BIG_WARNING));

    let mut warning_strings = vec![make_sk(0, "World", 999, *b"INFO", *b"NAM1", edid_hash)];
    warning_strings[0].esp_ptr.index_max = 2;
    let mut warning_entry =
        make_entry(1, Some("TestQuest"), *b"INFO", *b"NAM1", "World", "世界");
    warning_entry.index_max = 2;

    let warning_result = enhanced_import_match(&mut warning_strings, &[warning_entry]);

    assert_eq!(warning_result.tier_edid, 1);
    assert_eq!(warning_result.warning, 1);
    assert!(warning_strings[0].params.is_incomplete());
    assert!(warning_strings[0]
        .internal_params
        .is_set(SkyStringInternalParams::WARNING));
}

#[test]
fn test_unmatched_and_ambiguous_sst_entries_are_preserved_as_old_data() {
    let entries = vec![make_sst_entry(
        1,
        *b"LCTN",
        *b"FULL",
        "Missing",
        "旧译文",
        SkyStringParams::new(),
    )];
    let mut strings = vec![make_sk(0, "Different", 2, *b"LCTN", *b"FULL", 0)];

    let result =
        apply_dictionary_entries_with_policy(&mut strings, &entries, ApplyPolicy::sst_load());

    assert_eq!(result.unmatched, 1);
    assert_eq!(result.old_data_preserved, 1);
    assert_eq!(result.old_data_entries.len(), 1);
    let old_data = result.old_data_entries[0].to_old_data_sky_string();
    assert!(old_data.params.is_old_data());

    let ambiguous_entries = vec![make_sst_entry(
        3,
        *b"INFO",
        *b"NAM1",
        "Shared",
        "旧共享译文",
        SkyStringParams::new(),
    )];
    let mut ambiguous_strings = vec![
        make_sk(0, "Shared A", 3, *b"INFO", *b"NAM1", 0),
        make_sk(1, "Shared B", 3, *b"INFO", *b"NAM1", 0),
    ];

    let ambiguous_result = apply_dictionary_entries_with_policy(
        &mut ambiguous_strings,
        &ambiguous_entries,
        ApplyPolicy::sst_load(),
    );

    assert_eq!(ambiguous_result.ambiguous, 1);
    assert_eq!(ambiguous_result.old_data_preserved, 1);
    assert_eq!(ambiguous_result.old_data_entries.len(), 1);
    assert!(ambiguous_strings.iter().all(|sk| sk.translation.is_empty()));
}

#[test]
fn test_no_double_match() {
    // 同一个 SkyString 不应被两个 entry 重复匹配
    let mut strings = vec![make_sk(0, "Hello", 1, *b"LCTN", *b"FULL", 0)];

    let entries = vec![
        make_entry(1, None, *b"LCTN", *b"FULL", "Hello", "你好"),
        make_entry(1, None, *b"LCTN", *b"FULL", "Hello", "こんにちは"),
    ];

    let result = enhanced_import_match(&mut strings, &entries);

    assert_eq!(result.total_matched(), 1); // 只匹配一次
    assert_eq!(result.unmatched, 1); // 第二次无法匹配
    assert_eq!(strings[0].translation, "你好"); // 保留第一次的翻译
}

#[test]
fn test_all_tiers_integration() {
    // 综合测试：4 个 entry，各走不同 tier
    let edid_hash = string_hash("MyQuest");
    let mut strings = vec![
        // Tier 1: 精确匹配
        make_sk(0, "Hello", 10, *b"LCTN", *b"FULL", 0),
        // Tier 2: EDID 匹配（str_id 不同）
        make_sk(1, "World", 999, *b"QUST", *b"NNAM", edid_hash),
        // Tier 3: 词汇重叠（str_id 不同，无 EDID，词重叠 ≥ 50%）
        make_sk(
            2,
            "Retrieve the ancient sword from the tomb",
            888,
            *b"INFO",
            *b"NAM1",
            0,
        ),
        // 不匹配的
        make_sk(
            3,
            "Something completely different",
            777,
            *b"NPC_",
            *b"FULL",
            0,
        ),
    ];

    let entries = vec![
        make_entry(10, None, *b"LCTN", *b"FULL", "Hello", "你好"), // T1
        make_entry(1, Some("MyQuest"), *b"QUST", *b"NNAM", "World", "世界"), // T2 (str_id=1 vs 999)
        make_entry(2, None, *b"INFO", *b"NAM1", "Retrieve the sword", "取回剑"), // T3
        make_entry(3, None, *b"NPC_", *b"FULL", "Unrelated", "无关"),        // unmatched
    ];

    let result = enhanced_import_match(&mut strings, &entries);

    assert_eq!(result.tier_exact, 1);
    assert_eq!(result.tier_edid, 1);
    assert_eq!(result.tier_vocab, 1);
    assert_eq!(result.tier_normalized, 0);
    assert_eq!(result.unmatched, 1);
    assert_eq!(result.total_matched(), 3);

    assert_eq!(strings[0].translation, "你好");
    assert_eq!(strings[1].translation, "世界");
    assert_eq!(strings[2].translation, "取回剑");
    assert!(strings[3].translation.is_empty());
}

#[test]
fn test_jaccard_identical() {
    let a: Vec<u32> = vec![1, 2, 3];
    let b = vec![1, 2, 3];
    assert!((jaccard(&a, &b) - 1.0).abs() < 0.001);
}

#[test]
fn test_jaccard_half_overlap() {
    let a: Vec<u32> = vec![1, 2];
    let b = vec![2, 3];
    assert!((jaccard(&a, &b) - 0.333).abs() < 0.001);
}

#[test]
fn test_jaccard_disjoint() {
    let a: Vec<u32> = vec![1, 2];
    let b = vec![3, 4];
    assert_eq!(jaccard(&a, &b), 0.0);
}

fn make_dict_entry(
    str_id: i32,
    edid: Option<&str>,
    record_sig: [u8; 4],
    field_sig: [u8; 4],
    source: &str,
    translation: &str,
) -> DictionaryApplyEntry {
    DictionaryApplyEntry {
        source_format: DictionarySourceFormat::Sst,
        list_index: 0,
        str_id,
        form_id: 0,
        record_sig,
        field_sig,
        edid: edid.map(String::from),
        edid_hash: edid.map(string_hash),
        source: source.to_string(),
        translation: translation.to_string(),
        params: None,
        colab_id: 0,
        index: 0,
        index_max: 0,
    }
}

fn make_xml_entry(
    str_id: i32,
    edid: Option<&str>,
    record_sig: [u8; 4],
    field_sig: [u8; 4],
    source: &str,
    translation: &str,
) -> XmlStringEntry {
    XmlStringEntry {
        list_index: 0,
        str_id,
        edid: edid.map(String::from),
        record_sig,
        field_sig,
        index: 0,
        index_max: 0,
        source: source.to_string(),
        translation: translation.to_string(),
    }
}

fn xml_policy(scope: SstOverwriteScope, mode: SstMatchMode) -> ApplyPolicy {
    let mut p = ApplyPolicy::sst_load_with_options(SstApplyOptions {
        overwrite_scope: scope,
        match_mode: mode,
        ..Default::default()
    });
    p.preserve_old_data = false;
    p
}

fn scope_matrix_strings() -> Vec<SkyString> {
    let mut sk1 = make_sk(0, "Apple", 10, *b"INGR", *b"FULL", 0);
    sk1.params.set(SkyStringParams::TRANSLATED, true);
    sk1.translation = "旧苹果".to_string();
    let mut sk2 = make_sk(1, "Banana", 11, *b"INGR", *b"FULL", 0);
    sk2.params.set(SkyStringParams::INCOMPLETE_TRANS, true);
    sk2.translation = "香蕉部分".to_string();
    let sk3 = make_sk(2, "Cherry", 12, *b"INGR", *b"FULL", 0);
    vec![sk1, sk2, sk3]
}

#[test]
fn test_xml_import_overwrite_scope_matrix() {
    // R-04：Delphi batcherImportFile 的 ImportXml 与 ApplySst 共用
    // param1（五档 overwrite scope）与 param2（四档 match mode）。
    // 同一输入在不同 scope 下必须产生可预测差异。
    let entries = vec![
        make_xml_entry(10, None, *b"INGR", *b"FULL", "Apple", "新苹果"),
        make_xml_entry(11, None, *b"INGR", *b"FULL", "Banana", "新香蕉"),
        make_xml_entry(12, None, *b"INGR", *b"FULL", "Cherry", "潔桃"),
    ];

    // All：覆盖全部（含已翻译/部分翻译）
    let mut strings = scope_matrix_strings();
    let result = apply_xml_dictionary_entries_with_policy(
        &mut strings,
        &entries,
        xml_policy(SstOverwriteScope::All, SstMatchMode::FormIdStrictString),
    );
    assert_eq!(result.total_matched(), 3);
    assert_eq!(strings[0].translation, "新苹果");
    assert_eq!(strings[1].translation, "新香蕉");
    assert_eq!(strings[2].translation, "潔桃");

    // NoTransExclusive：已翻译项被排除，未翻译/部分翻译可命中
    let mut strings = scope_matrix_strings();
    let result = apply_xml_dictionary_entries_with_policy(
        &mut strings,
        &entries,
        xml_policy(
            SstOverwriteScope::NoTransExclusive,
            SstMatchMode::FormIdStrictString,
        ),
    );
    assert_eq!(strings[0].translation, "旧苹果");
    assert_eq!(strings[1].translation, "新香蕉");
    assert_eq!(strings[2].translation, "潔桃");
    assert!(result.total_matched() >= 2);

    // NoTransAndPartial：incomplete 也被排除
    let mut strings = scope_matrix_strings();
    apply_xml_dictionary_entries_with_policy(
        &mut strings,
        &entries,
        xml_policy(
            SstOverwriteScope::NoTransAndPartial,
            SstMatchMode::FormIdStrictString,
        ),
    );
    assert_eq!(strings[0].translation, "旧苹果");
    assert_eq!(strings[1].translation, "香蕉部分");
    assert_eq!(strings[2].translation, "潔桃");

    // PartialOnly：仅 incomplete 项可命中
    let mut strings = scope_matrix_strings();
    apply_xml_dictionary_entries_with_policy(
        &mut strings,
        &entries,
        xml_policy(
            SstOverwriteScope::PartialOnly,
            SstMatchMode::FormIdStrictString,
        ),
    );
    assert_eq!(strings[0].translation, "旧苹果");
    assert_eq!(strings[1].translation, "新香蕉");
    assert_eq!(strings[2].translation, "");

    // Selection：无 selected_ids 时 fail-closed，全部不命中
    let mut strings = scope_matrix_strings();
    let result = apply_xml_dictionary_entries_with_policy(
        &mut strings,
        &entries,
        xml_policy(
            SstOverwriteScope::Selection,
            SstMatchMode::FormIdStrictString,
        ),
    );
    assert_eq!(result.total_matched(), 0);
    assert_eq!(strings[0].translation, "旧苹果");

    // Selection + selected_ids：仅选中项命中
    let mut strings = scope_matrix_strings();
    let policy = {
        let mut p = xml_policy(
            SstOverwriteScope::Selection,
            SstMatchMode::FormIdStrictString,
        );
        if let Some(opts) = p.sst_options.as_mut() {
            opts.selected_ids = Some(vec![2]);
        }
        p
    };
    apply_xml_dictionary_entries_with_policy(&mut strings, &entries, policy);
    assert_eq!(strings[0].translation, "旧苹果");
    assert_eq!(strings[2].translation, "潔桃");
}

fn mode_matrix_strings() -> Vec<SkyString> {
    let mut sk1 = make_sk(0, "Iron Sword", 100, *b"WEAP", *b"FULL", 0);
    sk1.esp_ptr.form_id = 0x0100_0042;
    let sk2 = make_sk(1, "Iron Sword", 200, *b"WEAP", *b"FULL", 0);
    let sk3 = make_sk(2, "Silver Sword", 300, *b"WEAP", *b"FULL", 0);
    vec![sk1, sk2, sk3]
}

#[test]
fn test_xml_import_match_mode_matrix() {
    // R-04：param2 四档 match mode 在 XML 导入下的差异。
    // XML 条目的 form_id 恒为 0（无法从 XML 获取），FormID 模式依赖
    // str_id/EDID/REC/FIELD 元数据；StringOnly 忽略 FormID 仅按原文匹配。
    // 同一 XML 源文对应两个不同 str_id 的目标行
    let entries = vec![make_xml_entry(
        100,
        None,
        *b"WEAP",
        *b"FULL",
        "Iron Sword",
        "铁剑",
    )];

    // FormIdStrictString：XML 条目 form_id=0，候选为 form_id=0 的目标行；
    // 源文精确校验后仅命中同源文的 sk2，sk1（真实 FormID）不受影响。
    let mut strings = mode_matrix_strings();
    let result = apply_xml_dictionary_entries_with_policy(
        &mut strings,
        &entries,
        xml_policy(SstOverwriteScope::All, SstMatchMode::FormIdStrictString),
    );
    assert_eq!(result.total_matched(), 1);
    assert_eq!(strings[0].translation, "");
    assert_eq!(strings[1].translation, "铁剑");

    // FormIdOnly：无源文校验时 sk2/sk3 同键候选 → 歧义不应用。
    let mut strings = mode_matrix_strings();
    let result = apply_xml_dictionary_entries_with_policy(
        &mut strings,
        &entries,
        xml_policy(SstOverwriteScope::All, SstMatchMode::FormIdOnly),
    );
    assert_eq!(result.total_matched(), 0);
    assert_eq!(result.ambiguous, 1);

    // StringOnly：忽略 FormID，同源文的目标行全部命中
    // （Delphi findStrMatchEx 是 target-centric，同一源文允许多目标）
    let mut strings = mode_matrix_strings();
    let result = apply_xml_dictionary_entries_with_policy(
        &mut strings,
        &entries,
        xml_policy(SstOverwriteScope::All, SstMatchMode::StringOnly),
    );
    assert_eq!(result.total_matched(), 2);
    assert_eq!(strings[0].translation, "铁剑");
    assert_eq!(strings[1].translation, "铁剑");
    assert_eq!(strings[2].translation, "");
}

#[test]
fn test_xml_import_no_old_data_preserved() {
    // Delphi XMLImportbase 未匹配条目直接丢弃，不生成 OLD_DATA。
    let strings_seed = vec![make_sk(0, "Apple", 10, *b"INGR", *b"FULL", 0)];
    let entries = vec![make_xml_entry(
        999,
        None,
        *b"INGR",
        *b"FULL",
        "不存在的条目",
        "不应保留",
    )];
    let mut strings = strings_seed.clone();
    let result = apply_xml_dictionary_entries_with_policy(
        &mut strings,
        &entries,
        xml_policy(SstOverwriteScope::All, SstMatchMode::FormIdStrictString),
    );
    assert_eq!(result.unmatched, 1);
    assert_eq!(result.old_data_preserved, 0);
    assert!(result.old_data_entries.is_empty());
    assert_eq!(strings.len(), 1); // 未追加 OLD_DATA 行
}

#[test]
fn test_sst_options_overwrite_scope_notrans_exclusive() {
    let mut sk1 = make_sk(0, "Apple", 10, *b"INGR", *b"FULL", 0);
    sk1.params.set(SkyStringParams::TRANSLATED, true);
    sk1.translation = "旧苹果".to_string();

    let sk2 = make_sk(1, "Banana", 11, *b"INGR", *b"FULL", 0);
    // sk2 未翻译

    let mut strings = vec![sk1, sk2];

    let entries = vec![
        make_dict_entry(10, None, *b"INGR", *b"FULL", "Apple", "新苹果"),
        make_dict_entry(11, None, *b"INGR", *b"FULL", "Banana", "香蕉"),
    ];

    let opts = SstApplyOptions {
        overwrite_scope: SstOverwriteScope::NoTransExclusive,
        match_mode: SstMatchMode::FormIdStrictString,
        ..Default::default()
    };
    let policy = ApplyPolicy::sst_load_with_options(opts);

    let result = apply_dictionary_entries_with_policy(&mut strings, &entries, policy);
    assert_eq!(result.tier_exact, 1);
    assert_eq!(strings[0].translation, "旧苹果"); // 已翻译项被跳过
    assert_eq!(strings[1].translation, "香蕉"); // 未翻译项成功覆盖
}

#[test]
fn test_sst_options_overwrite_scope_partial_only() {
    let mut sk1 = make_sk(0, "Apple", 10, *b"INGR", *b"FULL", 0);
    sk1.params.set(SkyStringParams::INCOMPLETE_TRANS, true);
    sk1.translation = "部分苹果".to_string();

    let sk2 = make_sk(1, "Banana", 11, *b"INGR", *b"FULL", 0);
    // sk2 未翻译（非 partial）

    let mut strings = vec![sk1, sk2];

    let entries = vec![
        make_dict_entry(10, None, *b"INGR", *b"FULL", "Apple", "完全苹果"),
        make_dict_entry(11, None, *b"INGR", *b"FULL", "Banana", "香蕉"),
    ];

    let opts = SstApplyOptions {
        overwrite_scope: SstOverwriteScope::PartialOnly,
        match_mode: SstMatchMode::FormIdStrictString,
        ..Default::default()
    };
    let policy = ApplyPolicy::sst_load_with_options(opts);

    let result = apply_dictionary_entries_with_policy(&mut strings, &entries, policy);
    assert_eq!(result.tier_exact, 1);
    assert_eq!(strings[0].translation, "完全苹果"); // 仅 partial 被覆盖
    assert_eq!(strings[1].translation, ""); // 未翻译项被跳过
}

#[test]
fn test_sst_options_overwrite_scope_selection() {
    let sk1 = make_sk(0, "Apple", 10, *b"INGR", *b"FULL", 0);
    let sk2 = make_sk(1, "Banana", 11, *b"INGR", *b"FULL", 0);

    let mut strings = vec![sk1, sk2];

    let entries = vec![
        make_dict_entry(10, None, *b"INGR", *b"FULL", "Apple", "苹果"),
        make_dict_entry(11, None, *b"INGR", *b"FULL", "Banana", "香蕉"),
    ];

    let opts = SstApplyOptions {
        overwrite_scope: SstOverwriteScope::Selection,
        match_mode: SstMatchMode::FormIdStrictString,
        selected_ids: Some(vec![1]), // 仅选中 Banana (id=1)
        ..Default::default()
    };
    let policy = ApplyPolicy::sst_load_with_options(opts);

    let result = apply_dictionary_entries_with_policy(&mut strings, &entries, policy);
    assert_eq!(result.tier_exact, 1);
    assert_eq!(strings[0].translation, "");
    assert_eq!(strings[1].translation, "香蕉");
}

#[test]
fn test_sst_options_match_mode_string_only() {
    // StringOnly 忽略 FormID；FormID 模式使用真实 form_id，而不是 str_id。
    let mut sk1 = make_sk(0, "Iron Sword", 999, *b"WEAP", *b"FULL", 0);
    sk1.esp_ptr.form_id = 0x0100_0042;
    let mut strings = vec![sk1];

    let mut entry = make_dict_entry(10, None, *b"WEAP", *b"FULL", "Iron Sword", "铁剑");
    entry.form_id = 0x0200_0043;
    let entries = vec![entry];

    // FormIdStrictString 因真实 FormID 不同而无法命中。
    let opts_formid = SstApplyOptions {
        match_mode: SstMatchMode::FormIdStrictString,
        ..Default::default()
    };
    let result_formid = apply_dictionary_entries_with_policy(
        &mut strings.clone(),
        &entries,
        ApplyPolicy::sst_load_with_options(opts_formid),
    );
    assert_eq!(result_formid.total_matched(), 0);

    // StringOnly 成功命中
    let opts_str = SstApplyOptions {
        match_mode: SstMatchMode::StringOnly,
        ..Default::default()
    };
    let result_str = apply_dictionary_entries_with_policy(
        &mut strings,
        &entries,
        ApplyPolicy::sst_load_with_options(opts_str),
    );
    assert_eq!(result_str.total_matched(), 1);
    assert_eq!(strings[0].translation, "铁剑");
    assert!(strings[0].params.is_validated());
    assert!(!strings[0].params.is_translated());

    // Delphi StringOnly 不做规范化/T4 模糊匹配。
    let fuzzy_entry = make_dict_entry(11, None, *b"WEAP", *b"FULL", "iron  sword!", "不应命中");
    let fuzzy_result = apply_dictionary_entries_with_policy(
        &mut vec![make_sk(2, "Iron Sword", 123, *b"WEAP", *b"FULL", 0)],
        &[fuzzy_entry],
        ApplyPolicy::sst_load_with_options(SstApplyOptions {
            match_mode: SstMatchMode::StringOnly,
            ..Default::default()
        }),
    );
    assert_eq!(fuzzy_result.total_matched(), 0);
}

#[test]
fn test_sst_string_only_resets_unmatched_eligible_targets_like_delphi() {
    let mut matched = make_sk(0, "Apple", 10, *b"INGR", *b"FULL", 0);
    matched.translation = "旧苹果".to_string();
    matched.params.set(SkyStringParams::TRANSLATED, true);

    let mut unmatched = make_sk(1, "Pear", 11, *b"INGR", *b"FULL", 0);
    unmatched.translation = "旧梨".to_string();
    unmatched.params.set(SkyStringParams::TRANSLATED, true);

    let entry = make_dict_entry(99, None, *b"MISC", *b"FULL", "Apple", "苹果");
    let mut strings = vec![matched, unmatched];
    let result = apply_dictionary_entries_with_policy(
        &mut strings,
        &[entry],
        ApplyPolicy::sst_load_with_options(SstApplyOptions {
            match_mode: SstMatchMode::StringOnly,
            reset_state: false,
            ..Default::default()
        }),
    );

    assert_eq!(result.total_matched(), 1);
    assert_eq!(strings[0].translation, "苹果");
    assert!(strings[0].params.is_validated());
    assert!(strings[1].translation.is_empty());
    assert!(!strings[1].params.is_translated());
    assert!(result.updated_ids.contains(&1));
}

#[test]
fn test_sst_string_only_one_dictionary_entry_can_apply_to_multiple_targets() {
    let first = make_sk(0, "Yes.", 10, *b"INFO", *b"NAM1", 0);
    let second = make_sk(1, "Yes.", 11, *b"INFO", *b"RNAM", 0);
    let entry = make_dict_entry(99, None, *b"INFO", *b"NAM1", "Yes.", "是。 ");

    let mut strings = vec![first, second];
    let result = apply_dictionary_entries_with_policy(
        &mut strings,
        &[entry],
        ApplyPolicy::sst_load_with_options(SstApplyOptions {
            match_mode: SstMatchMode::StringOnly,
            ..Default::default()
        }),
    );

    assert_eq!(result.total_matched(), 2);
    assert_eq!(strings[0].translation, "是。 ");
    assert_eq!(strings[1].translation, "是。 ");
    assert_eq!(result.old_data_preserved, 0);
}

#[test]
fn test_sst_string_only_tag_only_keeps_modern_only_tag_contract() {
    let mut matched = make_sk(0, "Apple", 10, *b"INGR", *b"FULL", 0);
    matched.translation = "旧苹果".to_string();
    matched.params.set(SkyStringParams::TRANSLATED, true);

    let mut unmatched = make_sk(1, "Pear", 11, *b"INGR", *b"FULL", 0);
    unmatched.translation = "旧梨".to_string();
    unmatched.params.set(SkyStringParams::TRANSLATED, true);

    let mut entry = make_dict_entry(99, None, *b"MISC", *b"FULL", "Apple", "苹果");
    entry.colab_id = 23;
    let mut strings = vec![matched, unmatched];
    let result = apply_dictionary_entries_with_policy(
        &mut strings,
        &[entry],
        ApplyPolicy::sst_load_with_options(SstApplyOptions {
            match_mode: SstMatchMode::StringOnly,
            tag_only: true,
            ..Default::default()
        }),
    );

    assert_eq!(result.total_matched(), 1);
    assert_eq!(strings[0].translation, "旧苹果");
    assert_eq!(strings[0].colab_id, 23);
    assert_eq!(strings[1].translation, "旧梨");
}

#[test]
fn test_sst_string_only_does_not_autotranslate_same_language() {
    let mut strings = vec![make_sk(0, "Apple", 10, *b"INGR", *b"FULL", 0)];
    let entry = make_dict_entry(99, None, *b"MISC", *b"FULL", "Apple", "苹果");
    let mut policy = ApplyPolicy::sst_load_with_options(SstApplyOptions {
        match_mode: SstMatchMode::StringOnly,
        ..Default::default()
    });
    policy.same_language = true;

    let result = apply_dictionary_entries_with_policy(&mut strings, &[entry], policy);

    assert_eq!(result.total_matched(), 0);
    assert!(strings[0].translation.is_empty());
}

#[test]
fn test_sst_options_tag_only_and_reset_state() {
    let sk1 = make_sk(0, "Apple", 10, *b"INGR", *b"FULL", 0);
    let mut strings = vec![sk1];

    let mut entry = make_dict_entry(10, None, *b"INGR", *b"FULL", "Apple", "苹果");
    entry.colab_id = 42;

    // Tag Only
    let opts_tag = SstApplyOptions {
        tag_only: true,
        ..Default::default()
    };
    let result_tag = apply_dictionary_entries_with_policy(
        &mut strings,
        &[entry.clone()],
        ApplyPolicy::sst_load_with_options(opts_tag),
    );
    assert_eq!(result_tag.total_matched(), 1);
    assert_eq!(strings[0].translation, ""); // 文本未变
    assert_eq!(strings[0].colab_id, 42); // 标签已打上

    // Reset State 不会把 SST 的 incomplete 强行升级为 translated。
    let mut entry_partial = make_dict_entry(10, None, *b"INGR", *b"FULL", "Apple", "苹果");
    let mut p = SkyStringParams::default();
    p.set(SkyStringParams::INCOMPLETE_TRANS, true);
    entry_partial.params = Some(p);

    let opts_reset = SstApplyOptions {
        reset_state: true,
        ..Default::default()
    };
    apply_dictionary_entries_with_policy(
        &mut strings,
        &[entry_partial],
        ApplyPolicy::sst_load_with_options(opts_reset),
    );
    assert_eq!(strings[0].translation, "苹果");
    assert!(!strings[0].params.is_translated());
    assert!(strings[0].params.is_incomplete());
}

#[test]
fn test_sst_reset_state_also_resets_unmatched_eligible_targets() {
    let mut matched = make_sk(0, "Apple", 10, *b"INGR", *b"FULL", 0);
    matched.translation = "旧苹果".to_string();
    matched.params.set(SkyStringParams::TRANSLATED, true);

    let mut unmatched = make_sk(1, "Pear", 11, *b"INGR", *b"FULL", 0);
    unmatched.translation = "旧梨".to_string();
    unmatched.params.set(SkyStringParams::TRANSLATED, true);

    let entry = make_dict_entry(10, None, *b"INGR", *b"FULL", "Apple", "苹果");
    let mut strings = vec![matched, unmatched];
    let result = apply_dictionary_entries_with_policy(
        &mut strings,
        &[entry],
        ApplyPolicy::sst_load_with_options(SstApplyOptions {
            reset_state: true,
            ..Default::default()
        }),
    );

    assert_eq!(result.total_matched(), 1);
    assert_eq!(strings[0].translation, "苹果");
    assert!(strings[0].params.is_translated());
    assert!(strings[1].translation.is_empty());
    assert!(!strings[1].params.is_translated());
    assert!(result.updated_ids.contains(&1));
}

#[test]
fn test_sst_normal_apply_also_syncs_colab_tag() {
    let mut strings = vec![make_sk(0, "Apple", 10, *b"INGR", *b"FULL", 0)];
    let mut entry = make_dict_entry(10, None, *b"INGR", *b"FULL", "Apple", "苹果");
    entry.colab_id = 17;

    let result = apply_dictionary_entries_with_policy(
        &mut strings,
        &[entry],
        ApplyPolicy::sst_load_with_options(SstApplyOptions::default()),
    );

    assert_eq!(result.total_matched(), 1);
    assert_eq!(strings[0].translation, "苹果");
    assert_eq!(strings[0].colab_id, 17);
}

#[test]
fn test_sst_form_id_modes_use_real_form_id_and_delphi_index_rules() {
    let mut target = make_sk(0, "Iron Sword", 999, *b"WEAP", *b"FULL", 0xAABB_CCDD);
    target.esp_ptr.form_id = 0x0500_1234;
    target.esp_ptr.index = 2;

    let mut entry = make_dict_entry(10, None, *b"WEAP", *b"FULL", "Iron Sword", "铁剑");
    entry.form_id = 0x0900_1234; // sanitize 后与 target 相同
    entry.edid_hash = Some(0xAABB_CCDD);
    entry.index = 3;

    // FormIdOnly 与 Strict 都要求 index，因此不命中；str_id 的差异不参与 V4 FormID 键。
    for mode in [SstMatchMode::FormIdOnly, SstMatchMode::FormIdStrictString] {
        let result = apply_dictionary_entries_with_policy(
            &mut vec![target.clone()],
            &[entry.clone()],
            ApplyPolicy::sst_load_with_options(SstApplyOptions {
                match_mode: mode,
                ..Default::default()
            }),
        );
        assert_eq!(result.total_matched(), 0);
    }

    // V4Relax 仍要求源文本精确一致，但忽略 index。
    let mut relaxed_targets = vec![target.clone()];
    let relaxed_result = apply_dictionary_entries_with_policy(
        &mut relaxed_targets,
        &[entry.clone()],
        ApplyPolicy::sst_load_with_options(SstApplyOptions {
            match_mode: SstMatchMode::FormIdRelaxedString,
            ..Default::default()
        }),
    );
    assert_eq!(relaxed_result.total_matched(), 1);
    assert_eq!(relaxed_targets[0].translation, "铁剑");

    let mut non_exact = entry;
    non_exact.source = "iron sword".to_string();
    let non_exact_result = apply_dictionary_entries_with_policy(
        &mut vec![target],
        &[non_exact],
        ApplyPolicy::sst_load_with_options(SstApplyOptions {
            match_mode: SstMatchMode::FormIdRelaxedString,
            ..Default::default()
        }),
    );
    assert_eq!(non_exact_result.total_matched(), 0);
}

#[test]
fn test_sst_no_trans_and_partial_name_excludes_incomplete_like_delphi() {
    let plain = make_sk(0, "Apple", 10, *b"INGR", *b"FULL", 0);
    let mut partial = make_sk(1, "Pear", 11, *b"INGR", *b"FULL", 0);
    partial.params.set(SkyStringParams::INCOMPLETE_TRANS, true);

    let mut strings = vec![plain, partial];
    let entries = vec![
        make_dict_entry(10, None, *b"INGR", *b"FULL", "Apple", "苹果"),
        make_dict_entry(11, None, *b"INGR", *b"FULL", "Pear", "梨"),
    ];
    let result = apply_dictionary_entries_with_policy(
        &mut strings,
        &entries,
        ApplyPolicy::sst_load_with_options(SstApplyOptions {
            overwrite_scope: SstOverwriteScope::NoTransAndPartial,
            ..Default::default()
        }),
    );

    assert_eq!(result.total_matched(), 1);
    assert_eq!(strings[0].translation, "苹果");
    assert!(strings[1].translation.is_empty());
}

#[test]
fn test_sst_form_id_keeps_locked_normal_target_excluded() {
    let mut target = make_sk(0, "Normal text", 10, *b"QUST", *b"FULL", 0x1122_3344);
    target.esp_ptr.form_id = 0x0100_0042;
    target.esp_ptr.index = 3;
    target.set_translation("旧普通译文".to_string());
    target.params.set(SkyStringParams::LOCKED_TRANS, true);

    let mut entry = make_dict_entry(99, None, *b"QUST", *b"FULL", "Normal text", "普通新译文");
    entry.form_id = 0x0100_0042;
    entry.edid_hash = Some(0x1122_3344);
    entry.index = 3;

    let mut strings = vec![target];
    let result = apply_dictionary_entries_with_policy(
        &mut strings,
        &[entry],
        ApplyPolicy::sst_load_with_options(SstApplyOptions::default()),
    );

    assert_eq!(result.total_matched(), 0);
    assert_eq!(strings[0].translation, "旧普通译文");
    assert!(strings[0].params.is_locked());
}

#[test]
fn test_sst_vmad_form_id_modes_are_fixed_to_strict_route() {
    let edid_hash = string_hash("QuestScript\0DisplayName");
    let make_target = |source: &str, index: u16, locked: bool| {
        let mut target = make_sk(0, source, -32, *b"QUST", *b"VMAD", edid_hash);
        target.esp_ptr.form_id = 0x0100_0042;
        target.esp_ptr.index = index;
        target
            .internal_params
            .set(SkyStringInternalParams::IS_VMAD_STRING, true);
        if locked {
            target.set_translation("旧脚本文本".to_string());
            target.params.set(SkyStringParams::LOCKED_TRANS, true);
        }
        target
    };
    let make_entry = |source: &str, index: u16| {
        let mut entry = make_dict_entry(-32, None, *b"QUST", *b"VMAD", source, "任务脚本文本");
        entry.form_id = 0x0100_0042;
        entry.edid_hash = Some(edid_hash);
        entry.index = index;
        entry
    };

    // 三个用户可选的 FormID 档位都必须让 VMAD 走 V4Strict；即使目标为
    // lockedTrans，专用 compareOptVMAD 仍允许它参与匹配。
    for mode in [
        SstMatchMode::FormIdOnly,
        SstMatchMode::FormIdStrictString,
        SstMatchMode::FormIdRelaxedString,
    ] {
        let mut strings = vec![make_target("Current text", 3, true)];
        let result = apply_dictionary_entries_with_policy(
            &mut strings,
            &[make_entry("Current text", 3)],
            ApplyPolicy::sst_load_with_options(SstApplyOptions {
                match_mode: mode,
                ..Default::default()
            }),
        );
        assert_eq!(result.total_matched(), 1, "VMAD mode {mode:?} must match");
        assert_eq!(strings[0].translation, "任务脚本文本");
    }

    // V4Edid 不能放宽 VMAD 的源文校验。
    let source_drift_result = apply_dictionary_entries_with_policy(
        &mut vec![make_target("Current text", 3, false)],
        &[make_entry("Old text", 3)],
        ApplyPolicy::sst_load_with_options(SstApplyOptions {
            match_mode: SstMatchMode::FormIdOnly,
            ..Default::default()
        }),
    );
    assert_eq!(source_drift_result.total_matched(), 0);

    // V4Relax 也不能放宽 VMAD 的 index 校验。
    let index_drift_result = apply_dictionary_entries_with_policy(
        &mut vec![make_target("Current text", 3, false)],
        &[make_entry("Current text", 4)],
        ApplyPolicy::sst_load_with_options(SstApplyOptions {
            match_mode: SstMatchMode::FormIdRelaxedString,
            ..Default::default()
        }),
    );
    assert_eq!(index_drift_result.total_matched(), 0);
}

#[test]
fn test_sst_vmad_form_id_apply_uses_review_status_for_changed_translation() {
    let edid_hash = string_hash("QuestScript\0DisplayName");
    let mut target = make_sk(0, "Quest script text", -32, *b"QUST", *b"VMAD", edid_hash);
    target.esp_ptr.form_id = 0x0100_0042;
    target.esp_ptr.index = 3;
    target
        .internal_params
        .set(SkyStringInternalParams::IS_VMAD_STRING, true);

    let mut entry = make_dict_entry(
        -32,
        None,
        *b"QUST",
        *b"VMAD",
        "Quest script text",
        "任务脚本文本",
    );
    entry.form_id = 0x0100_0042;
    entry.edid_hash = Some(edid_hash);
    entry.index = 3;

    let mut strings = vec![target];
    let result = apply_dictionary_entries_with_policy(
        &mut strings,
        &[entry],
        ApplyPolicy::sst_load_with_options(SstApplyOptions {
            match_mode: SstMatchMode::FormIdStrictString,
            ..Default::default()
        }),
    );

    assert_eq!(result.total_matched(), 1);
    assert_eq!(strings[0].translation, "任务脚本文本");
    assert!(strings[0].params.is_validated());
    assert!(!strings[0].params.is_translated());
}

#[test]
fn test_sst_vmad_form_id_apply_marks_identical_translation_translated() {
    let edid_hash = string_hash("QuestScript\0DisplayName");
    let mut target = make_sk(0, "Quest script text", -32, *b"QUST", *b"VMAD", edid_hash);
    target.esp_ptr.form_id = 0x0100_0042;
    target.esp_ptr.index = 3;
    target
        .internal_params
        .set(SkyStringInternalParams::IS_VMAD_STRING, true);
    target.set_translation("任务脚本文本".to_string());
    target.params.set(SkyStringParams::TRANSLATED, true);

    let mut entry = make_dict_entry(
        -32,
        None,
        *b"QUST",
        *b"VMAD",
        "Quest script text",
        "任务脚本文本",
    );
    entry.form_id = 0x0100_0042;
    entry.edid_hash = Some(edid_hash);
    entry.index = 3;

    let mut strings = vec![target];
    let result = apply_dictionary_entries_with_policy(
        &mut strings,
        &[entry],
        ApplyPolicy::sst_load_with_options(SstApplyOptions {
            match_mode: SstMatchMode::FormIdStrictString,
            ..Default::default()
        }),
    );

    assert_eq!(result.total_matched(), 1);
    assert!(strings[0].params.is_translated());
    assert!(!strings[0].params.is_validated());
}

#[test]
fn test_sst_vmad_same_language_keeps_review_status_when_source_differs() {
    let edid_hash = string_hash("QuestScript\0DisplayName");
    let mut target = make_sk(0, "Quest script text", -32, *b"QUST", *b"VMAD", edid_hash);
    target.esp_ptr.form_id = 0x0100_0042;
    target.esp_ptr.index = 3;
    target
        .internal_params
        .set(SkyStringInternalParams::IS_VMAD_STRING, true);
    target.set_translation("任务脚本文本".to_string());
    target.params.set(SkyStringParams::TRANSLATED, true);

    let mut entry = make_dict_entry(
        -32,
        None,
        *b"QUST",
        *b"VMAD",
        "Quest script text",
        "任务脚本文本",
    );
    entry.form_id = 0x0100_0042;
    entry.edid_hash = Some(edid_hash);
    entry.index = 3;

    let mut strings = vec![target];
    let result = apply_dictionary_entries_with_policy(
        &mut strings,
        &[entry],
        ApplyPolicy {
            same_language: true,
            sst_options: Some(SstApplyOptions::default()),
            ..Default::default()
        },
    );

    assert_eq!(result.total_matched(), 1);
    assert_eq!(strings[0].translation, "任务脚本文本");
    assert!(strings[0].params.is_validated());
    assert!(!strings[0].params.is_translated());
}

#[test]
fn test_sst_vmad_reset_replays_for_existing_n_trans_marker() {
    let edid_hash = string_hash("QuestScript\0DisplayName");
    let mut target = make_sk(0, "Current VMAD text", -32, *b"QUST", *b"VMAD", edid_hash);
    target.esp_ptr.form_id = 0x0100_0042;
    target.esp_ptr.index = 3;
    target
        .internal_params
        .set(SkyStringInternalParams::IS_VMAD_STRING, true);
    target.set_translation("旧脚本文本".to_string());
    target.params.set(SkyStringParams::TRANSLATED, true);
    target
        .internal_params
        .set(SkyStringInternalParams::N_TRANS, true);

    let mut entry = make_dict_entry(
        -32,
        None,
        *b"QUST",
        *b"VMAD",
        "Old VMAD text",
        "旧脚本新译文",
    );
    entry.form_id = 0x0100_0042;
    entry.edid_hash = Some(edid_hash);
    entry.index = 3;

    let mut strings = vec![target];
    let result = apply_dictionary_entries_with_policy(
        &mut strings,
        &[entry],
        ApplyPolicy::sst_load_with_options(SstApplyOptions::default()),
    );

    assert_eq!(result.total_matched(), 0);
    assert_eq!(strings[0].translation, "Current VMAD text");
    assert!(strings[0].params.is_locked());
    assert!(!strings[0].params.is_translated());
    assert!(!strings[0].params.is_incomplete());
    assert!(!strings[0].params.is_validated());
    assert!(!strings[0]
        .internal_params
        .is_set(SkyStringInternalParams::N_TRANS));
    assert_eq!(strings[0].hash_trans, string_hash("Current VMAD text"));
    assert_eq!(strings[0].ld_result, 99);
    assert!(result.updated_ids.contains(&0));
}

#[test]
fn test_sst_vmad_matched_with_n_trans_resets_then_applies() {
    let edid_hash = string_hash("QuestScript\0DisplayName");
    let mut target = make_sk(0, "Current VMAD text", -32, *b"QUST", *b"VMAD", edid_hash);
    target.esp_ptr.form_id = 0x0100_0042;
    target.esp_ptr.index = 3;
    target
        .internal_params
        .set(SkyStringInternalParams::IS_VMAD_STRING, true);
    target.set_translation("旧脚本文本".to_string());
    target.params.set(SkyStringParams::TRANSLATED, true);
    target
        .internal_params
        .set(SkyStringInternalParams::N_TRANS, true);

    let mut entry = make_dict_entry(
        -32,
        None,
        *b"QUST",
        *b"VMAD",
        "Current VMAD text",
        "新脚本文本",
    );
    entry.form_id = 0x0100_0042;
    entry.edid_hash = Some(edid_hash);
    entry.index = 3;

    let mut strings = vec![target];
    let result = apply_dictionary_entries_with_policy(
        &mut strings,
        &[entry],
        ApplyPolicy::sst_load_with_options(SstApplyOptions::default()),
    );

    assert_eq!(result.total_matched(), 1);
    assert_eq!(strings[0].translation, "新脚本文本");
    assert!(!strings[0]
        .internal_params
        .is_set(SkyStringInternalParams::N_TRANS));
    assert!(strings[0].params.is_validated());
    assert!(!strings[0].params.is_locked());
}

#[test]
fn test_sst_vmad_protection_in_string_only_mode() {
    let mut vmad_item = make_sk(0, "QuestScriptVar", 10, *b"VMAD", *b"EDID", 0);
    vmad_item
        .internal_params
        .set(SkyStringInternalParams::IS_VMAD_STRING, true);

    let entry = make_dict_entry(
        99,
        None,
        *b"VMAD",
        *b"EDID",
        "QuestScriptVar",
        "任务脚本变量",
    );

    // 1. StringOnly + All: VMAD 项被 Delphi compareOptBlock 保护屏蔽，不应被覆盖
    let mut strings_all = vec![vmad_item.clone()];
    let res_all = apply_dictionary_entries_with_policy(
        &mut strings_all,
        &[entry.clone()],
        ApplyPolicy::sst_load_with_options(SstApplyOptions {
            overwrite_scope: SstOverwriteScope::All,
            match_mode: SstMatchMode::StringOnly,
            ..Default::default()
        }),
    );
    assert_eq!(res_all.total_matched(), 0);
    assert!(strings_all[0].translation.is_empty());

    // 2. StringOnly + NoTransExclusive: 同样被屏蔽
    let mut strings_notrans = vec![vmad_item.clone()];
    let res_notrans = apply_dictionary_entries_with_policy(
        &mut strings_notrans,
        &[entry.clone()],
        ApplyPolicy::sst_load_with_options(SstApplyOptions {
            overwrite_scope: SstOverwriteScope::NoTransExclusive,
            match_mode: SstMatchMode::StringOnly,
            ..Default::default()
        }),
    );
    assert_eq!(res_notrans.total_matched(), 0);
    assert!(strings_notrans[0].translation.is_empty());

    // 3. StringOnly + NoTransAndPartial: 同样被屏蔽 (Delphi getfProcCompareOptVMADString -> compareOptBlock)
    let mut strings_notrans_partial = vec![vmad_item.clone()];
    let res_notrans_partial = apply_dictionary_entries_with_policy(
        &mut strings_notrans_partial,
        &[entry.clone()],
        ApplyPolicy::sst_load_with_options(SstApplyOptions {
            overwrite_scope: SstOverwriteScope::NoTransAndPartial,
            match_mode: SstMatchMode::StringOnly,
            ..Default::default()
        }),
    );
    assert_eq!(res_notrans_partial.total_matched(), 0);
    assert!(strings_notrans_partial[0].translation.is_empty());

    // 4. StringOnly + PartialOnly: 当且仅当 VMAD 项被标记为 Partial (F2) 时，允许覆盖
    let mut vmad_partial = vmad_item.clone();
    vmad_partial
        .params
        .set(SkyStringParams::INCOMPLETE_TRANS, true);
    let mut strings_partial = vec![vmad_partial];
    let res_partial = apply_dictionary_entries_with_policy(
        &mut strings_partial,
        &[entry.clone()],
        ApplyPolicy::sst_load_with_options(SstApplyOptions {
            overwrite_scope: SstOverwriteScope::PartialOnly,
            match_mode: SstMatchMode::StringOnly,
            ..Default::default()
        }),
    );
    assert_eq!(res_partial.total_matched(), 1);
    assert_eq!(strings_partial[0].translation, "任务脚本变量");

    // 5. StringOnly + Selection: 选中项也允许覆盖
    let mut strings_selection = vec![vmad_item.clone()];
    let res_selection = apply_dictionary_entries_with_policy(
        &mut strings_selection,
        &[entry.clone()],
        ApplyPolicy::sst_load_with_options(SstApplyOptions {
            overwrite_scope: SstOverwriteScope::Selection,
            match_mode: SstMatchMode::StringOnly,
            selected_ids: Some(vec![0]),
            ..Default::default()
        }),
    );
    assert_eq!(res_selection.total_matched(), 1);
    assert_eq!(strings_selection[0].translation, "任务脚本变量");
}
