use xt_core::mcm::parser::{
    build_normalized_text, detect_encoding, detect_line_ending, encode_to_bytes, encode_utf16le, mcm_save_bytes,
    mcm_save_text, parse_mcm_bytes,
};
use xt_core::mcm::types::{make_xtag, parse_xtag, McmEncoding, McmEntry, McmFile};

fn parse_test_string(content: &str, encoding: McmEncoding) -> McmFile {
    let bytes = encode_to_bytes(content, &encoding);
    parse_mcm_bytes(&bytes, "").unwrap()
}

#[test]
fn test_encode_utf16le_native() {
    let bytes = encode_utf16le("$sA");
    assert_eq!(bytes, vec![0x24, 0x00, 0x73, 0x00, 0x41, 0x00]);
}

#[test]
fn test_parse_utf16() {
    let content = "$sSetting1\tHello World\n$sSetting2\t你好\n";
    let file = parse_test_string(content, McmEncoding::Utf16Le);
    assert_eq!(file.entries.len(), 2);
    assert_eq!(file.entries[0].id, "$sSetting1");
    assert_eq!(file.entries[0].source, "Hello World");
    assert_eq!(file.entries[1].id, "$sSetting2");
    assert_eq!(file.entries[1].source, "你好");
}

#[test]
fn test_byte_offset_utf16() {
    let content = "$sA\tX\n$sB\tY\n";
    let file = parse_test_string(content, McmEncoding::Utf16Le);
    assert_eq!(file.entries.len(), 2);
    assert_eq!(file.entries[0].byte_offset, 2);
    assert_eq!(file.entries[1].byte_offset, 14);
}

#[test]
fn test_byte_offset_utf8() {
    let content = "$sA\tX\n$sB\tY\n";
    let file = parse_test_string(content, McmEncoding::Utf8);
    assert_eq!(file.entries.len(), 2);
    assert_eq!(file.entries[0].byte_offset, 0);
    assert_eq!(file.entries[1].byte_offset, 6);
}

#[test]
fn test_line_ending_crlf_preserved() {
    let content = "$sA\tHello\r\n$sB\tWorld\r\n";
    let file = parse_test_string(content, McmEncoding::Utf8);
    assert_eq!(file.line_ending, "\r\n");
    assert_eq!(file.entries.len(), 2);
}

#[test]
fn test_parse_utf8() {
    let content = "$sSetting1\tHello World\n$sSetting2\tBonjour\n";
    let file = parse_test_string(content, McmEncoding::Utf8);
    assert_eq!(file.entries.len(), 2);
    assert_eq!(file.entries[0].source, "Hello World");
}

#[test]
fn test_parse_skips_comments() {
    let content = "# This is a comment\n$sValid\tValue\n// Another comment\n";
    let file = parse_test_string(content, McmEncoding::Utf8);
    assert_eq!(file.entries.len(), 1);
    assert_eq!(file.entries[0].id, "$sValid");
}

#[test]
fn test_parse_empty_lines() {
    let content = "$sFirst\tAlpha\n\n$sSecond\tBeta\n\n";
    let file = parse_test_string(content, McmEncoding::Utf8);
    assert_eq!(file.entries.len(), 2);
    assert_eq!(file.entries[0].id, "$sFirst");
    assert_eq!(file.entries[1].id, "$sSecond");
    assert_eq!(file.header_list.len(), 4);
}

#[test]
fn test_save_and_reload_utf16() {
    let content = "$sGreeting\tHello\n$sFarewell\tGoodbye\n";
    let bytes = encode_to_bytes(content, &McmEncoding::Utf16Le);
    let mut file = parse_mcm_bytes(&bytes, "").unwrap();
    for entry in &mut file.entries {
        if entry.source == "Hello" {
            entry.translation = "你好".to_string();
        }
        if entry.source == "Goodbye" {
            entry.translation = "再见".to_string();
        }
    }
    let saved = mcm_save_bytes(&file);
    let reparsed = parse_mcm_bytes(&saved, "").unwrap();
    assert_eq!(reparsed.entries[0].source, "你好");
    assert_eq!(reparsed.entries[1].source, "再见");
}

#[test]
fn bom_selects_encoding() {
    assert_eq!(detect_encoding(&[0xFF, 0xFE, 0x41, 0x00]), McmEncoding::Utf16Le);
    assert_eq!(detect_encoding(&[0xFE, 0xFF, 0x00, 0x41]), McmEncoding::Utf16Be);
    assert_eq!(detect_encoding(&[0xEF]), McmEncoding::Utf8);
    assert_eq!(detect_encoding(b"abc"), McmEncoding::Utf8);
    assert_eq!(McmEncoding::default(), McmEncoding::Utf16Le);
}

#[test]
fn line_ending_is_the_first_one_seen() {
    assert_eq!(detect_line_ending(b"a\nb\r\n"), "\n");
    assert_eq!(detect_line_ending(b"a\r\nb\n"), "\r\n");
    assert_eq!(detect_line_ending(b"abc"), "\n");
    // the last byte is not looked at
    assert_eq!(detect_line_ending(b"a\r"), "\n");
}

#[test]
fn utf16_be_and_surrogates() {
    let bytes = encode_to_bytes("A😀", &McmEncoding::Utf16Be);
    assert_eq!(bytes, vec![0xFE, 0xFF, 0x00, 0x41, 0xD8, 0x3D, 0xDE, 0x00]);
    let file = parse_test_string("$sEmoji\t😀\n", McmEncoding::Utf16Be);
    assert_eq!(file.entries[0].source, "😀");
    assert_eq!(file.encoding, McmEncoding::Utf16Be);
}

#[test]
fn key_must_start_with_dollar_and_text_must_not_be_blank() {
    let file = parse_test_string("key\tvalue\n$k\t   \n  $ok \t  v  \n", McmEncoding::Utf8);
    assert_eq!(file.entries.len(), 1);
    assert_eq!(file.entries[0].id, "$ok");
    assert_eq!(file.entries[0].source, "v");
    assert_eq!(file.entries[0].line_index, 2);
    assert_eq!(file.header_list, vec!["".to_string(), "".to_string(), "$ok".to_string()]);
}

#[test]
fn save_keeps_untouched_lines_and_line_ending() {
    let content = "# note\r\n$sA\tHello\r\n";
    let mut file = parse_test_string(content, McmEncoding::Utf8);
    file.entries[0].translation = "Hallo".to_string();
    assert_eq!(mcm_save_text(&file), "# note\r\n$sA\tHallo");
    file.entries[0].translation = String::new();
    assert_eq!(mcm_save_text(&file), "# note\r\n$sA\tHello");
}

#[test]
fn normalized_text_uses_placeholders() {
    let entries = vec![
        McmEntry { id: "$a".to_string(), source: "x".to_string(), translation: String::new(), line_index: 0, byte_offset: 0 },
        McmEntry { id: "$b".to_string(), source: "y".to_string(), translation: String::new(), line_index: 12, byte_offset: 9 },
    ];
    assert_eq!(build_normalized_text(&entries), "$a\t{{xt=0}}\t\n$b\t{{xt=12}}\t");
}

#[test]
fn xtag_format_and_reading() {
    assert_eq!(make_xtag(5), "{{xt=5}} ");
    assert_eq!(parse_xtag("pre {{xt=42}} post"), Some(42));
    assert_eq!(parse_xtag("{{xt=+7}} "), Some(7));
    assert_eq!(parse_xtag("{{xt=}} "), None);
    assert_eq!(parse_xtag("{{xt=5"), None);
    assert_eq!(parse_xtag("no tag"), None);
    assert_eq!(parse_xtag(&make_xtag(5)), Some(5));
    assert_eq!(parse_xtag(&make_xtag(1234)), Some(1234));
}
