use xt_core::dial_html::{build_dial_tree, dial_tree_to_html};
use xt_core::types::SkyString;

fn make_sky_string(
    source: &str,
    trans: &str,
    record_sig: &[u8; 4],
    field_sig: &[u8; 4],
    form_id: u32,
    parent_form_id: u32,
) -> SkyString {
    let mut sk = SkyString::new(0, source.into(), trans.into(), *record_sig, *field_sig);
    sk.esp_ptr.form_id = form_id;
    sk.parent_form_id = parent_form_id;
    sk
}

#[test]
fn test_build_dial_tree_simple() {
    let strings = vec![
        make_sky_string("Topic 1", "", b"DIAL", b"FULL", 0x100, 0),
        make_sky_string("Hello there", "你好", b"INFO", b"NAM1", 0x200, 0x100),
        make_sky_string("Goodbye", "再见", b"INFO", b"NAM1", 0x201, 0x100),
    ];

    let tree = build_dial_tree(&strings);
    assert_eq!(tree.len(), 1);
    assert_eq!(tree[0].topic, "Topic 1");
    assert_eq!(tree[0].responses.len(), 2);
}

#[test]
fn test_html_output() {
    let strings = vec![
        make_sky_string("Greetings", "问候", b"DIAL", b"FULL", 0x100, 0),
        make_sky_string("How are you?", "你好吗", b"INFO", b"NAM1", 0x200, 0x100),
    ];

    let tree = build_dial_tree(&strings);
    let html = dial_tree_to_html(&tree, "Test Dialog");
    assert!(html.contains("Greetings"));
    assert!(html.contains("How are you"));
    assert!(html.contains("你好吗"));
    assert!(html.contains("<!DOCTYPE html>"));
}

#[test]
fn test_empty_input() {
    let tree = build_dial_tree(&[]);
    assert!(tree.is_empty());
    let html = dial_tree_to_html(&tree, "Empty");
    assert!(html.contains("0 个对话主题"));
}

#[test]
fn topics_sorted_and_prompts_attached() {
    let strings = vec![
        make_sky_string("Zeta", "", b"DIAL", b"FULL", 0x2, 0),
        make_sky_string("Alpha", "A", b"DIAL", b"FULL", 0x1, 0),
        make_sky_string("Ask?", "", b"INFO", b"RNAM", 0x10, 0x1),
        make_sky_string("Yes", "Oui", b"INFO", b"NAM1", 0x10, 0x1),
        make_sky_string("Prompt only", "", b"INFO", b"RNAM", 0x11, 0x2),
        make_sky_string("Orphan", "", b"INFO", b"NAM1", 0x12, 0x9),
    ];
    let tree = build_dial_tree(&strings);
    assert_eq!(tree.len(), 2);
    assert_eq!(tree[0].topic, "Alpha");
    assert_eq!(tree[0].responses.len(), 1);
    assert_eq!(tree[0].responses[0].prompt.as_deref(), Some("Ask?"));
    assert_eq!(tree[0].responses[0].response_trans, "Oui");
    assert_eq!(tree[1].topic, "Zeta");
    assert!(tree[1].responses.is_empty());
    let html = dial_tree_to_html(&tree, "<T&>");
    assert!(html.contains("<title>&lt;T&amp;&gt;</title>"));
    assert!(html.contains("[00000001]"));
    assert!(html.contains("（无回复）"));
    assert!(html.contains("2 个对话主题，1 条回复"));
    assert!(html.ends_with("</body>\n</html>"));
}
