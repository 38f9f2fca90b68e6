use xt_core::normalization::normalize;

#[test]
fn test_normalize_basic() {
    assert_eq!(normalize("Hello"), "hello");
    assert_eq!(normalize("HELLO"), "hello");
    assert_eq!(normalize("Hello, World!"), "hello world");
    assert_eq!(normalize("  spaced  out  "), "spaced out");
    assert_eq!(normalize("multiple   spaces"), "multiple spaces");
}

#[test]
fn test_normalize_non_ascii() {
    assert_eq!(normalize("你好世界"), "你好世界");
    assert_eq!(normalize("Привет"), "привет");
    assert_eq!(normalize("こんにちは"), "こんにちは");
}

#[test]
fn test_normalize_punctuation() {
    assert_eq!(normalize("Hello-World"), "hello world");
    assert_eq!(normalize("Hello_world"), "hello world");
    assert_eq!(normalize("Hello.World"), "hello world");
    assert_eq!(normalize("Hello's"), "hello s");
}

#[test]
fn test_normalize_empty_and_spaces() {
    assert_eq!(normalize(""), "");
    assert_eq!(normalize("   "), "");
    assert_eq!(normalize("  \t\n  "), "");
}

#[test]
fn normalize_is_idempotent_on_examples() {
    for s in ["Hello, World!", "  a--b  c ", "ÀB c"] {
        let once = normalize(s);
        assert_eq!(normalize(&once), once);
    }
}

#[test]
fn normalize_is_idempotent_on_ascii() {
    for s in ["Hello, World!", "  A--b  c ", "", "...", "X1 y2\tZ3"] {
        let n = normalize(s);
        assert_eq!(normalize(&n), n);
        assert!(n.chars().all(|c| c == ' ' || c.is_ascii_lowercase() || c.is_ascii_digit()));
        assert_eq!(n.is_empty(), !s.chars().any(|c| c.is_ascii_alphanumeric()));
    }
}
