use xt_core::heuristic::{
    count_alias_tags, levenshtein_distance, longest_common_prefix_len,
    longest_common_substring_len, tokenize_words, word_hash_levenshtein, word_hashes,
};

#[test]
fn test_levenshtein_distance() {
    assert_eq!(levenshtein_distance("", ""), 0);
    assert_eq!(levenshtein_distance("kitten", ""), 6);
    assert_eq!(levenshtein_distance("", "sitting"), 7);
    assert_eq!(levenshtein_distance("kitten", "sitting"), 3);
    assert_eq!(levenshtein_distance("Hello", "Hello"), 0);
    assert_eq!(levenshtein_distance("Hello", "Hella"), 1);
}

#[test]
fn test_longest_common_substring() {
    assert_eq!(longest_common_substring_len("ABABC", "BABCA"), 4);
    assert_eq!(longest_common_substring_len("Hello World", "World Hello"), 5);
    assert_eq!(longest_common_substring_len("", "abc"), 0);
}

#[test]
fn test_longest_common_prefix() {
    assert_eq!(longest_common_prefix_len("Hello World", "Hello There"), 6);
    assert_eq!(longest_common_prefix_len("abc", "def"), 0);
}

#[test]
fn test_tokenize_words() {
    let words = tokenize_words("Hello World!");
    assert_eq!(words, vec!["hello", "world"]);

    let words = tokenize_words("Hello,   World!!");
    assert_eq!(words, vec!["hello", "world"]);

    let words = tokenize_words("Test123 abc");
    assert_eq!(words, vec!["test123", "abc"]);
}

#[test]
fn test_count_alias_tags() {
    assert_eq!(count_alias_tags("Hello World"), 0);
    assert_eq!(count_alias_tags("<Alias=Player>"), 1);
    assert_eq!(count_alias_tags("<alias=Player> and <Alias=NPC>"), 2);
    assert_eq!(count_alias_tags("<ALIAS=target> <Alias=source>"), 2);
}

#[test]
fn test_word_hash_levenshtein() {
    let h1 = word_hashes(&tokenize_words("a b c"));
    let h2 = word_hashes(&tokenize_words("a b c"));
    assert_eq!(word_hash_levenshtein(&h1, &h2), 0);

    let h3 = word_hashes(&tokenize_words("a b d"));
    assert_eq!(word_hash_levenshtein(&h1, &h3), 1);
}

#[test]
fn levenshtein_is_symmetric_on_examples() {
    for (a, b) in [("kitten", "sitting"), ("", "abc"), ("flaw", "lawn")] {
        assert_eq!(levenshtein_distance(a, b), levenshtein_distance(b, a));
    }
    assert_eq!(levenshtein_distance("flaw", "lawn"), 2);
}

#[test]
fn tokenize_caps_word_count() {
    let text = "w ".repeat(1500);
    assert_eq!(tokenize_words(&text).len(), 1000);
}

#[test]
fn word_hashes_match_fnv1a() {
    // FNV-1a of "a": (0x811c9dc5 ^ 0x61) * 0x01000193 mod 2^32
    let expected = (0x811c9dc5u32 ^ 0x61).wrapping_mul(0x0100_0193);
    assert_eq!(word_hashes(&["a".to_string()]), vec![expected]);
}

#[test]
fn levenshtein_is_a_distance() {
    for (a, b) in [("kitten", "sitting"), ("", "abc"), ("flaw", "lawn"), ("same", "same")] {
        let d = levenshtein_distance(a, b);
        assert_eq!(d, levenshtein_distance(b, a));
        assert_eq!(d == 0, a == b);
        let (n, m) = (a.chars().count(), b.chars().count());
        assert!(d >= n.abs_diff(m) && d <= n.max(m));
    }
}
