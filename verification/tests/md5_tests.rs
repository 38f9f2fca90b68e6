use xt_core::md5::md5_hex;

#[test]
fn test_md5_empty() {
    assert_eq!(md5_hex(""), "d41d8cd98f00b204e9800998ecf8427e");
}

#[test]
fn test_md5_hello() {
    assert_eq!(md5_hex("hello"), "5d41402abc4b2a76b9719d911017c592");
}

#[test]
fn test_md5_hello_world() {
    assert_eq!(md5_hex("Hello World"), "b10a8db164e0754105b7a99be72e3fe5");
}

#[test]
fn test_md5_length() {
    assert_eq!(md5_hex("test").len(), 32);
}
