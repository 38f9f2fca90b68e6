use std::collections::HashMap;
use xt_core::cache::EsmCache;
use xt_core::types::{EspPointer, SkyString, SkyStringParams};
use xt_core::cache::sha256_hex;

fn make_sk(id: u32, source: &str, rec: [u8; 4], field: [u8; 4]) -> SkyString {
    let mut sk = SkyString::new(id, source.to_string(), String::new(), rec, field);
    sk.esp_ptr = EspPointer {
        str_id: id as i32,
        form_id: 0,
        record_sig: rec,
        field_sig: field,
        index: 0,
        index_max: 0,
        edid_hash: 0,
    };
    sk.params.set(SkyStringParams::INCOMPLETE_TRANS, true);
    sk
}

#[test]
fn test_compute_record_counts() {
    let strings = vec![
        make_sk(0, "A", *b"LCTN", *b"FULL"),
        make_sk(1, "B", *b"LCTN", *b"FULL"),
        make_sk(2, "C", *b"QUST", *b"NNAM"),
    ];
    let counts: HashMap<String, usize> = EsmCache::compute_record_counts(&strings).into_iter().collect();
    assert_eq!(counts.get("LCTN"), Some(&2));
    assert_eq!(counts.get("QUST"), Some(&1));
}

#[test]
fn sha256_hex_of_known_inputs() {
    assert_eq!(sha256_hex(b"abc"), "ba7816bf8f01cfea414140de5dae2223b00361a396177a9cb410ff61f20015ad");
    assert_eq!(sha256_hex(b""), "e3b0c44298fc1c149afbf4c8996fb92427ae41e4649b934ca495991b7852b855");
}
