use xt_core::esp::game_detect::{
    game_from_form_version, peek_form_version, resolve_game_id, GameSource, PEEK_LEN,
};
use xt_core::esp::header::{FieldHeader, GenericHeader, RecordHeaderData};
use xt_core::types::GameId;

#[test]
fn maps_known_form_version_ranges() {
    assert_eq!(game_from_form_version(40), Some(GameId::Skyrim));
    assert_eq!(game_from_form_version(43), Some(GameId::Skyrim));
    assert_eq!(game_from_form_version(44), Some(GameId::SkyrimSE));
    assert_eq!(game_from_form_version(131), Some(GameId::Fallout4));
    assert_eq!(game_from_form_version(2), Some(GameId::FalloutNV));
    assert_eq!(game_from_form_version(15), Some(GameId::FalloutNV));
    assert_eq!(game_from_form_version(182), Some(GameId::Fallout76));
    assert_eq!(game_from_form_version(201), Some(GameId::Fallout76));
    assert_eq!(game_from_form_version(552), Some(GameId::Starfield));
    assert_eq!(game_from_form_version(576), Some(GameId::Starfield));
}

#[test]
fn rejects_values_outside_any_known_range() {
    for v in [0u16, 1, 16, 39, 45, 130, 132, 181, 202, 551, 577, 65535] {
        assert_eq!(game_from_form_version(v), None, "v={v} should be unmapped");
    }
}

fn tes4_bytes(f_version: u16) -> Vec<u8> {
    let mut buf = Vec::new();
    buf.extend_from_slice(b"TES4");
    buf.extend_from_slice(&0u32.to_le_bytes());
    buf.extend_from_slice(&0u32.to_le_bytes());
    buf.extend_from_slice(&0u32.to_le_bytes());
    buf.extend_from_slice(&0u32.to_le_bytes());
    buf.extend_from_slice(&f_version.to_le_bytes());
    buf.extend_from_slice(&0u16.to_le_bytes());
    buf
}

#[test]
fn peek_form_version_reads_tes4_header_only() {
    let bytes = tes4_bytes(44);
    assert_eq!(peek_form_version(&bytes), Some(44));
    // Exactly 24 bytes are read: 8 generic header + 16 record header data.
    assert_eq!(PEEK_LEN, 24);
    assert_eq!(bytes.len(), PEEK_LEN);
    assert_eq!(peek_form_version(&bytes[..23]), None);
}

#[test]
fn peek_form_version_rejects_non_tes4_records() {
    let mut buf = Vec::new();
    buf.extend_from_slice(b"GRUP");
    buf.extend_from_slice(&0u32.to_le_bytes());
    assert_eq!(peek_form_version(&buf), None);
}

#[test]
fn resolve_game_id_prefers_requested_over_detected() {
    let (g, src) = resolve_game_id(Some("Fallout4"), Some(GameId::SkyrimSE), GameId::SkyrimSE);
    assert_eq!(g, GameId::Fallout4);
    assert_eq!(src, GameSource::Requested);
}

#[test]
fn resolve_game_id_falls_back_to_detected_when_not_requested() {
    let (g, src) = resolve_game_id(None, Some(GameId::Starfield), GameId::SkyrimSE);
    assert_eq!(g, GameId::Starfield);
    assert_eq!(src, GameSource::Detected);
}

#[test]
fn resolve_game_id_marks_fallback_explicitly_when_nothing_known() {
    let (g, src) = resolve_game_id(None, None, GameId::SkyrimSE);
    assert_eq!(g, GameId::SkyrimSE);
    assert_eq!(src, GameSource::Fallback);
}

#[test]
fn resolve_game_id_ignores_unrecognized_requested_alias() {
    let (g, src) = resolve_game_id(Some("oblivion"), Some(GameId::Fallout4), GameId::SkyrimSE);
    assert_eq!(g, GameId::Fallout4);
    assert_eq!(src, GameSource::Detected);
}

#[test]
fn game_source_names() {
    assert_eq!(GameSource::Requested.as_str(), "requested");
    assert_eq!(GameSource::Detected.as_str(), "detected");
    assert_eq!(GameSource::Fallback.as_str(), "fallback");
}

#[test]
fn header_predicates() {
    let g = GenericHeader::from_bytes(b"GRUP\x10\x00\x00\x00").unwrap();
    assert!(g.is_grup());
    assert!(!g.is_tes4());
    assert_eq!(g.dsize, 16);
    assert!(GenericHeader::from_bytes(b"GRUP").is_none());
    let f = FieldHeader { name: *b"XXXX", dsize: 4 };
    assert!(f.is_xxxx());
    let r = RecordHeaderData { flags: 0x0004_0000, form_id: 1, version: 0, f_version: 0, v_info: 0 };
    assert!(r.is_compressed());
    let r = RecordHeaderData { flags: 0x0000_0001, form_id: 1, version: 0, f_version: 0, v_info: 0 };
    assert!(!r.is_compressed());
}
