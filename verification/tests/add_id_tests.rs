use xt_core::add_id::calculate_offset_form_id;

#[test]
fn test_calculate_offset() {
    assert_eq!(calculate_offset_form_id(0x00012345, 0x01000000), 0x01012345);
    assert_eq!(calculate_offset_form_id(0x02012345, -0x01000000), 0x01012345);
    assert_eq!(calculate_offset_form_id(0x00000010, -100), 0);
}

#[test]
fn offset_saturates_at_u32_max() {
    assert_eq!(calculate_offset_form_id(0xFFFF_FFF0, 0x100), u32::MAX);
    assert_eq!(calculate_offset_form_id(5, i64::MAX), u32::MAX);
    assert_eq!(calculate_offset_form_id(5, i64::MIN), 0);
}
