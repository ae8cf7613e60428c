use scatter_send::utf8::check_utf8;

/// The checker must agree with the standard library's own UTF-8 validation.
fn agrees_with_std(bytes: Vec<u8>, expected: bool) {
    assert_eq!(String::from_utf8(bytes.clone()).is_ok(), expected);
    assert_eq!(check_utf8(&bytes), expected);
}

#[test]
fn empty_and_ascii_are_valid() {
    agrees_with_std(vec![], true);
    agrees_with_std(b"hello.txt".to_vec(), true);
    agrees_with_std(vec![0x00, 0x7F], true);
}

#[test]
fn well_formed_multibyte_sequences_are_valid() {
    agrees_with_std(vec![0xC2, 0xA9], true);
    agrees_with_std(vec![0xC3, 0xA9], true);
    agrees_with_std(vec![0xE2, 0x82, 0xAC], true);
    agrees_with_std(vec![0xED, 0x9F, 0xBF], true);
    agrees_with_std(vec![0xEE, 0x80, 0x80], true);
    agrees_with_std(vec![0xF0, 0x9F, 0x92, 0xBE], true);
    agrees_with_std(vec![0xF4, 0x8F, 0xBF, 0xBF], true);
    agrees_with_std(b"a\xC3\xA9b\xE2\x82\xACc".to_vec(), true);
}

#[test]
fn stray_and_truncated_bytes_are_invalid() {
    agrees_with_std(vec![0xFF], false);
    agrees_with_std(vec![0x80], false);
    agrees_with_std(vec![0xC3], false);
    agrees_with_std(vec![0xE2, 0x82], false);
    agrees_with_std(vec![0xF0, 0x9F, 0x92], false);
    agrees_with_std(b"Hello\xFFWorld".to_vec(), false);
}

#[test]
fn overlong_surrogate_and_out_of_range_are_invalid() {
    agrees_with_std(vec![0xC0, 0x80], false);
    agrees_with_std(vec![0xC1, 0xBF], false);
    agrees_with_std(vec![0xE0, 0x80, 0x80], false);
    agrees_with_std(vec![0xED, 0xA0, 0x80], false);
    agrees_with_std(vec![0xF0, 0x80, 0x80, 0x80], false);
    agrees_with_std(vec![0xF4, 0x90, 0x80, 0x80], false);
    agrees_with_std(vec![0xF5, 0x80, 0x80, 0x80], false);
}
