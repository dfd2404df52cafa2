use xml_doc::{is_whitespace, normalize_space, only_has_whitespace};

#[test]
fn whitespace_bytes() {
    for byte in 0..=255u8 {
        assert_eq!(
            is_whitespace(byte),
            byte == b' ' || byte == b'\t' || byte == b'\n' || byte == b'\r'
        );
    }
    assert!(only_has_whitespace(b""));
    assert!(only_has_whitespace(b" \t\r\n"));
    assert!(!only_has_whitespace(b" \t.\r\n"));
    assert!(!only_has_whitespace(&[0x0b]));
    assert!(!only_has_whitespace(&[0xa0]));
}

#[test]
fn normalize_space_values() {
    assert_eq!(normalize_space(b""), b"");
    assert_eq!(normalize_space(b" "), b"");
    assert_eq!(normalize_space(b" \r\n\t "), b"");
    assert_eq!(normalize_space(b"a"), b"a");
    assert_eq!(normalize_space(b" a "), b"a");
    assert_eq!(normalize_space(b"a b"), b"a b");
    assert_eq!(normalize_space(b"a\tb"), b"a b");
    assert_eq!(normalize_space(b"a\r\nb"), b"a b");
    assert_eq!(normalize_space(b"  a   b\n\nc  "), b"a b c");
    assert_eq!(normalize_space(b" \r\t\n\n ab&#xD;   c\n  "), b"ab&#xD; c");
    assert_eq!(normalize_space(&[0x20, 0xc3, 0xa9, 0x09, 0xff]), &[0xc3, 0xa9, 0x20, 0xff]);
    assert_eq!(normalize_space(&[0x0b, 0x20, 0x0c]), &[0x0b, 0x20, 0x0c]);
}
