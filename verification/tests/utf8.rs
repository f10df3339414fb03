use line_read::text::utf8_check;

#[test]
fn accepts_well_formed_sequences() {
    assert!(utf8_check(&Vec::new()));
    assert!(utf8_check(&b"plain ascii\n".to_vec()));
    // two, three and four byte scalars
    assert!(utf8_check(&vec![0xc3, 0xa9]));
    assert!(utf8_check(&vec![0xe2, 0x82, 0xac]));
    assert!(utf8_check(&vec![0xf0, 0x90, 0x8d, 0x88]));
    // the largest scalar value
    assert!(utf8_check(&vec![0xf4, 0x8f, 0xbf, 0xbf]));
    // mixed widths back to back
    assert!(utf8_check(&"a\u{e9}\u{20ac}\u{10348}z".as_bytes().to_vec()));
}

#[test]
fn rejects_stray_bytes() {
    assert!(!utf8_check(&vec![0xff]));
    assert!(!utf8_check(&vec![0xfe]));
    // a continuation byte with no leading byte
    assert!(!utf8_check(&vec![0x80]));
    assert!(!utf8_check(&vec![b'a', 0xbf, b'b']));
}

#[test]
fn rejects_truncated_sequences() {
    assert!(!utf8_check(&vec![0xc3]));
    assert!(!utf8_check(&vec![0xe2, 0x82]));
    assert!(!utf8_check(&vec![0xf0, 0x90, 0x8d]));
    // leading byte followed by a non-continuation byte
    assert!(!utf8_check(&vec![0xc3, b'x']));
    assert!(!utf8_check(&vec![0xe2, 0x82, b'x']));
}

#[test]
fn rejects_overlong_encodings() {
    assert!(!utf8_check(&vec![0xc0, 0x80]));
    assert!(!utf8_check(&vec![0xc1, 0xbf]));
    assert!(!utf8_check(&vec![0xe0, 0x80, 0x80]));
    assert!(!utf8_check(&vec![0xf0, 0x80, 0x80, 0x80]));
}

#[test]
fn rejects_surrogates_and_out_of_range_codepoints() {
    // the surrogate range, impossible in well-formed text
    assert!(!utf8_check(&vec![0xed, 0xa0, 0x80]));
    assert!(!utf8_check(&vec![0xed, 0xbf, 0xbf]));
    // just above the largest scalar value
    assert!(!utf8_check(&vec![0xf4, 0x90, 0x80, 0x80]));
    assert!(!utf8_check(&vec![0xf5, 0x80, 0x80, 0x80]));
    assert!(!utf8_check(&vec![0xf7, 0xbf, 0xbf, 0xbf]));
}

#[test]
fn agrees_with_the_standard_library() {
    let samples: Vec<Vec<u8>> = vec![
        b"hello\n".to_vec(),
        vec![0xc3, 0xa9, b'\n'],
        vec![0xed, 0xa0, 0x80],
        vec![0xc2],
        vec![0x80, 0x80],
        vec![0xf4, 0x8f, 0xbf, 0xbf],
        vec![0xf4, 0x90, 0x80, 0x80],
    ];
    for bytes in samples {
        assert_eq!(utf8_check(&bytes), std::str::from_utf8(&bytes).is_ok());
    }
}
