use osc_codec::is_valid_utf8;

#[test]
fn ascii_is_valid() {
    assert!(is_valid_utf8(&b"".to_vec()));
    assert!(is_valid_utf8(&b"plain ascii text 0123".to_vec()));
}

#[test]
fn well_formed_multibyte_is_valid() {
    for s in ["\u{e9}", "\u{7ff}", "\u{800}", "\u{20ac}", "\u{fffd}", "\u{10000}", "\u{10ffff}"] {
        assert!(is_valid_utf8(&s.as_bytes().to_vec()), "rejected {:?}", s);
    }
}

#[test]
fn stray_and_overlong_bytes_are_invalid() {
    // A lone continuation byte.
    assert!(!is_valid_utf8(&vec![0x80]));
    // 0xC0/0xC1 would be overlong two-byte forms.
    assert!(!is_valid_utf8(&vec![0xC0, 0x80]));
    assert!(!is_valid_utf8(&vec![0xC1, 0xBF]));
    // Overlong three-byte form of U+007F.
    assert!(!is_valid_utf8(&vec![0xE0, 0x81, 0xBF]));
    // 0xF5 starts nothing.
    assert!(!is_valid_utf8(&vec![0xF5, 0x80, 0x80, 0x80]));
}

#[test]
fn surrogates_and_out_of_range_are_invalid() {
    // UTF-16 surrogate U+D800.
    assert!(!is_valid_utf8(&vec![0xED, 0xA0, 0x80]));
    // Above U+10FFFF.
    assert!(!is_valid_utf8(&vec![0xF4, 0x90, 0x80, 0x80]));
}

#[test]
fn truncated_sequences_are_invalid() {
    assert!(!is_valid_utf8(&vec![0xC3]));
    assert!(!is_valid_utf8(&vec![0xE2, 0x82]));
    assert!(!is_valid_utf8(&vec![0xF0, 0x9F, 0x92]));
}

#[test]
fn agrees_with_std_on_samples() {
    let samples: Vec<Vec<u8>> = vec![
        b"hello".to_vec(),
        vec![0xE2, 0x82, 0xAC],
        vec![0xE2, 0x82],
        vec![0xED, 0x9F, 0xBF],
        vec![0xED, 0xA0, 0x80],
        vec![0xF0, 0x90, 0x80, 0x80],
        vec![0xF0, 0x80, 0x80, 0x80],
        vec![0x00, 0x7F, 0x41],
        vec![0xFE, 0xFF],
    ];
    for s in samples {
        assert_eq!(
            is_valid_utf8(&s),
            std::str::from_utf8(&s).is_ok(),
            "disagrees on {:?}",
            s
        );
    }
}
