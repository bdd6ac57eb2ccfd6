use wrecv::escape::{parse_utf8_escaped, preview_bytes, utf8_escaped_to_bytes};

#[test]
fn test_parse_utf8_escaped() {
    assert_eq!(parse_utf8_escaped(b"_\x80_"), "_\u{FFFD}\u{E0170}_");

    assert_eq!(parse_utf8_escaped(b"_\xEF\xBF\xBD_"), "_\u{FFFD}\u{E007F}_");
}

#[test]
fn test_utf8_escaped_to_bytes() {
    assert_eq!(utf8_escaped_to_bytes("_\u{FFFD}\u{E0170}_"), b"_\x80_");

    assert_eq!(
        utf8_escaped_to_bytes("_\u{FFFD}_\u{FFFD}\u{E007F}_"),
        b"_\xEF\xBF\xBD_\xEF\xBF\xBD_"
    );
}

#[test]
fn escape_low_byte_uses_variation_selector() {
    assert_eq!(parse_utf8_escaped(b"\xC0"), "\u{FFFD}\u{E01B0}");
    assert_eq!(parse_utf8_escaped(b"a\xFF"), "a\u{FFFD}\u{E01EF}");
    assert_eq!(utf8_escaped_to_bytes("\u{FFFD}\u{FE05}"), vec![0x05u8]);
}

#[test]
fn escape_truncated_sequence_at_end_is_kept() {
    let input: &[u8] = b"ab\xE2\x82";
    let text = parse_utf8_escaped(input);
    assert_eq!(text, "ab\u{FFFD}\u{E01D2}\u{FFFD}\u{E0172}");
    assert_eq!(utf8_escaped_to_bytes(&text), input.to_vec());
}

#[test]
fn escape_round_trip_on_many_inputs() {
    let inputs: Vec<Vec<u8>> = vec![
        vec![],
        b"plain text".to_vec(),
        "h\u{e9}llo \u{1F600}".as_bytes().to_vec(),
        vec![0xFF, 0xFE, 0x00, 0x7F, 0x80],
        vec![0xED, 0xA0, 0x80],
        vec![0xF4, 0x90, 0x80, 0x80],
        vec![0xEF, 0xBF, 0xBD, 0xEF, 0xBF],
        (0u8..=255).collect(),
    ];
    for input in inputs {
        let text = parse_utf8_escaped(&input);
        assert_eq!(utf8_escaped_to_bytes(&text), input);
    }
}

#[test]
fn unescape_keeps_unknown_sequences() {
    assert_eq!(utf8_escaped_to_bytes("\u{FFFD}x"), "\u{FFFD}x".as_bytes().to_vec());
    assert_eq!(utf8_escaped_to_bytes("x\u{FFFD}"), "x\u{FFFD}".as_bytes().to_vec());
}

#[test]
fn preview_short_and_long() {
    assert_eq!(preview_bytes(b"hello", 10), "hello");
    assert_eq!(preview_bytes(b"hello", 5), "hello");
    assert_eq!(preview_bytes(b"hello world", 5), "hello\u{2026}");
    assert_eq!(preview_bytes(b"a\xFFb", 10), "a\u{FFFD}b");
}
