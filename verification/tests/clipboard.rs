use garage::clipboard::{allows_passthrough, encode, export_text, max_copy, osc52, refuse_copy};

#[test]
fn base64_matches_the_rfc() {
    assert_eq!(encode(b""), "");
    assert_eq!(encode(b"f"), "Zg==");
    assert_eq!(encode(b"fo"), "Zm8=");
    assert_eq!(encode(b"foo"), "Zm9v");
    assert_eq!(encode(b"foob"), "Zm9vYg==");
    assert_eq!(encode(b"fooba"), "Zm9vYmE=");
    assert_eq!(encode(b"foobar"), "Zm9vYmFy");
}

#[test]
fn export_writes_fenced_markdown() {
    let text = export_text(
        "add · Maglev #1 · Register allocation",
        &vec!["  9/9: CheckedSmiUntag".to_string()],
    );
    assert!(text.starts_with("### add · Maglev #1"));
    assert!(text.contains("```\n  9/9: CheckedSmiUntag\n```"));
}

#[test]
fn every_byte_has_its_symbols() {
    assert_eq!(encode(&[0xff, 0xff, 0xff]), "////");
    assert_eq!(encode(&[0xfb, 0xef, 0xbe]), "++++");
    assert_eq!(encode(&[0, 0x10, 0x83]), "ABCD");
    let all: Vec<u8> = (0..=255).collect();
    assert_eq!(encode(&all).len(), 344);
}

#[test]
fn oversized_copies_are_refused() {
    assert_eq!(max_copy(), 72 * 1024);
    assert!(refuse_copy(&"x".repeat(max_copy())).is_none());
    assert_eq!(
        refuse_copy(&"x".repeat(max_copy() + 1)).unwrap(),
        "selection is 72 KB; the clipboard path tops out at 72 KB — use export instead"
    );
}

#[test]
fn the_escape_sequence_carries_base64() {
    assert_eq!(osc52("foo", false), "\x1b]52;c;Zm9v\x07");
    assert_eq!(
        osc52("foo", true),
        "\x1bPtmux;\x1b\x1b]52;c;Zm9v\x07\x1b\\"
    );
}

#[test]
fn the_multiplexer_has_to_agree() {
    assert!(allows_passthrough(b"allow-passthrough on\n"));
    assert!(allows_passthrough(b"allow-passthrough all\n"));
    assert!(allows_passthrough(b"allow \xff on"));
    assert!(!allows_passthrough(b""));
    assert!(!allows_passthrough(b"off\n"));
}
