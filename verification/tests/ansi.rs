use garage::ansi::{strip, to_display_string};

#[test]
fn passes_through_clean_text() {
    assert!(matches!(
        strip(b"  12: Int32Add [n8, n9]"),
        std::borrow::Cow::Borrowed(_)
    ));
}

#[test]
fn strips_mid_line_sgr() {
    let line = b"\x1b[0;34m  1: \x1b[0mInt32Add\x1b[0m";
    assert_eq!(&*strip(line), b"  1: Int32Add");
}

#[test]
fn strips_multi_parameter_sgr() {
    assert_eq!(&*strip(b"\x1b[1;38;5;208mx\x1b[m"), b"x");
}

#[test]
fn leaves_lone_escape_alone() {
    assert_eq!(&*strip(b"a\x1bb"), b"a\x1bb");
}

#[test]
fn unterminated_csi_consumes_to_end() {
    assert_eq!(&*strip(b"a\x1b[0;1"), b"a");
}

#[test]
fn display_string_is_lossy_and_control_free() {
    assert_eq!(to_display_string(b"a\tb"), "a    b");
    assert_eq!(to_display_string(b"a\x07b"), "a\u{fffd}b");
    assert_eq!(to_display_string(b"a\xffb"), "a\u{fffd}b");
}
