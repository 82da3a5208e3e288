use garage::source::LogBuffer;

fn streamed(chunks: &[&[u8]]) -> LogBuffer {
    let mut b = LogBuffer::new();
    for c in chunks {
        b.append(c);
    }
    b.finish();
    b
}

#[test]
fn empty_buffer_has_no_lines() {
    let b = streamed(&[]);
    assert_eq!(b.line_count(), 0);
    assert!(b.line(0).is_none());
}

#[test]
fn trailing_newline_does_not_add_a_line() {
    let b = streamed(&[b"a\nb\n"]);
    assert_eq!(b.line_count(), 2);
    assert_eq!(b.line(0).unwrap(), b"a");
    assert_eq!(b.line(1).unwrap(), b"b");
}

#[test]
fn missing_trailing_newline_still_yields_the_last_line() {
    let b = streamed(&[b"a\nb"]);
    assert_eq!(b.line_count(), 2);
    assert_eq!(b.line(1).unwrap(), b"b");
}

#[test]
fn blank_lines_are_preserved() {
    let b = streamed(&[b"a\n\nb\n"]);
    assert_eq!(b.line_count(), 3);
    assert_eq!(b.line(1).unwrap(), b"");
}
#[test]
fn chunk_boundaries_do_not_split_lines() {
    let b = streamed(&[b"ab", b"cd\ne", b"f\n"]);
    assert_eq!(b.line_count(), 2);
    assert_eq!(b.line(0).unwrap(), b"abcd");
    assert_eq!(b.line(1).unwrap(), b"ef");
}
#[test]
fn newline_at_chunk_boundary() {
    let b = streamed(&[b"a\n", b"b\n"]);
    assert_eq!(b.line_count(), 2);
}

#[test]
fn partial_last_line_is_visible_while_streaming() {
    let mut b = LogBuffer::new();
    b.append(b"done\npartial");
    assert_eq!(b.line_count(), 2);
    assert_eq!(b.line(1).unwrap(), b"partial");
}

#[test]
fn crlf_is_trimmed() {
    let b = streamed(&[b"a\r\nb\r\n"]);
    assert_eq!(b.line(0).unwrap(), b"a");
}

#[test]
fn bytes_are_kept_verbatim() {
    let b = streamed(&[b"\x1b[0;34ma\x1b[0m\n"]);
    assert_eq!(b.line(0).unwrap(), b"\x1b[0;34ma\x1b[0m");
}
