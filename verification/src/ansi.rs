//! Control-sequence handling.
//!
//! `d8` colours its output whether or not it writes to a terminal, so a trace
//! carries escapes in the middle of lines. The bytes of a trace are kept as
//! they came; stripping happens when a line is parsed or shown.

use std::borrow::Cow;
use vstd::prelude::*;
#[allow(unused_imports)]
use vstd::string::*;

use crate::text;

verus! {

/// A control sequence starts at `i`.
pub open spec fn csi_at(s: Seq<u8>, i: int) -> bool {
    0 <= i && i + 1 < s.len() && s[i] == 0x1b && s[i + 1] == 0x5b
}

/// The end of the control sequence whose parameters start at `i`: one past its
/// final byte, or the end of the text where the final byte is missing.
pub open spec fn csi_end(s: Seq<u8>, i: int) -> int
    decreases s.len() - i,
{
    if i >= s.len() {
        s.len() as int
    } else if i >= 0 && 0x40 <= s[i] <= 0x7e {
        i + 1
    } else {
        csi_end(s, i + 1)
    }
}

/// The bytes from `i` on that belong to no control sequence.
pub open spec fn stripped_from(s: Seq<u8>, i: int) -> Seq<u8>
    decreases s.len() - i,
    via stripped_from_decreases
{
    if i < 0 || i >= s.len() {
        Seq::empty()
    } else if csi_at(s, i) {
        stripped_from(s, csi_end(s, i + 2))
    } else {
        seq![s[i]] + stripped_from(s, i + 1)
    }
}

#[via_fn]
proof fn stripped_from_decreases(s: Seq<u8>, i: int) {
    if 0 <= i < s.len() && csi_at(s, i) {
        lemma_csi_end(s, i + 2);
    }
}

proof fn lemma_csi_end(s: Seq<u8>, i: int)
    requires
        0 <= i <= s.len(),
    ensures
        i <= csi_end(s, i) <= s.len(),
    decreases s.len() - i,
{
    if i < s.len() && !(0x40 <= s[i] <= 0x7e) {
        lemma_csi_end(s, i + 1);
    }
}

/// The text without its control sequences.
pub open spec fn stripped(s: Seq<u8>) -> Seq<u8> {
    stripped_from(s, 0)
}

/// The bytes behind a borrowed or an owned slice.
pub open spec fn cow_bytes(c: Cow<'_, [u8]>) -> Seq<u8> {
    match c {
        Cow::Borrowed(b) => b@,
        Cow::Owned(v) => v@,
    }
}

/// No escape byte occurs.
pub open spec fn escape_free(s: Seq<u8>) -> bool {
    forall|k: int| 0 <= k < s.len() ==> #[trigger] s[k] != 0x1b
}

/// What is left of a text starts as the text does, unless the text starts with
/// an escape.
pub proof fn law_stripping_keeps_the_first_byte(s: Seq<u8>)
    requires
        stripped(s).len() > 0,
    ensures
        s.len() > 0,
        s[0] == stripped(s)[0] || s[0] == 0x1b,
{
}

/// Text without escapes is left as it is.
pub proof fn law_clean_text_is_unchanged(s: Seq<u8>, i: int)
    requires
        0 <= i <= s.len(),
        escape_free(s),
    ensures
        stripped_from(s, i) == s.subrange(i, s.len() as int),
    decreases s.len() - i,
{
    if i < s.len() {
        law_clean_text_is_unchanged(s, i + 1);
        assert(seq![s[i]] + s.subrange(i + 1, s.len() as int) =~= s.subrange(i, s.len() as int));
    } else {
        assert(s.subrange(i, s.len() as int) =~= Seq::empty());
    }
}

/// Stripping never makes a text longer.
pub proof fn law_strip_never_grows(s: Seq<u8>, i: int)
    requires
        0 <= i <= s.len(),
    ensures
        stripped_from(s, i).len() <= s.len() - i,
    decreases s.len() - i,
{
    if i < s.len() {
        if csi_at(s, i) {
            lemma_csi_end(s, i + 2);
            law_strip_never_grows(s, csi_end(s, i + 2));
        } else {
            law_strip_never_grows(s, i + 1);
        }
    }
}

/// Strips control sequences; text without any is borrowed.
///
/// Only `ESC [` sequences are recognised. Other escapes pass through.
pub fn strip(bytes: &[u8]) -> (out: Cow<'_, [u8]>)
    ensures
        cow_bytes(out) == stripped(bytes@),
        out is Borrowed <==> escape_free(bytes@),
{
    match text::find_byte(bytes, 0, bytes.len(), 0x1b) {
        None => {
            proof {
                lemma_no_byte(bytes@, 0, 0x1b);
                law_clean_text_is_unchanged(bytes@, 0);
                assert(bytes@.subrange(0, bytes@.len() as int) =~= bytes@);
            }
            Cow::Borrowed(bytes)
        },
        Some(_) => Cow::Owned(strip_owned(bytes)),
    }
}

proof fn lemma_no_byte(s: Seq<u8>, i: int, b: u8)
    requires
        0 <= i <= s.len(),
        text::find_byte_in(s, i, s.len() as int, b) is None,
    ensures
        forall|k: int| i <= k < s.len() ==> #[trigger] s[k] != b,
    decreases s.len() - i,
{
    if i < s.len() {
        lemma_no_byte(s, i + 1, b);
    }
}

fn csi_skip(s: &[u8], i: usize) -> (end: usize)
    requires
        i <= s.len(),
    ensures
        end == csi_end(s@, i as int),
        i <= end <= s.len(),
{
    let mut k: usize = i;
    while k < s.len() && !(0x40 <= s[k] && s[k] <= 0x7e)
        invariant
            i <= k <= s.len(),
            csi_end(s@, i as int) == csi_end(s@, k as int),
        decreases s.len() - k,
    {
        k += 1;
    }
    if k < s.len() {
        k + 1
    } else {
        k
    }
}

/// The text without its control sequences, as a vector.
pub fn strip_owned(bytes: &[u8]) -> (out: Vec<u8>)
    ensures
        out@ == stripped(bytes@),
{
    let mut out: Vec<u8> = Vec::with_capacity(bytes.len());
    let mut i: usize = 0;
    while i < bytes.len()
        invariant
            i <= bytes.len(),
            out@ + stripped_from(bytes@, i as int) == stripped(bytes@),
        decreases bytes.len() - i,
    {
        let ghost before = out@;
        if bytes[i] == 0x1b && bytes.len() - i > 1 && bytes[i + 1] == 0x5b {
            i = csi_skip(bytes, i + 2);
        } else {
            out.push(bytes[i]);
            assert(before.push(bytes@[i as int]) + stripped_from(bytes@, i + 1) =~= before + (
            seq![bytes@[i as int]] + stripped_from(bytes@, i + 1)));
            i += 1;
        }
    }
    assert(out@ + Seq::<u8>::empty() =~= out@);
    out
}

/// A control character: the code points below a space, delete, and the C1 set.
pub open spec fn is_control(c: char) -> bool {
    (c as int) < 0x20 || 0x7f <= (c as int) < 0xa0
}

/// What stands on screen for one character: four spaces for a tab, the
/// replacement character for any other control character.
pub open spec fn shown_char(c: char) -> Seq<char> {
    if c == '\t' {
        "    "@
    } else if is_control(c) {
        seq!['\u{fffd}']
    } else {
        seq![c]
    }
}

/// What stands on screen for a text.
pub open spec fn shown(chars: Seq<char>) -> Seq<char>
    decreases chars.len(),
{
    if chars.len() == 0 {
        Seq::empty()
    } else {
        shown(chars.drop_last()) + shown_char(chars.last())
    }
}

/// What stands on screen for the bytes of one line.
pub open spec fn display_chars(bytes: Seq<u8>) -> Seq<char> {
    shown(text::utf8_lossy(stripped(bytes)))
}

/// Nothing that is shown can move the terminal's cursor.
pub proof fn law_display_is_control_free(chars: Seq<char>)
    ensures
        forall|k: int| 0 <= k < shown(chars).len() ==> !is_control(#[trigger] shown(chars)[k]),
    decreases chars.len(),
{
    if chars.len() > 0 {
        law_display_is_control_free(chars.drop_last());
        reveal_strlit("    ");
        let tail = shown_char(chars.last());
        assert forall|k: int| 0 <= k < tail.len() implies !is_control(#[trigger] tail[k]) by {}
        assert forall|k: int| 0 <= k < shown(chars).len() implies !is_control(
            #[trigger] shown(chars)[k],
        ) by {
            let head = shown(chars.drop_last());
            if k >= head.len() {
                assert(shown(chars)[k] == tail[k - head.len()]);
            } else {
                assert(shown(chars)[k] == head[k]);
            }
        }
    }
}

/// Is `c` a control character?
pub fn char_is_control(c: char) -> (yes: bool)
    ensures
        yes == is_control(c),
{
    let n: u32 = c as u32;
    n < 0x20 || (0x7f <= n && n < 0xa0)
}

/// Renders one line for a terminal: escapes stripped, tabs expanded, other
/// control characters replaced.
pub fn to_display_string(bytes: &[u8]) -> (out: String)
    ensures
        out@ == display_chars(bytes@),
{
    let plain: Vec<u8> = strip_owned(bytes);
    let text: String = text::decode_lossy(plain.as_slice());
    let mut out: String = String::new();
    for c in it: text.chars()
        invariant
            out@ == shown(text@.take(it.index() as int)),
            it.seq() == text@,
    {
        assert(text@.take(it.index() + 1).drop_last() =~= text@.take(it.index() as int));
        if c == '\t' {
            out.append("    ");
        } else if char_is_control(c) {
            out.push('\u{fffd}');
            assert(shown(text@.take(it.index() as int)).push('\u{fffd}') =~= shown(
                text@.take(it.index() as int),
            ) + seq!['\u{fffd}']);
        } else {
            out.push(c);
            assert(shown(text@.take(it.index() as int)).push(c) =~= shown(
                text@.take(it.index() as int),
            ) + seq![c]);
        }
    }
    assert(text@.take(text@.len() as int) =~= text@);
    out
}

} // verus!
