//! Scanning over the bytes of one line of trace text.
//!
//! Every position is a byte offset into the line, which is what the spans of
//! the data model record. A scanner never moves past the end of the line.

use vstd::prelude::*;
#[allow(unused_imports)]
use vstd::string::*;
#[allow(unused_imports)]
use vstd::utf8::*;

verus! {

// ---------------------------------------------------------------------------
// Text and bytes
// ---------------------------------------------------------------------------

/// The characters that lossy UTF-8 decoding gives for `bytes`.
pub uninterp spec fn utf8_lossy(bytes: Seq<u8>) -> Seq<char>;

/// Decodes bytes as text with `String::from_utf8_lossy`.
///
/// Claimed of it: the result depends on the bytes alone, and on valid UTF-8 it
/// is the text that the bytes encode. What stands in place of an invalid
/// sequence is left to the name.
#[verifier::external_body]
pub(crate) fn decode_lossy(bytes: &[u8]) -> (text: String)
    ensures
        text@ == utf8_lossy(bytes@),
        valid_utf8(bytes@) ==> text@ == decode_utf8(bytes@),
{
    String::from_utf8_lossy(bytes).into_owned()
}

/// A text is what bytes say, with what is no UTF-8 among them replaced.
pub open spec fn decoded(text: Seq<char>, bytes: Seq<u8>) -> bool {
    &&& text == utf8_lossy(bytes)
    &&& valid_utf8(bytes) ==> text == decode_utf8(bytes)
}

/// `String::push` appends one character.
pub assume_specification[ String::push ](s: &mut String, c: char)
    ensures
        final(s)@ == old(s)@.push(c),
;

/// The text of the bytes in `from..to`.
pub open spec fn text_of(s: Seq<u8>, from: int, to: int) -> Seq<char> {
    utf8_lossy(s.subrange(from, to))
}

/// Copies the bytes in `from..to` out as text.
pub fn text_between(s: &[u8], from: usize, to: usize) -> (text: String)
    requires
        from <= to <= s.len(),
    ensures
        text@ == text_of(s@, from as int, to as int),
        valid_utf8(s@.subrange(from as int, to as int)) ==> text@ == decode_utf8(
            s@.subrange(from as int, to as int),
        ),
{
    decode_lossy(vstd::slice::slice_subrange(s, from, to))
}

/// White space.
pub open spec fn is_white(c: char) -> bool {
    let v = c as int;
    0x09 <= v <= 0x0d || v == 0x20 || v == 0x85 || v == 0xa0 || v == 0x1680 || 0x2000 <= v <= 0x200a
        || v == 0x2028 || v == 0x2029 || v == 0x202f || v == 0x205f || v == 0x3000
}

/// Is `c` white space?
pub(crate) fn white_char(c: char) -> (yes: bool)
    ensures
        yes == is_white(c),
{
    let v: u32 = c as u32;
    (0x09 <= v && v <= 0x0d) || v == 0x20 || v == 0x85 || v == 0xa0 || v == 0x1680 || (0x2000 <= v
        && v <= 0x200a) || v == 0x2028 || v == 0x2029 || v == 0x202f || v == 0x205f || v == 0x3000
}

/// An optional position as a mathematical integer.
pub open spec fn pos(at: Option<usize>) -> Option<int> {
    match at {
        Some(i) => Some(i as int),
        None => None,
    }
}

// ---------------------------------------------------------------------------
// Literals
// ---------------------------------------------------------------------------

/// `word` stands in `s` at offset `i`.
pub open spec fn occurs_at(s: Seq<u8>, i: int, word: Seq<u8>) -> bool {
    0 <= i && i + word.len() <= s.len() && s.subrange(i, i + word.len()) == word
}

/// Does `word` stand in `s` at offset `i`?
pub fn starts_with_at(s: &[u8], i: usize, word: &str) -> (yes: bool)
    ensures
        yes == occurs_at(s@, i as int, word.spec_bytes()),
{
    let w = word.as_bytes();
    if i > s.len() || w.len() > s.len() - i {
        return false;
    }
    let mut k: usize = 0;
    while k < w.len()
        invariant
            i + w.len() <= s.len(),
            w@ == word.spec_bytes(),
            k <= w.len(),
            forall|m: int| 0 <= m < k ==> s@[i + m] == w@[m],
        decreases w.len() - k,
    {
        if s[i + k] != w[k] {
            assert(s@.subrange(i as int, i + w@.len())[k as int] == s@[i + k]);
            return false;
        }
        k += 1;
    }
    assert(s@.subrange(i as int, i + w@.len()) =~= w@);
    true
}

/// `s` holds exactly the bytes of `word` in `from..to`.
pub open spec fn word_is(s: Seq<u8>, from: int, to: int, word: Seq<u8>) -> bool {
    to - from == word.len() && occurs_at(s, from, word)
}

/// Is `s[from..to]` exactly `word`?
pub fn slice_is(s: &[u8], from: usize, to: usize, word: &str) -> (yes: bool)
    requires
        from <= to <= s.len(),
    ensures
        yes == word_is(s@, from as int, to as int, word.spec_bytes()),
{
    to - from == word.as_bytes().len() && starts_with_at(s, from, word)
}

/// The first offset at or after `i` where `word` stands in `s`.
pub open spec fn find_from(s: Seq<u8>, i: int, word: Seq<u8>) -> Option<int>
    decreases s.len() + 1 - i,
{
    if i < 0 || i + word.len() > s.len() {
        None
    } else if occurs_at(s, i, word) {
        Some(i)
    } else {
        find_from(s, i + 1, word)
    }
}

/// Finds the first occurrence of `word` at or after `i`.
pub fn find(s: &[u8], i: usize, word: &str) -> (at: Option<usize>)
    requires
        i <= s.len(),
    ensures
        pos(at) == find_from(s@, i as int, word.spec_bytes()),
        at matches Some(j) ==> i <= j && occurs_at(s@, j as int, word.spec_bytes()),
{
    let w = word.as_bytes();
    let mut k: usize = i;
    while k <= s.len() && w.len() <= s.len() - k
        invariant
            i <= k <= s.len() + 1,
            w@ == word.spec_bytes(),
            find_from(s@, i as int, w@) == find_from(s@, k as int, w@),
        decreases s.len() + 1 - k,
    {
        if starts_with_at(s, k, word) {
            return Some(k);
        }
        if k == s.len() {
            assert(find_from(s@, k + 1, w@) is None);
            return None;
        }
        k += 1;
    }
    None
}

/// The last offset in `lo..=i` where `word` stands in `s`.
pub open spec fn rfind_from(s: Seq<u8>, lo: int, i: int, word: Seq<u8>) -> Option<int>
    decreases i - lo + 1,
{
    if i < lo {
        None
    } else if occurs_at(s, i, word) {
        Some(i)
    } else {
        rfind_from(s, lo, i - 1, word)
    }
}

/// Finds the last occurrence of `word` that starts at or after `lo`.
pub fn rfind(s: &[u8], lo: usize, word: &str) -> (at: Option<usize>)
    requires
        lo <= s.len(),
    ensures
        pos(at) == rfind_from(s@, lo as int, s@.len() as int, word.spec_bytes()),
        at matches Some(j) ==> lo <= j && occurs_at(s@, j as int, word.spec_bytes()),
{
    let mut k: usize = s.len();
    loop
        invariant
            lo <= k <= s.len(),
            rfind_from(s@, lo as int, s@.len() as int, word.spec_bytes()) == rfind_from(
                s@,
                lo as int,
                k as int,
                word.spec_bytes(),
            ),
        decreases k,
    {
        if starts_with_at(s, k, word) {
            return Some(k);
        }
        if k == lo {
            assert(rfind_from(s@, lo as int, lo - 1, word.spec_bytes()) is None);
            return None;
        }
        k -= 1;
    }
}

// ---------------------------------------------------------------------------
// Runs of bytes
// ---------------------------------------------------------------------------

/// The byte classes that the grammars are written in.
#[derive(Clone, Copy, PartialEq, Eq, Structural)]
pub enum ByteClass {
    /// `0`–`9`.
    Digit,
    /// `0`–`9`, `a`–`f`, `A`–`F`.
    Hex,
    /// `0`–`9`, `a`–`f`.
    LowerHex,
    /// The space character alone.
    Space,
    /// ASCII whitespace: space, tab, line feed, form feed, carriage return.
    AsciiWhitespace,
    /// Everything but ASCII whitespace.
    Visible,
    /// ASCII letters and digits.
    Alphanumeric,
    /// ASCII letters, digits and `_`.
    Word,
    /// ASCII letters, digits, `.` and `_`.
    Mnemonic,
    /// Digits and `-`.
    SignedDigit,
    /// `-` alone.
    Dash,
    /// ASCII upper-case letters and `_`.
    TierName,
    /// ASCII letters, digits, `_` and every byte outside ASCII.
    WideWord,
}

pub open spec fn is_digit(b: u8) -> bool {
    0x30 <= b <= 0x39
}

pub open spec fn is_lower_hex(b: u8) -> bool {
    is_digit(b) || 0x61 <= b <= 0x66
}

pub open spec fn is_hex(b: u8) -> bool {
    is_lower_hex(b) || 0x41 <= b <= 0x46
}

pub open spec fn is_upper(b: u8) -> bool {
    0x41 <= b <= 0x5a
}

pub open spec fn is_alpha(b: u8) -> bool {
    is_upper(b) || 0x61 <= b <= 0x7a
}

pub open spec fn is_alphanumeric(b: u8) -> bool {
    is_alpha(b) || is_digit(b)
}

pub open spec fn is_ascii_space(b: u8) -> bool {
    b == 0x20 || b == 0x09 || b == 0x0a || b == 0x0c || b == 0x0d
}

/// Membership of a byte in a class.
pub open spec fn in_class(class: ByteClass, b: u8) -> bool {
    match class {
        ByteClass::Digit => is_digit(b),
        ByteClass::Hex => is_hex(b),
        ByteClass::LowerHex => is_lower_hex(b),
        ByteClass::Space => b == 0x20,
        ByteClass::AsciiWhitespace => is_ascii_space(b),
        ByteClass::Visible => !is_ascii_space(b),
        ByteClass::Alphanumeric => is_alphanumeric(b),
        ByteClass::Word => is_alphanumeric(b) || b == 0x5f,
        ByteClass::Mnemonic => is_alphanumeric(b) || b == 0x5f || b == 0x2e,
        ByteClass::SignedDigit => is_digit(b) || b == 0x2d,
        ByteClass::Dash => b == 0x2d,
        ByteClass::TierName => is_upper(b) || b == 0x5f,
        ByteClass::WideWord => is_alphanumeric(b) || b == 0x5f || b >= 0x80,
    }
}

/// Is `b` in `class`?
pub fn class_holds(class: ByteClass, b: u8) -> (yes: bool)
    ensures
        yes == in_class(class, b),
{
    let digit = 0x30 <= b && b <= 0x39;
    let alpha = (0x41 <= b && b <= 0x5a) || (0x61 <= b && b <= 0x7a);
    let space = b == 0x20 || b == 0x09 || b == 0x0a || b == 0x0c || b == 0x0d;
    match class {
        ByteClass::Digit => digit,
        ByteClass::Hex => digit || (0x61 <= b && b <= 0x66) || (0x41 <= b && b <= 0x46),
        ByteClass::LowerHex => digit || (0x61 <= b && b <= 0x66),
        ByteClass::Space => b == 0x20,
        ByteClass::AsciiWhitespace => space,
        ByteClass::Visible => !space,
        ByteClass::Alphanumeric => alpha || digit,
        ByteClass::Word => alpha || digit || b == 0x5f,
        ByteClass::Mnemonic => alpha || digit || b == 0x5f || b == 0x2e,
        ByteClass::SignedDigit => digit || b == 0x2d,
        ByteClass::Dash => b == 0x2d,
        ByteClass::TierName => (0x41 <= b && b <= 0x5a) || b == 0x5f,
        ByteClass::WideWord => alpha || digit || b == 0x5f || b >= 0x80,
    }
}

/// The end of the run of `class` bytes that starts at `i`.
pub open spec fn run_end(s: Seq<u8>, i: int, class: ByteClass) -> int
    decreases s.len() - i,
{
    if 0 <= i < s.len() && in_class(class, s[i]) {
        run_end(s, i + 1, class)
    } else {
        i
    }
}

/// Skips the run of `class` bytes at `i`.
pub fn skip(s: &[u8], i: usize, class: ByteClass) -> (end: usize)
    requires
        i <= s.len(),
    ensures
        end == run_end(s@, i as int, class),
        i <= end <= s.len(),
        forall|k: int| i <= k < end ==> in_class(class, #[trigger] s@[k]),
        end < s.len() ==> !in_class(class, s@[end as int]),
{
    let mut k: usize = i;
    while k < s.len() && class_holds(class, s[k])
        invariant
            i <= k <= s.len(),
            run_end(s@, i as int, class) == run_end(s@, k as int, class),
            forall|m: int| i <= m < k ==> in_class(class, #[trigger] s@[m]),
        decreases s.len() - k,
    {
        k += 1;
    }
    k
}

/// A run ends inside the line, at the first byte outside its class.
pub proof fn lemma_run_end(s: Seq<u8>, i: int, class: ByteClass)
    requires
        0 <= i <= s.len(),
    ensures
        i <= run_end(s, i, class) <= s.len(),
        forall|k: int| i <= k < run_end(s, i, class) ==> in_class(class, #[trigger] s[k]),
        run_end(s, i, class) < s.len() ==> !in_class(class, s[run_end(s, i, class)]),
    decreases s.len() - i,
{
    if i < s.len() && in_class(class, s[i]) {
        lemma_run_end(s, i + 1, class);
    }
}

/// The byte at `i` is `b`.
pub open spec fn byte_is(s: Seq<u8>, i: int, b: u8) -> bool {
    0 <= i < s.len() && s[i] == b
}

/// Is the byte at `i` equal to `b`?
pub fn byte_at(s: &[u8], i: usize, b: u8) -> (yes: bool)
    ensures
        yes == byte_is(s@, i as int, b),
{
    i < s.len() && s[i] == b
}

/// The byte at `i` is in `class`.
pub open spec fn class_is(s: Seq<u8>, i: int, class: ByteClass) -> bool {
    0 <= i < s.len() && in_class(class, s[i])
}

/// Is the byte at `i` in `class`?
pub fn class_at(s: &[u8], i: usize, class: ByteClass) -> (yes: bool)
    ensures
        yes == class_is(s@, i as int, class),
{
    i < s.len() && class_holds(class, s[i])
}

/// The first offset in `i..hi` that holds the byte `b`.
pub open spec fn find_byte_in(s: Seq<u8>, i: int, hi: int, b: u8) -> Option<int>
    decreases hi - i,
{
    if i >= hi {
        None
    } else if byte_is(s, i, b) {
        Some(i)
    } else {
        find_byte_in(s, i + 1, hi, b)
    }
}

/// Finds the first byte `b` in `i..hi`.
pub fn find_byte(s: &[u8], i: usize, hi: usize, b: u8) -> (at: Option<usize>)
    requires
        hi <= s.len(),
    ensures
        pos(at) == find_byte_in(s@, i as int, hi as int, b),
        at matches Some(j) ==> i <= j < hi && s@[j as int] == b,
{
    let mut k: usize = i;
    while k < hi
        invariant
            i <= k,
            hi <= s.len(),
            find_byte_in(s@, i as int, hi as int, b) == find_byte_in(s@, k as int, hi as int, b),
        decreases hi - k,
    {
        if s[k] == b {
            return Some(k);
        }
        k += 1;
    }
    None
}

/// The last offset in `lo..i` that holds the byte `b`.
pub open spec fn rfind_byte_in(s: Seq<u8>, lo: int, i: int, b: u8) -> Option<int>
    decreases i - lo,
{
    if i <= lo {
        None
    } else if byte_is(s, i - 1, b) {
        Some(i - 1)
    } else {
        rfind_byte_in(s, lo, i - 1, b)
    }
}

/// Finds the last byte `b` in `lo..hi`.
pub fn rfind_byte(s: &[u8], lo: usize, hi: usize, b: u8) -> (at: Option<usize>)
    requires
        lo <= hi <= s.len(),
    ensures
        pos(at) == rfind_byte_in(s@, lo as int, hi as int, b),
        at matches Some(j) ==> lo <= j < hi && s@[j as int] == b,
{
    let mut k: usize = hi;
    while k > lo
        invariant
            lo <= k <= hi <= s.len(),
            rfind_byte_in(s@, lo as int, hi as int, b) == rfind_byte_in(s@, lo as int, k as int, b),
        decreases k - lo,
    {
        if s[k - 1] == b {
            return Some(k - 1);
        }
        k -= 1;
    }
    None
}

/// `word` occurs within `from..to`.
pub open spec fn holds_word(s: Seq<u8>, from: int, to: int, word: Seq<u8>) -> bool {
    find_from(s.subrange(0, to), from, word) is Some
}

/// Does `word` occur within `from..to`?
pub fn contains(s: &[u8], from: usize, to: usize, word: &str) -> (yes: bool)
    requires
        from <= to <= s.len(),
    ensures
        yes == holds_word(s@, from as int, to as int, word.spec_bytes()),
{
    find(vstd::slice::slice_subrange(s, 0, to), from, word).is_some()
}

// ---------------------------------------------------------------------------
// White space around text
// ---------------------------------------------------------------------------

/// The length in bytes of the white-space character that starts at `i`, zero
/// where none does. White space is Unicode's `White_Space` property.
pub open spec fn white_len(s: Seq<u8>, i: int) -> int {
    if !(0 <= i < s.len()) {
        0
    } else if s[i] == 0x20 || 0x09 <= s[i] <= 0x0d {
        1
    } else if s[i] == 0xc2 && i + 1 < s.len() && (s[i + 1] == 0x85 || s[i + 1] == 0xa0) {
        2
    } else if i + 2 < s.len() && white_three(s[i], s[i + 1], s[i + 2]) {
        3
    } else {
        0
    }
}

/// The three-byte encodings of white space.
pub open spec fn white_three(a: u8, b: u8, c: u8) -> bool {
    ||| a == 0xe1 && b == 0x9a && c == 0x80
    ||| a == 0xe2 && b == 0x80 && (0x80 <= c <= 0x8a || c == 0xa8 || c == 0xa9 || c == 0xaf)
    ||| a == 0xe2 && b == 0x81 && c == 0x9f
    ||| a == 0xe3 && b == 0x80 && c == 0x80
}

fn is_white_three(a: u8, b: u8, c: u8) -> (yes: bool)
    ensures
        yes == white_three(a, b, c),
{
    (a == 0xe1 && b == 0x9a && c == 0x80) || (a == 0xe2 && b == 0x80 && ((0x80 <= c && c <= 0x8a)
        || c == 0xa8 || c == 0xa9 || c == 0xaf)) || (a == 0xe2 && b == 0x81 && c == 0x9f) || (a
        == 0xe3 && b == 0x80 && c == 0x80)
}

fn white_at(s: &[u8], i: usize) -> (n: usize)
    ensures
        n == white_len(s@, i as int),
        n > 0 ==> i + n <= s.len(),
{
    if i >= s.len() {
        0
    } else if s[i] == 0x20 || (0x09 <= s[i] && s[i] <= 0x0d) {
        1
    } else if s[i] == 0xc2 && s.len() - i > 1 && (s[i + 1] == 0x85 || s[i + 1] == 0xa0) {
        2
    } else if s.len() - i > 2 && is_white_three(s[i], s[i + 1], s[i + 2]) {
        3
    } else {
        0
    }
}

/// The first offset at or after `i` that does not start a white-space
/// character.
pub open spec fn trimmed_start(s: Seq<u8>, i: int) -> int
    decreases s.len() - i,
{
    if white_len(s, i) > 0 {
        trimmed_start(s, i + white_len(s, i))
    } else {
        i
    }
}

/// Skips white space at `i`.
pub fn trim_start(s: &[u8], i: usize) -> (at: usize)
    requires
        i <= s.len(),
    ensures
        at == trimmed_start(s@, i as int),
        i <= at <= s.len(),
{
    let mut k: usize = i;
    let mut n: usize = white_at(s, k);
    while n > 0
        invariant
            i <= k <= s.len(),
            n == white_len(s@, k as int),
            n > 0 ==> k + n <= s.len(),
            trimmed_start(s@, i as int) == trimmed_start(s@, k as int),
        decreases s.len() - k,
    {
        k += n;
        n = white_at(s, k);
    }
    k
}

/// The length of the white-space character that ends at `j` and starts at or
/// after `lo`, zero where none does.
pub open spec fn white_before(s: Seq<u8>, lo: int, j: int) -> int {
    if j - 1 >= lo && white_len(s, j - 1) == 1 {
        1
    } else if j - 2 >= lo && white_len(s, j - 2) == 2 {
        2
    } else if j - 3 >= lo && white_len(s, j - 3) == 3 {
        3
    } else {
        0
    }
}

/// The end of `s[lo..j]` without its trailing white space.
pub open spec fn trimmed_end(s: Seq<u8>, lo: int, j: int) -> int
    decreases j - lo,
{
    if white_before(s, lo, j) > 0 {
        trimmed_end(s, lo, j - white_before(s, lo, j))
    } else {
        j
    }
}

/// Drops trailing white space from `s[lo..j]`.
pub fn trim_end(s: &[u8], lo: usize, j: usize) -> (end: usize)
    requires
        lo <= j <= s.len(),
    ensures
        end == trimmed_end(s@, lo as int, j as int),
        lo <= end <= j,
{
    let mut k: usize = j;
    loop
        invariant
            lo <= k <= j <= s.len(),
            trimmed_end(s@, lo as int, j as int) == trimmed_end(s@, lo as int, k as int),
        decreases k - lo,
    {
        let n: usize = if k - lo >= 1 && white_at(s, k - 1) == 1 {
            1
        } else if k - lo >= 2 && white_at(s, k - 2) == 2 {
            2
        } else if k - lo >= 3 && white_at(s, k - 3) == 3 {
            3
        } else {
            0
        };
        if n == 0 {
            return k;
        }
        k -= n;
    }
}

/// The end of the word that starts at `i`: the first white space after it.
pub open spec fn word_end(s: Seq<u8>, i: int) -> int
    decreases s.len() - i,
{
    if 0 <= i < s.len() && white_len(s, i) == 0 {
        word_end(s, i + 1)
    } else {
        i
    }
}

/// Skips the word at `i`.
pub fn skip_word(s: &[u8], i: usize) -> (end: usize)
    requires
        i <= s.len(),
    ensures
        end == word_end(s@, i as int),
        i <= end <= s.len(),
{
    let mut k: usize = i;
    while k < s.len() && white_at(s, k) == 0
        invariant
            i <= k <= s.len(),
            word_end(s@, i as int) == word_end(s@, k as int),
        decreases s.len() - k,
    {
        k += 1;
    }
    k
}

/// One word from `i` on and then nothing but white space.
pub open spec fn last_word(s: Seq<u8>, i: int) -> bool {
    word_end(s, i) > i && blank_from(s, word_end(s, i))
}

/// Is there one word from `i` on and then nothing but white space?
pub fn is_last_word(s: &[u8], i: usize) -> (yes: bool)
    requires
        i <= s.len(),
    ensures
        yes == last_word(s@, i as int),
{
    let e: usize = skip_word(s, i);
    e > i && is_blank(s, e)
}

/// The end of `s` without the one white-space character that it may end with.
pub open spec fn before_last_white(s: Seq<u8>) -> int {
    s.len() - white_before(s, 0, s.len() as int)
}

/// Drops the one white-space character that `s` may end with.
pub fn drop_last_white(s: &[u8]) -> (end: usize)
    ensures
        end == before_last_white(s@),
        end <= s.len(),
{
    let k: usize = s.len();
    if k >= 1 && white_at(s, k - 1) == 1 {
        k - 1
    } else if k >= 2 && white_at(s, k - 2) == 2 {
        k - 2
    } else if k >= 3 && white_at(s, k - 3) == 3 {
        k - 3
    } else {
        k
    }
}

/// Nothing but white space from `i` on.
pub open spec fn blank_from(s: Seq<u8>, i: int) -> bool {
    trimmed_start(s, i) == s.len()
}

/// Is there nothing but white space from `i` on?
pub fn is_blank(s: &[u8], i: usize) -> (yes: bool)
    requires
        i <= s.len(),
    ensures
        yes == blank_from(s@, i as int),
{
    trim_start(s, i) == s.len()
}

// ---------------------------------------------------------------------------
// Numbers
// ---------------------------------------------------------------------------

/// The value of one digit in base sixteen or less.
pub open spec fn digit_value(b: u8) -> int {
    if is_digit(b) {
        b - 0x30
    } else if 0x61 <= b <= 0x66 {
        b - 0x57
    } else {
        b - 0x37
    }
}

/// The value of the digits in `from..to`, read in `base`.
pub open spec fn digits_value(s: Seq<u8>, from: int, to: int, base: int) -> int
    decreases to - from,
{
    if to <= from {
        0
    } else {
        digits_value(s, from, to - 1, base) * base + digit_value(s[to - 1])
    }
}

/// `from..to` is a non-empty run of digits of `class`.
pub open spec fn all_in(s: Seq<u8>, from: int, to: int, class: ByteClass) -> bool {
    0 <= from && to <= s.len() && forall|k: int| from <= k < to ==> in_class(class, #[trigger] s[k])
}

/// The decimal number written in `from..to`, if it is one and fits.
pub open spec fn decimal_u32(s: Seq<u8>, from: int, to: int) -> Option<u32> {
    if from < to && all_in(s, from, to, ByteClass::Digit) && digits_value(s, from, to, 10)
        <= u32::MAX {
        Some(digits_value(s, from, to, 10) as u32)
    } else {
        None
    }
}

/// As `decimal_u32`, with a plus sign allowed in front.
pub open spec fn number_u32(s: Seq<u8>, from: int, to: int) -> Option<u32> {
    if from < to && byte_is(s, from, 0x2b) {
        decimal_u32(s, from + 1, to)
    } else {
        decimal_u32(s, from, to)
    }
}

/// The number in `from..to` with an optional sign, if it fits 32 bits.
pub open spec fn decimal_i32(s: Seq<u8>, from: int, to: int) -> Option<i32> {
    if from < to && byte_is(s, from, 0x2d) {
        match decimal_u32(s, from + 1, to) {
            Some(v) => if v <= 0x8000_0000 {
                Some((0 - v) as i32)
            } else {
                None
            },
            None => None,
        }
    } else {
        match decimal_u32(s, from, to) {
            Some(v) => if v <= i32::MAX {
                Some(v as i32)
            } else {
                None
            },
            None => None,
        }
    }
}

/// The hexadecimal number written in `from..to`, if it is one and fits.
pub open spec fn hex_u64(s: Seq<u8>, from: int, to: int) -> Option<u64> {
    if from < to && all_in(s, from, to, ByteClass::Hex) && digits_value(s, from, to, 16)
        <= u64::MAX {
        Some(digits_value(s, from, to, 16) as u64)
    } else {
        None
    }
}

/// As `hex_u64`, for numbers of 32 bits.
pub open spec fn hex_u32(s: Seq<u8>, from: int, to: int) -> Option<u32> {
    match hex_u64(s, from, to) {
        Some(v) => if v <= u32::MAX {
            Some(v as u32)
        } else {
            None
        },
        None => None,
    }
}

proof fn lemma_digits_grow(s: Seq<u8>, from: int, mid: int, to: int, base: int, class: ByteClass)
    requires
        0 <= from <= mid <= to <= s.len(),
        base >= 1,
        class == ByteClass::Digit || class == ByteClass::Hex,
        all_in(s, from, to, class),
    ensures
        0 <= digits_value(s, from, mid, base) <= digits_value(s, from, to, base),
    decreases to - from,
{
    if from < mid {
        lemma_digits_grow(s, from, mid - 1, mid - 1, base, class);
        assert(in_class(class, s[mid - 1]));
        let v = digits_value(s, from, mid - 1, base);
        assert(v * base >= 0) by (nonlinear_arith)
            requires
                v >= 0,
                base >= 1,
        ;
    }
    if mid < to {
        lemma_digits_grow(s, from, mid, to - 1, base, class);
        assert(in_class(class, s[to - 1]));
        let v = digits_value(s, from, to - 1, base);
        assert(v * base >= v) by (nonlinear_arith)
            requires
                v >= 0,
                base >= 1,
        ;
    }
}

/// Reads `s[from..to]` as a decimal number of 32 bits.
pub fn parse_u32(s: &[u8], from: usize, to: usize) -> (n: Option<u32>)
    requires
        from <= to <= s.len(),
    ensures
        n == decimal_u32(s@, from as int, to as int),
{
    if from == to {
        return None;
    }
    let mut v: u64 = 0;
    let mut k: usize = from;
    while k < to
        invariant
            from <= k <= to <= s.len(),
            v == digits_value(s@, from as int, k as int, 10),
            v <= u32::MAX,
            forall|m: int| from <= m < k ==> in_class(ByteClass::Digit, #[trigger] s@[m]),
        decreases to - k,
    {
        if !class_holds(ByteClass::Digit, s[k]) {
            return None;
        }
        v = v * 10 + (s[k] - 0x30) as u64;
        k += 1;
        if v > u32::MAX as u64 {
            proof {
                if all_in(s@, from as int, to as int, ByteClass::Digit) {
                    lemma_digits_grow(s@, from as int, k as int, to as int, 10, ByteClass::Digit);
                }
            }
            return None;
        }
    }
    Some(v as u32)
}

/// Reads `s[from..to]` as a number of 32 bits.
pub fn parse_number(s: &[u8], from: usize, to: usize) -> (n: Option<u32>)
    requires
        from <= to <= s.len(),
    ensures
        n == number_u32(s@, from as int, to as int),
{
    if from < to && byte_at(s, from, 0x2b) {
        parse_u32(s, from + 1, to)
    } else {
        parse_u32(s, from, to)
    }
}

/// Reads `s[from..to]` as a signed number of 32 bits.
pub fn parse_i32(s: &[u8], from: usize, to: usize) -> (n: Option<i32>)
    requires
        from <= to <= s.len(),
    ensures
        n == decimal_i32(s@, from as int, to as int),
{
    if from < to && byte_at(s, from, 0x2d) {
        match parse_u32(s, from + 1, to) {
            Some(v) => if v <= 0x8000_0000 {
                Some((0 - v as i64) as i32)
            } else {
                None
            },
            None => None,
        }
    } else {
        match parse_u32(s, from, to) {
            Some(v) => if v <= 0x7fff_ffff {
                Some(v as i32)
            } else {
                None
            },
            None => None,
        }
    }
}

/// Reads `s[from..to]` as a hexadecimal number of 64 bits.
pub fn parse_hex(s: &[u8], from: usize, to: usize) -> (n: Option<u64>)
    requires
        from <= to <= s.len(),
    ensures
        n == hex_u64(s@, from as int, to as int),
{
    if from == to {
        return None;
    }
    let mut v: u128 = 0;
    let mut k: usize = from;
    while k < to
        invariant
            from <= k <= to <= s.len(),
            v == digits_value(s@, from as int, k as int, 16),
            v <= u64::MAX,
            forall|m: int| from <= m < k ==> in_class(ByteClass::Hex, #[trigger] s@[m]),
        decreases to - k,
    {
        let b: u8 = s[k];
        if !class_holds(ByteClass::Hex, b) {
            return None;
        }
        let d: u8 = if b <= 0x39 {
            b - 0x30
        } else if b >= 0x61 {
            b - 0x57
        } else {
            b - 0x37
        };
        v = v * 16 + d as u128;
        k += 1;
        if v > u64::MAX as u128 {
            proof {
                if all_in(s@, from as int, to as int, ByteClass::Hex) {
                    lemma_digits_grow(s@, from as int, k as int, to as int, 16, ByteClass::Hex);
                }
            }
            return None;
        }
    }
    Some(v as u64)
}

/// Reads `s[from..to]` as a hexadecimal number of 32 bits.
pub fn parse_hex_u32(s: &[u8], from: usize, to: usize) -> (n: Option<u32>)
    requires
        from <= to <= s.len(),
    ensures
        n == hex_u32(s@, from as int, to as int),
{
    match parse_hex(s, from, to) {
        Some(v) => if v <= u32::MAX as u64 {
            Some(v as u32)
        } else {
            None
        },
        None => None,
    }
}

/// The digit `d` of base sixteen as a character.
pub open spec fn digit_char(d: int) -> char {
    if d < 10 {
        (d + 0x30) as char
    } else {
        (d + 0x57) as char
    }
}

/// `n` written in `base` without leading zeros.
pub open spec fn written(n: nat, base: nat) -> Seq<char>
    decreases n,
{
    if base < 2 {
        Seq::empty()
    } else if n < base {
        seq![digit_char(n as int)]
    } else {
        proof {
            assert(n / base < n) by (nonlinear_arith)
                requires
                    n >= base,
                    base >= 2,
            ;
        }
        written(n / base, base).push(digit_char((n % base) as int))
    }
}

/// `n` in decimal.
pub open spec fn decimal(n: int) -> Seq<char> {
    written(n as nat, 10)
}

fn digit_to_char(d: u8) -> (c: char)
    requires
        d < 16,
    ensures
        c == digit_char(d as int),
{
    if d < 10 {
        (d + 0x30) as char
    } else {
        (d + 0x57) as char
    }
}

/// Appends `n` in base ten or sixteen.
pub fn push_number(out: &mut String, n: u64, base: u64)
    requires
        base == 10 || base == 16,
    ensures
        final(out)@ == old(out)@ + written(n as nat, base as nat),
    decreases n,
{
    if n < base {
        out.push(digit_to_char(n as u8));
        assert(old(out)@.push(digit_char(n as int)) =~= old(out)@ + written(n as nat, base as nat));
    } else {
        push_number(out, n / base, base);
        let ghost mid = out@;
        out.push(digit_to_char((n % base) as u8));
        assert(mid.push(digit_char((n % base) as int)) =~= old(out)@ + written(
            n as nat,
            base as nat,
        ));
    }
}

/// Appends `n` in decimal.
pub fn push_decimal(out: &mut String, n: usize)
    ensures
        final(out)@ == old(out)@ + decimal(n as int),
{
    push_number(out, n as u64, 10);
}

/// `n` in decimal.
pub fn decimal_text(n: usize) -> (out: String)
    ensures
        out@ == decimal(n as int),
{
    let mut out: String = String::new();
    push_decimal(&mut out, n);
    assert(Seq::<char>::empty() + decimal(n as int) =~= decimal(n as int));
    out
}

/// A literal as an owned text.
pub fn owned(s: &str) -> (out: String)
    ensures
        out@ == s@,
{
    s.to_owned()
}

/// The text of the characters in `from..to`.
pub fn from_chars(s: &Vec<char>, from: usize, to: usize) -> (out: String)
    requires
        from <= to <= s@.len(),
    ensures
        out@ == s@.subrange(from as int, to as int),
{
    let mut out: String = String::new();
    let mut k: usize = from;
    while k < to
        invariant
            from <= k <= to <= s@.len(),
            out@ == s@.subrange(from as int, k as int),
        decreases to - k,
    {
        out.push(s[k]);
        assert(s@.subrange(from as int, k as int).push(s@[k as int]) =~= s@.subrange(
            from as int,
            k + 1,
        ));
        k += 1;
    }
    out
}

} // verus!
