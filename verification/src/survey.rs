//! A survey of a trace.
//!
//! A trace is split into compilations, phases and blocks by the shape of its
//! lines alone, and the lines that no rule covers are counted by shape.

use vstd::prelude::*;
#[allow(unused_imports)]
use vstd::string::*;

use crate::diff::canon::chars_of;
use crate::markers::comes_before;
#[allow(unused_imports)]
use crate::markers::{law_the_order_of_texts_chains, text_before};
use crate::text;

verus! {

// ---------------------------------------------------------------------------
// Characters
// ---------------------------------------------------------------------------

/// A decimal digit.
pub open spec fn is_digit(c: char) -> bool {
    '0' <= c <= '9'
}

/// A hexadecimal digit.
pub open spec fn is_hex(c: char) -> bool {
    is_digit(c) || 'a' <= c <= 'f' || 'A' <= c <= 'F'
}

/// An ASCII letter.
pub open spec fn is_letter(c: char) -> bool {
    'a' <= c <= 'z' || 'A' <= c <= 'Z'
}

/// An upper-case ASCII letter.
pub open spec fn is_upper(c: char) -> bool {
    'A' <= c <= 'Z'
}

/// What a run of characters is made of.
#[derive(Clone, Copy, PartialEq, Eq, Structural)]
pub enum CharClass {
    Digit,
    Hex,
    Letter,
    Upper,
    White,
    Visible,
}

/// A character is of a class.
pub open spec fn of_class(c: char, class: CharClass) -> bool {
    match class {
        CharClass::Digit => is_digit(c),
        CharClass::Hex => is_hex(c),
        CharClass::Letter => is_letter(c),
        CharClass::Upper => is_upper(c),
        CharClass::White => text::is_white(c),
        CharClass::Visible => !text::is_white(c),
    }
}

fn class_holds(c: char, class: CharClass) -> (yes: bool)
    ensures
        yes == of_class(c, class),
{
    let digit: bool = '0' <= c && c <= '9';
    let upper: bool = 'A' <= c && c <= 'Z';
    let white: bool = text::white_char(c);
    match class {
        CharClass::Digit => digit,
        CharClass::Hex => digit || ('a' <= c && c <= 'f') || ('A' <= c && c <= 'F'),
        CharClass::Letter => upper || ('a' <= c && c <= 'z'),
        CharClass::Upper => upper,
        CharClass::White => white,
        CharClass::Visible => !white,
    }
}

/// The end of the run of a class that starts at `i`.
pub open spec fn run_end(s: Seq<char>, i: int, class: CharClass) -> int
    decreases s.len() - i,
{
    if 0 <= i < s.len() && of_class(s[i], class) {
        run_end(s, i + 1, class)
    } else {
        i
    }
}

fn skip(s: &Vec<char>, i: usize, class: CharClass) -> (end: usize)
    requires
        i <= s@.len(),
    ensures
        end == run_end(s@, i as int, class),
        i <= end <= s@.len(),
{
    let mut k: usize = i;
    while k < s.len() && class_holds(s[k], class)
        invariant
            i <= k <= s@.len(),
            run_end(s@, i as int, class) == run_end(s@, k as int, class),
        decreases s.len() - k,
    {
        k += 1;
    }
    k
}

/// The end of `s[..n]` without its trailing white space.
pub open spec fn trimmed(s: Seq<char>, n: int) -> int
    decreases n,
{
    if 0 < n <= s.len() && text::is_white(s[n - 1]) {
        trimmed(s, n - 1)
    } else {
        n
    }
}

fn trim(s: &Vec<char>, n: usize) -> (end: usize)
    requires
        n <= s@.len(),
    ensures
        end == trimmed(s@, n as int),
        end <= n,
{
    let mut k: usize = n;
    while k > 0 && class_holds(s[k - 1], CharClass::White)
        invariant
            k <= n <= s@.len(),
            trimmed(s@, n as int) == trimmed(s@, k as int),
        decreases k,
    {
        k -= 1;
    }
    k
}

/// `word` stands at `i`, and ends at or before `end`.
pub open spec fn word_at(s: Seq<char>, i: int, end: int, word: Seq<char>) -> bool {
    0 <= i && i + word.len() <= end <= s.len() && s.subrange(i, i + word.len()) == word
}

fn has_word(s: &Vec<char>, i: usize, end: usize, word: &Vec<char>) -> (yes: bool)
    requires
        end <= s@.len(),
    ensures
        yes == word_at(s@, i as int, end as int, word@),
{
    if i > end || word.len() > end - i {
        return false;
    }
    let n: usize = word.len();
    let mut k: usize = 0;
    while k < n
        invariant
            k <= n == word@.len(),
            i + n <= end <= s@.len(),
            forall|m: int| 0 <= m < k ==> s@[i + m] == #[trigger] word@[m],
        decreases n - k,
    {
        if s[i + k] != word[k] {
            assert(s@.subrange(i as int, i + n)[k as int] != word@[k as int]);
            return false;
        }
        k += 1;
    }
    assert(s@.subrange(i as int, i + n) =~= word@);
    true
}

/// The first place at or after `i` of a word in `s[..end]`.
pub open spec fn first_word(s: Seq<char>, i: int, end: int, word: Seq<char>) -> Option<int>
    decreases end + 1 - i,
{
    if i < 0 || i > end {
        None
    } else if word_at(s, i, end, word) {
        Some(i)
    } else {
        first_word(s, i + 1, end, word)
    }
}

fn find_word(s: &Vec<char>, i: usize, end: usize, word: &str) -> (at: Option<usize>)
    requires
        i <= end <= s@.len(),
    ensures
        text::pos(at) == first_word(s@, i as int, end as int, word@),
        at matches Some(k) ==> i <= k && word_at(s@, k as int, end as int, word@),
{
    let wanted = chars_of(word);
    let mut k: usize = i;
    while k < end
        invariant
            i <= k <= end <= s@.len(),
            wanted@ == word@,
            first_word(s@, i as int, end as int, word@) == first_word(
                s@,
                k as int,
                end as int,
                word@,
            ),
        decreases end - k,
    {
        if has_word(s, k, end, &wanted) {
            return Some(k);
        }
        k += 1;
    }
    if has_word(s, k, end, &wanted) {
        return Some(k);
    }
    assert(first_word(s@, end + 1, end as int, word@) is None);
    None
}

/// The last place before `i` and not before `lo` of a word in `s[..end]`.
pub open spec fn last_word(s: Seq<char>, lo: int, i: int, end: int, word: Seq<char>) -> Option<int>
    decreases i - lo,
{
    if i <= lo {
        None
    } else if word_at(s, i - 1, end, word) {
        Some(i - 1)
    } else {
        last_word(s, lo, i - 1, end, word)
    }
}

fn find_last_word(s: &Vec<char>, lo: usize, end: usize, word: &str) -> (at: Option<usize>)
    requires
        lo <= end <= s@.len(),
    ensures
        text::pos(at) == last_word(s@, lo as int, end as int, end as int, word@),
        at matches Some(k) ==> lo <= k && word_at(s@, k as int, end as int, word@),
{
    let wanted = chars_of(word);
    let mut k: usize = end;
    while k > lo
        invariant
            lo <= k <= end <= s@.len(),
            wanted@ == word@,
            last_word(s@, lo as int, end as int, end as int, word@) == last_word(
                s@,
                lo as int,
                k as int,
                end as int,
                word@,
            ),
        decreases k - lo,
    {
        if has_word(s, k - 1, end, &wanted) {
            return Some(k - 1);
        }
        k -= 1;
    }
    None
}

fn starts_with(s: &Vec<char>, i: usize, end: usize, word: &str) -> (yes: bool)
    requires
        end <= s@.len(),
    ensures
        yes == word_at(s@, i as int, end as int, word@),
{
    let wanted = chars_of(word);
    has_word(s, i, end, &wanted)
}

// ---------------------------------------------------------------------------
// Lines
// ---------------------------------------------------------------------------

/// The end of an escape sequence whose parameters start at `i`.
pub open spec fn escape_end(s: Seq<char>, i: int) -> int
    decreases s.len() - i,
{
    if i < 0 || i >= s.len() {
        s.len() as int
    } else if is_letter(s[i]) {
        i + 1
    } else {
        escape_end(s, i + 1)
    }
}

proof fn lemma_escape_end(s: Seq<char>, i: int)
    requires
        0 <= i <= s.len(),
    ensures
        i <= escape_end(s, i) <= s.len(),
    decreases s.len() - i,
{
    if i < s.len() && !is_letter(s[i]) {
        lemma_escape_end(s, i + 1);
    }
}

/// The characters from `i` on that belong to no escape sequence.
pub open spec fn plain_from(s: Seq<char>, i: int) -> Seq<char>
    decreases s.len() - i,
    via plain_from_decreases
{
    if i < 0 || i >= s.len() {
        Seq::empty()
    } else if s[i] == '\u{1b}' && i + 1 < s.len() && s[i + 1] == '[' {
        plain_from(s, escape_end(s, i + 2))
    } else {
        seq![s[i]] + plain_from(s, i + 1)
    }
}

#[via_fn]
proof fn plain_from_decreases(s: Seq<char>, i: int) {
    if 0 <= i && i + 1 < s.len() {
        lemma_escape_end(s, i + 2);
    }
}

fn strip_chars(s: &Vec<char>) -> (out: Vec<char>)
    ensures
        out@ == plain_from(s@, 0),
{
    let n: usize = s.len();
    let mut out: Vec<char> = Vec::new();
    let mut i: usize = 0;
    assert(out@ + plain_from(s@, 0) =~= plain_from(s@, 0));
    while i < n
        invariant
            n == s@.len(),
            i <= n,
            out@ + plain_from(s@, i as int) == plain_from(s@, 0),
        decreases n - i,
    {
        if s[i] == '\u{1b}' && n - i > 1 && s[i + 1] == '[' {
            let from: usize = i + 2;
            let mut k: usize = from;
            while k < n && !class_holds(s[k], CharClass::Letter)
                invariant
                    n == s@.len(),
                    from <= k <= n,
                    escape_end(s@, from as int) == escape_end(s@, k as int),
                decreases n - k,
            {
                k += 1;
            }
            i = if k < n {
                k + 1
            } else {
                n
            };
        } else {
            let ghost before = out@;
            out.push(s[i]);
            assert(out@ + plain_from(s@, i + 1) =~= before + (seq![s@[i as int]] + plain_from(
                s@,
                i + 1,
            )));
            i += 1;
        }
    }
    assert(out@ + Seq::<char>::empty() =~= out@);
    out
}

/// A line without its escape sequences.
pub fn strip_ansi(line: &str) -> (out: String)
    ensures
        out@ == plain_from(line@, 0),
{
    let s = strip_chars(&chars_of(line));
    let n: usize = s.len();
    let out = text::from_chars(&s, 0, n);
    assert(s@.subrange(0, n as int) =~= s@);
    out
}

/// The value of decimal digits.
pub open spec fn value_of(s: Seq<char>, from: int, to: int) -> int
    decreases to - from,
{
    if from >= to {
        0
    } else {
        value_of(s, from, to - 1) * 10 + (s[to - 1] as int - '0' as int)
    }
}

/// The number that a run of digits writes, where it fits.
pub open spec fn number_of(s: Seq<char>, from: int, to: int) -> Option<u32> {
    if value_of(s, from, to) <= u32::MAX {
        Some(value_of(s, from, to) as u32)
    } else {
        None
    }
}

proof fn lemma_value_grows(s: Seq<char>, from: int, mid: int, to: int)
    requires
        0 <= from <= mid <= to <= s.len(),
        forall|k: int| from <= k < to ==> is_digit(#[trigger] s[k]),
    ensures
        0 <= value_of(s, from, mid) <= value_of(s, from, to),
    decreases to,
{
    if mid < to {
        lemma_value_grows(s, from, mid, to - 1);
        assert(is_digit(s[to - 1]));
    } else if from < to {
        lemma_value_grows(s, from, to - 1, to - 1);
        assert(is_digit(s[to - 1]));
    }
}

proof fn lemma_run(s: Seq<char>, i: int, class: CharClass)
    requires
        0 <= i <= s.len(),
    ensures
        i <= run_end(s, i, class) <= s.len(),
        forall|k: int| i <= k < run_end(s, i, class) ==> of_class(#[trigger] s[k], class),
    decreases s.len() - i,
{
    if i < s.len() && of_class(s[i], class) {
        lemma_run(s, i + 1, class);
    }
}

fn read_number(s: &Vec<char>, from: usize, to: usize) -> (n: Option<u32>)
    requires
        from <= to <= s@.len(),
        forall|k: int| from <= k < to ==> is_digit(#[trigger] s@[k]),
    ensures
        n == number_of(s@, from as int, to as int),
{
    let mut value: u64 = 0;
    let mut k: usize = from;
    while k < to
        invariant
            from <= k <= to <= s@.len(),
            forall|m: int| from <= m < to ==> is_digit(#[trigger] s@[m]),
            value == value_of(s@, from as int, k as int),
            value <= u32::MAX,
        decreases to - k,
    {
        assert(is_digit(s@[k as int]));
        let digit: u64 = (s[k] as u32 - '0' as u32) as u64;
        value = value * 10 + digit;
        k += 1;
        if value > u32::MAX as u64 {
            proof {
                lemma_value_grows(s@, from as int, k as int, to as int);
            }
            return None;
        }
    }
    Some(value as u32)
}

/// The node that a line defines: `12: ` or, with a place in the schedule in
/// front, `11/6: `. A bytecode row has a space in front of its colon.
pub open spec fn node_of(s: Seq<char>) -> Option<u32> {
    let n = s.len() as int;
    let a = run_end(s, 0, CharClass::White);
    let e = run_end(s, a, CharClass::Digit);
    let b = e + 1;
    let f = run_end(s, b, CharClass::Digit);
    if e == n || e == a {
        None
    } else if word_at(s, e, n, ": "@) {
        number_of(s, a, e)
    } else if s[e] == '/' && b < f < n && word_at(s, f, n, ": "@) {
        number_of(s, b, f)
    } else {
        None
    }
}

fn read_node(s: &Vec<char>) -> (id: Option<u32>)
    ensures
        id == node_of(s@),
{
    let n: usize = s.len();
    let a: usize = skip(s, 0, CharClass::White);
    let e: usize = skip(s, a, CharClass::Digit);
    proof {
        lemma_run(s@, a as int, CharClass::Digit);
    }
    if e == n || e == a {
        return None;
    }
    if starts_with(s, e, n, ": ") {
        return read_number(s, a, e);
    }
    if s[e] != '/' {
        return None;
    }
    let b: usize = e + 1;
    let f: usize = skip(s, b, CharClass::Digit);
    proof {
        lemma_run(s@, b as int, CharClass::Digit);
    }
    if b < f && f < n && starts_with(s, f, n, ": ") {
        return read_number(s, b, f);
    }
    None
}

/// The node that a line defines.
pub fn node_id(line: &str) -> (id: Option<u32>)
    ensures
        id == node_of(line@),
{
    read_node(&chars_of(line))
}

/// The function in front of `end`, whose line names it from `from` on.
pub open spec fn function_of(s: Seq<char>, from: int, end: int) -> Seq<char> {
    match first_word(s, from, end, "<JSFunction "@) {
        Some(i) => {
            let a = i + "<JSFunction "@.len();
            match first_word(s, a, end, " (sfi"@) {
                Some(j) => s.subrange(a, j),
                None => Seq::empty(),
            }
        },
        None => Seq::empty(),
    }
}

/// The function and the tier that a `Compiling … with …` line names. Every
/// version prints it: it anchors a compilation.
pub open spec fn anchor_of(s: Seq<char>) -> Option<(Seq<char>, Seq<char>)> {
    let end = trimmed(s, s.len() as int);
    let a = "Compiling "@.len() as int;
    if !word_at(s, 0, end, "Compiling "@) {
        None
    } else {
        match last_word(s, a, end, end, " with "@) {
            Some(i) => Some(
                (function_of(s, a, i), s.subrange(i + " with "@.len(), end)),
            ),
            None => None,
        }
    }
}

/// The views of two texts.
pub open spec fn pair_of(p: Option<(String, String)>) -> Option<(Seq<char>, Seq<char>)> {
    match p {
        Some((a, b)) => Some((a@, b@)),
        None => None,
    }
}

/// The view of a text.
pub open spec fn single_of(p: Option<String>) -> Option<Seq<char>> {
    match p {
        Some(a) => Some(a@),
        None => None,
    }
}

fn length_of(word: &str) -> (n: usize)
    ensures
        n == word@.len(),
{
    chars_of(word).len()
}

fn read_function(s: &Vec<char>, from: usize, end: usize) -> (name: String)
    requires
        from <= end <= s@.len(),
    ensures
        name@ == function_of(s@, from as int, end as int),
{
    match find_word(s, from, end, "<JSFunction ") {
        Some(i) => {
            let a: usize = i + length_of("<JSFunction ");
            match find_word(s, a, end, " (sfi") {
                Some(j) => text::from_chars(s, a, j),
                None => String::new(),
            }
        },
        None => String::new(),
    }
}

fn read_anchor(s: &Vec<char>) -> (found: Option<(String, String)>)
    ensures
        pair_of(found) == anchor_of(s@),
{
    let end: usize = trim(s, s.len());
    if !starts_with(s, 0, end, "Compiling ") {
        return None;
    }
    let a: usize = length_of("Compiling ");
    match find_last_word(s, a, end, " with ") {
        Some(i) => {
            let name = read_function(s, a, i);
            let tier = text::from_chars(s, i + length_of(" with "), end);
            Some((name, tier))
        },
        None => None,
    }
}

/// The function and the tier that a `Compiling … with …` line names.
pub fn compiling_with(line: &str) -> (found: Option<(String, String)>)
    ensures
        pair_of(found) == anchor_of(line@),
{
    read_anchor(&chars_of(line))
}

/// The label of the block that a line opens.
pub open spec fn label_of(s: Seq<char>) -> Option<Seq<char>> {
    let n = s.len() as int;
    let a = run_end(s, 0, CharClass::White);
    let b = run_end(s, a + "Block "@.len(), CharClass::White);
    let e = run_end(s, b, CharClass::Visible);
    if word_at(s, a, n, "Block "@) && b < n && s[b] == 'b' {
        Some(s.subrange(b, e))
    } else {
        None
    }
}

fn read_label(s: &Vec<char>) -> (label: Option<String>)
    ensures
        single_of(label) == label_of(s@),
{
    let n: usize = s.len();
    let a: usize = skip(s, 0, CharClass::White);
    if !starts_with(s, a, n, "Block ") {
        return None;
    }
    let b: usize = skip(s, a + length_of("Block "), CharClass::White);
    let e: usize = skip(s, b, CharClass::Visible);
    if b < n && s[b] == 'b' {
        Some(text::from_chars(s, b, e))
    } else {
        None
    }
}

/// The label of the block that a line opens.
pub fn block_label(line: &str) -> (label: Option<String>)
    ensures
        single_of(label) == label_of(line@),
{
    read_label(&chars_of(line))
}

/// The name on a banner, which may have white space behind it.
pub open spec fn banner_of(s: Seq<char>) -> Option<Seq<char>> {
    let end = trimmed(s, s.len() as int);
    let a = "----- "@.len() as int;
    let b = end - " -----"@.len();
    if word_at(s, 0, end, "----- "@) && a < b && word_at(s, b, end, " -----"@) {
        Some(s.subrange(a, b))
    } else {
        None
    }
}

fn read_banner(s: &Vec<char>) -> (name: Option<String>)
    ensures
        single_of(name) == banner_of(s@),
{
    let end: usize = trim(s, s.len());
    if !starts_with(s, 0, end, "----- ") {
        return None;
    }
    let a: usize = length_of("----- ");
    let tail: usize = length_of(" -----");
    if end - a <= tail {
        return None;
    }
    let b: usize = end - tail;
    if starts_with(s, b, end, " -----") {
        Some(text::from_chars(s, a, b))
    } else {
        None
    }
}

/// The name on a banner.
pub fn phase_banner(line: &str) -> (name: Option<String>)
    ensures
        single_of(name) == banner_of(line@),
{
    read_banner(&chars_of(line))
}

/// The function and the tier that a `Begin compiling method` line names. The
/// function of a script has no name.
pub open spec fn begin_of(s: Seq<char>) -> Option<(Seq<char>, Seq<char>)> {
    let end = trimmed(s, s.len() as int);
    let a = "Begin compiling method "@.len() as int;
    if !word_at(s, 0, end, "Begin compiling method "@) {
        None
    } else {
        match last_word(s, a, end, end, " using "@) {
            Some(i) => Some((s.subrange(a, i), s.subrange(i + " using "@.len(), end))),
            None => None,
        }
    }
}

fn read_begin(s: &Vec<char>) -> (found: Option<(String, String)>)
    ensures
        pair_of(found) == begin_of(s@),
{
    let end: usize = trim(s, s.len());
    if !starts_with(s, 0, end, "Begin compiling method ") {
        return None;
    }
    let a: usize = length_of("Begin compiling method ");
    match find_last_word(s, a, end, " using ") {
        Some(i) => {
            let name = text::from_chars(s, a, i);
            let tier = text::from_chars(s, i + length_of(" using "), end);
            Some((name, tier))
        },
        None => None,
    }
}

/// The function and the tier that a `Begin compiling method` line names.
pub fn begin_compiling(line: &str) -> (found: Option<(String, String)>)
    ensures
        pair_of(found) == begin_of(line@),
{
    read_begin(&chars_of(line))
}

/// A line ends a compilation.
pub open spec fn finishes(s: Seq<char>) -> bool {
    word_at(s, 0, s.len() as int, "Finished compiling method "@)
}

/// Does a line end a compilation?
pub fn is_finished_compiling(line: &str) -> (yes: bool)
    ensures
        yes == finishes(line@),
{
    let s = chars_of(line);
    starts_with(&s, 0, s.len(), "Finished compiling method ")
}

/// The channel of a free trace line, such as `ML` of `[ML:38564] …`: at most
/// four upper-case letters.
pub open spec fn channel_of(s: Seq<char>) -> Option<Seq<char>> {
    let n = s.len() as int;
    let e = run_end(s, 1, CharClass::Upper);
    if n > 0 && s[0] == '[' && 1 < e <= 5 && e < n && (s[e] == ']' || (s[e] == ':' && first_word(
        s,
        e,
        n,
        "]"@,
    ) is Some)) {
        Some(s.subrange(1, e))
    } else {
        None
    }
}

fn read_channel(s: &Vec<char>) -> (name: Option<String>)
    ensures
        single_of(name) == channel_of(s@),
{
    let n: usize = s.len();
    if n == 0 || s[0] != '[' {
        return None;
    }
    let e: usize = skip(s, 1, CharClass::Upper);
    if 1 < e && e <= 5 && e < n && (s[e] == ']' || (s[e] == ':' && find_word(
        s,
        e,
        n,
        "]",
    ).is_some())) {
        Some(text::from_chars(s, 1, e))
    } else {
        None
    }
}

/// The channel of a free trace line.
pub fn trace_channel(line: &str) -> (name: Option<String>)
    ensures
        single_of(name) == channel_of(line@),
{
    read_channel(&chars_of(line))
}

/// The word that a timeline event starts with, such as `bailout`.
pub open spec fn event_of(s: Seq<char>) -> Option<Seq<char>> {
    let e = run_end(s, 1, CharClass::Letter);
    if s.len() > 0 && s[0] == '[' && 1 < e {
        Some(s.subrange(1, e))
    } else {
        None
    }
}

fn read_event(s: &Vec<char>) -> (word: Option<String>)
    ensures
        single_of(word) == event_of(s@),
{
    if s.len() == 0 || s[0] != '[' {
        return None;
    }
    let e: usize = skip(s, 1, CharClass::Letter);
    if 1 < e {
        Some(text::from_chars(s, 1, e))
    } else {
        None
    }
}

/// The word that a timeline event starts with.
pub fn timeline_event(line: &str) -> (word: Option<String>)
    ensures
        single_of(word) == event_of(line@),
{
    read_event(&chars_of(line))
}

// ---------------------------------------------------------------------------
// Shapes
// ---------------------------------------------------------------------------

/// The part of a shape that starts at `i`, and where the next part starts: an
/// address, a number, white space or a character.
pub open spec fn shape_part(s: Seq<char>, i: int) -> (char, int) {
    if s[i] == '0' && i + 1 < s.len() && s[i + 1] == 'x' {
        ('H', run_end(s, i + 2, CharClass::Hex))
    } else if is_digit(s[i]) {
        ('#', run_end(s, i + 1, CharClass::Digit))
    } else if text::is_white(s[i]) {
        (' ', i + 1)
    } else {
        (s[i], i + 1)
    }
}

proof fn lemma_shape_part(s: Seq<char>, i: int)
    requires
        0 <= i < s.len(),
    ensures
        i < shape_part(s, i).1 <= s.len(),
{
    lemma_run(s, i + 1, CharClass::Digit);
    if i + 1 < s.len() {
        lemma_run(s, i + 2, CharClass::Hex);
    }
}

/// The shape of a line from `i` on, behind the part `last`: runs of white
/// space count once.
pub open spec fn shape_from(s: Seq<char>, i: int, last: char) -> Seq<char>
    decreases s.len() - i,
    via shape_from_decreases
{
    if i < 0 || i >= s.len() {
        Seq::empty()
    } else {
        let (part, next) = shape_part(s, i);
        if part == ' ' && last == ' ' {
            shape_from(s, next, last)
        } else {
            seq![part] + shape_from(s, next, part)
        }
    }
}

#[via_fn]
proof fn shape_from_decreases(s: Seq<char>, i: int, last: char) {
    if 0 <= i < s.len() {
        lemma_shape_part(s, i);
    }
}

/// The first 90 characters of a shape without trailing white space.
pub open spec fn shape_of(s: Seq<char>) -> Seq<char> {
    let all = shape_from(s, 0, ' ');
    let end = trimmed(all, all.len() as int);
    all.take(
        if end < 90 {
            end
        } else {
            90
        },
    )
}

fn read_shape(s: &Vec<char>) -> (shape: String)
    ensures
        shape@ == shape_of(s@),
{
    let n: usize = s.len();
    let mut all: Vec<char> = Vec::new();
    let mut last: char = ' ';
    let mut i: usize = 0;
    assert(all@ + shape_from(s@, 0, ' ') =~= shape_from(s@, 0, ' '));
    while i < n
        invariant
            n == s@.len(),
            i <= n,
            all@ + shape_from(s@, i as int, last) == shape_from(s@, 0, ' '),
        decreases n - i,
    {
        proof {
            lemma_shape_part(s@, i as int);
        }
        let (part, next): (char, usize) = if s[i] == '0' && n - i > 1 && s[i + 1] == 'x' {
            ('H', skip(s, i + 2, CharClass::Hex))
        } else if class_holds(s[i], CharClass::Digit) {
            ('#', skip(s, i + 1, CharClass::Digit))
        } else if class_holds(s[i], CharClass::White) {
            (' ', i + 1)
        } else {
            (s[i], i + 1)
        };
        if !(part == ' ' && last == ' ') {
            let ghost before = all@;
            all.push(part);
            assert(all@ + shape_from(s@, next as int, part) =~= before + (seq![part] + shape_from(
                s@,
                next as int,
                part,
            )));
            last = part;
        }
        i = next;
    }
    assert(all@ + Seq::<char>::empty() =~= all@);
    let end: usize = trim(&all, all.len());
    let cut: usize = if end < 90 {
        end
    } else {
        90
    };
    let shape = text::from_chars(&all, 0, cut);
    assert(all@.subrange(0, cut as int) =~= all@.take(cut as int));
    shape
}

/// The shape of a line, by which lines that nothing covers are counted.
pub fn shape(line: &str) -> (shape: String)
    ensures
        shape@ == shape_of(line@),
{
    read_shape(&chars_of(line))
}

// ---------------------------------------------------------------------------
// Counting
// ---------------------------------------------------------------------------

/// How many shapes of lines a survey lists.
pub const SHAPES_LISTED: usize = 30;

/// How often each word occurred, in the order in which they first did.
#[derive(Debug)]
pub struct Tally {
    pub counts: Vec<(String, usize)>,
}

impl View for Tally {
    type V = Seq<(Seq<char>, usize)>;

    open spec fn view(&self) -> Seq<(Seq<char>, usize)> {
        self.counts@.map_values(|c: (String, usize)| (c.0@, c.1))
    }
}

/// One more.
pub open spec fn one_more(n: usize) -> usize {
    if n < usize::MAX {
        (n + 1) as usize
    } else {
        n
    }
}

fn bump(n: usize) -> (next: usize)
    ensures
        next == one_more(n),
{
    if n < usize::MAX {
        n + 1
    } else {
        n
    }
}

/// The place of a word among the counts, from `i` on.
pub open spec fn place_of(counts: Seq<(Seq<char>, usize)>, word: Seq<char>, i: int) -> Option<int>
    decreases counts.len() - i,
{
    if i < 0 || i >= counts.len() {
        None
    } else if counts[i].0 == word {
        Some(i)
    } else {
        place_of(counts, word, i + 1)
    }
}

/// The counts with a word counted once more.
pub open spec fn tallied(counts: Seq<(Seq<char>, usize)>, word: Seq<char>) -> Seq<
    (Seq<char>, usize),
> {
    match place_of(counts, word, 0) {
        Some(k) => counts.update(k, (word, one_more(counts[k].1))),
        None => counts.push((word, 1)),
    }
}

/// The sum, no more than the largest number.
pub open spec fn capped_sum(a: usize, b: usize) -> usize {
    if a + b <= usize::MAX {
        (a + b) as usize
    } else {
        usize::MAX
    }
}

/// The counts with a word counted `n` times more.
pub open spec fn counted_more(
    counts: Seq<(Seq<char>, usize)>,
    word: Seq<char>,
    n: usize,
) -> Seq<(Seq<char>, usize)> {
    match place_of(counts, word, 0) {
        Some(k) => counts.update(k, (word, capped_sum(counts[k].1, n))),
        None => counts.push((word, n)),
    }
}

/// The counts together with the first `k` of some more.
pub open spec fn merged(
    counts: Seq<(Seq<char>, usize)>,
    more: Seq<(Seq<char>, usize)>,
    k: int,
) -> Seq<(Seq<char>, usize)>
    decreases k,
{
    if k <= 0 {
        counts
    } else {
        counted_more(merged(counts, more, k - 1), more[k - 1].0, more[k - 1].1)
    }
}

/// `a` is listed before `b`: it is the more frequent one, or as frequent and
/// the first in the order of texts.
pub open spec fn ranks_before(a: (Seq<char>, usize), b: (Seq<char>, usize)) -> bool {
    a.1 > b.1 || (a.1 == b.1 && text_before(a.0, b.0))
}

/// The most frequent words come first.
pub open spec fn ranked(list: Seq<(Seq<char>, usize)>) -> bool {
    forall|i: int, j: int|
        0 <= i < j < list.len() ==> !ranks_before(#[trigger] list[j], #[trigger] list[i])
}

/// The view of a list of words with their counts.
pub open spec fn count_models(list: Seq<(String, usize)>) -> Seq<(Seq<char>, usize)> {
    list.map_values(|c: (String, usize)| (c.0@, c.1))
}

proof fn lemma_ranked_insert(list: Seq<(Seq<char>, usize)>, x: (Seq<char>, usize), p: int)
    requires
        ranked(list),
        0 <= p <= list.len(),
        forall|i: int| 0 <= i < p ==> !ranks_before(x, #[trigger] list[i]),
        p < list.len() ==> ranks_before(x, list[p]),
    ensures
        ranked(list.insert(p, x)),
{
    let out = list.insert(p, x);
    assert forall|j: int| p <= j < list.len() implies !ranks_before(#[trigger] list[j], x) by {
        law_the_order_of_texts_chains(list[j].0, x.0, list[p].0);
        law_the_order_of_texts_chains(list[j].0, x.0, list[j].0);
        if j > p {
            assert(!ranks_before(list[j], list[p]));
        }
    }
    assert forall|i: int, j: int| 0 <= i < j < out.len() implies !ranks_before(
        #[trigger] out[j],
        #[trigger] out[i],
    ) by {
        let a = if i < p {
            i
        } else {
            i - 1
        };
        let b = if j < p {
            j
        } else {
            j - 1
        };
        if i != p {
            assert(out[i] == list[a]);
        }
        if j != p {
            assert(out[j] == list[b]);
        }
    }
}

impl Tally {
    /// Nothing counted yet.
    pub fn new() -> (tally: Tally)
        ensures
            tally@ == Seq::<(Seq<char>, usize)>::empty(),
    {
        let tally = Tally { counts: Vec::new() };
        assert(tally@ =~= Seq::empty());
        tally
    }

    fn count_more(&mut self, word: &String, n: usize)
        ensures
            final(self)@ == counted_more(old(self)@, word@, n),
    {
        let mut k: usize = 0;
        while k < self.counts.len()
            invariant
                *self == *old(self),
                k <= self.counts@.len(),
                place_of(self@, word@, 0) == place_of(self@, word@, k as int),
            decreases self.counts.len() - k,
        {
            assert(self@[k as int] == (self.counts@[k as int].0@, self.counts@[k as int].1));
            if self.counts[k].0 == *word {
                let sum: usize = self.counts[k].1.saturating_add(n);
                self.counts.set(k, (word.clone(), sum));
                assert(self@ =~= counted_more(old(self)@, word@, n));
                return;
            }
            k += 1;
        }
        self.counts.push((word.clone(), n));
        assert(self@ =~= counted_more(old(self)@, word@, n));
    }

    /// Adds the counts of another tally.
    pub fn merge(&mut self, more: &Tally)
        ensures
            final(self)@ == merged(old(self)@, more@, more@.len() as int),
    {
        let mut k: usize = 0;
        while k < more.counts.len()
            invariant
                k <= more.counts@.len(),
                self@ == merged(old(self)@, more@, k as int),
            decreases more.counts.len() - k,
        {
            assert(more@[k as int] == (more.counts@[k as int].0@, more.counts@[k as int].1));
            self.count_more(&more.counts[k].0, more.counts[k].1);
            k += 1;
        }
    }

    /// The words with their counts, the most frequent first.
    pub fn ranking(&self) -> (list: Vec<(String, usize)>)
        ensures
            count_models(list@).to_multiset() == self@.to_multiset(),
            ranked(count_models(list@)),
    {
        broadcast use vstd::seq_lib::group_to_multiset_ensures;

        let mut list: Vec<(String, usize)> = Vec::new();
        let mut k: usize = 0;
        assert(count_models(list@) =~= self@.take(0));
        while k < self.counts.len()
            invariant
                k <= self.counts@.len(),
                ranked(count_models(list@)),
                count_models(list@).to_multiset() == self@.take(k as int).to_multiset(),
            decreases self.counts.len() - k,
        {
            let ghost before = count_models(list@);
            let word: String = self.counts[k].0.clone();
            let n: usize = self.counts[k].1;
            let ghost x = (word@, n);
            assert(self@[k as int] == x);
            let mut p: usize = 0;
            while p < list.len() && !(n > list[p].1 || (n == list[p].1 && comes_before(
                word.as_str(),
                list[p].0.as_str(),
            )))
                invariant
                    p <= list@.len(),
                    before == count_models(list@),
                    x == (word@, n),
                    forall|i: int| 0 <= i < p ==> !ranks_before(x, #[trigger] before[i]),
                decreases list.len() - p,
            {
                assert(before[p as int] == (list@[p as int].0@, list@[p as int].1));
                p += 1;
            }
            proof {
                if p < list@.len() {
                    assert(before[p as int] == (list@[p as int].0@, list@[p as int].1));
                }
                lemma_ranked_insert(before, x, p as int);
                vstd::seq_lib::to_multiset_insert(before, p as int, x);
                assert(self@.take(k + 1) =~= self@.take(k as int).push(x));
            }
            list.insert(p, (word, n));
            proof {
                assert(count_models(list@) =~= before.insert(p as int, x));
                vstd::seq_lib::to_multiset_build(self@.take(k as int), x);
                assert(self@.take(k + 1).to_multiset() =~= before.to_multiset().insert(x));
                assert(count_models(list@).to_multiset() =~= before.to_multiset().insert(x));
            }
            k += 1;
        }
        assert(self@.take(self@.len() as int) =~= self@);
        list
    }

    /// Counts a word once more.
    pub fn count(&mut self, word: String)
        ensures
            final(self)@ == tallied(old(self)@, word@),
    {
        let mut k: usize = 0;
        while k < self.counts.len()
            invariant
                *self == *old(self),
                k <= self.counts@.len(),
                place_of(self@, word@, 0) == place_of(self@, word@, k as int),
            decreases self.counts.len() - k,
        {
            assert(self@[k as int] == (self.counts@[k as int].0@, self.counts@[k as int].1));
            if self.counts[k].0 == word {
                let n: usize = bump(self.counts[k].1);
                self.counts.set(k, (word, n));
                assert(self@ =~= tallied(old(self)@, word@));
                return ;
            }
            k += 1;
        }
        self.counts.push((word, 1));
        assert(self@ =~= tallied(old(self)@, word@));
    }

    /// How often a word occurred.
    pub fn get(&self, word: &str) -> (n: usize)
        ensures
            n == match place_of(self@, word@, 0) {
                Some(k) => self@[k].1,
                None => 0,
            },
    {
        let wanted = text::owned(word);
        let mut k: usize = 0;
        while k < self.counts.len()
            invariant
                k <= self.counts@.len(),
                wanted@ == word@,
                place_of(self@, word@, 0) == place_of(self@, word@, k as int),
            decreases self.counts.len() - k,
        {
            assert(self@[k as int] == (self.counts@[k as int].0@, self.counts@[k as int].1));
            if self.counts[k].0 == wanted {
                return self.counts[k].1;
            }
            k += 1;
        }
        0
    }
}

// ---------------------------------------------------------------------------
// The survey
// ---------------------------------------------------------------------------

/// A phase, with how many lines of each kind it has.
#[derive(Debug)]
pub struct SurveyedPhase {
    pub name: String,
    pub line: usize,
    pub blocks: usize,
    pub nodes: usize,
    pub annotations: usize,
}

/// The view of a `SurveyedPhase`.
#[verifier::ext_equal]
pub struct SurveyedPhaseModel {
    pub name: Seq<char>,
    pub line: usize,
    pub blocks: usize,
    pub nodes: usize,
    pub annotations: usize,
}

impl View for SurveyedPhase {
    type V = SurveyedPhaseModel;

    open spec fn view(&self) -> SurveyedPhaseModel {
        SurveyedPhaseModel {
            name: self.name@,
            line: self.line,
            blocks: self.blocks,
            nodes: self.nodes,
            annotations: self.annotations,
        }
    }
}

/// A compilation. Lines in front of its first phase are counted on their own.
#[derive(Debug)]
pub struct SurveyedCompilation {
    pub name: String,
    pub tier: String,
    pub line: usize,
    pub phases: Vec<SurveyedPhase>,
    pub preamble_annotations: usize,
}

/// The view of a `SurveyedCompilation`.
#[verifier::ext_equal]
pub struct SurveyedModel {
    pub name: Seq<char>,
    pub tier: Seq<char>,
    pub line: usize,
    pub phases: Seq<SurveyedPhaseModel>,
    pub preamble_annotations: usize,
}

/// The views of phases.
pub open spec fn surveyed_phases(list: Seq<SurveyedPhase>) -> Seq<SurveyedPhaseModel> {
    list.map_values(|p: SurveyedPhase| p@)
}

impl View for SurveyedCompilation {
    type V = SurveyedModel;

    open spec fn view(&self) -> SurveyedModel {
        SurveyedModel {
            name: self.name@,
            tier: self.tier@,
            line: self.line,
            phases: surveyed_phases(self.phases@),
            preamble_annotations: self.preamble_annotations,
        }
    }
}

/// What a survey finds.
#[derive(Debug)]
pub struct Stats {
    pub compilations: Vec<SurveyedCompilation>,
    pub timeline: Tally,
    pub channels: Tally,
    /// Lines outside any compilation.
    pub orphan: usize,
    /// Lines of a phase that no rule covers, by shape.
    pub unclassified: Tally,
}

/// The view of `Stats`.
#[verifier::ext_equal]
pub struct StatsModel {
    pub compilations: Seq<SurveyedModel>,
    pub timeline: Seq<(Seq<char>, usize)>,
    pub channels: Seq<(Seq<char>, usize)>,
    pub orphan: usize,
    pub unclassified: Seq<(Seq<char>, usize)>,
}

/// The views of compilations.
pub open spec fn surveyed(list: Seq<SurveyedCompilation>) -> Seq<SurveyedModel> {
    list.map_values(|c: SurveyedCompilation| c@)
}

impl View for Stats {
    type V = StatsModel;

    open spec fn view(&self) -> StatsModel {
        StatsModel {
            compilations: surveyed(self.compilations@),
            timeline: self.timeline@,
            channels: self.channels@,
            orphan: self.orphan,
            unclassified: self.unclassified@,
        }
    }
}

/// Nothing surveyed yet.
pub open spec fn no_stats() -> StatsModel {
    StatsModel {
        compilations: Seq::empty(),
        timeline: Seq::empty(),
        channels: Seq::empty(),
        orphan: 0,
        unclassified: Seq::empty(),
    }
}

/// What a line inside a phase counts as.
#[derive(Clone, Copy, PartialEq, Eq, Structural)]
pub enum Counted {
    Block,
    Node,
    Annotation,
}

/// A phase with one line more.
pub open spec fn phase_counted(p: SurveyedPhaseModel, what: Counted) -> SurveyedPhaseModel {
    match what {
        Counted::Block => SurveyedPhaseModel { blocks: one_more(p.blocks), ..p },
        Counted::Node => SurveyedPhaseModel { nodes: one_more(p.nodes), ..p },
        Counted::Annotation => SurveyedPhaseModel { annotations: one_more(p.annotations), ..p },
    }
}

impl StatsModel {
    /// With the last compilation replaced.
    pub open spec fn with_last(self, c: SurveyedModel) -> StatsModel {
        StatsModel {
            compilations: self.compilations.update(self.compilations.len() - 1, c),
            ..self
        }
    }

    /// A line is counted in the last phase, or else in front of the phases of
    /// the last compilation, or else as an orphan.
    pub open spec fn counted(self, what: Counted) -> StatsModel {
        if self.compilations.len() == 0 {
            StatsModel { orphan: one_more(self.orphan), ..self }
        } else {
            let c = self.compilations.last();
            if c.phases.len() == 0 {
                self.with_last(
                    SurveyedModel {
                        preamble_annotations: one_more(c.preamble_annotations),
                        ..c
                    },
                )
            } else {
                self.with_last(
                    SurveyedModel {
                        phases: c.phases.update(
                            c.phases.len() - 1,
                            phase_counted(c.phases.last(), what),
                        ),
                        ..c
                    },
                )
            }
        }
    }

    /// A banner opens a phase of the last compilation.
    pub open spec fn phase_opened(self, name: Seq<char>, line: usize) -> StatsModel {
        let c = self.compilations.last();
        self.with_last(
            SurveyedModel {
                phases: c.phases.push(
                    SurveyedPhaseModel { name, line, blocks: 0, nodes: 0, annotations: 0 },
                ),
                ..c
            },
        )
    }

    /// A line that belongs to what is open.
    pub open spec fn content(self, s: Seq<char>) -> StatsModel {
        let blank = run_end(s, 0, CharClass::White) == s.len();
        if self.compilations.len() > 0 && self.compilations.last().phases.len() > 0 {
            if label_of(s) is Some {
                self.counted(Counted::Block)
            } else if node_of(s) is Some {
                self.counted(Counted::Node)
            } else if blank {
                self
            } else {
                StatsModel {
                    unclassified: tallied(self.unclassified, shape_of(s)),
                    ..self.counted(Counted::Annotation)
                }
            }
        } else if blank {
            self
        } else {
            self.counted(Counted::Annotation)
        }
    }

    /// The survey after a line, with its escape sequences removed. Lines that
    /// begin or finish a compilation say nothing that its anchor does not.
    pub open spec fn after(self, s: Seq<char>, line: usize) -> StatsModel {
        if anchor_of(s) is Some {
            StatsModel {
                compilations: self.compilations.push(
                    SurveyedModel {
                        name: (anchor_of(s)->0).0,
                        tier: (anchor_of(s)->0).1,
                        line,
                        phases: Seq::empty(),
                        preamble_annotations: 0,
                    },
                ),
                ..self
            }
        } else if begin_of(s) is Some || finishes(s) {
            self
        } else if banner_of(s) is Some && self.compilations.len() > 0 {
            self.phase_opened(banner_of(s)->0, line)
        } else if channel_of(s) is Some {
            StatsModel {
                channels: tallied(self.channels, channel_of(s)->0),
                ..self.counted(Counted::Annotation)
            }
        } else if event_of(s) is Some {
            StatsModel { timeline: tallied(self.timeline, event_of(s)->0), ..self }
        } else {
            self.content(s)
        }
    }
}

/// The end of the line that starts at `i`.
pub open spec fn line_end(s: Seq<char>, i: int) -> int
    decreases s.len() - i,
{
    if 0 <= i < s.len() && s[i] != '\n' {
        line_end(s, i + 1)
    } else {
        i
    }
}

/// The line from `i` to `end`. A carriage return in front of a line feed
/// belongs to the line break.
pub open spec fn line_between(s: Seq<char>, i: int, end: int) -> Seq<char> {
    if i < end < s.len() && s[end - 1] == '\r' {
        s.subrange(i, end - 1)
    } else {
        s.subrange(i, end)
    }
}

/// The survey of the text from `i` on, behind `lines` lines.
pub open spec fn survey_from(s: Seq<char>, i: int, lines: usize, st: StatsModel) -> StatsModel
    decreases s.len() + 1 - i,
    via survey_from_decreases
{
    if i < 0 || i >= s.len() {
        st
    } else {
        let end = line_end(s, i);
        let line = one_more(lines);
        survey_from(s, end + 1, line, st.after(plain_from(line_between(s, i, end), 0), line))
    }
}

#[via_fn]
proof fn survey_from_decreases(s: Seq<char>, i: int, lines: usize, st: StatsModel) {
    if 0 <= i < s.len() {
        lemma_line_end(s, i);
    }
}

proof fn lemma_line_end(s: Seq<char>, i: int)
    requires
        0 <= i <= s.len(),
    ensures
        i <= line_end(s, i) <= s.len(),
    decreases s.len() - i,
{
    if i < s.len() && s[i] != '\n' {
        lemma_line_end(s, i + 1);
    }
}

impl Stats {
    fn new() -> (st: Stats)
        ensures
            st@ == no_stats(),
    {
        let st = Stats {
            compilations: Vec::new(),
            timeline: Tally::new(),
            channels: Tally::new(),
            orphan: 0,
            unclassified: Tally::new(),
        };
        assert(st@ =~= no_stats());
        st
    }

    fn count_line(&mut self, what: Counted)
        ensures
            final(self)@ == old(self)@.counted(what),
    {
        let n: usize = self.compilations.len();
        if n == 0 {
            self.orphan = bump(self.orphan);
            return ;
        }
        let ghost before = self.compilations@;
        match self.compilations.pop() {
            Some(c) => {
                let mut c: SurveyedCompilation = c;
                let ghost was = c@;
                assert(surveyed(before).last() == was);
                match c.phases.pop() {
                    Some(p) => {
                        let mut p: SurveyedPhase = p;
                        let ghost old_phase = p@;
                        match what {
                            Counted::Block => {
                                p.blocks = bump(p.blocks);
                            },
                            Counted::Node => {
                                p.nodes = bump(p.nodes);
                            },
                            Counted::Annotation => {
                                p.annotations = bump(p.annotations);
                            },
                        }
                        assert(p@ == phase_counted(old_phase, what));
                        c.phases.push(p);
                        assert(c@.phases =~= was.phases.update(was.phases.len() - 1, p@));
                    },
                    None => {
                        c.preamble_annotations = bump(c.preamble_annotations);
                        assert(c@.phases =~= was.phases);
                    },
                }
                self.compilations.push(c);
                assert(surveyed(self.compilations@) =~= surveyed(before).update(
                    before.len() - 1,
                    c@,
                ));
            },
            None => {},
        }
        assert(self@ =~= old(self)@.counted(what));
    }

    fn open_phase(&mut self, name: String, line: usize)
        requires
            old(self)@.compilations.len() > 0,
        ensures
            final(self)@ == old(self)@.phase_opened(name@, line),
    {
        let ghost before = self.compilations@;
        assert(surveyed(before).len() == before.len());
        match self.compilations.pop() {
            Some(c) => {
                let mut c: SurveyedCompilation = c;
                let ghost was = c@;
                assert(surveyed(before).last() == was);
                let phase = SurveyedPhase { name, line, blocks: 0, nodes: 0, annotations: 0 };
                let ghost model = phase@;
                c.phases.push(phase);
                assert(c@.phases =~= was.phases.push(model));
                self.compilations.push(c);
                assert(surveyed(self.compilations@) =~= surveyed(before).update(
                    before.len() - 1,
                    c@,
                ));
            },
            None => {},
        }
        assert(self@ =~= old(self)@.phase_opened(name@, line));
    }

    fn in_phase(&self) -> (yes: bool)
        ensures
            yes == (self@.compilations.len() > 0 && self@.compilations.last().phases.len() > 0),
    {
        let n: usize = self.compilations.len();
        if n == 0 {
            return false;
        }
        assert(self@.compilations[n - 1] == self.compilations@[n - 1]@);
        self.compilations[n - 1].phases.len() > 0
    }

    fn take_content(&mut self, s: &Vec<char>)
        ensures
            final(self)@ == old(self)@.content(s@),
    {
        let blank: bool = skip(s, 0, CharClass::White) == s.len();
        if self.in_phase() {
            if read_label(s).is_some() {
                self.count_line(Counted::Block);
            } else if read_node(s).is_some() {
                self.count_line(Counted::Node);
            } else if !blank {
                self.count_line(Counted::Annotation);
                self.unclassified.count(read_shape(s));
            }
        } else if !blank {
            self.count_line(Counted::Annotation);
        }
    }

    fn take_line(&mut self, s: &Vec<char>, line: usize)
        ensures
            final(self)@ == old(self)@.after(s@, line),
    {
        assert(self@.compilations.len() == self.compilations@.len());
        if let Some((name, tier)) = read_anchor(s) {
            let ghost before = self.compilations@;
            let c = SurveyedCompilation {
                name,
                tier,
                line,
                phases: Vec::new(),
                preamble_annotations: 0,
            };
            assert(c@.phases =~= Seq::empty());
            let ghost model = c@;
            self.compilations.push(c);
            assert(surveyed(self.compilations@) =~= surveyed(before).push(model));
            return ;
        }
        if read_begin(s).is_some() || starts_with(s, 0, s.len(), "Finished compiling method ") {
            return ;
        }
        if self.compilations.len() > 0 {
            if let Some(name) = read_banner(s) {
                self.open_phase(name, line);
                return ;
            }
        }
        if let Some(name) = read_channel(s) {
            self.channels.count(name);
            self.count_line(Counted::Annotation);
            return ;
        }
        if let Some(word) = read_event(s) {
            self.timeline.count(word);
            return ;
        }
        self.take_content(s);
    }
}

/// Surveys a trace given as bytes, with what is no UTF-8 among them replaced.
pub fn parse_bytes(bytes: &[u8]) -> (st: Stats)
    ensures
        st@ == survey_from(text::utf8_lossy(bytes@), 0, 0, no_stats()),
        vstd::utf8::valid_utf8(bytes@) ==> st@ == survey_from(
            vstd::utf8::decode_utf8(bytes@),
            0,
            0,
            no_stats(),
        ),
{
    parse(text::decode_lossy(bytes).as_str())
}

/// Surveys a trace.
pub fn parse(trace: &str) -> (st: Stats)
    ensures
        st@ == survey_from(trace@, 0, 0, no_stats()),
{
    let s = chars_of(trace);
    let n: usize = s.len();
    let mut st = Stats::new();
    let mut i: usize = 0;
    let mut lines: usize = 0;
    while i < n
        invariant
            n == s@.len(),
            s@ == trace@,
            i <= n,
            survey_from(s@, i as int, lines, st@) == survey_from(s@, 0, 0, no_stats()),
        decreases n - i,
    {
        let from: usize = i;
        let mut end: usize = i;
        while end < n && s[end] != '\n'
            invariant
                n == s@.len(),
                from <= end <= n,
                line_end(s@, from as int) == line_end(s@, end as int),
            decreases n - end,
        {
            end += 1;
        }
        let to: usize = if from < end && end < n && s[end - 1] == '\r' {
            end - 1
        } else {
            end
        };
        let mut raw: Vec<char> = Vec::new();
        let mut k: usize = from;
        while k < to
            invariant
                from <= k <= to <= n,
                n == s@.len(),
                raw@ == s@.subrange(from as int, k as int),
            decreases to - k,
        {
            raw.push(s[k]);
            assert(raw@ =~= s@.subrange(from as int, k + 1));
            k += 1;
        }
        assert(raw@ == line_between(s@, from as int, end as int));
        let line = strip_chars(&raw);
        lines = bump(lines);
        st.take_line(&line, lines);
        if end == n {
            assert(survey_from(s@, n + 1, lines, st@) == st@);
            assert(survey_from(s@, n as int, lines, st@) == st@);
            i = n;
        } else {
            i = end + 1;
        }
    }
    st
}

} // verus!
