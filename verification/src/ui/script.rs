//! JavaScript source, painted.
//!
//! Keywords, strings, numbers and comments stand out; identifiers stay plain.
//! Each line is read on its own.

use vstd::prelude::*;
#[allow(unused_imports)]
use vstd::string::*;

use super::paint::{fill, paint_flat, Class};
#[allow(unused_imports)]
use super::paint::{filled, flat};
use crate::text;
#[allow(unused_imports)]
use crate::text::{class_is, find_from, occurs_at, word_is};
use crate::text::ByteClass;

verus! {

/// A byte of a word: a letter, a digit, `_`, `$` or a part of a letter that is
/// not ASCII.
pub open spec fn in_word(b: u8) -> bool {
    text::is_alphanumeric(b) || b == 0x5f || b == 0x24 || b >= 0x80
}

fn is_in_word(b: u8) -> (yes: bool)
    ensures
        yes == in_word(b),
{
    text::class_holds(ByteClass::Digit, b) || (0x41 <= b && b <= 0x5a) || (0x61 <= b && b <= 0x7a)
        || b == 0x5f || b == 0x24 || b >= 0x80
}

/// Where the word ends that starts at `i`.
pub open spec fn word_stop(s: Seq<u8>, i: int) -> int
    decreases s.len() - i,
{
    if 0 <= i < s.len() && in_word(s[i]) {
        word_stop(s, i + 1)
    } else {
        i
    }
}

/// Where the number ends that starts at `i`: a number may have a point.
pub open spec fn number_stop(s: Seq<u8>, i: int) -> int
    decreases s.len() - i,
{
    if 0 <= i < s.len() && (in_word(s[i]) || s[i] == 0x2e) {
        number_stop(s, i + 1)
    } else {
        i
    }
}

/// Where the string ends whose text starts at `i`: behind its closing quote,
/// or at the end of the line. A backslash keeps the next byte from closing it.
pub open spec fn string_stop(s: Seq<u8>, i: int, quote: u8) -> int
    decreases s.len() + 1 - i,
{
    if i < 0 || i >= s.len() {
        s.len() as int
    } else if s[i] == quote {
        i + 1
    } else if s[i] == 0x5c {
        string_stop(s, i + 2, quote)
    } else {
        string_stop(s, i + 1, quote)
    }
}

/// A comment that starts at `i` ends here: a comment to the end of the line,
/// or one that closes.
pub open spec fn comment_stop(s: Seq<u8>, i: int) -> int {
    if occurs_at(s, i, "//".spec_bytes()) {
        s.len() as int
    } else {
        match find_from(s, i + 2, "*/".spec_bytes()) {
            Some(e) => e + 2,
            None => s.len() as int,
        }
    }
}

/// The words of the language.
pub open spec fn keyword(s: Seq<u8>, from: int, to: int) -> bool {
    ||| word_is(s, from, to, "async".spec_bytes())
    ||| word_is(s, from, to, "await".spec_bytes())
    ||| word_is(s, from, to, "break".spec_bytes())
    ||| word_is(s, from, to, "case".spec_bytes())
    ||| word_is(s, from, to, "catch".spec_bytes())
    ||| word_is(s, from, to, "class".spec_bytes())
    ||| word_is(s, from, to, "const".spec_bytes())
    ||| word_is(s, from, to, "continue".spec_bytes())
    ||| word_is(s, from, to, "default".spec_bytes())
    ||| word_is(s, from, to, "delete".spec_bytes())
    ||| word_is(s, from, to, "do".spec_bytes())
    ||| word_is(s, from, to, "else".spec_bytes())
    ||| word_is(s, from, to, "false".spec_bytes())
    ||| word_is(s, from, to, "finally".spec_bytes())
    ||| word_is(s, from, to, "for".spec_bytes())
    ||| word_is(s, from, to, "function".spec_bytes())
    ||| word_is(s, from, to, "if".spec_bytes())
    ||| word_is(s, from, to, "in".spec_bytes())
    ||| word_is(s, from, to, "instanceof".spec_bytes())
    ||| word_is(s, from, to, "let".spec_bytes())
    ||| word_is(s, from, to, "new".spec_bytes())
    ||| word_is(s, from, to, "null".spec_bytes())
    ||| word_is(s, from, to, "of".spec_bytes())
    ||| word_is(s, from, to, "return".spec_bytes())
    ||| word_is(s, from, to, "super".spec_bytes())
    ||| word_is(s, from, to, "switch".spec_bytes())
    ||| word_is(s, from, to, "this".spec_bytes())
    ||| word_is(s, from, to, "throw".spec_bytes())
    ||| word_is(s, from, to, "true".spec_bytes())
    ||| word_is(s, from, to, "try".spec_bytes())
    ||| word_is(s, from, to, "typeof".spec_bytes())
    ||| word_is(s, from, to, "undefined".spec_bytes())
    ||| word_is(s, from, to, "var".spec_bytes())
    ||| word_is(s, from, to, "void".spec_bytes())
    ||| word_is(s, from, to, "while".spec_bytes())
    ||| word_is(s, from, to, "yield".spec_bytes())
}

fn is_keyword(s: &[u8], from: usize, to: usize) -> (yes: bool)
    requires
        from <= to <= s@.len(),
    ensures
        yes == keyword(s@, from as int, to as int),
{
    text::slice_is(s, from, to, "async") || text::slice_is(s, from, to, "await")
        || text::slice_is(s, from, to, "break") || text::slice_is(s, from, to, "case")
        || text::slice_is(s, from, to, "catch") || text::slice_is(s, from, to, "class")
        || text::slice_is(s, from, to, "const") || text::slice_is(s, from, to, "continue")
        || text::slice_is(s, from, to, "default") || text::slice_is(s, from, to, "delete")
        || text::slice_is(s, from, to, "do") || text::slice_is(s, from, to, "else")
        || text::slice_is(s, from, to, "false") || text::slice_is(s, from, to, "finally")
        || text::slice_is(s, from, to, "for") || text::slice_is(s, from, to, "function")
        || text::slice_is(s, from, to, "if") || text::slice_is(s, from, to, "in")
        || text::slice_is(s, from, to, "instanceof") || text::slice_is(s, from, to, "let")
        || text::slice_is(s, from, to, "new") || text::slice_is(s, from, to, "null")
        || text::slice_is(s, from, to, "of") || text::slice_is(s, from, to, "return")
        || text::slice_is(s, from, to, "super") || text::slice_is(s, from, to, "switch")
        || text::slice_is(s, from, to, "this") || text::slice_is(s, from, to, "throw")
        || text::slice_is(s, from, to, "true") || text::slice_is(s, from, to, "try")
        || text::slice_is(s, from, to, "typeof") || text::slice_is(s, from, to, "undefined")
        || text::slice_is(s, from, to, "var") || text::slice_is(s, from, to, "void")
        || text::slice_is(s, from, to, "while") || text::slice_is(s, from, to, "yield")
}

/// The token that starts at `i`: its end and its class. Anything else is one
/// plain byte.
pub open spec fn token_at(s: Seq<u8>, i: int) -> (int, Class) {
    if occurs_at(s, i, "//".spec_bytes()) || occurs_at(s, i, "/*".spec_bytes()) {
        (comment_stop(s, i), Class::Comment)
    } else if s[i] == 0x22 || s[i] == 0x27 || s[i] == 0x60 {
        (string_stop(s, i + 1, s[i]), Class::Text)
    } else if class_is(s, i, ByteClass::Digit) {
        (number_stop(s, i), Class::Number)
    } else if in_word(s[i]) {
        (
            word_stop(s, i),
            if keyword(s, i, word_stop(s, i)) {
                Class::Keyword
            } else {
                Class::Base
            },
        )
    } else {
        (i + 1, Class::Base)
    }
}

proof fn lemma_stops(s: Seq<u8>, i: int, quote: u8)
    requires
        0 <= i <= s.len(),
    ensures
        i <= word_stop(s, i) <= s.len(),
        i <= number_stop(s, i) <= s.len(),
        i <= string_stop(s, i, quote) <= s.len(),
        i < s.len() && in_word(s[i]) ==> i < word_stop(s, i) && i < number_stop(s, i),
    decreases s.len() - i,
{
    if i < s.len() {
        lemma_stops(s, i + 1, quote);
        if i + 1 < s.len() {
            lemma_stops(s, i + 2, quote);
        } else {
            assert(string_stop(s, i + 2, quote) == s.len());
        }
    }
}

proof fn lemma_found(s: Seq<u8>, i: int, word: Seq<u8>)
    requires
        0 <= i,
    ensures
        find_from(s, i, word) matches Some(e) ==> i <= e && e + word.len() <= s.len(),
    decreases s.len() + 1 - i,
{
    if i <= s.len() && find_from(s, i, word) is Some && !occurs_at(s, i, word) {
        lemma_found(s, i + 1, word);
    }
}

pub(crate) proof fn lemma_token(s: Seq<u8>, i: int)
    requires
        0 <= i < s.len(),
    ensures
        i < token_at(s, i).0 <= s.len(),
{
    lemma_two_bytes();
    lemma_stops(s, i, s[i]);
    lemma_stops(s, i + 1, s[i]);
    lemma_found(s, i + 2, "*/".spec_bytes());
}

proof fn lemma_two_bytes()
    ensures
        "*/".spec_bytes().len() == 2,
        "/*".spec_bytes().len() == 2,
        "//".spec_bytes().len() == 2,
{
    reveal_strlit("*/");
    reveal_strlit("/*");
    reveal_strlit("//");
    reveal_with_fuel(vstd::utf8::encode_utf8, 3);
}

/// A line of source from `i` on, painted over `paint`.
pub open spec fn script_from(s: Seq<u8>, i: int, paint: Seq<Class>) -> Seq<Class>
    decreases s.len() - i,
    via script_from_decreases
{
    if i < 0 || i >= s.len() {
        paint
    } else {
        let (end, class) = token_at(s, i);
        script_from(s, end, filled(paint, i, end, class))
    }
}

#[via_fn]
proof fn script_from_decreases(s: Seq<u8>, i: int, paint: Seq<Class>) {
    if 0 <= i < s.len() {
        lemma_token(s, i);
    }
}

/// A line of source, painted.
pub open spec fn script_painted(s: Seq<u8>) -> Seq<Class> {
    script_from(s, 0, flat(s.len(), Class::Base))
}

pub(crate) proof fn lemma_script_len(s: Seq<u8>, i: int, paint: Seq<Class>)
    ensures
        script_from(s, i, paint).len() == paint.len(),
    decreases s.len() - i,
{
    if 0 <= i < s.len() {
        lemma_token(s, i);
        let (end, class) = token_at(s, i);
        lemma_script_len(s, end, filled(paint, i, end, class));
    }
}

fn skip_string(s: &[u8], i: usize, quote: u8) -> (end: usize)
    requires
        i <= s@.len(),
    ensures
        end == string_stop(s@, i as int, quote),
{
    let n: usize = s.len();
    let mut k: usize = i;
    while k < n
        invariant
            n == s@.len(),
            i <= k <= n,
            string_stop(s@, i as int, quote) == string_stop(s@, k as int, quote),
        decreases n - k,
    {
        if s[k] == quote {
            return k + 1;
        }
        if s[k] == 0x5c {
            if n - k <= 2 {
                assert(string_stop(s@, k + 2, quote) == n);
                return n;
            }
            k += 2;
        } else {
            k += 1;
        }
    }
    n
}

fn skip_word(s: &[u8], i: usize, number: bool) -> (end: usize)
    requires
        i <= s@.len(),
    ensures
        end == (if number {
            number_stop(s@, i as int)
        } else {
            word_stop(s@, i as int)
        }),
        i <= end <= s@.len(),
{
    let n: usize = s.len();
    let mut k: usize = i;
    while k < n && (is_in_word(s[k]) || (number && s[k] == 0x2e))
        invariant
            n == s@.len(),
            i <= k <= n,
            number ==> number_stop(s@, i as int) == number_stop(s@, k as int),
            !number ==> word_stop(s@, i as int) == word_stop(s@, k as int),
        decreases n - k,
    {
        k += 1;
    }
    k
}

fn skip_comment(s: &[u8], i: usize) -> (end: usize)
    requires
        i < s@.len(),
        occurs_at(s@, i as int, "//".spec_bytes()) || occurs_at(s@, i as int, "/*".spec_bytes()),
    ensures
        end == comment_stop(s@, i as int),
{
    proof {
        lemma_two_bytes();
        lemma_found(s@, i + 2, "*/".spec_bytes());
    }
    let n: usize = s.len();
    if text::starts_with_at(s, i, "//") {
        return n;
    }
    match text::find(s, i + 2, "*/") {
        Some(e) => e + 2,
        None => n,
    }
}

fn read_token(s: &[u8], i: usize) -> (token: (usize, Class))
    requires
        i < s@.len(),
    ensures
        (token.0 as int, token.1) == token_at(s@, i as int),
{
    let b: u8 = s[i];
    if text::starts_with_at(s, i, "//") || text::starts_with_at(s, i, "/*") {
        (skip_comment(s, i), Class::Comment)
    } else if b == 0x22 || b == 0x27 || b == 0x60 {
        (skip_string(s, i + 1, b), Class::Text)
    } else if text::class_at(s, i, ByteClass::Digit) {
        (skip_word(s, i, true), Class::Number)
    } else if is_in_word(b) {
        let end: usize = skip_word(s, i, false);
        (
            end,
            if is_keyword(s, i, end) {
                Class::Keyword
            } else {
                Class::Base
            },
        )
    } else {
        (i + 1, Class::Base)
    }
}

/// Paints a line of source.
pub(crate) fn paint_script(s: &[u8]) -> (paint: Vec<Class>)
    ensures
        paint@ == script_painted(s@),
{
    let n: usize = s.len();
    let mut paint = paint_flat(n, Class::Base);
    let mut i: usize = 0;
    while i < n
        invariant
            n == s@.len(),
            i <= n,
            script_from(s@, i as int, paint@) == script_painted(s@),
        decreases n - i,
    {
        proof {
            lemma_token(s@, i as int);
        }
        let (end, class): (usize, Class) = read_token(s, i);
        fill(&mut paint, i, end, class);
        i = end;
    }
    paint
}

} // verus!
