//! Bytes, words and numbers as they are printed.

use vstd::prelude::*;
#[allow(unused_imports)]
use vstd::string::*;
#[allow(unused_imports)]
use vstd::utf8::*;

#[allow(unused_imports)]
use crate::text::{
    decimal_u32, digits_value, find_from, hex_u64, in_class, lemma_run_end, occurs_at, run_end,
    ByteClass,
};

verus! {

/// `0` to `9`.
pub open spec fn digit(b: u8) -> bool {
    48 <= b <= 57
}

/// `a` to `z` and `A` to `Z`.
pub open spec fn letter(b: u8) -> bool {
    65 <= b <= 90 || 97 <= b <= 122
}

/// `0` to `9`, `a` to `f` and `A` to `F`.
pub open spec fn hex_digit(b: u8) -> bool {
    48 <= b <= 57 || 97 <= b <= 102 || 65 <= b <= 70
}

/// What a hexadecimal digit counts.
pub open spec fn hex_worth(b: u8) -> int {
    if b <= 57 {
        b - 48
    } else if b <= 70 {
        b - 55
    } else {
        b - 87
    }
}

/// The number that the decimal digits in `a..b` spell.
pub open spec fn number(s: Seq<u8>, a: int, b: int) -> int
    decreases b - a,
{
    if a >= b {
        0
    } else {
        10 * number(s, a, b - 1) + (s[b - 1] - 48)
    }
}

/// The number that the hexadecimal digits in `a..b` spell.
pub open spec fn hex_number(s: Seq<u8>, a: int, b: int) -> int
    decreases b - a,
{
    if a >= b {
        0
    } else {
        16 * hex_number(s, a, b - 1) + hex_worth(s[b - 1])
    }
}

/// `a..b` is a whole run of decimal digits: not empty, and no digit follows.
pub open spec fn digit_run(s: Seq<u8>, a: int, b: int) -> bool {
    &&& 0 <= a < b <= s.len()
    &&& forall|k: int| a <= k < b ==> digit(#[trigger] s[k])
    &&& b < s.len() ==> !digit(s[b])
}

/// `a..b` is a whole run of hexadecimal digits.
pub open spec fn hex_run(s: Seq<u8>, a: int, b: int) -> bool {
    &&& 0 <= a < b <= s.len()
    &&& forall|k: int| a <= k < b ==> hex_digit(#[trigger] s[k])
    &&& b < s.len() ==> !hex_digit(s[b])
}

/// The ASCII word `word` is printed at `k`.
pub open spec fn says(s: Seq<u8>, k: int, word: Seq<char>) -> bool {
    &&& 0 <= k
    &&& k + word.len() <= s.len()
    &&& forall|j: int| 0 <= j < word.len() ==> s[k + j] as int == (#[trigger] word[j]) as int
}

/// The ASCII word `word` is printed somewhere from `from` on.
pub open spec fn mentions(s: Seq<u8>, from: int, word: Seq<char>) -> bool {
    exists|k: int| from <= k && #[trigger] says(s, k, word)
}

pub(crate) proof fn lemma_says(s: Seq<u8>, k: int, word: Seq<char>)
    requires
        is_ascii_chars(word),
    ensures
        occurs_at(s, k, encode_utf8(word)) == says(s, k, word),
        encode_utf8(word).len() == word.len(),
{
    is_ascii_chars_encode_utf8(word);
    let w = encode_utf8(word);
    if occurs_at(s, k, w) {
        assert forall|j: int| 0 <= j < word.len() implies s[k + j] as int == (
        #[trigger] word[j]) as int by {
            assert(s.subrange(k, k + w.len())[j] == w[j]);
            assert(w[j] == word[j] as u8);
        }
    }
    if says(s, k, word) {
        assert forall|j: int| 0 <= j < w.len() implies s.subrange(k, k + w.len())[j] == w[j] by {
            assert(w[j] == word[j] as u8);
        }
        assert(s.subrange(k, k + w.len()) =~= w);
    }
}

pub(crate) proof fn lemma_mentions(s: Seq<u8>, from: int, word: Seq<char>)
    requires
        is_ascii_chars(word),
        word.len() > 0,
        0 <= from,
    ensures
        find_from(s, from, encode_utf8(word)) is Some <==> mentions(s, from, word),
        find_from(s, from, encode_utf8(word)) matches Some(k) ==> from <= k && says(s, k, word)
            && forall|j: int| from <= j < k ==> !#[trigger] says(s, j, word),
    decreases s.len() + 1 - from,
{
    let w = encode_utf8(word);
    lemma_says(s, from, word);
    if from + w.len() > s.len() {
        assert forall|k: int| from <= k implies !#[trigger] says(s, k, word) by {}
    } else if !occurs_at(s, from, w) {
        lemma_mentions(s, from + 1, word);
        if mentions(s, from, word) {
            let k = choose|k: int| from <= k && #[trigger] says(s, k, word);
            assert(from + 1 <= k && says(s, k, word));
        }
    } else {
        assert(says(s, from, word));
    }
}

pub(crate) proof fn lemma_number(s: Seq<u8>, a: int, b: int)
    requires
        0 <= a <= b <= s.len(),
        forall|k: int| a <= k < b ==> digit(#[trigger] s[k]),
    ensures
        digits_value(s, a, b, 10) == number(s, a, b),
        number(s, a, b) >= 0,
    decreases b - a,
{
    if a < b {
        lemma_number(s, a, b - 1);
    }
}

pub(crate) proof fn lemma_hex_number(s: Seq<u8>, a: int, b: int)
    requires
        0 <= a <= b <= s.len(),
        forall|k: int| a <= k < b ==> hex_digit(#[trigger] s[k]),
    ensures
        digits_value(s, a, b, 16) == hex_number(s, a, b),
        hex_number(s, a, b) >= 0,
    decreases b - a,
{
    if a < b {
        lemma_hex_number(s, a, b - 1);
    }
}

/// A run of digits is read as the number that it spells, where that fits.
pub(crate) proof fn lemma_decimal(s: Seq<u8>, a: int, b: int)
    requires
        digit_run(s, a, b),
    ensures
        run_end(s, a, ByteClass::Digit) == b,
        number(s, a, b) >= 0,
        decimal_u32(s, a, b) == (if number(s, a, b) <= u32::MAX {
            Some(number(s, a, b) as u32)
        } else {
            None
        }),
{
    lemma_run_end(s, a, ByteClass::Digit);
    lemma_number(s, a, b);
    let e = run_end(s, a, ByteClass::Digit);
    if e < b {
        assert(digit(s[e]));
    }
    if b < e {
        assert(in_class(ByteClass::Digit, s[b]));
    }
    assert forall|k: int| a <= k < b implies in_class(ByteClass::Digit, #[trigger] s[k]) by {
        assert(digit(s[k]));
    }
}

pub(crate) proof fn lemma_hex(s: Seq<u8>, a: int, b: int)
    requires
        hex_run(s, a, b),
    ensures
        run_end(s, a, ByteClass::Hex) == b,
        hex_number(s, a, b) >= 0,
        hex_u64(s, a, b) == (if hex_number(s, a, b) <= u64::MAX {
            Some(hex_number(s, a, b) as u64)
        } else {
            None
        }),
{
    lemma_run_end(s, a, ByteClass::Hex);
    lemma_hex_number(s, a, b);
    let e = run_end(s, a, ByteClass::Hex);
    if e < b {
        assert(hex_digit(s[e]));
    }
    if b < e {
        assert(in_class(ByteClass::Hex, s[b]));
    }
    assert forall|k: int| a <= k < b implies in_class(ByteClass::Hex, #[trigger] s[k]) by {
        assert(hex_digit(s[k]));
    }
}

} // verus!
