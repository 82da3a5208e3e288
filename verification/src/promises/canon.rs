//! What the canonical form of a line keeps.

use vstd::prelude::*;
#[allow(unused_imports)]
use vstd::string::*;

#[allow(unused_imports)]
use crate::diff::canon::{
    canonical, char_is, digits_end, gutter_end, hex_end, is_digit_char, is_gutter, is_hex_char,
    masked_from,
};

verus! {

/// A character of the layout in front of a line.
pub open spec fn layout(c: char) -> bool {
    " │╭╰╮╯─►◄↓▼▲═"@.contains(c)
}

/// `0` to `9`.
pub open spec fn decimal_digit(c: char) -> bool {
    48 <= c as int <= 57
}

/// From `i` on there is no address and no number with a fraction.
pub open spec fn unmasked(s: Seq<char>, i: int) -> bool {
    &&& forall|k: int| i <= k && k + 1 < s.len() ==> !(#[trigger] s[k] == '0' && s[k + 1] == 'x')
    &&& forall|k: int|
        i < k && k + 1 < s.len() ==> !(#[trigger] s[k] == '.' && decimal_digit(s[k - 1])
            && decimal_digit(s[k + 1]))
}

proof fn lemma_digits(s: Seq<char>, i: int)
    requires
        0 <= i <= s.len(),
    ensures
        i <= digits_end(s, i) <= s.len(),
        forall|k: int| i <= k < digits_end(s, i) ==> decimal_digit(#[trigger] s[k]),
    decreases s.len() - i,
{
    if i < s.len() && is_digit_char(s[i]) {
        lemma_digits(s, i + 1);
    }
}

proof fn lemma_unmasked(s: Seq<char>, i: int)
    requires
        0 <= i <= s.len(),
        unmasked(s, i),
    ensures
        masked_from(s, i) == s.subrange(i, s.len() as int),
    decreases s.len() - i,
{
    let n = s.len() as int;
    if i < n {
        let whole = digits_end(s, i);
        lemma_digits(s, i);
        assert(i + 1 < n ==> !(s[i] == '0' && s[i + 1] == 'x'));
        if i < whole {
            let fraction = digits_end(s, whole + 1);
            if char_is(s, whole, '.') && whole + 1 < fraction <= n {
                lemma_digits(s, whole + 1);
                assert(decimal_digit(s[whole + 1]));
                assert(decimal_digit(s[whole - 1]));
                assert(!(s[whole] == '.' && decimal_digit(s[whole - 1]) && decimal_digit(
                    s[whole + 1],
                )));
            }
            lemma_unmasked(s, whole);
            assert(s.subrange(i, whole) + s.subrange(whole, n) =~= s.subrange(i, n));
        } else {
            lemma_unmasked(s, i + 1);
            assert(seq![s[i]] + s.subrange(i + 1, n) =~= s.subrange(i, n));
        }
    } else {
        assert(masked_from(s, i) =~= s.subrange(i, n));
    }
}

/// The text behind the layout is kept character for character, but for
/// addresses, numbers with a fraction and the name of a compilation in front. So
/// lines that differ in anything else have different forms.
pub proof fn law_plain_text_is_kept(s: Seq<char>)
    requires
        s.len() > 0 ==> !layout(s[0]) && s[0] != '[',
        unmasked(s, 0),
    ensures
        canonical(s) == s,
{
    reveal_strlit(" │╭╰╮╯─►◄↓▼▲═");
    let all = " │╭╰╮╯─►◄↓▼▲═"@;
    if s.len() > 0 && is_gutter(s[0]) {
        let c = s[0];
        assert(all[0] == ' ');
        assert(all[1] == '│');
        assert(all[2] == '╭');
        assert(all[3] == '╰');
        assert(all[4] == '╮');
        assert(all[5] == '╯');
        assert(all[6] == '─');
        assert(all[7] == '►');
        assert(all[8] == '◄');
        assert(all[9] == '↓');
        assert(all[10] == '▼');
        assert(all[11] == '▲');
        assert(all[12] == '═');
        assert(layout(c));
    }
    assert(gutter_end(s, 0) == 0);
    lemma_unmasked(s, 0);
    assert(s.subrange(0, s.len() as int) =~= s);
}

/// An address is written `0x·` whatever its digits, and what follows it is kept.
pub proof fn law_an_address_is_written_without_its_digits(digits: Seq<char>, rest: Seq<char>)
    requires
        digits.len() > 0,
        forall|k: int| 0 <= k < digits.len() ==> is_hex_char(#[trigger] digits[k]),
        rest.len() > 0 ==> !is_hex_char(rest[0]),
        unmasked(rest, 0),
    ensures
        canonical("0x"@ + digits + rest) == "0x·"@ + rest,
{
    reveal_strlit("0x");
    reveal_strlit("0x·");
    let s = "0x"@ + digits + rest;
    assert(s[0] == '0' && s[1] == 'x');
    assert(gutter_end(s, 0) == 0);
    lemma_hex_end(digits, rest, 0);
    let h = 2 + digits.len() as int;
    assert(s.subrange(h, s.len() as int) =~= rest);
    lemma_tail(s, rest, h);
    assert("0x·"@ =~= seq!['0', 'x', '·']);
}

proof fn lemma_hex_end(digits: Seq<char>, rest: Seq<char>, k: int)
    requires
        0 <= k <= digits.len(),
        forall|j: int| 0 <= j < digits.len() ==> is_hex_char(#[trigger] digits[j]),
        rest.len() > 0 ==> !is_hex_char(rest[0]),
    ensures
        hex_end("0x"@ + digits + rest, 2 + k) == 2 + digits.len(),
    decreases digits.len() - k,
{
    reveal_strlit("0x");
    let s = "0x"@ + digits + rest;
    if k < digits.len() {
        assert(s[2 + k] == digits[k]);
        lemma_hex_end(digits, rest, k + 1);
    } else if rest.len() > 0 {
        assert(s[2 + k] == rest[0]);
    }
}

proof fn lemma_tail(s: Seq<char>, rest: Seq<char>, h: int)
    requires
        2 < h <= s.len(),
        s.subrange(h, s.len() as int) == rest,
        unmasked(rest, 0),
    ensures
        masked_from(s, h) == rest,
{
    assert(unmasked(s, h)) by {
        assert forall|k: int| h <= k && k + 1 < s.len() implies !(#[trigger] s[k] == '0' && s[k + 1]
            == 'x') by {
            assert(rest[k - h] == s[k]);
            assert(rest[k - h + 1] == s[k + 1]);
        }
        assert forall|k: int| h < k && k + 1 < s.len() implies !(#[trigger] s[k] == '.'
            && decimal_digit(s[k - 1]) && decimal_digit(s[k + 1])) by {
            assert(rest[k - h] == s[k]);
            assert(rest[k - h + 1] == s[k + 1]);
            assert(rest[k - h - 1] == s[k - 1]);
        }
    }
    lemma_unmasked(s, h);
}

} // verus!
