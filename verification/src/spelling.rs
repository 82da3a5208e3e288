//! How addresses and tiers are spelled.

use vstd::prelude::*;
#[allow(unused_imports)]
use vstd::string::*;
#[allow(unused_imports)]
use vstd::utf8::*;

#[allow(unused_imports)]
use crate::model::{addr_in, addr_text, tier_label, tier_named, tier_of, upper, Addr, TierModel};
#[allow(unused_imports)]
use crate::text::{digit_char, digit_value, digits_value, in_class, written, ByteClass};

verus! {

// ---------------------------------------------------------------------------
// Addresses
// ---------------------------------------------------------------------------

/// `c` is the digit `d`, where a letter may be raised to upper case.
pub open spec fn same_digit(c: char, d: char) -> bool {
    c == d || ('a' <= d && d <= 'f' && c as int == d as int - 0x20)
}

/// `s` is `t` with any of its hexadecimal letters in upper case.
pub open spec fn either_case(s: Seq<char>, t: Seq<char>) -> bool {
    s.len() == t.len() && forall|k: int| 0 <= k < s.len() ==> same_digit(#[trigger] s[k], t[k])
}

/// `n` zeros.
pub open spec fn zeros(n: nat) -> Seq<char> {
    Seq::new(n, |k: int| '0')
}

proof fn lemma_digit(c: char, d: int)
    requires
        0 <= d < 16,
        same_digit(c, digit_char(d)),
    ensures
        '\0' <= c <= '\u{7f}',
        in_class(ByteClass::Hex, c as u8),
        digit_value(c as u8) == d,
{
}

proof fn lemma_written(n: nat, s: Seq<char>)
    requires
        either_case(s, written(n, 16)),
    ensures
        s.len() > 0,
        is_ascii_chars(s),
        forall|k: int| 0 <= k < s.len() ==> in_class(ByteClass::Hex, #[trigger] s[k] as u8),
    decreases n,
{
    let t = written(n, 16);
    if n < 16 {
        assert(same_digit(s[0], t[0]));
        lemma_digit(s[0], n as int);
    } else {
        let last = s.len() - 1;
        assert(t.drop_last() =~= written(n / 16, 16));
        assert(either_case(s.drop_last(), t.drop_last())) by {
            assert forall|k: int| 0 <= k < last implies same_digit(
                #[trigger] s.drop_last()[k],
                t.drop_last()[k],
            ) by {
                assert(same_digit(s[k], t[k]));
            }
        }
        lemma_written(n / 16, s.drop_last());
        assert(same_digit(s[last], t[last]));
        lemma_digit(s[last], (n % 16) as int);
        assert forall|k: int| 0 <= k < s.len() implies '\0' <= #[trigger] s[k] <= '\u{7f}'
            && in_class(ByteClass::Hex, s[k] as u8) by {
            if k < last {
                assert(s.drop_last()[k] == s[k]);
            }
        }
    }
}

proof fn lemma_no_value(b: Seq<u8>, from: int, to: int)
    requires
        0 <= from <= to <= b.len(),
        forall|k: int| from <= k < to ==> #[trigger] b[k] == 0x30,
    ensures
        digits_value(b, from, to, 16) == 0,
    decreases to - from,
{
    if from < to {
        lemma_no_value(b, from, to - 1);
    }
}

proof fn lemma_value(n: nat, s: Seq<char>, b: Seq<u8>, from: int, mid: int)
    requires
        either_case(s, written(n, 16)),
        0 <= from <= mid,
        mid + s.len() <= b.len(),
        forall|k: int| from <= k < mid ==> #[trigger] b[k] == 0x30,
        forall|k: int| 0 <= k < s.len() ==> b[mid + k] == #[trigger] s[k] as u8,
    ensures
        digits_value(b, from, mid + s.len(), 16) == n,
    decreases n,
{
    let t = written(n, 16);
    let last = s.len() - 1;
    assert(same_digit(s[last], t[last]));
    assert(b[mid + last] == s[last] as u8);
    if n < 16 {
        lemma_digit(s[last], n as int);
        lemma_no_value(b, from, mid);
    } else {
        assert(t.drop_last() =~= written(n / 16, 16));
        let head = s.drop_last();
        assert forall|k: int| 0 <= k < last implies same_digit(
            #[trigger] head[k],
            t.drop_last()[k],
        ) by {
            assert(same_digit(s[k], t[k]));
        }
        assert forall|k: int| 0 <= k < head.len() implies b[mid + k] == #[trigger] head[k] as u8 by {
            assert(head[k] == s[k]);
        }
        lemma_value(n / 16, head, b, from, mid);
        lemma_digit(s[last], (n % 16) as int);
    }
}

/// An address is read back from its digits, however many zeros stand in front
/// of them, in either case, with and without `0x`.
pub proof fn law_an_address_is_read_in_any_spelling(a: Addr, padding: nat, digits: Seq<char>)
    requires
        either_case(digits, written(a.0 as nat, 16)),
    ensures
        addr_in("0x"@ + zeros(padding) + digits) == Some(a),
        addr_in(zeros(padding) + digits) == Some(a),
{
    let bare = zeros(padding) + digits;
    let full = "0x"@ + zeros(padding) + digits;
    reveal_strlit("0x");
    lemma_written(a.0 as nat, digits);
    assert(full =~= "0x"@ + bare);
    assert forall|k: int| 0 <= k < bare.len() implies '\0' <= #[trigger] bare[k] <= '\u{7f}'
        && in_class(ByteClass::Hex, bare[k] as u8) by {
        if k >= padding {
            assert(bare[k] == digits[k - padding]);
        } else {
            assert(bare[k] == '0');
        }
    }
    assert forall|k: int| 0 <= k < full.len() implies '\0' <= #[trigger] full[k] <= '\u{7f}' by {
        if k >= 2 {
            assert(full[k] == bare[k - 2]);
        } else {
            assert(full[k] == "0x"@[k]);
        }
    }
    is_ascii_chars_encode_utf8(bare);
    is_ascii_chars_encode_utf8(full);
    is_ascii_chars_encode_utf8("0x"@);
    let b = encode_utf8(bare);
    let f = encode_utf8(full);
    let x = encode_utf8("0x"@);
    assert forall|k: int| 0 <= k < b.len() implies #[trigger] b[k] == bare[k] as u8 && in_class(
        ByteClass::Hex,
        b[k],
    ) by {}
    assert forall|k: int| 2 <= k < f.len() implies #[trigger] f[k] == bare[k - 2] as u8 && in_class(
        ByteClass::Hex,
        f[k],
    ) by {
        assert(full[k] == bare[k - 2]);
    }
    assert forall|k: int| 0 <= k < padding implies #[trigger] b[k] == 0x30 by {
        assert(bare[k] == '0');
    }
    assert forall|k: int| 2 <= k < 2 + padding implies #[trigger] f[k] == 0x30 by {
        assert(bare[k - 2] == '0');
    }
    assert forall|k: int| 0 <= k < digits.len() implies b[padding + k] == #[trigger] digits[k] as u8
        && f[2 + padding + k] == digits[k] as u8 by {
        assert(bare[padding + k] == digits[k]);
    }
    lemma_value(a.0 as nat, digits, b, 0, padding as int);
    lemma_value(a.0 as nat, digits, f, 2, 2 + padding as int);
    assert(full[0] == '0' && full[1] == 'x');
    assert(f[0] == x[0] && f[1] == x[1]);
    assert(f.subrange(0, 2) =~= x);
    if b.len() >= 2 {
        assert(b.subrange(0, 2)[1] == b[1]);
        assert(x[1] == 'x' as u8);
        assert(in_class(ByteClass::Hex, b[1]));
        assert(b.subrange(0, 2) != x);
    }
}

/// An address is read back from its own text.
pub proof fn law_an_address_is_read_back(a: Addr)
    ensures
        addr_in(addr_text(a)) == Some(a),
{
    let digits = written(a.0 as nat, 16);
    law_an_address_is_read_in_any_spelling(a, 0, digits);
    assert("0x"@ + zeros(0) + digits =~= addr_text(a));
}

// ---------------------------------------------------------------------------
// Tiers
// ---------------------------------------------------------------------------

/// A character with ASCII letters raised to upper case.
pub open spec fn upper_char(c: char) -> int {
    if 'a' <= c && c <= 'z' {
        c as int - 0x20
    } else {
        c as int
    }
}

/// Two words are the same when ASCII case is ignored.
pub open spec fn same_letters(v: Seq<char>, w: Seq<char>) -> bool {
    v.len() == w.len() && forall|k: int|
        0 <= k < v.len() ==> upper_char(#[trigger] v[k]) == upper_char(w[k])
}

spec fn same_raised(a: Seq<u8>, b: Seq<u8>) -> bool {
    a.len() == b.len() && forall|k: int| 0 <= k < a.len() ==> upper(#[trigger] a[k]) == upper(b[k])
}

proof fn lemma_same_raised(v: Seq<char>, w: Seq<char>)
    requires
        same_letters(v, w),
    ensures
        same_raised(encode_utf8(v), encode_utf8(w)),
    decreases v.len(),
{
    if v.len() > 0 {
        let p = v.drop_first();
        let q = w.drop_first();
        assert forall|k: int| 0 <= k < p.len() implies upper_char(#[trigger] p[k]) == upper_char(
            q[k],
        ) by {
            assert(p[k] == v[k + 1] && q[k] == w[k + 1]);
        }
        lemma_same_raised(p, q);
        let a = encode_scalar(v[0] as u32);
        let b = encode_scalar(w[0] as u32);
        assert(upper_char(v[0]) == upper_char(w[0]));
        if v[0] != w[0] {
            is_ascii_chars_encode_utf8(seq![v[0]]);
            is_ascii_chars_encode_utf8(seq![w[0]]);
            assert(seq![v[0]].drop_first() =~= Seq::<char>::empty());
            assert(seq![w[0]].drop_first() =~= Seq::<char>::empty());
            assert(encode_utf8(seq![v[0]]) =~= a);
            assert(encode_utf8(seq![w[0]]) =~= b);
            assert(seq![v[0]][0] == v[0]);
            assert(seq![w[0]][0] == w[0]);
            assert(a[0] == v[0] as u8 && b[0] == w[0] as u8);
        }
        assert(same_raised(a, b));
        let x = encode_utf8(v);
        let y = encode_utf8(w);
        assert forall|k: int| 0 <= k < x.len() implies upper(#[trigger] x[k]) == upper(y[k]) by {
            if k < a.len() {
                assert(x[k] == a[k] && y[k] == b[k]);
            } else {
                assert(x[k] == encode_utf8(p)[k - a.len()]);
                assert(y[k] == encode_utf8(q)[k - a.len()]);
            }
        }
    }
}

proof fn lemma_spelled(a: Seq<u8>, b: Seq<u8>, word: Seq<u8>)
    requires
        same_raised(a, b),
    ensures
        crate::model::spells(a, 0, a.len() as int, word) == crate::model::spells(
            b,
            0,
            b.len() as int,
            word,
        ),
{
    if crate::model::spells(a, 0, a.len() as int, word) {
        assert forall|k: int| 0 <= k < word.len() implies upper(b[0 + k]) == #[trigger] word[k] by {
            assert(upper(a[0 + k]) == word[k]);
        }
    }
    if crate::model::spells(b, 0, b.len() as int, word) {
        assert forall|k: int| 0 <= k < word.len() implies upper(a[0 + k]) == #[trigger] word[k] by {
            assert(upper(b[0 + k]) == word[k]);
        }
    }
}

/// A word that names a tier names it in any ASCII case.
pub proof fn law_case_does_not_matter(v: Seq<char>, w: Seq<char>)
    requires
        same_letters(v, w),
        !(tier_named(w) is Other),
    ensures
        tier_named(v) == tier_named(w),
{
    lemma_same_raised(v, w);
    let a = encode_utf8(v);
    let b = encode_utf8(w);
    lemma_spelled(a, b, "IGNITION".spec_bytes());
    lemma_spelled(a, b, "SPARKPLUG".spec_bytes());
    lemma_spelled(a, b, "BASELINE".spec_bytes());
    lemma_spelled(a, b, "MAGLEV".spec_bytes());
    lemma_spelled(a, b, "TURBOFAN".spec_bytes());
    lemma_spelled(a, b, "TURBOFAN_JS".spec_bytes());
    lemma_spelled(a, b, "TURBOLEV".spec_bytes());
}

/// A word that names no tier is kept as it is.
pub proof fn law_another_tier_is_kept_verbatim(word: Seq<char>)
    ensures
        tier_named(word) matches TierModel::Other(s) ==> s == word,
{
}

/// A word in capital letters spells itself.
proof fn lemma_capitals(word: Seq<char>)
    requires
        is_ascii_chars(word),
        forall|k: int| 0 <= k < word.len() ==> upper_char(#[trigger] word[k]) == word[k] as int,
    ensures
        ({
            let s = encode_utf8(word);
            crate::model::spells(s, 0, s.len() as int, s)
        }),
{
    is_ascii_chars_encode_utf8(word);
    let s = encode_utf8(word);
    assert forall|k: int| 0 <= k < s.len() implies upper(s[0 + k]) == #[trigger] s[k] by {
        assert(s[k] == word[k] as u8);
        assert(upper_char(word[k]) == word[k] as int);
    }
}

/// Two words of capital letters that differ at a place do not spell each other.
proof fn lemma_other_word(word: Seq<char>, other: Seq<char>, k: int)
    requires
        is_ascii_chars(word),
        is_ascii_chars(other),
        forall|k: int| 0 <= k < word.len() ==> upper_char(#[trigger] word[k]) == word[k] as int,
        word.len() != other.len() || (0 <= k < word.len() && word[k] != other[k]),
    ensures
        ({
            let s = encode_utf8(word);
            !crate::model::spells(s, 0, s.len() as int, encode_utf8(other))
        }),
{
    is_ascii_chars_encode_utf8(word);
    is_ascii_chars_encode_utf8(other);
    let s = encode_utf8(word);
    let t = encode_utf8(other);
    if word.len() == other.len() {
        assert(upper_char(word[k]) == word[k] as int);
        assert(s[k] == word[k] as u8 && t[k] == other[k] as u8);
        if crate::model::spells(s, 0, s.len() as int, t) {
            assert(upper(s[0 + k]) == t[k]);
        }
    }
}

proof fn lemma_ignition()
    ensures
        tier_named("Ignition"@) == TierModel::Ignition,
{
    reveal_strlit("Ignition");
    reveal_strlit("IGNITION");
    assert(same_letters("Ignition"@, "IGNITION"@));
    lemma_capitals("IGNITION"@);
    law_case_does_not_matter("Ignition"@, "IGNITION"@);
}

proof fn lemma_sparkplug()
    ensures
        tier_named("Sparkplug"@) == TierModel::Sparkplug,
{
    reveal_strlit("Sparkplug");
    reveal_strlit("SPARKPLUG");
    assert(same_letters("Sparkplug"@, "SPARKPLUG"@));
    reveal_strlit("IGNITION");
    lemma_other_word("SPARKPLUG"@, "IGNITION"@, 0);
    lemma_capitals("SPARKPLUG"@);
    law_case_does_not_matter("Sparkplug"@, "SPARKPLUG"@);
}

proof fn lemma_maglev()
    ensures
        tier_named("Maglev"@) == TierModel::Maglev,
{
    reveal_strlit("Maglev");
    reveal_strlit("MAGLEV");
    assert(same_letters("Maglev"@, "MAGLEV"@));
    reveal_strlit("IGNITION");
    lemma_other_word("MAGLEV"@, "IGNITION"@, 0);
    reveal_strlit("SPARKPLUG");
    lemma_other_word("MAGLEV"@, "SPARKPLUG"@, 0);
    reveal_strlit("BASELINE");
    lemma_other_word("MAGLEV"@, "BASELINE"@, 0);
    lemma_capitals("MAGLEV"@);
    law_case_does_not_matter("Maglev"@, "MAGLEV"@);
}

proof fn lemma_turbofan()
    ensures
        tier_named("Turbofan"@) == TierModel::Turbofan,
{
    reveal_strlit("Turbofan");
    reveal_strlit("TURBOFAN");
    assert(same_letters("Turbofan"@, "TURBOFAN"@));
    reveal_strlit("IGNITION");
    lemma_other_word("TURBOFAN"@, "IGNITION"@, 0);
    reveal_strlit("SPARKPLUG");
    lemma_other_word("TURBOFAN"@, "SPARKPLUG"@, 0);
    reveal_strlit("BASELINE");
    lemma_other_word("TURBOFAN"@, "BASELINE"@, 0);
    reveal_strlit("MAGLEV");
    lemma_other_word("TURBOFAN"@, "MAGLEV"@, 0);
    lemma_capitals("TURBOFAN"@);
    law_case_does_not_matter("Turbofan"@, "TURBOFAN"@);
}

proof fn lemma_turbolev()
    ensures
        tier_named("Turbolev"@) == TierModel::Turbolev,
{
    reveal_strlit("Turbolev");
    reveal_strlit("TURBOLEV");
    assert(same_letters("Turbolev"@, "TURBOLEV"@));
    reveal_strlit("IGNITION");
    lemma_other_word("TURBOLEV"@, "IGNITION"@, 0);
    reveal_strlit("SPARKPLUG");
    lemma_other_word("TURBOLEV"@, "SPARKPLUG"@, 0);
    reveal_strlit("BASELINE");
    lemma_other_word("TURBOLEV"@, "BASELINE"@, 0);
    reveal_strlit("MAGLEV");
    lemma_other_word("TURBOLEV"@, "MAGLEV"@, 0);
    reveal_strlit("TURBOFAN");
    lemma_other_word("TURBOLEV"@, "TURBOFAN"@, 5);
    reveal_strlit("TURBOFAN_JS");
    lemma_other_word("TURBOLEV"@, "TURBOFAN_JS"@, 0);
    lemma_capitals("TURBOLEV"@);
    law_case_does_not_matter("Turbolev"@, "TURBOLEV"@);
}

/// The name that is shown for a tier names that tier.
pub proof fn law_a_label_names_its_tier(word: Seq<char>)
    ensures
        tier_named(tier_label(tier_named(word))) == tier_named(word),
{
    lemma_ignition();
    lemma_sparkplug();
    lemma_maglev();
    lemma_turbofan();
    lemma_turbolev();
}

} // verus!
