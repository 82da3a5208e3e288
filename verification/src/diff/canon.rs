//! Masking of what varies from run to run, so that two dumps of the same
//! thing compare equal.

use vstd::prelude::*;

verus! {

/// An ASCII digit.
pub open spec fn is_digit_char(c: char) -> bool {
    '0' <= c && c <= '9'
}

/// An ASCII hexadecimal digit.
pub open spec fn is_hex_char(c: char) -> bool {
    is_digit_char(c) || ('a' <= c && c <= 'f') || ('A' <= c && c <= 'F')
}

/// Indentation and the glyphs of the control-flow gutter: layout, not
/// content.
pub open spec fn is_gutter(c: char) -> bool {
    c == ' ' || c == '│' || c == '╭' || c == '╰' || c == '╮' || c == '╯' || c == '─' || c == '►'
        || c == '◄' || c == '↓' || c == '▼' || c == '▲' || c == '═'
}

fn gutter(c: char) -> (yes: bool)
    ensures
        yes == is_gutter(c),
{
    c == ' ' || c == '│' || c == '╭' || c == '╰' || c == '╮' || c == '╯' || c == '─' || c == '►'
        || c == '◄' || c == '↓' || c == '▼' || c == '▲' || c == '═'
}

/// Where the gutter ends.
pub open spec fn gutter_end(s: Seq<char>, i: int) -> int
    decreases s.len() - i,
{
    if 0 <= i < s.len() && is_gutter(s[i]) {
        gutter_end(s, i + 1)
    } else {
        i
    }
}

/// Where a run of digits ends.
pub open spec fn digits_end(s: Seq<char>, i: int) -> int
    decreases s.len() - i,
{
    if 0 <= i < s.len() && is_digit_char(s[i]) {
        digits_end(s, i + 1)
    } else {
        i
    }
}

/// Where a run of hexadecimal digits ends.
pub open spec fn hex_end(s: Seq<char>, i: int) -> int
    decreases s.len() - i,
{
    if 0 <= i < s.len() && is_hex_char(s[i]) {
        hex_end(s, i + 1)
    } else {
        i
    }
}

/// The character at `i` is `c`.
pub open spec fn char_is(s: Seq<char>, i: int, c: char) -> bool {
    0 <= i < s.len() && s[i] == c
}

/// Where the content starts: behind the gutter, and behind a `[ML:1234] `
/// prefix, which names a compilation of one run.
pub open spec fn content_from(s: Seq<char>) -> int {
    let g = gutter_end(s, 0);
    let e = digits_end(s, g + 4);
    if char_is(s, g, '[') && char_is(s, g + 1, 'M') && char_is(s, g + 2, 'L') && char_is(
        s,
        g + 3,
        ':',
    ) && char_is(s, e, ']') && char_is(s, e + 1, ' ') {
        e + 2
    } else {
        g
    }
}

/// The text from `i` on, with `0x…` addresses written `0x·` and decimals
/// with a fraction, which are timings, written `·`.
pub open spec fn masked_from(s: Seq<char>, i: int) -> Seq<char>
    decreases s.len() - i,
{
    if i < 0 || i >= s.len() {
        Seq::empty()
    } else {
        let hex = hex_end(s, i + 2);
        let whole = digits_end(s, i);
        let fraction = digits_end(s, whole + 1);
        if s[i] == '0' && char_is(s, i + 1, 'x') && i + 2 < hex <= s.len() {
            seq!['0', 'x', '·'] + masked_from(s, hex)
        } else if i < whole <= s.len() {
            if char_is(s, whole, '.') && whole + 1 < fraction <= s.len() {
                seq!['·'] + masked_from(s, fraction)
            } else {
                s.subrange(i, whole) + masked_from(s, whole)
            }
        } else {
            seq![s[i]] + masked_from(s, i + 1)
        }
    }
}

/// The canonical form of a line.
pub open spec fn canonical(s: Seq<char>) -> Seq<char> {
    masked_from(s, content_from(s))
}

proof fn lemma_digits_end(s: Seq<char>, i: int)
    requires
        0 <= i,
    ensures
        i <= digits_end(s, i),
        i <= s.len() ==> digits_end(s, i) <= s.len(),
        i > s.len() ==> digits_end(s, i) == i,
    decreases s.len() - i,
{
    if 0 <= i < s.len() && is_digit_char(s[i]) {
        lemma_digits_end(s, i + 1);
    }
}

/// The characters of a text.
pub fn chars_of(text: &str) -> (chars: Vec<char>)
    ensures
        chars@ == text@,
{
    let mut chars: Vec<char> = Vec::new();
    for c in it: text.chars()
        invariant
            it.seq() == text@,
            chars@ == text@.take(it.index()),
    {
        chars.push(c);
        assert(chars@ =~= text@.take(it.index() + 1));
    }
    assert(text@.take(text@.len() as int) =~= text@);
    chars
}

fn skip_digits(s: &Vec<char>, i: usize) -> (end: usize)
    requires
        i <= s@.len(),
    ensures
        end == digits_end(s@, i as int),
        i <= end <= s@.len(),
{
    let mut k: usize = i;
    while k < s.len() && '0' <= s[k] && s[k] <= '9'
        invariant
            i <= k <= s@.len(),
            digits_end(s@, i as int) == digits_end(s@, k as int),
        decreases s.len() - k,
    {
        k += 1;
    }
    k
}

fn skip_hex(s: &Vec<char>, i: usize) -> (end: usize)
    requires
        i <= s@.len(),
    ensures
        end == hex_end(s@, i as int),
        i <= end <= s@.len(),
{
    let mut k: usize = i;
    while k < s.len() && (('0' <= s[k] && s[k] <= '9') || ('a' <= s[k] && s[k] <= 'f') || ('A'
        <= s[k] && s[k] <= 'F'))
        invariant
            i <= k <= s@.len(),
            hex_end(s@, i as int) == hex_end(s@, k as int),
        decreases s.len() - k,
    {
        k += 1;
    }
    k
}

/// The end of the gutter of a line.
pub(crate) fn find_gutter_end(s: &Vec<char>) -> (g: usize)
    ensures
        g == gutter_end(s@, 0),
        g <= s@.len(),
{
    let n: usize = s.len();
    let mut g: usize = 0;
    while g < n && gutter(s[g])
        invariant
            n == s@.len(),
            g <= n,
            gutter_end(s@, 0) == gutter_end(s@, g as int),
        decreases n - g,
    {
        g += 1;
    }
    g
}

fn content_start(s: &Vec<char>) -> (at: usize)
    ensures
        at == content_from(s@),
        at <= s@.len(),
{
    let n: usize = s.len();
    let g: usize = find_gutter_end(s);
    if n - g > 4 && s[g] == '[' && s[g + 1] == 'M' && s[g + 2] == 'L' && s[g + 3] == ':' {
        let e: usize = skip_digits(s, g + 4);
        if n - e > 1 && s[e] == ']' && s[e + 1] == ' ' {
            return e + 2;
        }
    }
    proof {
        lemma_digits_end(s@, g + 4);
    }
    g
}

/// The canonical form of a line: without indentation, gutter and `[ML:n]`
/// prefix, with addresses and timings masked. Node ids stay.
pub fn canonicalize(text: &str) -> (out: String)
    ensures
        out@ == canonical(text@),
{
    let s = chars_of(text);
    let n: usize = s.len();
    let mut out = String::new();
    let mut i: usize = content_start(&s);
    assert(out@ + masked_from(s@, i as int) =~= masked_from(s@, i as int));
    while i < n
        invariant
            n == s@.len(),
            i <= n,
            out@ + masked_from(s@, i as int) == canonical(s@),
        decreases n - i,
    {
        let ghost before = out@;
        if s[i] == '0' && n - i > 1 && s[i + 1] == 'x' {
            let end: usize = skip_hex(&s, i + 2);
            if end > i + 2 {
                out.push('0');
                out.push('x');
                out.push('·');
                assert(out@ + masked_from(s@, end as int) =~= before + (seq!['0', 'x', '·']
                    + masked_from(s@, end as int)));
                i = end;
                continue ;
            }
        }
        let end: usize = skip_digits(&s, i);
        if end > i {
            if n - end > 1 && s[end] == '.' {
                let fraction: usize = skip_digits(&s, end + 1);
                if fraction > end + 1 {
                    out.push('·');
                    assert(out@ + masked_from(s@, fraction as int) =~= before + (seq!['·']
                        + masked_from(s@, fraction as int)));
                    i = fraction;
                    continue ;
                }
            }
            proof {
                lemma_digits_end(s@, end + 1);
                assert(before + masked_from(s@, i as int) == canonical(s@));
                assert(masked_from(s@, i as int) == s@.subrange(i as int, end as int) + masked_from(
                    s@,
                    end as int,
                ));
            }
            let mut k: usize = i;
            assert(before + s@.subrange(i as int, i as int) =~= before);
            while k < end
                invariant
                    i <= k <= end <= s@.len(),
                    out@ == before + s@.subrange(i as int, k as int),
                decreases end - k,
            {
                out.push(s[k]);
                assert(out@ =~= before + s@.subrange(i as int, k + 1));
                k += 1;
            }
            assert(out@ + masked_from(s@, end as int) =~= before + (s@.subrange(i as int, end as int)
                + masked_from(s@, end as int)));
            i = end;
            continue ;
        }
        out.push(s[i]);
        assert(out@ + masked_from(s@, i + 1) =~= before + (seq![s@[i as int]] + masked_from(
            s@,
            i + 1,
        )));
        i += 1;
    }
    assert(out@ + masked_from(s@, i as int) =~= out@);
    out
}

proof fn lemma_shifted_runs(g: Seq<char>, s: Seq<char>, i: int)
    requires
        0 <= i,
    ensures
        digits_end(g + s, g.len() + i) == g.len() + digits_end(s, i),
        hex_end(g + s, g.len() + i) == g.len() + hex_end(s, i),
        gutter_end(g + s, g.len() + i) == g.len() + gutter_end(s, i),
    decreases s.len() - i,
{
    if i < s.len() {
        assert((g + s)[g.len() + i] == s[i]);
        lemma_shifted_runs(g, s, i + 1);
    }
}

proof fn lemma_shifted_mask(g: Seq<char>, s: Seq<char>, i: int)
    requires
        0 <= i,
    ensures
        masked_from(g + s, g.len() + i) == masked_from(s, i),
    decreases s.len() - i,
{
    if i < s.len() {
        let t = g + s;
        let k = g.len() + i;
        assert(t[k] == s[i]);
        assert(i + 1 < s.len() ==> t[k + 1] == s[i + 1]);
        lemma_shifted_runs(g, s, i + 2);
        lemma_shifted_runs(g, s, i);
        lemma_digits_end(s, i);
        let hex = hex_end(s, i + 2);
        let whole = digits_end(s, i);
        lemma_shifted_runs(g, s, whole + 1);
        let fraction = digits_end(s, whole + 1);
        assert(whole < s.len() ==> t[g.len() + whole] == s[whole]);
        if i + 2 < hex <= s.len() {
            lemma_shifted_mask(g, s, hex);
        }
        if i < whole {
            lemma_shifted_mask(g, s, whole);
            assert(t.subrange(k, g.len() + whole) =~= s.subrange(i, whole));
            if whole + 1 < fraction <= s.len() {
                lemma_shifted_mask(g, s, fraction);
            }
        }
        lemma_shifted_mask(g, s, i + 1);
    }
}

proof fn lemma_gutter_run(g: Seq<char>, s: Seq<char>, i: int)
    requires
        0 <= i <= g.len(),
        forall|k: int| 0 <= k < g.len() ==> is_gutter(#[trigger] g[k]),
    ensures
        gutter_end(g + s, i) == g.len() + gutter_end(s, 0),
    decreases g.len() - i,
{
    if i < g.len() {
        assert((g + s)[i] == g[i]);
        lemma_gutter_run(g, s, i + 1);
    } else {
        lemma_shifted_runs(g, s, 0);
    }
}

/// Indentation and gutter glyphs in front of a line do not change its
/// canonical form.
pub proof fn law_indentation_is_layout(gutter: Seq<char>, s: Seq<char>)
    requires
        forall|k: int| 0 <= k < gutter.len() ==> is_gutter(#[trigger] gutter[k]),
    ensures
        canonical(gutter + s) == canonical(s),
{
    let t = gutter + s;
    let g = gutter_end(s, 0);
    lemma_gutter_run(gutter, s, 0);
    lemma_gutter_stop(s, 0);
    lemma_shifted_runs(gutter, s, g + 4);
    lemma_digits_end(s, g + 4);
    let e = digits_end(s, g + 4);
    assert forall|k: int, c: char| 0 <= k implies char_is(t, gutter.len() + k, c) == char_is(
        s,
        k,
        c,
    ) by {
        if k < s.len() {
            assert(t[gutter.len() + k] == s[k]);
        }
    }
    assert(char_is(t, gutter.len() + g, '[') == char_is(s, g, '['));
    assert(char_is(t, gutter.len() + (g + 1), 'M') == char_is(s, g + 1, 'M'));
    assert(char_is(t, gutter.len() + (g + 2), 'L') == char_is(s, g + 2, 'L'));
    assert(char_is(t, gutter.len() + (g + 3), ':') == char_is(s, g + 3, ':'));
    assert(char_is(t, gutter.len() + e, ']') == char_is(s, e, ']'));
    assert(char_is(t, gutter.len() + (e + 1), ' ') == char_is(s, e + 1, ' '));
    assert(content_from(t) == gutter.len() + content_from(s));
    lemma_shifted_mask(gutter, s, content_from(s));
}

// ---------------------------------------------------------------------------
// Addresses and timings do not matter
// ---------------------------------------------------------------------------

/// A character in front of which a number or an address can start.
pub open spec fn parts_words(c: char) -> bool {
    !is_digit_char(c) && !('a' <= c && c <= 'z') && !('A' <= c && c <= 'Z') && c != '.'
}

proof fn lemma_runs_within(a: Seq<char>, t: Seq<char>, i: int)
    requires
        0 <= i < a.len(),
        parts_words(a.last()),
    ensures
        i <= digits_end(a + t, i) < a.len(),
        digits_end(a + t, i) == digits_end(a, i),
        i <= hex_end(a + t, i) < a.len(),
        hex_end(a + t, i) == hex_end(a, i),
    decreases a.len() - i,
{
    assert((a + t)[i] == a[i]);
    if i < a.len() - 1 {
        lemma_runs_within(a, t, i + 1);
    }
}

/// `t` starts with a digit, and not with the number of a prefix.
spec fn marked(t: Seq<char>) -> bool {
    t.len() > 0 && is_digit_char(t[0]) && !char_is(t, digits_end(t, 0), ']')
}

proof fn lemma_mask_before(a: Seq<char>, t: Seq<char>, u: Seq<char>, i: int)
    requires
        0 <= i <= a.len(),
        a.len() > 0 ==> parts_words(a.last()),
        marked(t),
        marked(u),
        masked_from(t, 0) == masked_from(u, 0),
    ensures
        masked_from(a + t, i) == masked_from(a + u, i),
    decreases a.len() - i,
{
    let p = a + t;
    let q = a + u;
    if i == a.len() {
        lemma_shifted_mask(a, t, 0);
        lemma_shifted_mask(a, u, 0);
    } else {
        assert(p[i] == a[i] && q[i] == a[i]);
        assert(p[a.len() as int] == t[0] && q[a.len() as int] == u[0]);
        assert(i + 1 < a.len() ==> p[i + 1] == a[i + 1] && q[i + 1] == a[i + 1]);
        lemma_runs_within(a, t, i);
        lemma_runs_within(a, u, i);
        let whole = digits_end(a, i);
        assert(p[whole] == a[whole] && q[whole] == a[whole]);
        if a[i] == '0' && char_is(p, i + 1, 'x') {
            assert(i + 2 < a.len());
            lemma_runs_within(a, t, i + 2);
            lemma_runs_within(a, u, i + 2);
            lemma_mask_before(a, t, u, hex_end(a, i + 2));
        }
        if i < whole {
            if a[whole] == '.' {
                assert(whole + 1 < a.len());
                lemma_runs_within(a, t, whole + 1);
                lemma_runs_within(a, u, whole + 1);
                lemma_mask_before(a, t, u, digits_end(a, whole + 1));
            }
            assert(p.subrange(i, whole) =~= q.subrange(i, whole));
            lemma_mask_before(a, t, u, whole);
        }
        lemma_mask_before(a, t, u, i + 1);
    }
}

proof fn lemma_gutter_before(a: Seq<char>, t: Seq<char>, i: int)
    requires
        0 <= i <= a.len(),
        marked(t),
    ensures
        gutter_end(a + t, i) == gutter_end(a, i),
        i <= gutter_end(a, i) <= a.len(),
    decreases a.len() - i,
{
    if i < a.len() {
        assert((a + t)[i] == a[i]);
        lemma_gutter_before(a, t, i + 1);
    } else {
        assert((a + t)[i] == t[0]);
    }
}

/// The content starts in front of what follows `a`, whatever that is.
proof fn lemma_content_before(a: Seq<char>, t: Seq<char>, u: Seq<char>)
    requires
        a.len() > 0 ==> parts_words(a.last()),
        marked(t),
        marked(u),
    ensures
        0 <= content_from(a + t) <= a.len(),
        content_from(a + t) == content_from(a + u),
{
    lemma_gutter_before(a, t, 0);
    lemma_gutter_before(a, u, 0);
    let g = gutter_end(a, 0);
    assert forall|k: int| 0 <= k < a.len() implies (a + t)[k] == a[k] && (a + u)[k] == a[k] by {}
    assert((a + t)[a.len() as int] == t[0] && (a + u)[a.len() as int] == u[0]);
    if g + 4 < a.len() {
        lemma_runs_within(a, t, g + 4);
        lemma_runs_within(a, u, g + 4);
    } else if g + 4 == a.len() {
        lemma_shifted_runs(a, t, 0);
        lemma_shifted_runs(a, u, 0);
        lemma_runs(t, 0);
        lemma_runs(u, 0);
        let e = digits_end(t, 0);
        let f = digits_end(u, 0);
        assert(e < t.len() ==> (a + t)[a.len() + e] == t[e]);
        assert(f < u.len() ==> (a + u)[a.len() + f] == u[f]);
    } else {
        assert(!(char_is(a + t, g, '[') && char_is(a + t, g + 1, 'M') && char_is(a + t, g + 2, 'L')
            && char_is(a + t, g + 3, ':')));
        assert(!(char_is(a + u, g, '[') && char_is(a + u, g + 1, 'M') && char_is(a + u, g + 2, 'L')
            && char_is(a + u, g + 3, ':')));
    }
}

proof fn lemma_hex_run(h: Seq<char>, b: Seq<char>, i: int)
    requires
        0 <= i <= h.len(),
        forall|k: int| 0 <= k < h.len() ==> is_hex_char(#[trigger] h[k]),
        b.len() > 0 ==> !is_hex_char(b[0]),
    ensures
        hex_end(h + b, i) == h.len(),
    decreases h.len() - i,
{
    if i < h.len() {
        assert((h + b)[i] == h[i]);
        lemma_hex_run(h, b, i + 1);
    } else if b.len() > 0 {
        assert((h + b)[i] == b[0]);
    }
}

/// An address is written `0x·`, whatever its digits are.
proof fn lemma_address_masked(h: Seq<char>, b: Seq<char>)
    requires
        h.len() > 0,
        forall|k: int| 0 <= k < h.len() ==> is_hex_char(#[trigger] h[k]),
        b.len() > 0 ==> !is_hex_char(b[0]),
    ensures
        marked(seq!['0', 'x'] + h + b),
        masked_from(seq!['0', 'x'] + h + b, 0) == seq!['0', 'x', '·'] + masked_from(b, 0),
{
    let x = seq!['0', 'x'];
    let t = x + h + b;
    assert(t =~= x + (h + b));
    lemma_hex_run(h, b, 0);
    lemma_shifted_runs(x, h + b, 0);
    assert(hex_end(t, 2) == 2 + h.len());
    assert(t[0] == '0' && t[1] == 'x');
    assert(digits_end(t, 1) == 1);
    assert(digits_end(t, 0) == 1);
    assert(t =~= (x + h) + b);
    lemma_shifted_mask(x + h, b, 0);
}

/// Two lines that differ in the digits of an address alone have the same
/// canonical form. The address does not stand behind a letter, a digit or a
/// point, with which it would be something else.
pub proof fn law_addresses_do_not_matter(
    a: Seq<char>,
    first: Seq<char>,
    second: Seq<char>,
    b: Seq<char>,
)
    requires
        a.len() > 0 ==> parts_words(a.last()),
        first.len() > 0,
        forall|k: int| 0 <= k < first.len() ==> is_hex_char(#[trigger] first[k]),
        second.len() > 0,
        forall|k: int| 0 <= k < second.len() ==> is_hex_char(#[trigger] second[k]),
        b.len() > 0 ==> !is_hex_char(b[0]),
    ensures
        canonical(a + "0x"@ + first + b) == canonical(a + "0x"@ + second + b),
{
    reveal_strlit("0x");
    assert("0x"@ =~= seq!['0', 'x']);
    let t = seq!['0', 'x'] + first + b;
    let u = seq!['0', 'x'] + second + b;
    lemma_address_masked(first, b);
    lemma_address_masked(second, b);
    lemma_same_form(a, t, u);
    assert(a + "0x"@ + first + b =~= a + t);
    assert(a + "0x"@ + second + b =~= a + u);
}

/// A timing is written `·`, whatever its digits are.
proof fn lemma_timing_masked(whole: Seq<char>, fraction: Seq<char>, b: Seq<char>)
    requires
        whole.len() > 0,
        forall|k: int| 0 <= k < whole.len() ==> is_digit_char(#[trigger] whole[k]),
        fraction.len() > 0,
        forall|k: int| 0 <= k < fraction.len() ==> is_digit_char(#[trigger] fraction[k]),
        b.len() > 0 ==> !is_digit_char(b[0]),
    ensures
        marked(whole + seq!['.'] + fraction + b),
        masked_from(whole + seq!['.'] + fraction + b, 0) == seq!['·'] + masked_from(b, 0),
{
    let t = whole + seq!['.'] + fraction + b;
    let n = whole.len() as int;
    let rest = seq!['.'] + (fraction + b);
    assert(t =~= whole + rest);
    lemma_digit_run(whole, rest, 0);
    assert(t[n] == '.');
    assert(t[0] == whole[0]);
    let head = whole + seq!['.'];
    assert(t =~= head + (fraction + b));
    lemma_digit_run(fraction, b, 0);
    lemma_shifted_runs(head, fraction + b, 0);
    assert(digits_end(t, n + 1) == n + 1 + fraction.len());
    assert(t =~= (head + fraction) + b);
    lemma_shifted_mask(head + fraction, b, 0);
    if n > 1 {
        assert(t[1] == whole[1]);
    }
}

proof fn lemma_same_form(a: Seq<char>, t: Seq<char>, u: Seq<char>)
    requires
        a.len() > 0 ==> parts_words(a.last()),
        marked(t),
        marked(u),
        masked_from(t, 0) == masked_from(u, 0),
    ensures
        canonical(a + t) == canonical(a + u),
{
    lemma_content_before(a, t, u);
    lemma_mask_before(a, t, u, content_from(a + t));
}

/// A timing: digits, a point and digits.
pub open spec fn is_timing(s: Seq<char>) -> bool {
    exists|n: int|
        0 < n < s.len() - 1 && #[trigger] s[n] == '.' && forall|k: int|
            0 <= k < s.len() && k != n ==> is_digit_char(#[trigger] s[k])
}

/// Two lines that differ in a timing alone have the same canonical form. The
/// timing does not stand behind a letter, a digit or a point, with which it
/// would be something else, nor in front of a digit.
pub proof fn law_timings_do_not_matter(
    a: Seq<char>,
    first: Seq<char>,
    second: Seq<char>,
    b: Seq<char>,
)
    requires
        a.len() > 0 ==> parts_words(a.last()),
        is_timing(first),
        is_timing(second),
        b.len() > 0 ==> !is_digit_char(b[0]),
    ensures
        canonical(a + first + b) == canonical(a + second + b),
{
    lemma_timing_in_front(first, b);
    lemma_timing_in_front(second, b);
    lemma_same_form(a, first + b, second + b);
    assert(a + first + b =~= a + (first + b));
    assert(a + second + b =~= a + (second + b));
}

proof fn lemma_timing_in_front(s: Seq<char>, b: Seq<char>)
    requires
        is_timing(s),
        b.len() > 0 ==> !is_digit_char(b[0]),
    ensures
        marked(s + b),
        masked_from(s + b, 0) == seq!['·'] + masked_from(b, 0),
{
    let n = choose|n: int|
        0 < n < s.len() - 1 && #[trigger] s[n] == '.' && forall|k: int|
            0 <= k < s.len() && k != n ==> is_digit_char(#[trigger] s[k]);
    let whole = s.take(n);
    let fraction = s.skip(n + 1);
    assert forall|k: int| 0 <= k < whole.len() implies is_digit_char(#[trigger] whole[k]) by {
        assert(whole[k] == s[k]);
    }
    assert forall|k: int| 0 <= k < fraction.len() implies is_digit_char(#[trigger] fraction[k]) by {
        assert(fraction[k] == s[n + 1 + k]);
    }
    lemma_timing_masked(whole, fraction, b);
    assert(whole + seq!['.'] + fraction + b =~= s + b);
}

// ---------------------------------------------------------------------------
// The canonical form is stable
// ---------------------------------------------------------------------------

proof fn lemma_runs(s: Seq<char>, i: int)
    requires
        0 <= i <= s.len(),
    ensures
        i <= digits_end(s, i) <= s.len(),
        forall|k: int| i <= k < digits_end(s, i) ==> is_digit_char(#[trigger] s[k]),
        digits_end(s, i) < s.len() ==> !is_digit_char(s[digits_end(s, i)]),
        i <= hex_end(s, i) <= s.len(),
    decreases s.len() - i,
{
    if i < s.len() {
        lemma_runs(s, i + 1);
    }
}

/// How a masked text starts.
proof fn lemma_masked_start(s: Seq<char>, i: int)
    requires
        0 <= i <= s.len(),
    ensures
        masked_from(s, i).len() > 0 <==> i < s.len(),
        i < s.len() && !is_digit_char(s[i]) ==> masked_from(s, i) == seq![s[i]] + masked_from(
            s,
            i + 1,
        ),
        i < s.len() && is_digit_char(s[i]) ==> masked_from(s, i)[0] == '·' || is_digit_char(
            masked_from(s, i)[0],
        ),
{
    if i < s.len() {
        lemma_runs(s, i);
        if !is_digit_char(s[i]) {
            assert(digits_end(s, i) == i);
        } else {
            assert(digits_end(s, i) > i) by {
                lemma_runs(s, i + 1);
            }
        }
    }
}

proof fn lemma_digit_run(d: Seq<char>, r: Seq<char>, i: int)
    requires
        0 <= i <= d.len(),
        forall|k: int| 0 <= k < d.len() ==> is_digit_char(#[trigger] d[k]),
        r.len() > 0 ==> !is_digit_char(r[0]),
    ensures
        digits_end(d + r, i) == d.len(),
    decreases d.len() - i,
{
    if i < d.len() {
        assert((d + r)[i] == d[i]);
        lemma_digit_run(d, r, i + 1);
    } else if r.len() > 0 {
        assert((d + r)[i] == r[0]);
    }
}

/// A character that is no digit stands for itself.
proof fn lemma_literal_kept(c: char, r: Seq<char>)
    requires
        !is_digit_char(c),
    ensures
        masked_from(seq![c] + r, 0) == seq![c] + masked_from(r, 0),
{
    lemma_shifted_mask(seq![c], r, 0);
    assert((seq![c] + r)[0] == c);
    assert(digits_end(seq![c] + r, 0) == 0);
}

proof fn lemma_number_kept(s: Seq<char>, i: int)
    requires
        0 <= i < s.len(),
        ({
            let hex = hex_end(s, i + 2);
            let whole = digits_end(s, i);
            let fraction = digits_end(s, whole + 1);
            &&& !(s[i] == '0' && char_is(s, i + 1, 'x') && i + 2 < hex <= s.len())
            &&& i < whole
            &&& !(char_is(s, whole, '.') && whole + 1 < fraction <= s.len())
        }),
    ensures
        ({
            let whole = digits_end(s, i);
            let d = s.subrange(i, whole);
            masked_from(d + masked_from(s, whole), 0) == d + masked_from(
                masked_from(s, whole),
                0,
            )
        }),
{
    lemma_runs(s, i);
    let whole = digits_end(s, i);
    let d = s.subrange(i, whole);
    let r = masked_from(s, whole);
    let out = d + r;
    let n = d.len() as int;
    lemma_masked_start(s, whole);
    assert(r.len() > 0 ==> r[0] == s[whole]);
    lemma_digit_run(d, r, 0);
    lemma_shifted_mask(d, r, 0);
    assert(out.subrange(0, n) =~= d);
    assert(out[0] == s[i]);
    if r.len() > 0 {
        assert(out[n] == s[whole]);
        lemma_masked_start(s, whole + 1);
        if whole + 1 < s.len() {
            assert(out[n + 1] == masked_from(s, whole + 1)[0]);
            lemma_runs(s, whole + 1);
        }
        if n == 1 && s[i] == '0' && s[whole] == 'x' {
            if whole + 1 < s.len() && is_hex_char(out[2]) {
                assert(is_hex_char(s[whole + 1]));
                lemma_runs(s, whole + 2);
                assert(hex_end(s, whole + 1) > whole + 1);
                assert(false);
            }
            assert(hex_end(out, 2) == 2);
        }
        if s[whole] == '.' {
            if whole + 1 < s.len() && is_digit_char(out[n + 1]) {
                assert(is_digit_char(s[whole + 1]));
                lemma_runs(s, whole + 2);
                assert(digits_end(s, whole + 1) > whole + 1);
                assert(false);
            }
            assert(digits_end(out, n + 1) == n + 1);
        }
    }
    if n > 1 {
        assert(out[1] == s[i + 1]);
    }
    assert(!(out[0] == '0' && char_is(out, 1, 'x') && 2 < hex_end(out, 2) <= out.len()));
}

proof fn lemma_mask_is_stable(s: Seq<char>, i: int)
    requires
        0 <= i <= s.len(),
    ensures
        masked_from(masked_from(s, i), 0) == masked_from(s, i),
    decreases s.len() - i,
{
    if i < s.len() {
        let hex = hex_end(s, i + 2);
        let whole = digits_end(s, i);
        let fraction = digits_end(s, whole + 1);
        lemma_runs(s, i);
        if s[i] == '0' && char_is(s, i + 1, 'x') && i + 2 < hex <= s.len() {
            lemma_mask_is_stable(s, hex);
            let r = masked_from(s, hex);
            let x = seq!['x'] + (seq!['·'] + r);
            lemma_literal_kept('·', r);
            lemma_literal_kept('x', seq!['·'] + r);
            let out = seq!['0', 'x', '·'] + r;
            assert(out =~= seq!['0'] + x);
            lemma_shifted_mask(seq!['0'], x, 0);
            assert(out[0] == '0' && out[1] == 'x' && out[2] == '·');
            assert(hex_end(out, 2) == 2);
            assert(digits_end(out, 1) == 1);
            assert(digits_end(out, 0) == 1);
            assert(out.subrange(0, 1) =~= seq!['0']);
            assert(masked_from(out, 0) =~= seq!['0'] + masked_from(out, 1));
        } else if i < whole {
            if char_is(s, whole, '.') && whole + 1 < fraction <= s.len() {
                lemma_mask_is_stable(s, fraction);
                lemma_literal_kept('·', masked_from(s, fraction));
            } else {
                lemma_mask_is_stable(s, whole);
                lemma_number_kept(s, i);
            }
        } else {
            lemma_mask_is_stable(s, i + 1);
            lemma_literal_kept(s[i], masked_from(s, i + 1));
        }
    }
}

/// A masked text that starts with a character that masking does not write
/// starts as the text does.
proof fn lemma_same_start(s: Seq<char>, i: int, c: char)
    requires
        0 <= i <= s.len(),
        char_is(masked_from(s, i), 0, c),
        !is_digit_char(c),
        c != '·',
    ensures
        char_is(s, i, c),
        masked_from(s, i) == seq![c] + masked_from(s, i + 1),
{
    lemma_masked_start(s, i);
}

proof fn lemma_gutter_stop(s: Seq<char>, i: int)
    requires
        0 <= i <= s.len(),
    ensures
        i <= gutter_end(s, i) <= s.len(),
        gutter_end(s, i) < s.len() ==> !is_gutter(s[gutter_end(s, i)]),
    decreases s.len() - i,
{
    if i < s.len() && is_gutter(s[i]) {
        lemma_gutter_stop(s, i + 1);
    }
}

/// `[ML:` stands at `i`.
pub open spec fn prefix_at(s: Seq<char>, i: int) -> bool {
    char_is(s, i, '[') && char_is(s, i + 1, 'M') && char_is(s, i + 2, 'L') && char_is(
        s,
        i + 3,
        ':',
    )
}

proof fn lemma_prefix_stays(s: Seq<char>, i: int)
    requires
        0 <= i <= s.len(),
        prefix_at(masked_from(s, i), 0),
    ensures
        prefix_at(s, i),
        masked_from(s, i) == seq!['[', 'M', 'L', ':'] + masked_from(s, i + 4),
{
    let m = masked_from(s, i);
    lemma_same_start(s, i, '[');
    assert(m[1] == masked_from(s, i + 1)[0]);
    lemma_masked_start(s, i + 1);
    lemma_same_start(s, i + 1, 'M');
    assert(m[2] == masked_from(s, i + 2)[0]);
    lemma_masked_start(s, i + 2);
    lemma_same_start(s, i + 2, 'L');
    assert(m[3] == masked_from(s, i + 3)[0]);
    lemma_masked_start(s, i + 3);
    lemma_same_start(s, i + 3, ':');
    assert(m =~= seq!['[', 'M', 'L', ':'] + masked_from(s, i + 4));
}

/// A number with `] ` behind it in a masked text stands in the text too.
proof fn lemma_number_stays(s: Seq<char>, i: int)
    requires
        0 <= i <= s.len(),
        ({
            let m = masked_from(s, i);
            let e = digits_end(m, 0);
            char_is(m, e, ']') && char_is(m, e + 1, ' ')
        }),
    ensures
        char_is(s, digits_end(s, i), ']') && char_is(s, digits_end(s, i) + 1, ' '),
{
    let m = masked_from(s, i);
    let whole = digits_end(s, i);
    lemma_masked_start(s, i);
    lemma_runs(s, i);
    lemma_masked_start(s, whole);
    let r = masked_from(s, whole);
    let d = s.subrange(i, whole);
    lemma_digit_run(d, r, 0);
    if s[i] == '0' && char_is(s, i + 1, 'x') && i + 2 < hex_end(s, i + 2) <= s.len() {
        assert(m[0] == '0' && m[1] == 'x');
        assert(digits_end(m, 1) == 1);
        assert(digits_end(m, 0) == 1);
    } else if i < whole && char_is(s, whole, '.') && whole + 1 < digits_end(s, whole + 1)
        <= s.len() {
        assert(m[0] == '·');
        assert(digits_end(m, 0) == 0);
    } else {
        assert(m =~= d + r);
        assert(r[0] == m[d.len() as int]);
        assert(r[1] == m[d.len() as int + 1]);
        lemma_same_start(s, whole, ']');
        assert(r[1] == masked_from(s, whole + 1)[0]);
        lemma_masked_start(s, whole + 1);
        lemma_same_start(s, whole + 1, ' ');
    }
}

/// The canonical form of a canonical form is that form, where the content does
/// not start with a gutter or with an `[ML:1234] ` of its own, which only a
/// second time would take away.
pub proof fn law_the_canonical_form_is_stable(s: Seq<char>)
    requires
        content_from(s.skip(content_from(s))) == 0,
    ensures
        canonical(canonical(s)) == canonical(s),
{
    let c = content_from(s);
    lemma_gutter_stop(s, 0);
    lemma_digits_end(s, gutter_end(s, 0) + 4);
    let rest = s.skip(c);
    let out = masked_from(rest, 0);
    assert(s =~= s.take(c) + rest);
    lemma_shifted_mask(s.take(c), rest, 0);
    assert(canonical(s) == out);
    lemma_gutter_stop(rest, 0);
    lemma_digits_end(rest, gutter_end(rest, 0) + 4);
    assert(gutter_end(rest, 0) == 0);
    lemma_masked_start(rest, 0);
    if out.len() > 0 {
        assert(!is_gutter(out[0]));
    }
    assert(gutter_end(out, 0) == 0);
    let e = digits_end(out, 4);
    if prefix_at(out, 0) && char_is(out, e, ']') && char_is(out, e + 1, ' ') {
        lemma_prefix_stays(rest, 0);
        let m = masked_from(rest, 4);
        assert(out.take(4) + m =~= out);
        lemma_shifted_runs(out.take(4), m, 0);
        assert(e == 4 + digits_end(m, 0));
        assert(m[digits_end(m, 0)] == out[e]);
        assert(m[digits_end(m, 0) + 1] == out[e + 1]);
        lemma_runs(m, 0);
        lemma_number_stays(rest, 4);
        assert(content_from(rest) > 0);
    }
    assert(content_from(out) == 0);
    lemma_mask_is_stable(rest, 0);
}

/// The canonical form of a canonical form is that form, where no `[ML:` stands
/// behind the gutter.
pub proof fn law_a_line_without_prefix_is_stable(s: Seq<char>)
    requires
        !prefix_at(s, gutter_end(s, 0)),
    ensures
        canonical(canonical(s)) == canonical(s),
{
    let g = gutter_end(s, 0);
    let rest = s.skip(g);
    lemma_gutter_stop(s, 0);
    assert(content_from(s) == g);
    if rest.len() > 0 {
        assert(rest[0] == s[g]);
    }
    assert(gutter_end(rest, 0) == 0);
    if prefix_at(rest, 0) {
        assert(rest[1] == s[g + 1] && rest[2] == s[g + 2] && rest[3] == s[g + 3]);
    }
    law_the_canonical_form_is_stable(s);
}

} // verus!
