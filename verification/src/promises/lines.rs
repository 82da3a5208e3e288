//! Lines of the trace that open, close or report something, as they are printed.

use vstd::prelude::*;
#[allow(unused_imports)]
use vstd::string::*;
#[allow(unused_imports)]
use vstd::utf8::*;

#[allow(unused_imports)]
use crate::boundary::{
    after_address, boundary, deopt_from, event_of, function_at, function_from, name_stop, sfi_after,
    tail_places, BoundaryModel, PlacesModel, Tail,
};
#[allow(unused_imports)]
use crate::model::{addr_of, tier_of, Addr, EventModel};
#[allow(unused_imports)]
use crate::promises::bytes::{
    digit_run, hex_digit, hex_number, hex_run, lemma_decimal, lemma_hex, lemma_says, number, says,
};
#[allow(unused_imports)]
use crate::promises::nodes::lemma_first_byte;
#[allow(unused_imports)]
use crate::text::{
    byte_is, find_byte_in, in_class, lemma_run_end, occurs_at, rfind_from, run_end, text_of,
    word_is, ByteClass,
};

verus! {

/// `h..e` is an address: `0x` and lower-case digits, of at most sixty-four bits.
pub open spec fn address(s: Seq<u8>, h: int, e: int) -> bool {
    &&& says(s, h, "0x"@)
    &&& hex_run(s, h + 2, e)
    &&& forall|k: int| h + 2 <= k < e ==> !(65 <= #[trigger] s[k] <= 70)
    &&& hex_number(s, h + 2, e) <= u64::MAX
}

/// The address that is printed in `h..e`.
pub open spec fn printed_addr(s: Seq<u8>, h: int, e: int) -> Addr {
    Addr(hex_number(s, h + 2, e) as u64)
}

/// The name of a tier in capitals: `a..e`.
pub open spec fn capitals(s: Seq<u8>, a: int, e: int) -> bool {
    &&& 0 <= a < e <= s.len()
    &&& forall|k: int| a <= k < e ==> 65 <= #[trigger] s[k] <= 90 || s[k] == 95
    &&& e < s.len() ==> !(65 <= s[e] <= 90 || s[e] == 95)
}

/// `<JSFunction name (sfi = 0x…)>` stands in `at..f`: its name is `n..q`, the
/// address of its shared info `h..he`. The toplevel function has no name.
pub open spec fn function(s: Seq<u8>, at: int, n: int, q: int, h: int, he: int, f: int) -> bool {
    &&& says(s, at, "<JSFunction "@)
    &&& n == at + 12
    &&& n <= q
    &&& forall|k: int| n <= k < q ==> #[trigger] s[k] != 40
    &&& q < s.len()
    &&& n < q ==> s[q] == 32
    &&& h == (if n < q {
        q + 8
    } else {
        q + 7
    })
    &&& says(s, h - 7, "(sfi = "@)
    &&& address(s, h, he)
    &&& says(s, he, ")>"@)
    &&& f == he + 2
}

/// The function that a line names after `w` bytes starts at `at`: right there,
/// or after an address and a space.
pub open spec fn named_after(s: Seq<u8>, w: int, at: int) -> bool {
    at == w || (address(s, w, at - 1) && at <= s.len() && s[at - 1] == 32)
}

pub(crate) proof fn lemma_address(s: Seq<u8>, h: int, e: int)
    requires
        address(s, h, e),
    ensures
        occurs_at(s, h, "0x".spec_bytes()),
        "0x".spec_bytes().len() == 2,
        run_end(s, h + 2, ByteClass::LowerHex) == e,
        addr_of(s, h, e) == Some(printed_addr(s, h, e)),
        s[h] == 48,
        0 <= h,
        h + 2 < e <= s.len(),
{
    reveal_strlit("0x");
    lemma_says(s, h, "0x"@);
    lemma_hex(s, h + 2, e);
    assert(s[h + 0] as int == "0x"@[0] as int);
    let r = run_end(s, h + 2, ByteClass::LowerHex);
    lemma_run_end(s, h + 2, ByteClass::LowerHex);
    if r < e {
        assert(hex_digit(s[r]));
    }
    if e < r {
        assert(in_class(ByteClass::LowerHex, s[e]));
    }
    assert(hex_digit(s[h + 2]));
}

pub(crate) proof fn lemma_capitals(s: Seq<u8>, a: int, e: int)
    requires
        capitals(s, a, e),
    ensures
        run_end(s, a, ByteClass::TierName) == e,
{
    let r = run_end(s, a, ByteClass::TierName);
    lemma_run_end(s, a, ByteClass::TierName);
    if r < e {
        assert(65 <= s[r] <= 90 || s[r] == 95);
    }
    if e < r {
        assert(in_class(ByteClass::TierName, s[e]));
    }
}

#[verifier::spinoff_prover]
#[verifier::rlimit(60)]
pub(crate) proof fn lemma_function(
    s: Seq<u8>,
    at: int,
    n: int,
    q: int,
    h: int,
    he: int,
    f: int,
    tail: Tail,
    a: int,
    e: int,
    x: int,
)
    requires
        function(s, at, n, q, h, he, f),
        tail_places(s, f, tail) == Some((a, e, x)),
    ensures
        function_at(s, at, tail) == Some(
            PlacesModel {
                name_start: n,
                name_end: q,
                sfi_start: h,
                sfi_end: he,
                tier_start: a,
                tier_end: e,
                extra: x,
            },
        ),
        s[at] == 60,
{
    reveal_strlit("<JSFunction ");
    reveal_strlit("<JSFunction");
    reveal_strlit("(sfi = ");
    reveal_strlit(")>");
    lemma_says(s, at, "<JSFunction"@);
    lemma_says(s, h - 7, "(sfi = "@);
    lemma_says(s, he, ")>"@);
    lemma_address(s, h, he);
    assert forall|j: int| 0 <= j < "<JSFunction"@.len() implies s[at + j] as int == (
    #[trigger] "<JSFunction"@[j]) as int by {
        assert(s[at + j] as int == "<JSFunction "@[j] as int);
    }
    assert(s[at + 11] as int == "<JSFunction "@[11] as int);
    assert(s[at + 0] as int == "<JSFunction "@[0] as int);
    assert(s[h - 7 + 0] as int == "(sfi = "@[0] as int);
    assert(sfi_after(s, q) == Some((h, he, f)));
    lemma_name(s, n, n, q, tail);
}

proof fn lemma_name(s: Seq<u8>, n: int, k: int, q: int, tail: Tail)
    requires
        0 <= n <= k <= q < s.len(),
        forall|j: int| n <= j < q ==> #[trigger] s[j] != 40,
        n < q ==> s[q] == 32,
    ensures
        function_from(s, n, k, tail) == function_from(s, n, q, tail),
    decreases q - k,
{
    if k < q {
        reveal_strlit("(sfi = ");
        let o = if byte_is(s, k, 0x20) {
            k + 1
        } else {
            k
        };
        lemma_says(s, o, "(sfi = "@);
        if says(s, o, "(sfi = "@) {
            assert(s[o + 0] as int == "(sfi = "@[0] as int);
        }
        assert(sfi_after(s, k) is None);
        lemma_name(s, n, k + 1, q, tail);
    }
}

pub(crate) proof fn lemma_named_after(s: Seq<u8>, w: int, at: int)
    requires
        named_after(s, w, at),
        0 <= at < s.len(),
        s[at] == 60,
    ensures
        after_address(s, w) == at,
{
    reveal_strlit("0x");
    lemma_says(s, w, "0x"@);
    if at == w {
        if says(s, w, "0x"@) {
            assert(s[w + 0] as int == "0x"@[0] as int);
        }
    } else {
        lemma_address(s, w, at - 1);
    }
}

/// No two of the words that start event lines are alike.
#[verifier::spinoff_prover]
#[verifier::rlimit(60)]
proof fn lemma_event_words(s: Seq<u8>)
    ensures
        occurs_at(s, 0, "[marking ".spec_bytes()) == says(s, 0, "[marking "@),
        occurs_at(s, 0, "[compiling method ".spec_bytes()) == says(s, 0, "[compiling method "@),
        occurs_at(s, 0, "[completed compiling ".spec_bytes()) == says(
            s,
            0,
            "[completed compiling "@,
        ),
        occurs_at(s, 0, "[bailout (".spec_bytes()) == says(s, 0, "[bailout ("@),
        occurs_at(s, 0, "[bailout end".spec_bytes()) == says(s, 0, "[bailout end"@),
        occurs_at(s, 0, "[OSR - ".spec_bytes()) == says(s, 0, "[OSR - "@),
        "[marking ".spec_bytes().len() == 9,
        "[compiling method ".spec_bytes().len() == 18,
        "[completed compiling ".spec_bytes().len() == 21,
        "[OSR - ".spec_bytes().len() == 7,
        says(s, 0, "[marking "@) ==> s[0] == 91 && s[1] == 109,
        says(s, 0, "[compiling method "@) ==> s[0] == 91 && s[1] == 99 && s[4] == 112,
        says(s, 0, "[completed compiling "@) ==> s[0] == 91 && s[1] == 99 && s[4] == 112
            && s[5] == 108,
        says(s, 0, "[compiling method "@) ==> s[5] == 105,
        says(s, 0, "[bailout ("@) ==> s[0] == 91 && s[1] == 98 && s[9] == 40,
        says(s, 0, "[bailout end"@) ==> s[0] == 91 && s[1] == 98 && s[9] == 101,
        says(s, 0, "[OSR - "@) ==> s[0] == 91 && s[1] == 79,
{
    reveal_strlit("[marking ");
    reveal_strlit("[compiling method ");
    reveal_strlit("[completed compiling ");
    reveal_strlit("[bailout (");
    reveal_strlit("[bailout end");
    reveal_strlit("[OSR - ");
    lemma_says(s, 0, "[marking "@);
    lemma_says(s, 0, "[compiling method "@);
    lemma_says(s, 0, "[completed compiling "@);
    lemma_says(s, 0, "[bailout ("@);
    lemma_says(s, 0, "[bailout end"@);
    lemma_says(s, 0, "[OSR - "@);
    if says(s, 0, "[marking "@) {
        assert(s[0] as int == "[marking "@[0] as int);
        assert(s[1] as int == "[marking "@[1] as int);
    }
    if says(s, 0, "[compiling method "@) {
        assert(s[0] as int == "[compiling method "@[0] as int);
        assert(s[1] as int == "[compiling method "@[1] as int);
        assert(s[4] as int == "[compiling method "@[4] as int);
        assert(s[5] as int == "[compiling method "@[5] as int);
    }
    if says(s, 0, "[completed compiling "@) {
        assert(s[0] as int == "[completed compiling "@[0] as int);
        assert(s[1] as int == "[completed compiling "@[1] as int);
        assert(s[4] as int == "[completed compiling "@[4] as int);
        assert(s[5] as int == "[completed compiling "@[5] as int);
    }
    if says(s, 0, "[bailout ("@) {
        assert(s[0] as int == "[bailout ("@[0] as int);
        assert(s[1] as int == "[bailout ("@[1] as int);
        assert(s[9] as int == "[bailout ("@[9] as int);
    }
    if says(s, 0, "[bailout end"@) {
        assert(s[0] as int == "[bailout end"@[0] as int);
        assert(s[1] as int == "[bailout end"@[1] as int);
        assert(s[9] as int == "[bailout end"@[9] as int);
    }
    if says(s, 0, "[OSR - "@) {
        assert(s[0] as int == "[OSR - "@[0] as int);
        assert(s[1] as int == "[OSR - "@[1] as int);
    }
}

/// A line that starts with a bracket starts with none of the words that open or
/// close a section.
pub(crate) proof fn lemma_no_code(s: Seq<u8>)
    requires
        s.len() > 0,
        s[0] != 45,
    ensures
        !occurs_at(s, 0, "-----".spec_bytes()),
        !occurs_at(s, 0, "--- Raw source ---".spec_bytes()),
        !occurs_at(s, 0, "--- Optimized code ---".spec_bytes()),
        !occurs_at(s, 0, "--- End code ---".spec_bytes()),
{
    reveal_strlit("-----");
    reveal_strlit("--- Raw source ---");
    reveal_strlit("--- Optimized code ---");
    reveal_strlit("--- End code ---");
    lemma_first_byte(s, 0, "-----"@);
    lemma_first_byte(s, 0, "--- Raw source ---"@);
    lemma_first_byte(s, 0, "--- Optimized code ---"@);
    lemma_first_byte(s, 0, "--- End code ---"@);
}

pub(crate) proof fn lemma_no_anchor(s: Seq<u8>)
    requires
        s.len() > 0,
    ensures
        s[0] != 48 ==> !occurs_at(s, 0, "0x".spec_bytes()),
        s[0] != 67 ==> !occurs_at(s, 0, "Compiling ".spec_bytes()),
        s[0] != 70 ==> !occurs_at(s, 0, "Function: ".spec_bytes()),
        s[0] != 66 ==> !occurs_at(s, 0, "Begin compiling method ".spec_bytes()),
        s[0] != 70 ==> !occurs_at(s, 0, "Finished compiling method ".spec_bytes()),
{
    reveal_strlit("0x");
    reveal_strlit("Compiling ");
    reveal_strlit("Function: ");
    reveal_strlit("Begin compiling method ");
    reveal_strlit("Finished compiling method ");
    lemma_first_byte(s, 0, "0x"@);
    lemma_first_byte(s, 0, "Compiling "@);
    lemma_first_byte(s, 0, "Function: "@);
    lemma_first_byte(s, 0, "Begin compiling method "@);
    lemma_first_byte(s, 0, "Finished compiling method "@);
}

/// A line that starts with a bracket is an event or content.
#[verifier::spinoff_prover]
#[verifier::rlimit(60)]
proof fn lemma_bracket(s: Seq<u8>)
    requires
        s.len() > 0,
        s[0] == 91,
    ensures
        boundary(s) == (match event_of(s) {
            Some(event) => BoundaryModel::Event(event),
            None => BoundaryModel::Content,
        }),
{
    lemma_no_code(s);
    lemma_no_anchor(s);
}

proof fn lemma_last_reason(s: Seq<u8>, lo: int, i: int, r: int)
    requires
        0 <= lo <= r <= i,
        says(s, r, "reason: "@),
        forall|k: int| r < k ==> !#[trigger] says(s, k, "reason: "@),
    ensures
        rfind_from(s, lo, i, "reason: ".spec_bytes()) == Some(r),
    decreases i - r,
{
    reveal_strlit("reason: ");
    lemma_says(s, i, "reason: "@);
    if r < i {
        assert(!says(s, i, "reason: "@));
        lemma_last_reason(s, lo, i - 1, r);
    }
}

/// `[marking 0x… <JSFunction name (sfi = 0x…)> for optimization to TIER, …
/// reason: why]` reports a marking: of that function, for that tier, and the
/// reason is what follows the last `reason: `, without the closing bracket.
#[verifier::spinoff_prover]
#[verifier::rlimit(60)]
pub proof fn law_a_marking_is_read(
    s: Seq<u8>,
    at: int,
    n: int,
    q: int,
    h: int,
    he: int,
    f: int,
    e: int,
    r: int,
)
    requires
        says(s, 0, "[marking "@),
        named_after(s, 9, at),
        function(s, at, n, q, h, he, f),
        says(s, f, " for optimization to "@),
        capitals(s, f + 21, e),
        e < r,
        s[e] == 44,
        says(s, r, "reason: "@),
        forall|k: int| r < k ==> !#[trigger] says(s, k, "reason: "@),
        r + 8 < s.len(),
        s.last() == 93,
    ensures
        boundary(s) == BoundaryModel::Event(
            EventModel::Marking {
                name: text_of(s, n, q),
                sfi: Some(printed_addr(s, h, he)),
                target: tier_of(s, f + 21, e),
                reason: text_of(s, r + 8, s.len() - 1),
            },
        ),
{
    reveal_strlit(" for optimization to ");
    reveal_strlit("reason: ");
    lemma_says(s, f, " for optimization to "@);
    lemma_says(s, r, "reason: "@);
    lemma_capitals(s, f + 21, e);
    lemma_last_reason(s, e + 1, s.len() as int, r);
    lemma_address(s, h, he);
    assert(tail_places(s, f, Tail::Marking) == Some((f + 21, e, r + 8)));
    lemma_function(s, at, n, q, h, he, f, Tail::Marking, f + 21, e, r + 8);
    lemma_named_after(s, 9, at);
    lemma_event_words(s);
    lemma_bracket(s);
}

proof fn lemma_target(s: Seq<u8>, f: int, e: int, m: int, word: Seq<char>)
    requires
        says(s, f, " (target "@),
        capitals(s, f + 9, e),
        e < s.len(),
        s[e] == 41,
        m == (if says(s, e + 1, " OSR"@) {
            e + 5
        } else {
            e + 1
        }),
        says(s, m, word),
        is_ascii_chars(word),
        m + word.len() < s.len(),
        s.last() == 93,
    ensures
        crate::boundary::target_places(s, f, encode_utf8(word)) == Some(
            (
                f + 9,
                e,
                if says(s, e + 1, " OSR"@) {
                    1int
                } else {
                    0int
                },
            ),
        ),
{
    reveal_strlit(" (target ");
    reveal_strlit(" OSR");
    lemma_says(s, f, " (target "@);
    lemma_says(s, e + 1, " OSR"@);
    lemma_says(s, m, word);
    lemma_capitals(s, f + 9, e);
}

/// `[compiling method 0x… <JSFunction …> (target TIER) OSR, mode: …]` reports
/// that a compilation starts, and `OSR` tells whether it replaces a running
/// function.
#[verifier::spinoff_prover]
#[verifier::rlimit(60)]
pub proof fn law_a_start_is_read(
    s: Seq<u8>,
    at: int,
    n: int,
    q: int,
    h: int,
    he: int,
    f: int,
    e: int,
    m: int,
)
    requires
        says(s, 0, "[compiling method "@),
        named_after(s, 18, at),
        function(s, at, n, q, h, he, f),
        says(s, f, " (target "@),
        capitals(s, f + 9, e),
        e < s.len(),
        s[e] == 41,
        m == (if says(s, e + 1, " OSR"@) {
            e + 5
        } else {
            e + 1
        }),
        says(s, m, ", mode: "@),
        m + 8 < s.len(),
        s.last() == 93,
    ensures
        boundary(s) == BoundaryModel::Event(
            EventModel::CompileStart {
                name: text_of(s, n, q),
                sfi: Some(printed_addr(s, h, he)),
                target: tier_of(s, f + 9, e),
                osr: says(s, e + 1, " OSR"@),
            },
        ),
{
    reveal_strlit(", mode: ");
    lemma_target(s, f, e, m, ", mode: "@);
    lemma_address(s, h, he);
    lemma_function(
        s,
        at,
        n,
        q,
        h,
        he,
        f,
        Tail::Start,
        f + 9,
        e,
        if says(s, e + 1, " OSR"@) {
            1
        } else {
            0
        },
    );
    lemma_named_after(s, 18, at);
    lemma_event_words(s);
    lemma_bracket(s);
}

/// `[completed compiling 0x… <JSFunction …> (target TIER) OSR - took …]` reports
/// that a compilation is done.
#[verifier::spinoff_prover]
#[verifier::rlimit(60)]
pub proof fn law_a_completion_is_read(
    s: Seq<u8>,
    at: int,
    n: int,
    q: int,
    h: int,
    he: int,
    f: int,
    e: int,
    m: int,
)
    requires
        says(s, 0, "[completed compiling "@),
        named_after(s, 21, at),
        function(s, at, n, q, h, he, f),
        says(s, f, " (target "@),
        capitals(s, f + 9, e),
        e < s.len(),
        s[e] == 41,
        m == (if says(s, e + 1, " OSR"@) {
            e + 5
        } else {
            e + 1
        }),
        says(s, m, " - took "@),
        m + 8 < s.len(),
        s.last() == 93,
    ensures
        boundary(s) == BoundaryModel::Event(
            EventModel::CompileDone {
                name: text_of(s, n, q),
                sfi: Some(printed_addr(s, h, he)),
                target: tier_of(s, f + 9, e),
                osr: says(s, e + 1, " OSR"@),
            },
        ),
{
    reveal_strlit(" - took ");
    lemma_target(s, f, e, m, " - took "@);
    lemma_address(s, h, he);
    lemma_function(
        s,
        at,
        n,
        q,
        h,
        he,
        f,
        Tail::Done,
        f + 9,
        e,
        if says(s, e + 1, " OSR"@) {
            1
        } else {
            0
        },
    );
    lemma_named_after(s, 21, at);
    lemma_event_words(s);
    lemma_bracket(s);
}

pub(crate) proof fn lemma_byte_found(s: Seq<u8>, i: int, c: int, b: u8)
    requires
        0 <= i <= c < s.len(),
        s[c] == b,
        forall|k: int| i <= k < c ==> #[trigger] s[k] != b,
    ensures
        find_byte_in(s, i, s.len() as int, b) == Some(c),
    decreases c - i,
{
    if i < c {
        assert(s[i] != b);
        lemma_byte_found(s, i + 1, c, b);
    }
}

proof fn lemma_begin_found(s: Seq<u8>, k: int, c: int, r: int, i: int, q: int)
    requires
        0 <= i <= q < s.len(),
        forall|j: int| i <= j < q ==> !#[trigger] says(s, j, "): begin. deoptimizing "@),
    ensures
        deopt_from(s, k, c, r, i) == deopt_from(s, k, c, r, q),
    decreases q - i,
{
    if i < q {
        reveal_strlit("): begin. deoptimizing ");
        lemma_says(s, i, "): begin. deoptimizing "@);
        assert(!says(s, i, "): begin. deoptimizing "@));
        lemma_begin_found(s, k, c, r, i + 1, q);
    }
}

proof fn lemma_bailout_start(s: Seq<u8>, c: int, g: int)
    requires
        says(s, 0, "[bailout (kind: "@),
        says(s, c, ", reason: "@),
        says(s, g, "): begin. deoptimizing "@),
    ensures
        says(s, 0, "[bailout ("@),
        occurs_at(s, 0, "[bailout (kind: ".spec_bytes()),
        "[bailout (kind: ".spec_bytes().len() == 16,
        occurs_at(s, c, ", reason: ".spec_bytes()),
        ", reason: ".spec_bytes().len() == 10,
        occurs_at(s, g, "): begin. deoptimizing ".spec_bytes()),
        "): begin. deoptimizing ".spec_bytes().len() == 23,
        s[c] == 44,
        g + 23 <= s.len(),
        c + 10 <= s.len(),
{
    reveal_strlit("[bailout (kind: ");
    reveal_strlit("[bailout (");
    reveal_strlit(", reason: ");
    reveal_strlit("): begin. deoptimizing ");
    lemma_says(s, 0, "[bailout (kind: "@);
    lemma_says(s, c, ", reason: "@);
    lemma_says(s, g, "): begin. deoptimizing "@);
    assert forall|j: int| 0 <= j < "[bailout ("@.len() implies s[j] as int == (
    #[trigger] "[bailout ("@[j]) as int by {
        assert(s[j] as int == "[bailout (kind: "@[j] as int);
    }
    assert(s[c + 0] as int == ", reason: "@[0] as int);
}

/// The tail of a bailout from `f` on: the code's address `f + 2..xe`, its tier
/// `xe + 7..e`, the id of the compilation `e + 10..oe` and the bytecode offset
/// `oe + 18..be`.
pub open spec fn bailout_tail(s: Seq<u8>, f: int, xe: int, e: int, oe: int, be: int) -> bool {
    &&& says(s, f, ", 0x"@)
    &&& address(s, f + 2, xe)
    &&& says(s, xe, " <Code "@)
    &&& capitals(s, xe + 7, e)
    &&& says(s, e, ">, opt id "@)
    &&& digit_run(s, e + 10, oe)
    &&& says(s, oe, ", bytecode offset "@)
    &&& digit_run(s, oe + 18, be)
    &&& be + 1 < s.len()
    &&& s[be] == 44
    &&& s.last() == 93
}

#[verifier::spinoff_prover]
#[verifier::rlimit(60)]
proof fn lemma_bailout_tail(s: Seq<u8>, f: int, xe: int, e: int, oe: int, be: int)
    requires
        bailout_tail(s, f, xe, e, oe, be),
    ensures
        tail_places(s, f, Tail::Deopt) == Some((xe + 7, e, e + 10)),
        number(s, e + 10, oe) <= u32::MAX ==> crate::boundary::deopt_numbers(s, e + 10).0 == Some(
            number(s, e + 10, oe) as u32,
        ),
        number(s, oe + 18, be) <= u32::MAX ==> crate::boundary::deopt_numbers(s, e + 10).1 == Some(
            number(s, oe + 18, be) as u32,
        ),
{
    reveal_strlit(", 0x");
    reveal_strlit(" <Code ");
    reveal_strlit(">, opt id ");
    reveal_strlit(", bytecode offset ");
    lemma_says(s, f, ", 0x"@);
    lemma_says(s, xe, " <Code "@);
    lemma_says(s, e, ">, opt id "@);
    lemma_says(s, oe, ", bytecode offset "@);
    lemma_address(s, f + 2, xe);
    lemma_capitals(s, xe + 7, e);
    lemma_decimal(s, e + 10, oe);
    lemma_decimal(s, oe + 18, be);
}

/// `[bailout (kind: k, reason: why): begin. deoptimizing 0x… <JSFunction …>,
/// 0x… <Code TIER>, opt id N, bytecode offset N, …]` reports a deoptimization
/// with its kind, its reason, its function, the tier that was left and both
/// numbers.
#[verifier::spinoff_prover]
#[verifier::rlimit(60)]
pub proof fn law_a_bailout_is_read(
    s: Seq<u8>,
    c: int,
    g: int,
    at: int,
    n: int,
    q: int,
    h: int,
    he: int,
    f: int,
    xe: int,
    e: int,
    oe: int,
    be: int,
)
    requires
        says(s, 0, "[bailout (kind: "@),
        16 < c,
        says(s, c, ", reason: "@),
        forall|k: int| 16 <= k < c ==> #[trigger] s[k] != 44,
        c + 10 <= g,
        says(s, g, "): begin. deoptimizing "@),
        forall|j: int| c + 10 <= j < g ==> !#[trigger] says(s, j, "): begin. deoptimizing "@),
        named_after(s, g + 23, at),
        function(s, at, n, q, h, he, f),
        bailout_tail(s, f, xe, e, oe, be),
        number(s, e + 10, oe) <= u32::MAX,
        number(s, oe + 18, be) <= u32::MAX,
    ensures
        boundary(s) == BoundaryModel::Event(
            EventModel::DeoptBegin {
                kind: text_of(s, 16, c),
                reason: text_of(s, c + 10, g),
                name: text_of(s, n, q),
                sfi: Some(printed_addr(s, h, he)),
                tier: tier_of(s, xe + 7, e),
                opt_id: Some(number(s, e + 10, oe) as u32),
                bytecode_offset: Some(number(s, oe + 18, be) as u32),
            },
        ),
{
    lemma_bailout_start(s, c, g);
    lemma_byte_found(s, 16, c, 0x2c);
    lemma_begin_found(s, 16, c, c + 10, c + 10, g);
    lemma_bailout_tail(s, f, xe, e, oe, be);
    lemma_address(s, h, he);
    lemma_function(s, at, n, q, h, he, f, Tail::Deopt, xe + 7, e, e + 10);
    lemma_named_after(s, g + 23, at);
    lemma_event_words(s);
    lemma_bracket(s);
}

/// The end of the run of letters from `i` on is `e`.
proof fn lemma_wide_word(s: Seq<u8>, i: int, e: int)
    requires
        0 <= i <= e < s.len(),
        forall|k: int| i <= k < e ==> 97 <= #[trigger] s[k] <= 122 || s[k] == 95,
        s[e] == 93,
    ensures
        run_end(s, i, ByteClass::WideWord) == e,
    decreases e - i,
{
    if i < e {
        assert(97 <= s[i] <= 122 || s[i] == 95);
        lemma_wide_word(s, i + 1, e);
    }
}

proof fn lemma_bailout_end(s: Seq<u8>)
    requires
        says(s, 0, "[bailout end. code_invalidation: "@),
    ensures
        says(s, 0, "[bailout end"@),
        occurs_at(s, 0, "[bailout end. code_invalidation: ".spec_bytes()),
        "[bailout end. code_invalidation: ".spec_bytes().len() == 33,
{
    reveal_strlit("[bailout end. code_invalidation: ");
    reveal_strlit("[bailout end");
    let w = "[bailout end. code_invalidation: "@;
    lemma_says(s, 0, w);
    assert forall|j: int| 0 <= j < "[bailout end"@.len() implies s[j] as int == (
    #[trigger] "[bailout end"@[j]) as int by {
        assert(s[j] as int == w[j] as int);
    }
}

proof fn lemma_invalidated(s: Seq<u8>)
    requires
        s.len() > 34,
        s.last() == 93,
    ensures
        word_is(s, 33, s.len() - 1, "invalidated".spec_bytes()) == (says(s, 33, "invalidated]"@)
            && s.len() == 45),
{
    reveal_strlit("invalidated");
    reveal_strlit("invalidated]");
    lemma_says(s, 33, "invalidated"@);
    if says(s, 33, "invalidated]"@) && s.len() == 45 {
        assert forall|j: int| 0 <= j < "invalidated"@.len() implies s[33 + j] as int == (
        #[trigger] "invalidated"@[j]) as int by {
            assert(s[33 + j] as int == "invalidated]"@[j] as int);
        }
    }
    if says(s, 33, "invalidated"@) && s.len() == 45 {
        assert forall|j: int| 0 <= j < "invalidated]"@.len() implies s[33 + j] as int == (
        #[trigger] "invalidated]"@[j]) as int by {
            if j < 11 {
                assert(s[33 + j] as int == "invalidated"@[j] as int);
            }
        }
    }
}

/// `[bailout end. code_invalidation: word]` ends a deoptimization: the code was
/// thrown away exactly if the word is `invalidated`.
#[verifier::spinoff_prover]
#[verifier::rlimit(60)]
pub proof fn law_the_end_of_a_bailout_is_read(s: Seq<u8>)
    requires
        says(s, 0, "[bailout end. code_invalidation: "@),
        s.len() > 34,
        forall|k: int| 33 <= k < s.len() - 1 ==> 97 <= #[trigger] s[k] <= 122 || s[k] == 95,
        s.last() == 93,
    ensures
        boundary(s) == BoundaryModel::Event(
            EventModel::DeoptEnd { invalidated: says(s, 33, "invalidated]"@) && s.len() == 45 },
        ),
{
    lemma_bailout_end(s);
    lemma_invalidated(s);
    lemma_wide_word(s, 33, s.len() - 1);
    lemma_event_words(s);
    lemma_bracket(s);
}

proof fn lemma_name_stop(s: Seq<u8>, i: int, e: int)
    requires
        0 <= i <= e < s.len(),
        forall|k: int| i <= k < e ==> #[trigger] s[k] != 44 && s[k] != 93,
        s[e] == 44 || s[e] == 93,
    ensures
        name_stop(s, i) == e,
    decreases e - i,
{
    if i < e {
        assert(s[i] != 44 && s[i] != 93);
        lemma_name_stop(s, i + 1, e);
    }
}

/// `[OSR - what. function: name, osr offset: N…]` reports what happened to which
/// function, and the offset where one is printed.
#[verifier::spinoff_prover]
#[verifier::rlimit(60)]
pub proof fn law_an_osr_line_is_read(s: Seq<u8>, d: int, e: int, x: int)
    requires
        says(s, 0, "[OSR - "@),
        7 <= d,
        says(s, d, ". function: "@),
        forall|k: int| 7 <= k < d ==> #[trigger] s[k] != 46,
        d + 12 <= e < s.len(),
        forall|k: int| d + 12 <= k < e ==> #[trigger] s[k] != 44 && s[k] != 93,
        s[e] == 44 || s[e] == 93,
        s.last() == 93,
        says(s, e, ", osr offset: "@) ==> digit_run(s, e + 14, x) && number(s, e + 14, x)
            <= u32::MAX,
    ensures
        boundary(s) == BoundaryModel::Event(
            EventModel::Osr {
                what: text_of(s, 7, d),
                name: text_of(s, d + 12, e),
                osr_offset: if says(s, e, ", osr offset: "@) {
                    Some(number(s, e + 14, x) as u32)
                } else {
                    None
                },
            },
        ),
{
    reveal_strlit(". function: ");
    reveal_strlit(", osr offset: ");
    lemma_says(s, d, ". function: "@);
    lemma_says(s, e, ", osr offset: "@);
    assert(s[d + 0] as int == ". function: "@[0] as int);
    lemma_byte_found(s, 7, d, 0x2e);
    lemma_name_stop(s, d + 12, e);
    if says(s, e, ", osr offset: "@) {
        lemma_decimal(s, e + 14, x);
    }
    lemma_event_words(s);
    lemma_bracket(s);
}

} // verus!
