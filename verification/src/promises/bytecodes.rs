//! What a row of a bytecode dump is read as.

use vstd::prelude::*;
#[allow(unused_imports)]
use vstd::string::*;
#[allow(unused_imports)]
use vstd::utf8::*;

#[allow(unused_imports)]
use super::bytes::{
    digit, digit_run, hex_digit, hex_run, lemma_decimal, lemma_hex, lemma_says, letter, number,
    says,
};
#[allow(unused_imports)]
use super::disassembly::{lemma_spaces, spaces};
#[allow(unused_imports)]
use super::pipeline::{lemma_mnemonic, mnemonic};
#[allow(unused_imports)]
use crate::model::{span, LineModel};
#[allow(unused_imports)]
use crate::parse::bytecode::{
    bracket_close, bytecode_row, operands_from, pairs_end, row_address, row_tail, OperandRefs,
};
#[allow(unused_imports)]
use crate::text::{decimal_u32, in_class, lemma_run_end, occurs_at, run_end, ByteClass};

verus! {

/// The encoding bytes of a row from `at` to `m`: pairs of hexadecimal digits,
/// each with a space behind it.
pub open spec fn encoding(s: Seq<u8>, at: int, m: int) -> bool
    decreases m - at,
{
    if at >= m {
        at == m
    } else {
        &&& 0 <= at && at + 3 <= s.len()
        &&& hex_digit(s[at]) && hex_digit(s[at + 1]) && s[at + 2] == 32
        &&& at + 3 <= m && encoding(s, at + 3, m)
    }
}

proof fn lemma_encoding(s: Seq<u8>, at: int, m: int)
    requires
        encoding(s, at, m),
        0 <= at <= m < s.len(),
        s[m] != 32,
        letter(s[m]),
        m + 2 < s.len() ==> s[m + 2] != 32,
        m + 2 != s.len(),
    ensures
        pairs_end(s, at) == m,
    decreases m - at,
{
    if at < m {
        let r = run_end(s, at + 2, ByteClass::Space);
        lemma_run_end(s, at + 2, ByteClass::Space);
        assert(encoding(s, at + 3, m));
        if at + 3 < m {
            assert(hex_digit(s[at + 3]));
        }
        if r > at + 3 {
            assert(in_class(ByteClass::Space, s[at + 3]));
        }
        if r < at + 3 {
            assert(in_class(ByteClass::Space, s[at + 2]));
        }
        assert(r == at + 3);
        lemma_encoding(s, at + 3, m);
    }
}

/// `0x… @ N : bytes Mnemonic …` from `a` on: the address up to `he`, the offset
/// in `d..de`, the bytes from `c` and the mnemonic in `m..e`.
pub open spec fn row_at(
    s: Seq<u8>,
    a: int,
    he: int,
    d: int,
    de: int,
    c: int,
    m: int,
    e: int,
) -> bool {
    &&& says(s, a, "0x"@)
    &&& hex_run(s, a + 2, he)
    &&& says(s, he, " @ "@)
    &&& he + 3 <= d
    &&& forall|k: int| he + 3 <= k < d ==> #[trigger] s[k] == 32
    &&& digit_run(s, d, de)
    &&& number(s, d, de) <= u32::MAX
    &&& says(s, de, " : "@)
    &&& c == de + 3
    &&& c < m
    &&& encoding(s, c, m)
    &&& m + 3 <= e
    &&& letter(s[m])
    &&& mnemonic(s, m, e)
}

#[verifier::spinoff_prover]
#[verifier::rlimit(60)]
proof fn lemma_row_tail(
    s: Seq<u8>,
    colon: int,
    c: int,
    m: int,
    e: int,
    offset: u32,
    offset_span: crate::model::Span,
    primary: bool,
    src_pos: Option<u32>,
)
    requires
        0 <= colon,
        c == colon + 2,
        c < m,
        m + 3 <= e,
        e <= s.len(),
        s[colon + 1] == 32,
        encoding(s, c, m),
        letter(s[m]),
        mnemonic(s, m, e),
    ensures
        row_tail(s, colon + 1, offset, offset_span, primary, src_pos) matches Some(
            LineModel::Bytecode(row),
        ) && {
            let refs = operands_from(
                s,
                e,
                0,
                OperandRefs { targets: Seq::empty(), fbv: Seq::empty(), pool: Seq::empty() },
            );
            &&& row.offset == offset
            &&& row.offset_span == offset_span
            &&& row.mnemonic == span(m, e)
            &&& row.targets == refs.targets
            &&& row.fbv == refs.fbv
            &&& row.pool == refs.pool
            &&& row.primary == primary
            &&& row.src_pos == src_pos
        },
{
    let f = run_end(s, colon + 1, ByteClass::Space);
    lemma_run_end(s, colon + 1, ByteClass::Space);
    assert(hex_digit(s[c]));
    if f > c {
        assert(in_class(ByteClass::Space, s[c]));
    }
    if f < c {
        assert(in_class(ByteClass::Space, s[colon + 1]));
    }
    assert(letter(s[m + 2]) || digit(s[m + 2]) || s[m + 2] == 95 || s[m + 2] == 46);
    lemma_encoding(s, c, m);
    lemma_mnemonic(s, m, e);
}

/// A row `0x… @ N : bytes Mnemonic …` is that of the offset `N`. A position in
/// front, `P S>` or `P E>`, is where its source stands.
#[verifier::spinoff_prover]
#[verifier::rlimit(60)]
pub proof fn law_a_bytecode_row_is_read(
    s: Seq<u8>,
    p: int,
    pe: int,
    a: int,
    he: int,
    d: int,
    de: int,
    c: int,
    m: int,
    e: int,
    primary: bool,
)
    requires
        row_at(s, a, he, d, de, c, m, e),
        0 <= p <= a,
        forall|k: int| 0 <= k < p ==> #[trigger] s[k] == 32,
        p < a ==> {
            &&& digit_run(s, p, pe)
            &&& number(s, p, pe) <= u32::MAX
            &&& says(s, pe, " S> "@) || says(s, pe, " E> "@)
            &&& pe + 4 <= a
            &&& forall|k: int| pe + 4 <= k < a ==> #[trigger] s[k] == 32
        },
    ensures
        bytecode_row(s, primary) matches Some(LineModel::Bytecode(row)) && {
            let refs = operands_from(
                s,
                e,
                0,
                OperandRefs { targets: Seq::empty(), fbv: Seq::empty(), pool: Seq::empty() },
            );
            &&& row.offset == number(s, d, de)
            &&& row.offset_span == span(d, de)
            &&& row.mnemonic == span(m, e)
            &&& row.primary == primary
            &&& p < a ==> row.src_pos == Some(number(s, p, pe) as u32)
            &&& p == a ==> row.src_pos is None
            &&& row.targets == refs.targets
            &&& row.fbv == refs.fbv
            &&& row.pool == refs.pool
        },
{
    lemma_columns(s, a, he, d, de);
    lemma_position(s, p, pe, a);
    lemma_row_tail(
        s,
        de + 1,
        c,
        m,
        e,
        number(s, d, de) as u32,
        span(d, de),
        primary,
        row_address(s).1,
    );
}

proof fn lemma_run(s: Seq<u8>, i: int, e: int, class: ByteClass)
    requires
        0 <= i <= e <= s.len(),
        forall|k: int| i <= k < e ==> in_class(class, #[trigger] s[k]),
        e < s.len() ==> !in_class(class, s[e]),
    ensures
        run_end(s, i, class) == e,
    decreases e - i,
{
    if i < e {
        assert(in_class(class, s[i]));
        lemma_run(s, i + 1, e, class);
    }
}

#[verifier::spinoff_prover]
#[verifier::rlimit(60)]
proof fn lemma_columns(s: Seq<u8>, a: int, he: int, d: int, de: int)
    requires
        says(s, a, "0x"@),
        hex_run(s, a + 2, he),
        says(s, he, " @ "@),
        he + 3 <= d,
        forall|k: int| he + 3 <= k < d ==> #[trigger] s[k] == 32,
        digit_run(s, d, de),
        number(s, d, de) <= u32::MAX,
        says(s, de, " : "@),
    ensures
        occurs_at(s, a, "0x".spec_bytes()),
        "0x".spec_bytes().len() == 2,
        run_end(s, a + 2, ByteClass::Hex) == he,
        run_end(s, he, ByteClass::Space) == he + 1,
        s[he + 1] == 64,
        run_end(s, he + 2, ByteClass::Space) == d,
        run_end(s, d, ByteClass::Digit) == de,
        run_end(s, de, ByteClass::Space) == de + 1,
        s[de + 1] == 58,
        s[de + 2] == 32,
        de + 3 <= s.len(),
        decimal_u32(s, d, de) == Some(number(s, d, de) as u32),
        number(s, d, de) >= 0,
{
    reveal_strlit("0x");
    reveal_strlit(" @ ");
    reveal_strlit(" : ");
    lemma_says(s, a, "0x"@);
    assert(s[he + 0] as int == " @ "@[0] as int);
    assert(s[he + 1] as int == " @ "@[1] as int);
    assert(s[he + 2] as int == " @ "@[2] as int);
    assert(s[de + 0] as int == " : "@[0] as int);
    assert(s[de + 1] as int == " : "@[1] as int);
    assert(s[de + 2] as int == " : "@[2] as int);
    lemma_hex(s, a + 2, he);
    lemma_decimal(s, d, de);
    assert(digit(s[d]));
    lemma_run(s, he, he + 1, ByteClass::Space);
    lemma_run(s, he + 2, d, ByteClass::Space);
    lemma_run(s, de, de + 1, ByteClass::Space);
}

#[verifier::spinoff_prover]
#[verifier::rlimit(60)]
proof fn lemma_position(s: Seq<u8>, p: int, pe: int, a: int)
    requires
        says(s, a, "0x"@),
        0 <= p <= a,
        forall|k: int| 0 <= k < p ==> #[trigger] s[k] == 32,
        p < a ==> {
            &&& digit_run(s, p, pe)
            &&& number(s, p, pe) <= u32::MAX
            &&& says(s, pe, " S> "@) || says(s, pe, " E> "@)
            &&& pe + 4 <= a
            &&& forall|k: int| pe + 4 <= k < a ==> #[trigger] s[k] == 32
        },
        p == a ==> a + 2 < s.len() && hex_digit(s[a + 2]),
    ensures
        row_address(s) == (
            a,
            if p < a {
                Some(number(s, p, pe) as u32)
            } else {
                None
            },
        ),
{
    reveal_strlit("0x");
    reveal_strlit(" S> ");
    reveal_strlit(" E> ");
    reveal_strlit("S>");
    reveal_strlit("E>");
    assert(s[a + 0] as int == "0x"@[0] as int);
    assert(s[a + 1] as int == "0x"@[1] as int);
    if p < a {
        assert(digit(s[p]));
        lemma_run(s, 0, p, ByteClass::Space);
        lemma_decimal(s, p, pe);
        lemma_says(s, pe + 1, "S>"@);
        lemma_says(s, pe + 1, "E>"@);
        if says(s, pe, " S> "@) {
            let w = " S> "@;
            assert(s[pe + 0] as int == w[0] as int);
            assert(s[pe + 1] as int == w[1] as int);
            assert(s[pe + 2] as int == w[2] as int);
            assert(s[pe + 3] as int == w[3] as int);
            assert(says(s, pe + 1, "S>"@));
        } else {
            let w = " E> "@;
            assert(s[pe + 0] as int == w[0] as int);
            assert(s[pe + 1] as int == w[1] as int);
            assert(s[pe + 2] as int == w[2] as int);
            assert(s[pe + 3] as int == w[3] as int);
            assert(says(s, pe + 1, "E>"@));
        }
        lemma_run(s, pe, pe + 1, ByteClass::Space);
        lemma_run(s, pe + 3, a, ByteClass::Space);
    } else {
        lemma_run(s, 0, p, ByteClass::Space);
        lemma_run(s, a, a + 1, ByteClass::Digit);
        lemma_run(s, a + 1, a + 1, ByteClass::Space);
        lemma_says(s, a + 1, "S>"@);
        lemma_says(s, a + 1, "E>"@);
        if says(s, a + 1, "S>"@) {
            assert(s[a + 1 + 0] as int == "S>"@[0] as int);
        }
        if says(s, a + 1, "E>"@) {
            assert(s[a + 1 + 0] as int == "E>"@[0] as int);
        }
    }
}

// ---------------------------------------------------------------------------
// Operands
// ---------------------------------------------------------------------------

/// The slots, the targets and the pool entries that a row names from `i` on are
/// those behind `e`, and one more in front.
pub open spec fn adds(
    s: Seq<u8>,
    i: int,
    e: int,
    braces: int,
    refs: OperandRefs,
    more: OperandRefs,
) -> bool {
    operands_from(s, i, braces, refs) == operands_from(
        s,
        e,
        braces,
        OperandRefs {
            targets: refs.targets + more.targets,
            fbv: refs.fbv + more.fbv,
            pool: refs.pool + more.pool,
        },
    )
}

/// `FBV[N]` names the slot `N` of the feedback vector.
pub proof fn law_a_slot_operand_is_read(
    s: Seq<u8>,
    i: int,
    e: int,
    braces: int,
    refs: OperandRefs,
)
    requires
        s.len() < u32::MAX,
        says(s, i, "FBV["@),
        digit_run(s, i + 4, e),
        number(s, i + 4, e) <= u32::MAX,
        e < s.len(),
        s[e] == 93,
    ensures
        adds(
            s,
            i,
            e + 1,
            braces,
            refs,
            OperandRefs {
                targets: Seq::empty(),
                fbv: seq![(number(s, i + 4, e) as u32, span(i, e + 1))],
                pool: Seq::empty(),
            },
        ),
{
    reveal_strlit("FBV[");
    lemma_says(s, i, "FBV["@);
    lemma_decimal(s, i + 4, e);
    let x = (number(s, i + 4, e) as u32, span(i, e + 1));
    assert(refs.targets + Seq::empty() =~= refs.targets);
    assert(refs.pool + Seq::empty() =~= refs.pool);
    assert(refs.fbv + seq![x] =~= refs.fbv.push(x));
}

/// `(0x… @ N)` names the offset `N` as a target.
pub proof fn law_a_jump_operand_is_read(
    s: Seq<u8>,
    i: int,
    he: int,
    e: int,
    braces: int,
    refs: OperandRefs,
)
    requires
        s.len() < u32::MAX,
        says(s, i, "(0x"@),
        hex_run(s, i + 3, he),
        says(s, he, " @ "@),
        digit_run(s, he + 3, e),
        number(s, he + 3, e) <= u32::MAX,
        e < s.len(),
        s[e] == 41,
    ensures
        adds(
            s,
            i,
            e + 1,
            braces,
            refs,
            OperandRefs {
                targets: seq![(number(s, he + 3, e) as u32, span(i, e + 1))],
                fbv: Seq::empty(),
                pool: Seq::empty(),
            },
        ),
{
    reveal_strlit("FBV[");
    reveal_strlit("(0x");
    reveal_strlit(" @ ");
    lemma_says(s, i, "FBV["@);
    lemma_says(s, i, "(0x"@);
    lemma_says(s, he, " @ "@);
    assert(s[i + 0] as int == "(0x"@[0] as int);
    if says(s, i, "FBV["@) {
        assert(s[i + 0] as int == "FBV["@[0] as int);
    }
    lemma_hex(s, i + 3, he);
    lemma_decimal(s, he + 3, e);
    let x = (number(s, he + 3, e) as u32, span(i, e + 1));
    assert(refs.fbv + Seq::empty() =~= refs.fbv);
    assert(refs.pool + Seq::empty() =~= refs.pool);
    assert(refs.targets + seq![x] =~= refs.targets.push(x));
}

/// `@N` between braces is a case of a switch: it names the offset `N` as a
/// target. Outside braces it names nothing.
pub proof fn law_a_case_is_a_target_between_braces(
    s: Seq<u8>,
    i: int,
    e: int,
    braces: int,
    refs: OperandRefs,
)
    requires
        s.len() < u32::MAX,
        0 <= braces,
        0 <= i < s.len(),
        s[i] == 64,
        digit_run(s, i + 1, e),
        number(s, i + 1, e) <= u32::MAX,
    ensures
        braces > 0 ==> adds(
            s,
            i,
            e,
            braces,
            refs,
            OperandRefs {
                targets: seq![(number(s, i + 1, e) as u32, span(i, e))],
                fbv: Seq::empty(),
                pool: Seq::empty(),
            },
        ),
        braces == 0 ==> operands_from(s, i, braces, refs) == operands_from(s, i + 1, braces, refs),
{
    reveal_strlit("FBV[");
    reveal_strlit("(0x");
    lemma_says(s, i, "FBV["@);
    lemma_says(s, i, "(0x"@);
    if says(s, i, "FBV["@) {
        assert(s[i + 0] as int == "FBV["@[0] as int);
    }
    if says(s, i, "(0x"@) {
        assert(s[i + 0] as int == "(0x"@[0] as int);
    }
    lemma_decimal(s, i + 1, e);
    let x = (number(s, i + 1, e) as u32, span(i, e));
    assert(refs.fbv + Seq::empty() =~= refs.fbv);
    assert(refs.pool + Seq::empty() =~= refs.pool);
    assert(refs.targets + seq![x] =~= refs.targets.push(x));
}

/// An indented `N: …` is the entry `N` of the constant pool.
pub proof fn law_a_pool_entry_is_read(s: Seq<u8>, a: int, e: int)
    requires
        spaces(s, 0, a),
        digit_run(s, a, e),
        number(s, a, e) <= u32::MAX,
        e < s.len(),
        s[e] == 58,
    ensures
        crate::parse::bytecode::pool_entry(s) == Some(
            LineModel::PoolEntry { index: number(s, a, e) as u32, def_span: span(a, e + 1) },
        ),
{
    lemma_spaces(s, 0, a);
    lemma_decimal(s, a, e);
}

/// How many brackets of `a..b` stay open.
pub open spec fn depth_in(s: Seq<u8>, a: int, b: int) -> int
    decreases b - a,
{
    if a >= b {
        0
    } else {
        depth_in(s, a, b - 1) + (if s[b - 1] == 91 {
            1int
        } else if s[b - 1] == 93 {
            -1
        } else {
            0
        })
    }
}

proof fn lemma_close(s: Seq<u8>, i: int, k: int, j: int)
    requires
        0 <= i < k <= j < s.len(),
        s[j] == 93,
        depth_in(s, i, j) == 1,
        forall|x: int| i < x <= j ==> #[trigger] depth_in(s, i, x) >= 1,
    ensures
        bracket_close(s, k, depth_in(s, i, k)) == Some(j + 1),
    decreases j - k,
{
    assert(depth_in(s, i, k) >= 1);
    if k < j {
        assert(depth_in(s, i, k + 1) >= 1);
        lemma_close(s, i, k + 1, j);
    }
}

/// `[N:…]` names the entry `N` of the constant pool, up to the bracket that
/// matches the first.
pub proof fn law_a_pool_operand_is_read(
    s: Seq<u8>,
    i: int,
    e: int,
    j: int,
    braces: int,
    refs: OperandRefs,
)
    requires
        s.len() < u32::MAX,
        0 <= i < s.len(),
        s[i] == 91,
        digit_run(s, i + 1, e),
        number(s, i + 1, e) <= u32::MAX,
        e < j < s.len(),
        s[e] == 58,
        s[j] == 93,
        depth_in(s, i, j) == 1,
        forall|x: int| i < x <= j ==> #[trigger] depth_in(s, i, x) >= 1,
    ensures
        adds(
            s,
            i,
            j + 1,
            braces,
            refs,
            OperandRefs {
                targets: Seq::empty(),
                fbv: Seq::empty(),
                pool: seq![(number(s, i + 1, e) as u32, span(i, j + 1))],
            },
        ),
{
    reveal_strlit("FBV[");
    lemma_says(s, i, "FBV["@);
    if says(s, i, "FBV["@) {
        assert(s[i + 0] as int == "FBV["@[0] as int);
    }
    lemma_decimal(s, i + 1, e);
    assert(depth_in(s, i, i) == 0);
    assert(depth_in(s, i, i + 1) == 1);
    lemma_close(s, i, i + 1, j);
    let x = (number(s, i + 1, e) as u32, span(i, j + 1));
    assert(refs.targets + Seq::empty() =~= refs.targets);
    assert(refs.fbv + Seq::empty() =~= refs.fbv);
    assert(refs.pool + seq![x] =~= refs.pool.push(x));
}

/// Text in which no operand can start names nothing.
pub proof fn law_other_text_names_nothing(
    s: Seq<u8>,
    i: int,
    j: int,
    braces: int,
    refs: OperandRefs,
)
    requires
        0 <= i <= j <= s.len(),
        forall|k: int|
            i <= k < j ==> #[trigger] s[k] != 70 && s[k] != 91 && s[k] != 40 && s[k] != 64 && s[k]
                != 123 && s[k] != 125,
    ensures
        operands_from(s, i, braces, refs) == operands_from(s, j, braces, refs),
    decreases j - i,
{
    if i < j {
        assert(s[i] != 70);
        reveal_strlit("FBV[");
        reveal_strlit("(0x");
        lemma_says(s, i, "FBV["@);
        lemma_says(s, i, "(0x"@);
        if says(s, i, "FBV["@) {
            assert(s[i + 0] as int == "FBV["@[0] as int);
        }
        if says(s, i, "(0x"@) {
            assert(s[i + 0] as int == "(0x"@[0] as int);
        }
        law_other_text_names_nothing(s, i + 1, j, braces, refs);
    }
}

} // verus!
