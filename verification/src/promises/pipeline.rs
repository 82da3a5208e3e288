//! What a line of the optimising pipeline is read as.

use vstd::prelude::*;
#[allow(unused_imports)]
use vstd::string::*;
#[allow(unused_imports)]
use vstd::utf8::*;

#[allow(unused_imports)]
use super::bytes::{digit, digit_run, lemma_decimal, lemma_says, letter, number, says};
#[allow(unused_imports)]
use super::disassembly::{first_said, lemma_first, not_said};
#[allow(unused_imports)]
use super::lenses::lemma_nothing_to_trim;
#[allow(unused_imports)]
use super::lines::lemma_byte_found;
#[allow(unused_imports)]
use super::nodes::lemma_first_byte;
#[allow(unused_imports)]
use super::notes::{blank, lemma_blank_start};
#[allow(unused_imports)]
use super::tokens::{
    block_places, law_every_hash_token_is_a_reference, law_every_register_is_a_reference,
    law_every_upper_block_is_a_target, lists_tokens, node_places, token,
};
#[allow(unused_imports)]
use crate::model::{span, LineModel, NodeId, NodeModel, NodeRef, SCHEDULE_ONLY};
#[allow(unused_imports)]
use crate::parse::intern::{lemma_place, InternModel};
#[allow(unused_imports)]
use crate::parse::turbofan::{
    after_parameters, body, furniture, gap_row, grammar_line, instruction_block,
    instruction_furniture, instruction_line, listed_inputs, numbered_row, numbers_from, phi_row,
    refs_without, turboshaft_header, vreg_refs_of, Grammar,
};
#[allow(unused_imports)]
use crate::text::{
    byte_is, class_is, decimal_u32, in_class, lemma_run_end, occurs_at, run_end, text_of,
    trimmed_start, white_len, ByteClass,
};

verus! {

/// `o..e` is a whole mnemonic: letters, digits, `_` and `.`.
pub open spec fn mnemonic(s: Seq<u8>, o: int, e: int) -> bool {
    &&& 0 <= o < e <= s.len()
    &&& forall|k: int|
        o <= k < e ==> letter(#[trigger] s[k]) || digit(s[k]) || s[k] == 95 || s[k] == 46
    &&& e < s.len() ==> !(letter(s[e]) || digit(s[e]) || s[e] == 95 || s[e] == 46)
}

pub(crate) proof fn lemma_mnemonic(s: Seq<u8>, o: int, e: int)
    requires
        mnemonic(s, o, e),
    ensures
        run_end(s, o, ByteClass::Mnemonic) == e,
{
    let r = run_end(s, o, ByteClass::Mnemonic);
    lemma_run_end(s, o, ByteClass::Mnemonic);
    if r < e {
        assert(letter(s[r]) || digit(s[r]) || s[r] == 95 || s[r] == 46);
    }
    if e < r {
        assert(in_class(ByteClass::Mnemonic, s[e]));
    }
}

/// A line that ends in printable ASCII has nothing to trim.
proof fn lemma_body(s: Seq<u8>)
    requires
        s.len() > 0,
        33 <= s.last() <= 126,
    ensures
        body(s) == s,
{
    lemma_nothing_to_trim(s, 0, s.len() as int);
    assert(s.subrange(0, s.len() as int) =~= s);
}

/// A line that starts with neither a dash nor the letter of a trailer is no
/// furniture.
proof fn lemma_no_furniture(t: Seq<u8>)
    requires
        t.len() > 0,
        t[0] != 45,
        t[0] != 70,
        t[0] != 66,
    ensures
        !furniture(t),
{
    reveal_strlit("Finished compiling ");
    reveal_strlit("Begin compiling ");
    lemma_first_byte(t, 0, "Finished compiling "@);
    lemma_first_byte(t, 0, "Begin compiling "@);
}

/// A node has the opcode that is printed in `o..e`.
pub open spec fn has_opcode(s: Seq<u8>, node: NodeModel, m: InternModel, o: int, e: int) -> bool {
    &&& node.opcode_span.start == o
    &&& node.opcode_span.end == e
    &&& node.opcode < m.opcodes.len()
    &&& m.opcodes[node.opcode as int] == text_of(s, o, e)
}

proof fn lemma_opcode(m: InternModel, name: Seq<char>)
    requires
        m.opcodes.len() < u32::MAX,
    ensures
        m.opcode_id(name) < m.with_opcode(name).opcodes.len(),
        m.with_opcode(name).opcodes[m.opcode_id(name) as int] == name,
{
    lemma_place(m.opcodes, name, 0);
}

/// `#N:Opcode…` is a node of a sea of nodes: its id is `N`, its inputs are all
/// the `#N` behind the opcode, and notes that follow belong to it.
#[verifier::spinoff_prover]
#[verifier::rlimit(60)]
pub proof fn law_a_sea_node_is_read(s: Seq<u8>, d: int, e: int, m: InternModel, last: Option<NodeId>)
    requires
        s.len() < u32::MAX,
        m.opcodes.len() < u32::MAX,
        s.len() > 0,
        s[0] == 35,
        33 <= s.last() <= 126,
        digit_run(s, 1, d),
        number(s, 1, d) <= u32::MAX,
        s[d] == 58,
        mnemonic(s, d + 1, e),
    ensures
        ({
            let out = grammar_line(Grammar::Sea, s, m, last);
            &&& out.info matches LineModel::Node(node) && {
                &&& node.id == number(s, 1, d)
                &&& node.schedule_pos is None
                &&& node.def_span.start == 0 && node.def_span.end == d
                &&& has_opcode(s, node, out.interned, d + 1, e)
                &&& lists_tokens(node_places(node.inputs), s, 0, e, s.len() as int, 35, false)
                &&& node.targets.len() == 0
                &&& !node.dead
            }
            &&& out.last_node matches Some(id) && id == number(s, 1, d)
        }),
{
    reveal(grammar_line);
    lemma_body(s);
    lemma_no_furniture(s);
    lemma_decimal(s, 1, d);
    lemma_mnemonic(s, d + 1, e);
    lemma_opcode(m, text_of(s, d + 1, e));
    law_every_hash_token_is_a_reference(s, e);
}

/// Spaces up to `a`, the number `a..b`, `: ` and a mnemonic up to `e`.
pub open spec fn numbered(s: Seq<u8>, a: int, b: int, e: int) -> bool {
    &&& blank(s, 0, a)
    &&& digit_run(s, a, b)
    &&& number(s, a, b) <= u32::MAX
    &&& says(s, b, ": "@)
    &&& mnemonic(s, b + 2, e)
    &&& 33 <= s.last() <= 126
}

proof fn lemma_numbered(s: Seq<u8>, a: int, b: int, e: int)
    requires
        numbered(s, a, b, e),
    ensures
        numbered_row(s) == Some((number(s, a, b) as u32, a, b, b + 2, e)),
        trimmed_start(s, 0) == a,
        number(s, a, b) >= 0,
        run_end(s, a, ByteClass::Digit) == b,
        decimal_u32(s, a, b) == Some(number(s, a, b) as u32),
        run_end(s, b + 2, ByteClass::Mnemonic) == e,
        occurs_at(s, b, ": ".spec_bytes()),
        ": ".spec_bytes().len() == 2,
        s[0] == 32 || digit(s[0]),
        digit(s[a]),
        body(s) == s,
        !furniture(s),
{
    reveal_strlit(": ");
    lemma_says(s, b, ": "@);
    lemma_decimal(s, a, b);
    lemma_mnemonic(s, b + 2, e);
    assert(digit(s[a]));
    assert(white_len(s, a) == 0);
    lemma_blank_start(s, 0, a);
    lemma_body(s);
    if a > 0 {
        assert(s[0] == 32);
    }
    lemma_no_furniture(s);
}

/// A number that stands by itself in `i..e`; what stands in front of `lo` does
/// not matter.
pub open spec fn lone_number(s: Seq<u8>, lo: int, i: int, e: int) -> bool {
    &&& digit_run(s, i, e)
    &&& i > lo ==> i > 0 && !letter(s[i - 1]) && !digit(s[i - 1])
    &&& number(s, i, e) <= u32::MAX
}

/// The references are the numbers in `lo..hi`: each once, in order.
pub open spec fn lists_numbers(refs: Seq<NodeRef>, s: Seq<u8>, lo: int, hi: int) -> bool {
    &&& forall|k: int|
        0 <= k < refs.len() ==> {
            let r = #[trigger] refs[k];
            &&& lo <= r.span.start < hi
            &&& lone_number(s, lo, r.span.start as int, r.span.end as int)
            &&& r.node == number(s, r.span.start as int, r.span.end as int)
        }
    &&& forall|j: int, k: int|
        0 <= j < k < refs.len() ==> (#[trigger] refs[j]).span.start < (
        #[trigger] refs[k]).span.start
    &&& forall|p: int, q: int|
        lo <= p < hi && #[trigger] lone_number(s, lo, p, q) ==> exists|k: int|
            0 <= k < refs.len() && (#[trigger] refs[k]).span.start == p
}

proof fn lemma_one_number(refs: Seq<NodeRef>, s: Seq<u8>, lo: int, i: int, e: int)
    requires
        lists_numbers(refs, s, lo, i),
        0 <= lo <= i < e <= s.len() < u32::MAX,
        lone_number(s, lo, i, e),
    ensures
        lists_numbers(
            refs.push(NodeRef { node: number(s, i, e) as u32, span: span(i, e) }),
            s,
            lo,
            e,
        ),
{
    lemma_decimal(s, i, e);
    let x = NodeRef { node: number(s, i, e) as u32, span: span(i, e) };
    let out = refs.push(x);
    let n = refs.len() as int;
    assert(out[n] == x);
    assert forall|k: int| 0 <= k < out.len() implies ({
        let r = #[trigger] out[k];
        &&& lo <= r.span.start < e
        &&& lone_number(s, lo, r.span.start as int, r.span.end as int)
        &&& r.node == number(s, r.span.start as int, r.span.end as int)
    }) by {
        if k < n {
            assert(out[k] == refs[k]);
        }
    }
    assert forall|j: int, k: int| 0 <= j < k < out.len() implies (#[trigger] out[j]).span.start < (
    #[trigger] out[k]).span.start by {
        assert(out[j] == refs[j]);
        if k < n {
            assert(out[k] == refs[k]);
        }
    }
    assert forall|p: int, q: int| lo <= p < e && #[trigger] lone_number(s, lo, p, q) implies exists|
        k: int,
    | 0 <= k < out.len() && (#[trigger] out[k]).span.start == p by {
        if p < i {
            let k = choose|k: int| 0 <= k < refs.len() && (#[trigger] refs[k]).span.start == p;
            assert(out[k] == refs[k]);
        } else if p > i {
            assert(digit(s[p - 1]));
        } else {
            assert(out[n].span.start == p);
        }
    }
}

proof fn lemma_no_number(refs: Seq<NodeRef>, s: Seq<u8>, lo: int, i: int, to: int)
    requires
        lists_numbers(refs, s, lo, i),
        i <= to,
        forall|p: int, q: int| i <= p < to ==> !#[trigger] lone_number(s, lo, p, q),
    ensures
        lists_numbers(refs, s, lo, to),
{
}

proof fn lemma_numbers(s: Seq<u8>, lo: int, i: int, hi: int, refs: Seq<NodeRef>)
    requires
        0 <= lo <= i <= hi < s.len() < u32::MAX,
        !digit(s[hi]),
        lists_numbers(refs, s, lo, i),
    ensures
        lists_numbers(numbers_from(s, lo, i, hi, refs), s, lo, hi),
    decreases hi - i,
{
    if i < hi {
        let e = run_end(s, i, ByteClass::Digit);
        lemma_run_end(s, i, ByteClass::Digit);
        if hi < e {
            assert(in_class(ByteClass::Digit, s[hi]));
        }
        if class_is(s, i, ByteClass::Digit) && (i <= lo || !class_is(
            s,
            i - 1,
            ByteClass::Alphanumeric,
        )) {
            assert(e > i);
            assert forall|k: int| i <= k < e implies digit(#[trigger] s[k]) by {
                assert(in_class(ByteClass::Digit, s[k]));
            }
            assert(digit_run(s, i, e));
            lemma_decimal(s, i, e);
            if number(s, i, e) <= u32::MAX {
                lemma_one_number(refs, s, lo, i, e);
                let out = refs.push(NodeRef { node: number(s, i, e) as u32, span: span(i, e) });
                lemma_numbers(s, lo, e, hi, out);
            } else {
                assert forall|p: int, q: int| i <= p < e implies !#[trigger] lone_number(
                    s,
                    lo,
                    p,
                    q,
                ) by {
                    if lone_number(s, lo, p, q) {
                        if p > i {
                            assert(digit(s[p - 1]));
                        } else {
                            lemma_decimal(s, i, q);
                        }
                    }
                }
                lemma_no_number(refs, s, lo, i, e);
                lemma_numbers(s, lo, e, hi, refs);
            }
        } else {
            assert forall|p: int, q: int| i <= p < i + 1 implies !#[trigger] lone_number(
                s,
                lo,
                p,
                q,
            ) by {
                if lone_number(s, lo, p, q) {
                    assert(digit(s[p]));
                }
            }
            lemma_no_number(refs, s, lo, i, i + 1);
            lemma_numbers(s, lo, i + 1, hi, refs);
        }
    }
}

/// Where an opcode is followed by a list in parentheses, which closes at `c`, the
/// inputs are the numbers in it; without one there are none.
pub proof fn law_listed_numbers_are_inputs(s: Seq<u8>, e: int, c: int)
    requires
        0 <= e <= s.len() < u32::MAX,
        e < s.len() ==> s[e] != 91,
    ensures
        e < s.len() && s[e] != 40 ==> listed_inputs(s, after_parameters(s, e)).len() == 0,
        e == s.len() ==> listed_inputs(s, after_parameters(s, e)).len() == 0,
        e < c < s.len() && s[e] == 40 && s[c] == 41 && (forall|k: int|
            e < k < c ==> #[trigger] s[k] != 41) ==> lists_numbers(
            listed_inputs(s, after_parameters(s, e)),
            s,
            e + 1,
            c,
        ),
{
    if e < c < s.len() && s[e] == 40 && s[c] == 41 && (forall|k: int|
        e < k < c ==> #[trigger] s[k] != 41) {
        lemma_byte_found(s, e + 1, c, 41);
        lemma_numbers(s, e + 1, e + 1, c, Seq::empty());
    }
}

/// `N: Opcode(1, 2) -> B3, B4` is a node of a schedule: its id is `N`, its inputs
/// are the numbers in parentheses, and its targets the blocks behind the arrow.
#[verifier::spinoff_prover]
#[verifier::rlimit(60)]
pub proof fn law_a_scheduled_row_is_read(
    s: Seq<u8>,
    a: int,
    b: int,
    e: int,
    arrow: int,
    m: InternModel,
    last: Option<NodeId>,
)
    requires
        s.len() < u32::MAX,
        m.opcodes.len() < u32::MAX,
        numbered(s, a, b, e),
    ensures
        ({
            let out = grammar_line(Grammar::Schedule, s, m, last);
            &&& out.info matches LineModel::Node(node) && {
                &&& node.id == number(s, a, b)
                &&& node.schedule_pos is None
                &&& node.def_span.start == a && node.def_span.end == b
                &&& has_opcode(s, node, out.interned, b + 2, e)
                &&& node.inputs == listed_inputs(s, after_parameters(s, e))
                &&& first_said(s, 0, s.len() as int, arrow, " -> "@) ==> lists_tokens(
                    block_places(node.targets),
                    s,
                    0,
                    arrow,
                    s.len() as int,
                    66,
                    true,
                )
                &&& not_said(s, 0, s.len() as int, " -> "@) ==> node.targets.len() == 0
                &&& !node.dead
            }
            &&& out.last_node matches Some(id) && id == number(s, a, b)
        }),
{
    reveal(grammar_line);
    lemma_numbered(s, a, b, e);
    lemma_opcode(m, text_of(s, b + 2, e));
    reveal_strlit("--- BLOCK B");
    lemma_first_byte(s, 0, "--- BLOCK B"@);
    reveal_strlit(" -> ");
    lemma_first(s, 0, s.len() as int, arrow, " -> "@);
    assert(s.subrange(0, s.len() as int) =~= s);
    if first_said(s, 0, s.len() as int, arrow, " -> "@) {
        law_every_upper_block_is_a_target(s, arrow);
    }
}

/// `N: Opcode(#1, #2)[B3]` is an operation of Turboshaft: its id is `N`, its
/// inputs are all the `#N` and its targets all the `BN` behind the opcode.
#[verifier::spinoff_prover]
#[verifier::rlimit(60)]
pub proof fn law_an_operation_is_read(
    s: Seq<u8>,
    a: int,
    b: int,
    e: int,
    m: InternModel,
    last: Option<NodeId>,
)
    requires
        s.len() < u32::MAX,
        m.opcodes.len() < u32::MAX,
        numbered(s, a, b, e),
    ensures
        ({
            let out = grammar_line(Grammar::Turboshaft, s, m, last);
            &&& out.info matches LineModel::Node(node) && {
                &&& node.id == number(s, a, b)
                &&& node.schedule_pos is None
                &&& node.def_span.start == a && node.def_span.end == b
                &&& has_opcode(s, node, out.interned, b + 2, e)
                &&& lists_tokens(node_places(node.inputs), s, 0, e, s.len() as int, 35, false)
                &&& lists_tokens(block_places(node.targets), s, 0, e, s.len() as int, 66, true)
                &&& !node.dead
            }
            &&& out.last_node matches Some(id) && id == number(s, a, b)
        }),
{
    reveal(grammar_line);
    lemma_numbered(s, a, b, e);
    lemma_opcode(m, text_of(s, b + 2, e));
    lemma_no_header(s);
    law_every_hash_token_is_a_reference(s, e);
    law_every_upper_block_is_a_target(s, e);
}

proof fn lemma_no_header(s: Seq<u8>)
    requires
        s.len() > 0,
        s[0] != 66,
        s[0] != 77,
        s[0] != 76,
    ensures
        turboshaft_header(s) is None,
{
    reveal_strlit("BLOCK B");
    reveal_strlit("MERGE B");
    reveal_strlit("LOOP B");
    lemma_first_byte(s, 0, "BLOCK B"@);
    lemma_first_byte(s, 0, "MERGE B"@);
    lemma_first_byte(s, 0, "LOOP B"@);
}

/// `N: gap …` is a slot of an instruction sequence: it has the place `N`, no id
/// of its own, and takes all the registers behind the colon.
#[verifier::spinoff_prover]
#[verifier::rlimit(60)]
pub proof fn law_a_gap_is_read(
    s: Seq<u8>,
    a: int,
    b: int,
    e: int,
    m: InternModel,
    last: Option<NodeId>,
)
    requires
        s.len() < u32::MAX,
        m.opcodes.len() < u32::MAX,
        numbered(s, a, b, e),
    ensures
        ({
            let out = grammar_line(Grammar::Instructions, s, m, last);
            &&& out.info matches LineModel::Node(node) && {
                &&& node.id == SCHEDULE_ONLY
                &&& node.schedule_pos matches Some(p) && p == number(s, a, b)
                &&& node.def_span.start == a && node.def_span.end == b
                &&& has_opcode(s, node, out.interned, b + 2, e)
                &&& lists_tokens(node_places(node.inputs), s, 0, b + 2, s.len() as int, 118, true)
            }
            &&& out.last_node == last
        }),
{
    reveal(grammar_line);
    lemma_numbered(s, a, b, e);
    lemma_opcode(m, text_of(s, b + 2, e));
    lemma_no_pool(s, a);
    law_every_register_is_a_reference(s, b + 2);
}

proof fn lemma_no_pool(s: Seq<u8>, a: int)
    requires
        0 <= a < s.len(),
        s[0] != 73,
        s[0] != 67,
        s[a] != 112,
        s[a] != 115,
    ensures
        !instruction_furniture(s, a),
{
    reveal_strlit("IMM#");
    reveal_strlit("CST#");
    reveal_strlit("predecessors");
    reveal_strlit("successors");
    lemma_first_byte(s, 0, "IMM#"@);
    lemma_first_byte(s, 0, "CST#"@);
    lemma_first_byte(s, a, "predecessors"@);
    lemma_first_byte(s, a, "successors"@);
}

proof fn lemma_rest(refs: Seq<NodeRef>, n: int)
    requires
        0 < n <= refs.len(),
        forall|j: int, k: int|
            0 <= j < k < refs.len() ==> (#[trigger] refs[j]).span.start < (
            #[trigger] refs[k]).span.start,
    ensures
        refs_without(refs, n, refs[0].span) == refs.subrange(1, n),
    decreases n,
{
    if n > 1 {
        lemma_rest(refs, n - 1);
        assert(refs[0].span.start < refs[n - 1].span.start);
        assert(refs.subrange(1, n) =~= refs.subrange(1, n - 1).push(refs[n - 1]));
    } else {
        assert(refs_without(refs, 0, refs[0].span) =~= Seq::empty());
        assert(refs.subrange(1, 1) =~= Seq::empty());
    }
}

/// Without the first token, the others are those behind it.
#[verifier::spinoff_prover]
#[verifier::rlimit(60)]
proof fn lemma_behind(s: Seq<u8>, refs: Seq<NodeRef>, a: int, p: int, x: int)
    requires
        0 <= a <= p < x <= s.len() < u32::MAX,
        lists_tokens(node_places(refs), s, 0, a, s.len() as int, 118, true),
        token(s, 0, p, x, 118, true),
        forall|k: int| a <= k < p ==> #[trigger] s[k] != 118,
    ensures
        refs.len() > 0,
        refs[0].span == span(p, x),
        refs[0].node == number(s, p + 1, x),
        lists_tokens(
            node_places(refs.subrange(1, refs.len() as int)),
            s,
            0,
            x,
            s.len() as int,
            118,
            true,
        ),
        refs_without(refs, refs.len() as int, refs[0].span) == refs.subrange(
            1,
            refs.len() as int,
        ),
        refs.remove(0) == refs.subrange(1, refs.len() as int),
{
    let list = node_places(refs);
    let k = choose|k: int| 0 <= k < list.len() && (#[trigger] list[k]).0 == p;
    assert(list[k].0 == p);
    assert(refs.len() > 0);
    if k > 0 {
        assert(list[0].0 < list[k].0);
        assert(s[list[0].0 as int] == 118);
        assert(false);
    }
    assert(list[0] == (refs[0].span.start, refs[0].span.end, refs[0].node));
    lemma_decimal(s, p + 1, x);
    lemma_decimal(s, p + 1, list[0].1 as int);
    assert(refs[0].span.end == x);
    assert forall|i: int, j: int| 0 <= i < j < refs.len() implies (#[trigger] refs[i]).span.start
        < (#[trigger] refs[j]).span.start by {
        assert(list[i].0 < list[j].0);
    }
    lemma_rest(refs, refs.len() as int);
    let rest = refs.subrange(1, refs.len() as int);
    let tail = node_places(rest);
    assert(refs.remove(0) =~= rest);
    assert forall|j: int| 0 <= j < tail.len() implies #[trigger] tail[j] == list[j + 1] by {}
    assert forall|j: int| 0 <= j < tail.len() implies ({
        let (c, b, n) = #[trigger] tail[j];
        &&& x <= c < s.len()
        &&& token(s, 0, c as int, b as int, 118, true)
        &&& n == number(s, c + 1, b as int)
    }) by {
        assert(tail[j] == list[j + 1]);
        assert(list[0].0 < list[j + 1].0);
        let c = list[j + 1].0 as int;
        if c < x {
            assert(digit(s[c]));
        }
    }
    assert forall|i: int, j: int| 0 <= i < j < tail.len() implies (#[trigger] tail[i]).0 < (
    #[trigger] tail[j]).0 by {
        assert(tail[i] == list[i + 1]);
        assert(tail[j] == list[j + 1]);
    }
    assert forall|q: int, e: int|
        x <= q < s.len() && #[trigger] token(s, 0, q, e, 118, true) implies exists|j: int|
        0 <= j < tail.len() && (#[trigger] tail[j]).0 == q by {
        let j = choose|j: int| 0 <= j < list.len() && (#[trigger] list[j]).0 == q;
        assert(j > 0);
        assert(tail[j - 1] == list[j]);
    }
}

/// `vN = Opcode …` is an instruction that defines the register `N`. Its inputs
/// are all the registers behind that one.
#[verifier::spinoff_prover]
#[verifier::rlimit(60)]
pub proof fn law_a_definition_is_read(
    s: Seq<u8>,
    a: int,
    x: int,
    e: int,
    m: InternModel,
    last: Option<NodeId>,
)
    requires
        s.len() < u32::MAX,
        m.opcodes.len() < u32::MAX,
        blank(s, 0, a),
        a < s.len(),
        s[a] == 118,
        digit_run(s, a + 1, x),
        number(s, a + 1, x) < u32::MAX,
        says(s, x, " = "@),
        mnemonic(s, x + 3, e),
        33 <= s.last() <= 126,
    ensures
        ({
            let out = grammar_line(Grammar::Instructions, s, m, last);
            &&& out.info matches LineModel::Node(node) && {
                &&& node.id == number(s, a + 1, x)
                &&& node.schedule_pos is None
                &&& node.def_span.start == a && node.def_span.end == x
                &&& has_opcode(s, node, out.interned, x + 3, e)
                &&& lists_tokens(node_places(node.inputs), s, 0, x, s.len() as int, 118, true)
            }
            &&& out.last_node matches Some(id) && id == number(s, a + 1, x)
        }),
{
    reveal(grammar_line);
    reveal_strlit(" = ");
    reveal_strlit("phi:");
    lemma_body(s);
    if a > 0 {
        assert(s[0] == 32);
        assert(s[a - 1] == 32);
    }
    lemma_no_furniture(s);
    assert(white_len(s, a) == 0);
    lemma_blank_start(s, 0, a);
    lemma_no_pool(s, a);
    lemma_first_byte(s, a, "phi:"@);
    lemma_says(s, x, " = "@);
    assert(s[x + 0] as int == " = "@[0] as int);
    lemma_first(s, 0, s.len() as int, x, " = "@);
    assert(s.subrange(0, s.len() as int) =~= s);
    assert forall|k: int| 0 <= k < x implies !#[trigger] says(s, k, " = "@) by {
        if says(s, k, " = "@) {
            assert(s[k + 0] as int == " = "@[0] as int);
            assert(s[k + 1] as int == " = "@[1] as int);
            if k > a {
                assert(digit(s[k]));
            } else if k + 1 < a {
                assert(s[k + 1] == 32);
            }
        }
    }
    lemma_mnemonic(s, x + 3, e);
    lemma_opcode(m, text_of(s, x + 3, e));
    law_every_register_is_a_reference(s, a);
    lemma_decimal(s, a + 1, x);
    assert(token(s, 0, a, x, 118, true));
    lemma_behind(s, vreg_refs_of(s, a), a, a, x);
    assert(run_end(s, a, ByteClass::Digit) == a);
}

/// `phi: vN = v1 v2` defines the register `N`, and takes the registers behind it.
#[verifier::spinoff_prover]
#[verifier::rlimit(60)]
pub proof fn law_a_phi_is_read(
    s: Seq<u8>,
    a: int,
    x: int,
    m: InternModel,
    last: Option<NodeId>,
)
    requires
        s.len() < u32::MAX,
        m.opcodes.len() < u32::MAX,
        blank(s, 0, a),
        says(s, a, "phi: v"@),
        digit_run(s, a + 6, x),
        number(s, a + 6, x) < u32::MAX,
        x < s.len(),
        !letter(s[x]),
        33 <= s.last() <= 126,
    ensures
        ({
            let out = grammar_line(Grammar::Instructions, s, m, last);
            &&& out.info matches LineModel::Node(node) && {
                &&& node.id == number(s, a + 6, x)
                &&& node.schedule_pos is None
                &&& node.def_span.start == a + 5 && node.def_span.end == x
                &&& node.opcode < out.interned.opcodes.len()
                &&& out.interned.opcodes[node.opcode as int] == "phi"@
                &&& lists_tokens(node_places(node.inputs), s, 0, x, s.len() as int, 118, true)
            }
            &&& out.last_node matches Some(id) && id == number(s, a + 6, x)
        }),
{
    reveal(grammar_line);
    lemma_body(s);
    lemma_phi(s, a);
    if a > 0 {
        assert(s[0] == 32);
    }
    lemma_no_furniture(s);
    assert(white_len(s, a) == 0);
    lemma_blank_start(s, 0, a);
    lemma_opcode(m, "phi"@);
    law_every_register_is_a_reference(s, a);
    lemma_decimal(s, a + 6, x);
    assert(token(s, 0, a + 5, x, 118, true));
    lemma_behind(s, vreg_refs_of(s, a), a, a + 5, x);
    lemma_phi_line(s, a, m, last);
}

/// A line that starts with `phi: v` is the row of a phi.
#[verifier::spinoff_prover]
#[verifier::rlimit(60)]
proof fn lemma_phi_line(s: Seq<u8>, a: int, m: InternModel, last: Option<NodeId>)
    requires
        says(s, a, "phi: v"@),
        blank(s, 0, a),
        trimmed_start(s, 0) == a,
        !furniture(s),
        vreg_refs_of(s, a).len() > 0,
    ensures
        instruction_line(s, m, last) == crate::parse::turbofan::instruction(
            vreg_refs_of(s, a)[0].node,
            None,
            vreg_refs_of(s, a)[0].span,
            m,
            "phi"@,
            span(a, a + 3),
            vreg_refs_of(s, a).remove(0),
            last,
        ),
{
    lemma_phi(s, a);
    if a > 0 {
        assert(s[0] == 32);
    }
    assert(white_len(s, a + 5) == 0);
    lemma_blank_start(s, a + 4, a + 5);
    assert(run_end(s, a, ByteClass::Digit) == a);
    assert(gap_row(s, a, m, last) is None);
    assert(instruction_block(s) is None);
    assert(phi_row(s, a, m, last) is Some);
}

#[verifier::spinoff_prover]
#[verifier::rlimit(60)]
proof fn lemma_phi(s: Seq<u8>, a: int)
    requires
        says(s, a, "phi: v"@),
        blank(s, 0, a),
    ensures
        0 <= a,
        a + 6 <= s.len(),
        occurs_at(s, a, "phi:".spec_bytes()),
        "phi:".spec_bytes().len() == 4,
        s[a] == 112,
        s[a + 1] == 104,
        s[a + 2] == 105,
        s[a + 3] == 58,
        s[a + 4] == 32,
        s[a + 5] == 118,
        !instruction_furniture(s, a),
{
    reveal_strlit("phi: v");
    reveal_strlit("phi:");
    reveal_strlit("IMM#");
    reveal_strlit("CST#");
    reveal_strlit("predecessors");
    reveal_strlit("successors");
    let w = "phi: v"@;
    assert(s[a + 0] as int == w[0] as int);
    assert(s[a + 1] as int == w[1] as int);
    assert(s[a + 2] as int == w[2] as int);
    assert(s[a + 3] as int == w[3] as int);
    assert(s[a + 4] as int == w[4] as int);
    assert(s[a + 5] as int == w[5] as int);
    lemma_says(s, a, "phi:"@);
    assert(says(s, a, "phi:"@));
    if a > 0 {
        assert(s[0] == 32);
    }
    lemma_first_byte(s, 0, "IMM#"@);
    lemma_first_byte(s, 0, "CST#"@);
    lemma_says(s, a, "predecessors"@);
    lemma_first_byte(s, a, "successors"@);
    if says(s, a, "predecessors"@) {
        assert(s[a + 1] as int == "predecessors"@[1] as int);
    }
}

/// `--- BLOCK BN`, `BLOCK BN`, `MERGE BN`, `LOOP BN` and `BN:` open the block `N`,
/// each in its own dump.
#[verifier::spinoff_prover]
#[verifier::rlimit(60)]
pub proof fn law_a_block_opens(s: Seq<u8>, e: int, m: InternModel, last: Option<NodeId>)
    requires
        s.len() > 0,
        33 <= s.last() <= 126,
    ensures
        says(s, 0, "--- BLOCK B"@) && digit_run(s, 11, e) && number(s, 11, e) <= u32::MAX
            ==> grammar_line(Grammar::Schedule, s, m, last).info == (LineModel::BlockHeader {
            block: number(s, 11, e) as u32,
        }),
        says(s, 0, "BLOCK B"@) && digit_run(s, 7, e) && number(s, 7, e) <= u32::MAX
            ==> grammar_line(Grammar::Turboshaft, s, m, last).info == (LineModel::BlockHeader {
            block: number(s, 7, e) as u32,
        }),
        says(s, 0, "MERGE B"@) && digit_run(s, 7, e) && number(s, 7, e) <= u32::MAX
            ==> grammar_line(Grammar::Turboshaft, s, m, last).info == (LineModel::BlockHeader {
            block: number(s, 7, e) as u32,
        }),
        says(s, 0, "LOOP B"@) && digit_run(s, 6, e) && number(s, 6, e) <= u32::MAX
            ==> grammar_line(Grammar::Turboshaft, s, m, last).info == (LineModel::BlockHeader {
            block: number(s, 6, e) as u32,
        }),
        s[0] == 66 && digit_run(s, 1, e) && number(s, 1, e) <= u32::MAX && byte_is(s, e, 58)
            ==> grammar_line(Grammar::Instructions, s, m, last).info == (LineModel::BlockHeader {
            block: number(s, 1, e) as u32,
        }),
{
    reveal(grammar_line);
    lemma_body(s);
    lemma_headers(s);
    if says(s, 0, "--- BLOCK B"@) && digit_run(s, 11, e) {
        lemma_decimal(s, 11, e);
    }
    if digit_run(s, 7, e) {
        lemma_decimal(s, 7, e);
    }
    if digit_run(s, 6, e) {
        lemma_decimal(s, 6, e);
    }
    if digit_run(s, 1, e) {
        lemma_decimal(s, 1, e);
        assert(digit(s[1]));
    }
}

#[verifier::spinoff_prover]
#[verifier::rlimit(60)]
proof fn lemma_headers(s: Seq<u8>)
    requires
        s.len() > 0,
    ensures
        occurs_at(s, 0, "--- BLOCK B".spec_bytes()) == says(s, 0, "--- BLOCK B"@),
        occurs_at(s, 0, "BLOCK B".spec_bytes()) == says(s, 0, "BLOCK B"@),
        occurs_at(s, 0, "MERGE B".spec_bytes()) == says(s, 0, "MERGE B"@),
        occurs_at(s, 0, "LOOP B".spec_bytes()) == says(s, 0, "LOOP B"@),
        "--- BLOCK B".spec_bytes().len() == 11,
        "BLOCK B".spec_bytes().len() == 7,
        "MERGE B".spec_bytes().len() == 7,
        "LOOP B".spec_bytes().len() == 6,
        says(s, 0, "--- BLOCK B"@) || says(s, 0, "BLOCK B"@) || says(s, 0, "MERGE B"@) || says(
            s,
            0,
            "LOOP B"@,
        ) || (s[0] == 66 && s.len() > 1 && digit(s[1])) ==> !furniture(s),
        says(s, 0, "BLOCK B"@) ==> s[0] == 66,
        says(s, 0, "MERGE B"@) ==> s[0] == 77,
        says(s, 0, "LOOP B"@) ==> s[0] == 76,
{
    reveal_strlit("--- BLOCK B");
    reveal_strlit("BLOCK B");
    reveal_strlit("MERGE B");
    reveal_strlit("LOOP B");
    reveal_strlit("Finished compiling ");
    reveal_strlit("Begin compiling ");
    lemma_says(s, 0, "--- BLOCK B"@);
    lemma_says(s, 0, "BLOCK B"@);
    lemma_says(s, 0, "MERGE B"@);
    lemma_says(s, 0, "LOOP B"@);
    lemma_first_byte(s, 0, "Finished compiling "@);
    lemma_says(s, 0, "Begin compiling "@);
    if says(s, 0, "Begin compiling "@) {
        assert(s[0] as int == "Begin compiling "@[0] as int);
        assert(s[1] as int == "Begin compiling "@[1] as int);
    }
    if says(s, 0, "--- BLOCK B"@) {
        assert(s[0] as int == "--- BLOCK B"@[0] as int);
        assert(s[1] as int == "--- BLOCK B"@[1] as int);
        assert(s[3] as int == "--- BLOCK B"@[3] as int);
        let r = run_end(s, 0, ByteClass::Dash);
        lemma_run_end(s, 0, ByteClass::Dash);
        if r > 3 {
            assert(in_class(ByteClass::Dash, s[3]));
        }
    }
    if says(s, 0, "BLOCK B"@) {
        assert(s[0] as int == "BLOCK B"@[0] as int);
        assert(s[1] as int == "BLOCK B"@[1] as int);
    }
    if says(s, 0, "MERGE B"@) {
        assert(s[0] as int == "MERGE B"@[0] as int);
    }
    if says(s, 0, "LOOP B"@) {
        assert(s[0] as int == "LOOP B"@[0] as int);
    }
}

} // verus!
