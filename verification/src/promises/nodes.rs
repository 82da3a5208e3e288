//! What a line of a Maglev graph is read as.

use vstd::prelude::*;
#[allow(unused_imports)]
use vstd::string::*;
#[allow(unused_imports)]
use vstd::utf8::*;

#[allow(unused_imports)]
use super::bytes::{digit, digit_run, lemma_decimal, lemma_says, number, says};
#[allow(unused_imports)]
use super::refs::{law_every_node_token_is_a_reference, names_node};
#[allow(unused_imports)]
use super::tokens::{block_places, law_every_block_token_is_a_target, lists_tokens};
#[allow(unused_imports)]
use crate::model::{LineModel, NodeModel, SCHEDULE_ONLY};
#[allow(unused_imports)]
use crate::parse::intern::{lemma_place, InternModel};
#[allow(unused_imports)]
use crate::parse::maglev::{
    content_from, gap_move_at, graph_line, node_ids, node_line, node_refs_of, opcode_end_from,
    MemoryModel,
};
#[allow(unused_imports)]
use crate::text::{find_from, occurs_at, text_of};

verus! {

/// A three-byte glyph of the gutter: one of `│ ─ ╭ ╰ ╮ ╯ ═ ► ▼ ▲ ◄ ↓`.
pub open spec fn is_glyph(a: u8, b: u8, c: u8) -> bool {
    &&& a == 226
    &&& {
        ||| b == 148 && (c == 130 || c == 128)
        ||| b == 149 && (c == 173 || c == 176 || c == 174 || c == 175 || c == 144)
        ||| b == 150 && (c == 186 || c == 188 || c == 178)
        ||| b == 151 && c == 132
        ||| b == 134 && c == 147
    }
}

/// From `i` up to `start` there is nothing but spaces and glyphs of the gutter.
pub open spec fn margin(s: Seq<u8>, i: int, start: int) -> bool
    decreases start - i,
{
    ||| i == start
    ||| i < start && s[i] == 32 && margin(s, i + 1, start)
    ||| i + 2 < start && is_glyph(s[i], s[i + 1], s[i + 2]) && margin(s, i + 3, start)
}

proof fn lemma_margin(s: Seq<u8>, i: int, start: int)
    requires
        0 <= i <= start < s.len(),
        margin(s, i, start),
        s[start] < 128,
        s[start] != 32,
    ensures
        content_from(s, i) == start,
    decreases start - i,
{
    if i < start {
        if s[i] == 32 && margin(s, i + 1, start) {
            lemma_margin(s, i + 1, start);
        } else if i + 2 < start && is_glyph(s[i], s[i + 1], s[i + 2]) && margin(s, i + 3, start) {
            lemma_margin(s, i + 3, start);
        }
    }
}

/// The first byte of a word that stands at `k`.
pub(crate) proof fn lemma_first_byte(s: Seq<u8>, k: int, word: Seq<char>)
    requires
        word.len() > 0,
        '\0' <= word[0] <= '\u{7f}',
    ensures
        occurs_at(s, k, encode_utf8(word)) ==> k < s.len() && s[k] == word[0] as u8,
{
    let first = seq![word[0]];
    is_ascii_chars_encode_utf8(first);
    assert(first.drop_first() =~= Seq::<char>::empty());
    assert(encode_utf8(first) =~= encode_scalar(word[0] as u32));
    assert(first[0] == word[0]);
    let w = encode_utf8(word);
    assert(w[0] == word[0] as u8);
    if occurs_at(s, k, w) {
        assert(s.subrange(k, k + w.len())[0] == s[k]);
    }
}

/// The first byte of a word that starts with a character outside ASCII, as the
/// arrows do.
pub(crate) proof fn lemma_wide_byte(s: Seq<u8>, k: int, word: Seq<char>)
    requires
        word.len() > 0,
        0x2000 <= word[0] as u32 <= 0x2fff,
    ensures
        occurs_at(s, k, encode_utf8(word)) ==> k < s.len() && s[k] >= 0x80,
{
    let w = encode_utf8(word);
    let c = word[0] as u32;
    assert(leading_byte_width_3(c) >= 0xe0) by (bit_vector)
        requires
            0x2000 <= c <= 0x2fff,
    ;
    assert(encode_scalar(c)[0] == leading_byte_width_3(c));
    assert(w[0] == encode_scalar(c)[0]);
    if occurs_at(s, k, w) {
        assert(s.subrange(k, k + w.len())[0] == s[k]);
    }
}

/// `o..e` is a plain opcode: no space and no bracket in it, and a space, an
/// opening parenthesis or nothing behind it.
pub open spec fn opcode_word(s: Seq<u8>, o: int, e: int) -> bool {
    &&& 0 <= o < e <= s.len()
    &&& forall|k: int|
        o <= k < e ==> #[trigger] s[k] != 32 && s[k] != 40 && s[k] != 91 && s[k] != 93
    &&& e < s.len() ==> s[e] == 32 || s[e] == 40
}

proof fn lemma_opcode_end(s: Seq<u8>, i: int, e: int)
    requires
        0 <= i <= e <= s.len(),
        forall|k: int|
            i <= k < e ==> #[trigger] s[k] != 32 && s[k] != 40 && s[k] != 91 && s[k] != 93,
        e < s.len() ==> s[e] == 32 || s[e] == 40,
    ensures
        opcode_end_from(s, i, 0) == e,
    decreases e - i,
{
    if i < e {
        assert(s[i] != 32 && s[i] != 40);
        lemma_opcode_end(s, i + 1, e);
    }
}

/// What a node line says, read off its bytes: its ids end at `ids`, its opcode
/// stands in `o..e`, and behind it come its inputs, its targets, the number of
/// its uses and its dead mark.
#[verifier::opaque]
pub open spec fn node_reads(s: Seq<u8>, node: NodeModel, m: InternModel, o: int, e: int) -> bool {
    &&& node.opcode_span.start == o && node.opcode_span.end == e
    &&& node.opcode < m.opcodes.len()
    &&& m.opcodes[node.opcode as int] == text_of(s, o, e)
    &&& forall|k: int|
        0 <= k < node.inputs.len() ==> {
            let r = #[trigger] node.inputs[k];
            &&& names_node(s, e, r.span.start as int, r.span.end as int)
            &&& r.node == number(s, r.span.start + 1, r.span.end as int)
        }
    &&& forall|j: int, k: int|
        0 <= j < k < node.inputs.len() ==> (#[trigger] node.inputs[j]).span.start < (
        #[trigger] node.inputs[k]).span.start
    &&& forall|p: int, q: int| #[trigger]
        names_node(s, e, p, q) ==> exists|k: int|
            0 <= k < node.inputs.len() && (#[trigger] node.inputs[k]).span.start == p
    &&& lists_tokens(block_places(node.targets), s, e, e, s.len() as int, 98, true)
    &&& node.dead <==> exists|k: int|
        e <= k && #[trigger] occurs_at(s, k, encode_utf8("🪦"@))
}

proof fn lemma_found(s: Seq<u8>, from: int, word: Seq<u8>)
    requires
        0 <= from,
        word.len() > 0,
    ensures
        find_from(s, from, word) is Some <==> exists|k: int|
            from <= k && #[trigger] occurs_at(s, k, word),
    decreases s.len() + 1 - from,
{
    if from + word.len() <= s.len() && !occurs_at(s, from, word) {
        lemma_found(s, from + 1, word);
        if exists|k: int| from <= k && #[trigger] occurs_at(s, k, word) {
            let k = choose|k: int| from <= k && #[trigger] occurs_at(s, k, word);
            assert(from + 1 <= k && occurs_at(s, k, word));
        }
    }
}

/// What is common to node lines: a digit stands at `start`.
#[verifier::spinoff_prover]
#[verifier::rlimit(60)]
proof fn lemma_no_other_line(s: Seq<u8>, start: int, mem: MemoryModel)
    requires
        0 <= start < s.len(),
        margin(s, 0, start),
        digit(s[start]),
        !(start + 1 < s.len() && s[start + 1] == 120),
    ensures
        ({
            let out = node_line(s, start, mem.interned, mem.dual);
            let after = MemoryModel { interned: out.interned, dual: out.dual, ..mem };
            out.node matches Some(node) ==> graph_line(s, mem) == (
                LineModel::Node(node),
                if node.id != SCHEDULE_ONLY {
                    MemoryModel { last_node: Some(node.id), ..after }
                } else {
                    after
                },
            )
        }),
{
    lemma_margin(s, 0, start);
    reveal_strlit("Graph");
    reveal_strlit("Block b");
    reveal_strlit("↱");
    reveal_strlit("↳");
    reveal_strlit("VOs ");
    reveal_strlit("VOs");
    reveal_strlit("- ");
    reveal_strlit("0x");
    assert("↱"@[0] as u32 == 0x21b1);
    assert("↳"@[0] as u32 == 0x21b3);
    lemma_first_byte(s, start, "Graph"@);
    lemma_first_byte(s, start, "Block b"@);
    lemma_wide_byte(s, start, "↱"@);
    lemma_wide_byte(s, start, "↳"@);
    lemma_first_byte(s, start, "VOs "@);
    lemma_first_byte(s, start, "VOs"@);
    lemma_first_byte(s, start, "- "@);
    lemma_says(s, start, "0x"@);
    if says(s, start, "0x"@) {
        assert(s[start + 1] as int == "0x"@[1] as int);
    }
}

/// What reading a node line must give.
spec fn outcome_is(
    s: Seq<u8>,
    start: int,
    ids: int,
    e: int,
    m: InternModel,
    dual: bool,
    id: int,
    pos: Option<int>,
    dual_after: bool,
) -> bool {
    let out = node_line(s, start, m, dual);
    &&& out.node matches Some(node) && {
        &&& node.id == id
        &&& match pos {
            Some(p) => node.schedule_pos matches Some(q) && q == p,
            None => node.schedule_pos is None,
        }
        &&& node.def_span.start == start && node.def_span.end == ids
        &&& node_reads(s, node, out.interned, ids + 2, e)
    }
    &&& out.dual == dual_after
}

proof fn lemma_node_reads(s: Seq<u8>, m: InternModel, node: NodeModel, o: int, e: int)
    requires
        s.len() < u32::MAX,
        opcode_word(s, o, e),
        m.opcodes.len() < u32::MAX,
        node.opcode == m.opcode_id(text_of(s, o, e)),
        node.opcode_span == crate::model::span(o, e),
        node.inputs == node_refs_of(s, e),
        node.targets == crate::parse::maglev::block_refs_from(s, e, e, 0x62, Seq::empty()),
        node.dead == (find_from(s, e, "🪦".spec_bytes()) is Some),
    ensures
        node_reads(s, node, m.with_opcode(text_of(s, o, e)), o, e),
{
    reveal(node_reads);
    let name = text_of(s, o, e);
    lemma_place(m.opcodes, name, 0);
    law_every_node_token_is_a_reference(s, e);
    law_every_block_token_is_a_target(s, e);
    reveal_strlit("🪦");
    assert("🪦"@.len() == 1);
    assert("🪦".spec_bytes().len() > 0);
    lemma_found(s, e, "🪦".spec_bytes());
}

proof fn lemma_colon(s: Seq<u8>, ids: int)
    requires
        says(s, ids, ": "@),
    ensures
        occurs_at(s, ids, ": ".spec_bytes()),
        ": ".spec_bytes().len() == 2,
        s[ids] == 58,
        0 <= ids,
        ids + 2 <= s.len(),
{
    reveal_strlit(": ");
    lemma_says(s, ids, ": "@);
    assert(s[ids + 0] as int == ": "@[0] as int);
}

proof fn lemma_gap(s: Seq<u8>, o: int)
    ensures
        gap_move_at(s, o) == (says(s, o, "GapMove"@) || says(s, o, "ConstantGapMove"@)),
{
    reveal_strlit("GapMove");
    reveal_strlit("ConstantGapMove");
    lemma_says(s, o, "GapMove"@);
    lemma_says(s, o, "ConstantGapMove"@);
}

#[verifier::spinoff_prover]
#[verifier::rlimit(60)]
proof fn lemma_one_id(s: Seq<u8>, start: int, ids: int, e: int, m: InternModel, dual: bool)
    requires
        s.len() < u32::MAX,
        m.opcodes.len() < u32::MAX,
        0 <= start,
        digit_run(s, start, ids),
        number(s, start, ids) <= u32::MAX,
        says(s, ids, ": "@),
        opcode_word(s, ids + 2, e),
        dual || gap_move_at(s, ids + 2) || number(s, start, ids) < u32::MAX,
    ensures
        dual || gap_move_at(s, ids + 2) ==> outcome_is(
            s,
            start,
            ids,
            e,
            m,
            dual,
            u32::MAX as int,
            Some(number(s, start, ids)),
            dual,
        ),
        !dual && !gap_move_at(s, ids + 2) ==> outcome_is(
            s,
            start,
            ids,
            e,
            m,
            dual,
            number(s, start, ids),
            None,
            dual,
        ),
{
    lemma_colon(s, ids);
    lemma_decimal(s, start, ids);
    lemma_opcode_end(s, ids + 2, e);
    assert(node_ids(s, start) == Some((number(s, start, ids) as u32, None::<u32>, ids)));
    let out = node_line(s, start, m, dual);
    assert(out.node is Some);
    lemma_node_reads(s, m, out.node->0, ids + 2, e);
}

#[verifier::spinoff_prover]
#[verifier::rlimit(60)]
proof fn lemma_two_ids(
    s: Seq<u8>,
    start: int,
    slash: int,
    ids: int,
    e: int,
    m: InternModel,
    dual: bool,
)
    requires
        s.len() < u32::MAX,
        m.opcodes.len() < u32::MAX,
        0 <= start,
        digit_run(s, start, slash),
        number(s, start, slash) <= u32::MAX,
        s[slash] == 47,
        digit_run(s, slash + 1, ids),
        number(s, slash + 1, ids) < u32::MAX,
        says(s, ids, ": "@),
        opcode_word(s, ids + 2, e),
        !gap_move_at(s, ids + 2),
    ensures
        outcome_is(
            s,
            start,
            ids,
            e,
            m,
            dual,
            number(s, slash + 1, ids),
            Some(number(s, start, slash)),
            true,
        ),
{
    lemma_colon(s, ids);
    lemma_decimal(s, start, slash);
    lemma_decimal(s, slash + 1, ids);
    lemma_opcode_end(s, ids + 2, e);
    assert(node_ids(s, start) == Some(
        (number(s, start, slash) as u32, Some(number(s, slash + 1, ids) as u32), ids),
    ));
    let out = node_line(s, start, m, dual);
    assert(out.node is Some);
    lemma_node_reads(s, m, out.node->0, ids + 2, e);
}

/// A line `N: Opcode …` behind its margin is a node: its id is the number that
/// stands in front of the colon. From now on it is the node that frames hang
/// off. This is so as long as no line of the phase printed two ids.
#[verifier::spinoff_prover]
#[verifier::rlimit(60)]
pub proof fn law_a_node_line_is_read(
    s: Seq<u8>,
    start: int,
    ids: int,
    e: int,
    mem: MemoryModel,
)
    requires
        s.len() < u32::MAX,
        mem.interned.opcodes.len() < u32::MAX,
        0 <= start,
        margin(s, 0, start),
        digit_run(s, start, ids),
        number(s, start, ids) < u32::MAX,
        says(s, ids, ": "@),
        opcode_word(s, ids + 2, e),
        !says(s, ids + 2, "GapMove"@),
        !says(s, ids + 2, "ConstantGapMove"@),
        !mem.dual,
    ensures
        ({
            let (info, after) = graph_line(s, mem);
            &&& info matches LineModel::Node(node) && {
                &&& node.id == number(s, start, ids)
                &&& node.schedule_pos is None
                &&& node.def_span.start == start && node.def_span.end == ids
                &&& node_reads(s, node, after.interned, ids + 2, e)
                &&& after.last_node == Some(node.id)
            }
            &&& !after.dual
        }),
{
    lemma_colon(s, ids);
    lemma_gap(s, ids + 2);
    assert(digit(s[start]));
    if start + 1 < ids {
        assert(digit(s[start + 1]));
    }
    lemma_one_id(s, start, ids, e, mem.interned, mem.dual);
    lemma_no_other_line(s, start, mem);
}

/// A line `A/B: Opcode …` is a node with the id `B` at the place `A` of the
/// schedule, and the phase prints two ids from then on.
#[verifier::spinoff_prover]
#[verifier::rlimit(60)]
pub proof fn law_a_scheduled_node_line_is_read(
    s: Seq<u8>,
    start: int,
    slash: int,
    ids: int,
    e: int,
    mem: MemoryModel,
)
    requires
        s.len() < u32::MAX,
        mem.interned.opcodes.len() < u32::MAX,
        0 <= start,
        margin(s, 0, start),
        digit_run(s, start, slash),
        number(s, start, slash) <= u32::MAX,
        s[slash] == 47,
        digit_run(s, slash + 1, ids),
        number(s, slash + 1, ids) < u32::MAX,
        says(s, ids, ": "@),
        opcode_word(s, ids + 2, e),
        !says(s, ids + 2, "GapMove"@),
        !says(s, ids + 2, "ConstantGapMove"@),
    ensures
        ({
            let (info, after) = graph_line(s, mem);
            &&& info matches LineModel::Node(node) && {
                &&& node.id == number(s, slash + 1, ids)
                &&& node.schedule_pos matches Some(at) && at == number(s, start, slash)
                &&& node_reads(s, node, after.interned, ids + 2, e)
                &&& after.last_node == Some(node.id)
            }
            &&& after.dual
        }),
{
    lemma_gap(s, ids + 2);
    assert(digit(s[start]));
    if start + 1 < slash {
        assert(digit(s[start + 1]));
    }
    lemma_two_ids(s, start, slash, ids, e, mem.interned, mem.dual);
    lemma_no_other_line(s, start, mem);
}

/// Where the phase prints two ids, a line with one alone only takes a place in
/// the schedule, and so does a gap move anywhere: it makes no node, and frames
/// go on hanging off the node before it.
#[verifier::spinoff_prover]
#[verifier::rlimit(60)]
pub proof fn law_a_place_in_the_schedule_makes_no_node(
    s: Seq<u8>,
    start: int,
    ids: int,
    e: int,
    mem: MemoryModel,
)
    requires
        s.len() < u32::MAX,
        mem.interned.opcodes.len() < u32::MAX,
        0 <= start,
        margin(s, 0, start),
        digit_run(s, start, ids),
        number(s, start, ids) <= u32::MAX,
        says(s, ids, ": "@),
        opcode_word(s, ids + 2, e),
        mem.dual || says(s, ids + 2, "GapMove"@) || says(s, ids + 2, "ConstantGapMove"@),
    ensures
        ({
            let (info, after) = graph_line(s, mem);
            &&& info matches LineModel::Node(node) && {
                &&& node.id == u32::MAX
                &&& node.schedule_pos matches Some(at) && at == number(s, start, ids)
                &&& node_reads(s, node, after.interned, ids + 2, e)
            }
            &&& after.last_node == mem.last_node
        }),
{
    lemma_colon(s, ids);
    lemma_gap(s, ids + 2);
    assert(digit(s[start]));
    if start + 1 < ids {
        assert(digit(s[start + 1]));
    }
    lemma_one_id(s, start, ids, e, mem.interned, mem.dual);
    lemma_no_other_line(s, start, mem);
}

/// A line `Block bN` behind its margin is the header of block `N`.
#[verifier::spinoff_prover]
#[verifier::rlimit(60)]
pub proof fn law_a_block_header_is_read(s: Seq<u8>, start: int, e: int, mem: MemoryModel)
    requires
        0 <= start,
        margin(s, 0, start),
        says(s, start, "Block b"@),
        digit_run(s, start + 7, e),
        number(s, start + 7, e) <= u32::MAX,
    ensures
        ({
            let (info, after) = graph_line(s, mem);
            &&& info matches LineModel::BlockHeader { block } && block == number(s, start + 7, e)
            &&& after == mem
        }),
{
    reveal_strlit("Block b");
    reveal_strlit("Graph");
    lemma_says(s, start, "Block b"@);
    lemma_first_byte(s, start, "Graph"@);
    assert(s[start + 0] as int == "Block b"@[0] as int);
    lemma_margin(s, 0, start);
    lemma_decimal(s, start + 7, e);
}

} // verus!
