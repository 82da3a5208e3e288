//! The TurboFan and Turboshaft grammars.
//!
//! A section of the optimising pipeline prints four kinds of body:
//!
//! - sea of nodes, `#17:Opcode[…](#2:Parameter, …)`;
//! - schedules, `--- BLOCK B1 id1 <- B0 ---` and `17: Opcode(33, 34) -> B1`;
//! - Turboshaft, `BLOCK B4 <- B3` and `47: Opcode(#42)[B8, B7]`;
//! - instruction sequences, `B0: …` and `v28(=x0) = Opcode …`.
//!
//! The banner tells which. What no rule matches is an annotation in place.

use std::ops::Range;
use vstd::prelude::*;
#[allow(unused_imports)]
use vstd::string::*;

use super::bytecode;
#[allow(unused_imports)]
use super::bytecode::bracket_close;
use super::intern::Interner;
#[allow(unused_imports)]
use super::intern::InternModel;
use super::maglev;
#[allow(unused_imports)]
use super::maglev::{block_refs_from, leading_u32, node_model, ref_token, with_some};
use crate::model::{
    count_up, span_of, BlockRef, IRNode, LineInfo, NodeId, NodeRef, ParsedPhase, Span,
    SCHEDULE_ONLY,
};
#[allow(unused_imports)]
use crate::model::{
    empty_phase, next_count, span, with_uses, LineModel, NodeModel, PhaseModel,
};
use crate::source::LogBuffer;
use crate::text;
#[allow(unused_imports)]
use crate::text::{
    byte_is, class_is, decimal_u32, find_byte_in, find_from, occurs_at, run_end, text_of,
    trimmed_end, trimmed_start, ByteClass,
};

verus! {

/// The four body grammars.
#[derive(Clone, Copy, PartialEq, Eq, Structural)]
pub enum Grammar {
    Sea,
    Schedule,
    Turboshaft,
    Instructions,
}

/// The grammar that a banner announces. Turboshaft is the one for names that
/// say nothing.
pub open spec fn grammar_of(name: Seq<u8>) -> Grammar {
    if occurs_at(name, 0, "Graph after ".spec_bytes()) {
        Grammar::Sea
    } else if text::word_is(name, 0, name.len() as int, "schedule".spec_bytes()) {
        Grammar::Schedule
    } else if occurs_at(name, 0, "Instruction sequence".spec_bytes()) {
        Grammar::Instructions
    } else {
        Grammar::Turboshaft
    }
}

fn choose_grammar(name: &[u8]) -> (grammar: Grammar)
    ensures
        grammar == grammar_of(name@),
{
    if text::starts_with_at(name, 0, "Graph after ") {
        Grammar::Sea
    } else if text::slice_is(name, 0, name.len(), "schedule") {
        Grammar::Schedule
    } else if text::starts_with_at(name, 0, "Instruction sequence") {
        Grammar::Instructions
    } else {
        Grammar::Turboshaft
    }
}

// ---------------------------------------------------------------------------
// References
// ---------------------------------------------------------------------------

/// The reference made by a token of one character and digits at `i`. With
/// `bare`, no letter may follow the digits.
pub open spec fn token_ref(s: Seq<u8>, i: int, bare: bool) -> Option<NodeRef> {
    let e = run_end(s, i + 1, ByteClass::Digit);
    if bare && e < s.len() && text::is_alpha(s[e]) {
        None
    } else {
        match decimal_u32(s, i + 1, e) {
            Some(node) => Some(NodeRef { node, span: span(i, e) }),
            None => None,
        }
    }
}

/// The tokens that start with `sign` from `i` on, added to `refs`.
pub open spec fn token_refs_from(
    s: Seq<u8>,
    i: int,
    sign: u8,
    bare: bool,
    refs: Seq<NodeRef>,
) -> Seq<NodeRef>
    decreases s.len() - i,
{
    if i < 0 || i >= s.len() {
        refs
    } else if ref_token(s, 0, i, sign) {
        proof {
            text::lemma_run_end(s, i + 1, ByteClass::Digit);
        }
        token_refs_from(
            s,
            run_end(s, i + 1, ByteClass::Digit),
            sign,
            bare,
            with_some(refs, token_ref(s, i, bare)),
        )
    } else {
        token_refs_from(s, i + 1, sign, bare, refs)
    }
}

fn token_refs(s: &[u8], from: usize, sign: u8, bare: bool) -> (refs: Vec<NodeRef>)
    requires
        from <= s.len(),
    ensures
        refs@ == token_refs_from(s@, from as int, sign, bare, Seq::empty()),
{
    let mut refs: Vec<NodeRef> = Vec::new();
    let mut i: usize = from;
    while i < s.len()
        invariant
            from <= i <= s.len(),
            token_refs_from(s@, from as int, sign, bare, Seq::empty()) == token_refs_from(
                s@,
                i as int,
                sign,
                bare,
                refs@,
            ),
        decreases s.len() - i,
    {
        if maglev::is_ref_token(s, 0, i, sign) {
            let e: usize = text::skip(s, i + 1, ByteClass::Digit);
            let letter: bool = e < s.len() && ((0x41 <= s[e] && s[e] <= 0x5a) || (0x61 <= s[e]
                && s[e] <= 0x7a));
            if !(bare && letter) {
                if let Some(node) = text::parse_u32(s, i + 1, e) {
                    refs.push(NodeRef { node, span: span_of(i, e) });
                }
            }
            i = e;
        } else {
            i += 1;
        }
    }
    refs
}

/// The `#N` references from `from` on. The sign belongs to the span.
pub open spec fn hash_refs_of(s: Seq<u8>, from: int) -> Seq<NodeRef> {
    token_refs_from(s, from, 0x23, false, Seq::empty())
}

/// Collects the `#N` references from `from` on.
pub fn hash_refs(s: &[u8], from: usize) -> (refs: Vec<NodeRef>)
    requires
        from <= s.len(),
    ensures
        refs@ == hash_refs_of(s@, from as int),
{
    token_refs(s, from, 0x23, false)
}

/// The virtual registers `vN` from `from` on.
pub open spec fn vreg_refs_of(s: Seq<u8>, from: int) -> Seq<NodeRef> {
    token_refs_from(s, from, 0x76, true, Seq::empty())
}

/// Collects the virtual registers from `from` on.
pub fn vreg_refs(s: &[u8], from: usize) -> (refs: Vec<NodeRef>)
    requires
        from <= s.len(),
    ensures
        refs@ == vreg_refs_of(s@, from as int),
{
    token_refs(s, from, 0x76, true)
}

/// The blocks `BN` from `from` on.
pub open spec fn upper_block_refs_of(s: Seq<u8>, from: int) -> Seq<BlockRef> {
    block_refs_from(s, 0, from, 0x42, Seq::empty())
}

/// Collects the blocks `BN` from `from` on.
pub fn upper_block_refs(s: &[u8], from: usize) -> (refs: Vec<BlockRef>)
    requires
        from <= s.len(),
    ensures
        refs@ == upper_block_refs_of(s@, from as int),
{
    maglev::block_refs(s, 0, from, 0x42)
}

// ---------------------------------------------------------------------------
// Lines in general
// ---------------------------------------------------------------------------

/// The line without trailing white space.
pub open spec fn body(s: Seq<u8>) -> Seq<u8> {
    s.subrange(0, trimmed_end(s, 0, s.len() as int))
}

fn trimmed(s: &[u8]) -> (t: &[u8])
    ensures
        t@ == body(s@),
{
    let e: usize = text::trim_end(s, 0, s.len());
    vstd::slice::slice_subrange(s, 0, e)
}

/// Blank lines and the separators around a section.
pub open spec fn furniture(t: Seq<u8>) -> bool {
    ||| t.len() == 0
    ||| occurs_at(t, 0, "Finished compiling ".spec_bytes())
    ||| occurs_at(t, 0, "Begin compiling ".spec_bytes())
    ||| run_end(t, 0, ByteClass::Dash) == t.len()
}

/// Is the line blank or a separator?
pub fn is_trailer(t: &[u8]) -> (yes: bool)
    ensures
        yes == furniture(t@),
{
    t.len() == 0 || text::starts_with_at(t, 0, "Finished compiling ") || text::starts_with_at(
        t,
        0,
        "Begin compiling ",
    ) || text::skip(t, 0, ByteClass::Dash) == t.len()
}

/// What classifying one line gives.
pub struct LineOutcome {
    pub info: LineModel,
    pub interned: InternModel,
    pub last_node: Option<NodeId>,
}

/// A node that takes part in references.
pub open spec fn node_outcome(node: NodeModel, m: InternModel) -> LineOutcome {
    LineOutcome { info: LineModel::Node(node), interned: m, last_node: Some(node.id) }
}

/// The header with the number at `at`.
pub open spec fn header_at(s: Seq<u8>, word: Seq<u8>) -> Option<u32> {
    if occurs_at(s, 0, word) {
        leading_u32(s, word.len() as int)
    } else {
        None
    }
}

fn read_header(s: &[u8], word: &str) -> (block: Option<u32>)
    ensures
        block == header_at(s@, word.spec_bytes()),
{
    if text::starts_with_at(s, 0, word) {
        maglev::leading_number(s, word.len())
    } else {
        None
    }
}

// ---------------------------------------------------------------------------
// Sea of nodes
// ---------------------------------------------------------------------------

/// `#17:Opcode[…](#2:Parameter, …)`.
pub open spec fn sea_node(t: Seq<u8>, m: InternModel) -> Option<(NodeModel, InternModel)> {
    let d = run_end(t, 1, ByteClass::Digit);
    let e = run_end(t, d + 1, ByteClass::Mnemonic);
    if byte_is(t, 0, 0x23) && byte_is(t, d, 0x3a) && e > d + 1 {
        match decimal_u32(t, 1, d) {
            Some(id) => Some(
                (
                    NodeModel {
                        id,
                        schedule_pos: None,
                        def_span: span(0, d),
                        opcode: m.opcode_id(text_of(t, d + 1, e)),
                        opcode_span: span(d + 1, e),
                        inputs: hash_refs_of(t, e),
                        uses: None,
                        dead: false,
                        targets: Seq::empty(),
                    },
                    m.with_opcode(text_of(t, d + 1, e)),
                ),
            ),
            None => None,
        }
    } else {
        None
    }
}

/// Reads a node of a sea of nodes.
pub fn parse_sea_node(t: &[u8], interner: &mut Interner) -> (node: Option<IRNode>)
    ensures
        match sea_node(t@, old(interner)@) {
            Some((n, m)) => node_model(node) == Some(n) && final(interner)@ == m,
            None => node is None && final(interner)@ == old(interner)@,
        },
{
    if !text::byte_at(t, 0, 0x23) {
        return None;
    }
    let d: usize = text::skip(t, 1, ByteClass::Digit);
    match text::parse_u32(t, 1, d) {
        None => None,
        Some(id) => {
            if !text::byte_at(t, d, 0x3a) {
                return None;
            }
            let e: usize = text::skip(t, d + 1, ByteClass::Mnemonic);
            if e == d + 1 {
                return None;
            }
            let opcode: u32 = interner.opcode(text::text_between(t, d + 1, e));
            Some(
                IRNode {
                    id,
                    schedule_pos: None,
                    def_span: span_of(0, d),
                    opcode,
                    opcode_span: span_of(d + 1, e),
                    inputs: hash_refs(t, e),
                    uses: None,
                    dead: false,
                    targets: Vec::new(),
                },
            )
        },
    }
}

/// One line of a sea of nodes.
pub open spec fn sea_line(t: Seq<u8>, m: InternModel, last: Option<NodeId>) -> LineOutcome {
    if furniture(t) {
        LineOutcome { info: LineModel::Control, interned: m, last_node: last }
    } else {
        match sea_node(t, m) {
            Some((node, after)) => node_outcome(node, after),
            None => LineOutcome {
                info: LineModel::Annotation { after_node: last },
                interned: m,
                last_node: last,
            },
        }
    }
}

/// Classifies one line of a sea of nodes.
pub fn classify_sea(s: &[u8], interner: &mut Interner, last_node: &mut Option<NodeId>) -> (info:
    LineInfo)
    ensures
        info@ == sea_line(body(s@), old(interner)@, *old(last_node)).info,
        final(interner)@ == sea_line(body(s@), old(interner)@, *old(last_node)).interned,
        *final(last_node) == sea_line(body(s@), old(interner)@, *old(last_node)).last_node,
{
    let t = trimmed(s);
    if is_trailer(t) {
        return LineInfo::Control;
    }
    if let Some(node) = parse_sea_node(t, interner) {
        *last_node = Some(node.id);
        return LineInfo::Node(node);
    }
    LineInfo::Annotation { after_node: *last_node }
}

// ---------------------------------------------------------------------------
// Schedules
// ---------------------------------------------------------------------------

/// The numbers in `i..hi`, each not in the middle of a word, added to `refs`.
pub open spec fn numbers_from(
    s: Seq<u8>,
    lo: int,
    i: int,
    hi: int,
    refs: Seq<NodeRef>,
) -> Seq<NodeRef>
    decreases hi - i,
{
    if i < 0 || i >= hi {
        refs
    } else if class_is(s, i, ByteClass::Digit) && (i <= lo || !class_is(
        s,
        i - 1,
        ByteClass::Alphanumeric,
    )) && i < run_end(s, i, ByteClass::Digit) <= hi {
        let e = run_end(s, i, ByteClass::Digit);
        numbers_from(
            s,
            lo,
            e,
            hi,
            with_some(
                refs,
                match decimal_u32(s, i, e) {
                    Some(node) => Some(NodeRef { node, span: span(i, e) }),
                    None => None,
                },
            ),
        )
    } else {
        numbers_from(s, lo, i + 1, hi, refs)
    }
}

fn number_refs(s: &[u8], lo: usize, hi: usize) -> (refs: Vec<NodeRef>)
    requires
        lo <= hi < s.len(),
        !text::is_digit(s@[hi as int]),
    ensures
        refs@ == numbers_from(s@, lo as int, lo as int, hi as int, Seq::empty()),
{
    let mut refs: Vec<NodeRef> = Vec::new();
    let mut i: usize = lo;
    while i < hi
        invariant
            lo <= i <= hi < s.len(),
            !text::is_digit(s@[hi as int]),
            numbers_from(s@, lo as int, lo as int, hi as int, Seq::empty()) == numbers_from(
                s@,
                lo as int,
                i as int,
                hi as int,
                refs@,
            ),
        decreases hi - i,
    {
        if text::class_at(s, i, ByteClass::Digit) && (i <= lo || !text::class_at(
            s,
            i - 1,
            ByteClass::Alphanumeric,
        )) {
            let e: usize = text::skip(s, i, ByteClass::Digit);
            proof {
                assert(!text::in_class(ByteClass::Digit, s@[hi as int]));
                assert(text::in_class(ByteClass::Digit, s@[i as int]));
            }
            if let Some(node) = text::parse_u32(s, i, e) {
                refs.push(NodeRef { node, span: span_of(i, e) });
            }
            i = e;
        } else {
            i += 1;
        }
    }
    refs
}

/// Where the input list of the opcode that ends at `e` would open: after its
/// attached parameters, where they close.
pub open spec fn after_parameters(t: Seq<u8>, e: int) -> int {
    if byte_is(t, e, 0x5b) {
        match bracket_close(t, e + 1, 1) {
            Some(j) => j,
            None => e,
        }
    } else {
        e
    }
}

/// The numbers in the parentheses that open at `p`.
pub open spec fn listed_inputs(t: Seq<u8>, p: int) -> Seq<NodeRef> {
    if byte_is(t, p, 0x28) {
        match find_byte_in(t, p + 1, t.len() as int, 0x29) {
            Some(close) => numbers_from(t, p + 1, p + 1, close, Seq::empty()),
            None => Seq::empty(),
        }
    } else {
        Seq::empty()
    }
}

/// The targets after ` -> `.
pub open spec fn jump_targets(t: Seq<u8>) -> Seq<BlockRef> {
    match find_from(t, 0, " -> ".spec_bytes()) {
        Some(arrow) => upper_block_refs_of(t, arrow),
        None => Seq::empty(),
    }
}

fn read_inputs(t: &[u8], e: usize) -> (refs: Vec<NodeRef>)
    requires
        e <= t.len(),
    ensures
        refs@ == listed_inputs(t@, after_parameters(t@, e as int)),
{
    let p: usize = if text::byte_at(t, e, 0x5b) {
        match bytecode::close_bracket(t, e + 1) {
            Some(j) => j,
            None => e,
        }
    } else {
        e
    };
    if text::byte_at(t, p, 0x28) {
        match text::find_byte(t, p + 1, t.len(), 0x29) {
            Some(close) => number_refs(t, p + 1, close),
            None => Vec::new(),
        }
    } else {
        Vec::new()
    }
}

fn read_targets(t: &[u8]) -> (refs: Vec<BlockRef>)
    ensures
        refs@ == jump_targets(t@),
{
    match text::find(t, 0, " -> ") {
        Some(arrow) => upper_block_refs(t, arrow),
        None => Vec::new(),
    }
}

/// `17: Opcode…` behind white space: the id, where it starts and ends, and
/// where the opcode starts and ends.
pub open spec fn numbered_row(t: Seq<u8>) -> Option<(u32, int, int, int, int)> {
    let a = trimmed_start(t, 0);
    let b = run_end(t, a, ByteClass::Digit);
    let o = b + ": ".spec_bytes().len();
    let e = run_end(t, o, ByteClass::Mnemonic);
    if occurs_at(t, b, ": ".spec_bytes()) && e > o {
        match decimal_u32(t, a, b) {
            Some(id) => Some((id, a, b, o, e)),
            None => None,
        }
    } else {
        None
    }
}

fn read_numbered_row(t: &[u8]) -> (row: Option<(u32, usize, usize, usize, usize)>)
    ensures
        match numbered_row(t@) {
            Some((id, a, b, o, e)) => row matches Some(r) && r.0 == id && r.1 == a && r.2 == b
                && r.3 == o && r.4 == e && a <= b <= o < e <= t.len(),
            None => row is None,
        },
{
    let a: usize = text::trim_start(t, 0);
    let b: usize = text::skip(t, a, ByteClass::Digit);
    if !text::starts_with_at(t, b, ": ") {
        return None;
    }
    let o: usize = b + ": ".len();
    let e: usize = text::skip(t, o, ByteClass::Mnemonic);
    if e == o {
        return None;
    }
    match text::parse_u32(t, a, b) {
        Some(id) => Some((id, a, b, o, e)),
        None => None,
    }
}

/// A row of a schedule: inputs are bare numbers, targets follow an arrow.
pub open spec fn schedule_node(t: Seq<u8>, m: InternModel) -> Option<(NodeModel, InternModel)> {
    match numbered_row(t) {
        Some((id, a, b, o, e)) => Some(
            (
                NodeModel {
                    id,
                    schedule_pos: None,
                    def_span: span(a, b),
                    opcode: m.opcode_id(text_of(t, o, e)),
                    opcode_span: span(o, e),
                    inputs: listed_inputs(t, after_parameters(t, e)),
                    uses: None,
                    dead: false,
                    targets: jump_targets(t),
                },
                m.with_opcode(text_of(t, o, e)),
            ),
        ),
        None => None,
    }
}

/// Reads a row of a schedule.
pub fn parse_schedule_node(t: &[u8], interner: &mut Interner) -> (node: Option<IRNode>)
    ensures
        match schedule_node(t@, old(interner)@) {
            Some((n, m)) => node_model(node) == Some(n) && final(interner)@ == m,
            None => node is None && final(interner)@ == old(interner)@,
        },
{
    match read_numbered_row(t) {
        None => None,
        Some((id, a, b, o, e)) => {
            let inputs = read_inputs(t, e);
            let targets = read_targets(t);
            let opcode: u32 = interner.opcode(text::text_between(t, o, e));
            Some(
                IRNode {
                    id,
                    schedule_pos: None,
                    def_span: span_of(a, b),
                    opcode,
                    opcode_span: span_of(o, e),
                    inputs,
                    uses: None,
                    dead: false,
                    targets,
                },
            )
        },
    }
}

/// One line of a schedule.
pub open spec fn schedule_line(t: Seq<u8>, m: InternModel, last: Option<NodeId>) -> LineOutcome {
    if furniture(t) {
        LineOutcome { info: LineModel::Control, interned: m, last_node: last }
    } else if header_at(t, "--- BLOCK B".spec_bytes()) is Some {
        LineOutcome {
            info: LineModel::BlockHeader { block: header_at(t, "--- BLOCK B".spec_bytes())->0 },
            interned: m,
            last_node: last,
        }
    } else {
        match schedule_node(t, m) {
            Some((node, after)) => node_outcome(node, after),
            None => LineOutcome {
                info: LineModel::Annotation { after_node: last },
                interned: m,
                last_node: last,
            },
        }
    }
}

/// Classifies one line of a schedule.
pub fn classify_schedule(
    s: &[u8],
    interner: &mut Interner,
    last_node: &mut Option<NodeId>,
) -> (info: LineInfo)
    ensures
        info@ == schedule_line(body(s@), old(interner)@, *old(last_node)).info,
        final(interner)@ == schedule_line(body(s@), old(interner)@, *old(last_node)).interned,
        *final(last_node) == schedule_line(body(s@), old(interner)@, *old(last_node)).last_node,
{
    let t = trimmed(s);
    if is_trailer(t) {
        return LineInfo::Control;
    }
    if let Some(block) = read_header(t, "--- BLOCK B") {
        return LineInfo::BlockHeader { block };
    }
    if let Some(node) = parse_schedule_node(t, interner) {
        *last_node = Some(node.id);
        return LineInfo::Node(node);
    }
    LineInfo::Annotation { after_node: *last_node }
}

// ---------------------------------------------------------------------------
// Turboshaft
// ---------------------------------------------------------------------------

/// The block that a Turboshaft header opens.
pub open spec fn turboshaft_header(t: Seq<u8>) -> Option<u32> {
    if header_at(t, "BLOCK B".spec_bytes()) is Some {
        header_at(t, "BLOCK B".spec_bytes())
    } else if header_at(t, "MERGE B".spec_bytes()) is Some {
        header_at(t, "MERGE B".spec_bytes())
    } else {
        header_at(t, "LOOP B".spec_bytes())
    }
}

/// An operation of Turboshaft: inputs are `#N` anywhere after the opcode,
/// targets are `BN`.
pub open spec fn turboshaft_op(t: Seq<u8>, m: InternModel) -> Option<(NodeModel, InternModel)> {
    match numbered_row(t) {
        Some((id, a, b, o, e)) => Some(
            (
                NodeModel {
                    id,
                    schedule_pos: None,
                    def_span: span(a, b),
                    opcode: m.opcode_id(text_of(t, o, e)),
                    opcode_span: span(o, e),
                    inputs: hash_refs_of(t, e),
                    uses: None,
                    dead: false,
                    targets: upper_block_refs_of(t, e),
                },
                m.with_opcode(text_of(t, o, e)),
            ),
        ),
        None => None,
    }
}

/// Reads an operation of Turboshaft.
pub fn parse_turboshaft_op(t: &[u8], interner: &mut Interner) -> (node: Option<IRNode>)
    ensures
        match turboshaft_op(t@, old(interner)@) {
            Some((n, m)) => node_model(node) == Some(n) && final(interner)@ == m,
            None => node is None && final(interner)@ == old(interner)@,
        },
{
    match read_numbered_row(t) {
        None => None,
        Some((id, a, b, o, e)) => {
            let opcode: u32 = interner.opcode(text::text_between(t, o, e));
            Some(
                IRNode {
                    id,
                    schedule_pos: None,
                    def_span: span_of(a, b),
                    opcode,
                    opcode_span: span_of(o, e),
                    inputs: hash_refs(t, e),
                    uses: None,
                    dead: false,
                    targets: upper_block_refs(t, e),
                },
            )
        },
    }
}

/// One line of Turboshaft.
pub open spec fn turboshaft_line(t: Seq<u8>, m: InternModel, last: Option<NodeId>) -> LineOutcome {
    if furniture(t) {
        LineOutcome { info: LineModel::Control, interned: m, last_node: last }
    } else if turboshaft_header(t) is Some {
        LineOutcome {
            info: LineModel::BlockHeader { block: turboshaft_header(t)->0 },
            interned: m,
            last_node: last,
        }
    } else {
        match turboshaft_op(t, m) {
            Some((node, after)) => node_outcome(node, after),
            None => LineOutcome {
                info: LineModel::Annotation { after_node: last },
                interned: m,
                last_node: last,
            },
        }
    }
}

/// Classifies one line of Turboshaft.
pub fn classify_turboshaft(
    s: &[u8],
    interner: &mut Interner,
    last_node: &mut Option<NodeId>,
) -> (info: LineInfo)
    ensures
        info@ == turboshaft_line(body(s@), old(interner)@, *old(last_node)).info,
        final(interner)@ == turboshaft_line(body(s@), old(interner)@, *old(last_node)).interned,
        *final(last_node) == turboshaft_line(body(s@), old(interner)@, *old(last_node)).last_node,
{
    let t = trimmed(s);
    if is_trailer(t) {
        return LineInfo::Control;
    }
    if let Some(block) = read_header(t, "BLOCK B") {
        return LineInfo::BlockHeader { block };
    }
    if let Some(block) = read_header(t, "MERGE B") {
        return LineInfo::BlockHeader { block };
    }
    if let Some(block) = read_header(t, "LOOP B") {
        return LineInfo::BlockHeader { block };
    }
    if let Some(node) = parse_turboshaft_op(t, interner) {
        *last_node = Some(node.id);
        return LineInfo::Node(node);
    }
    LineInfo::Annotation { after_node: *last_node }
}

// ---------------------------------------------------------------------------
// Instruction sequences
// ---------------------------------------------------------------------------

/// `B0:` at the start of a line.
pub open spec fn instruction_block(t: Seq<u8>) -> Option<u32> {
    let e = run_end(t, 1, ByteClass::Digit);
    if byte_is(t, 0, 0x42) && byte_is(t, e, 0x3a) {
        decimal_u32(t, 1, e)
    } else {
        None
    }
}

/// Pools and edge lists.
pub open spec fn instruction_furniture(t: Seq<u8>, a: int) -> bool {
    ||| occurs_at(t, 0, "IMM#".spec_bytes())
    ||| occurs_at(t, 0, "CST#".spec_bytes())
    ||| occurs_at(t, a, "predecessors".spec_bytes())
    ||| occurs_at(t, a, "successors".spec_bytes())
}

/// A node of an instruction sequence.
pub open spec fn instruction(
    id: NodeId,
    schedule_pos: Option<u32>,
    def_span: Span,
    m: InternModel,
    name: Seq<char>,
    opcode_span: Span,
    inputs: Seq<NodeRef>,
    last: Option<NodeId>,
) -> LineOutcome {
    LineOutcome {
        info: LineModel::Node(
            NodeModel {
                id,
                schedule_pos,
                def_span,
                opcode: m.opcode_id(name),
                opcode_span,
                inputs,
                uses: None,
                dead: false,
                targets: Seq::empty(),
            },
        ),
        interned: m.with_opcode(name),
        last_node: if id != SCHEDULE_ONLY {
            Some(id)
        } else {
            last
        },
    }
}

/// `7: gap () ()`, an instruction slot.
pub open spec fn gap_row(
    t: Seq<u8>,
    a: int,
    m: InternModel,
    last: Option<NodeId>,
) -> Option<LineOutcome> {
    let b = run_end(t, a, ByteClass::Digit);
    let o = b + ": ".spec_bytes().len();
    let e = run_end(t, o, ByteClass::Mnemonic);
    if b > a && occurs_at(t, b, ": ".spec_bytes()) {
        Some(
            instruction(
                SCHEDULE_ONLY,
                decimal_u32(t, a, b),
                span(a, b),
                m,
                if e > o {
                    text_of(t, o, e)
                } else {
                    "gap"@
                },
                span(
                    o,
                    if e > o {
                        e
                    } else {
                        o + 1
                    },
                ),
                vreg_refs_of(t, o),
                last,
            ),
        )
    } else {
        None
    }
}

/// `phi: v6 = v8 v9`: the first register is defined where the destination is
/// one.
pub open spec fn phi_row(
    t: Seq<u8>,
    a: int,
    m: InternModel,
    last: Option<NodeId>,
) -> Option<LineOutcome> {
    let refs = vreg_refs_of(t, a);
    let p = trimmed_start(t, a + "phi:".spec_bytes().len());
    if !occurs_at(t, a, "phi:".spec_bytes()) {
        None
    } else if refs.len() > 0 && byte_is(t, p, 0x76) {
        Some(
            instruction(
                refs[0].node,
                None,
                refs[0].span,
                m,
                "phi"@,
                span(a, a + 3),
                refs.remove(0),
                last,
            ),
        )
    } else {
        Some(instruction(SCHEDULE_ONLY, None, span(a, a), m, "phi"@, span(a, a + 3), refs, last))
    }
}

/// The first `n` references without those at `def`.
pub open spec fn refs_without(refs: Seq<NodeRef>, n: int, def: Span) -> Seq<NodeRef>
    decreases n,
{
    if n <= 0 {
        Seq::empty()
    } else if refs[n - 1].span == def {
        refs_without(refs, n - 1, def)
    } else {
        refs_without(refs, n - 1, def).push(refs[n - 1])
    }
}

/// The destination defines a register: it is the first reference.
pub open spec fn defines_first(t: Seq<u8>, a: int, refs: Seq<NodeRef>) -> bool {
    refs.len() > 0 && byte_is(t, a, 0x76) && refs[0].span.start == a
}

/// `<dst> = Opcode …`.
pub open spec fn def_row(
    t: Seq<u8>,
    a: int,
    m: InternModel,
    last: Option<NodeId>,
) -> Option<LineOutcome> {
    let refs = vreg_refs_of(t, a);
    match find_from(t, 0, " = ".spec_bytes()) {
        None => None,
        Some(eq) => {
            let o = eq + " = ".spec_bytes().len();
            let e = run_end(t, o, ByteClass::Mnemonic);
            if (byte_is(t, a, 0x76) || byte_is(t, a, 0x5b)) && e > o {
                let id = if defines_first(t, a, refs) {
                    refs[0].node
                } else {
                    SCHEDULE_ONLY
                };
                let def = if defines_first(t, a, refs) {
                    refs[0].span
                } else {
                    span(a, a)
                };
                Some(
                    instruction(
                        id,
                        None,
                        def,
                        m,
                        text_of(t, o, e),
                        span(o, e),
                        if id == SCHEDULE_ONLY {
                            refs
                        } else {
                            refs_without(refs, refs.len() as int, def)
                        },
                        last,
                    ),
                )
            } else {
                None
            }
        },
    }
}

/// The row starts with the name of an architecture's instruction.
pub open spec fn arch_like(t: Seq<u8>, a: int) -> bool {
    ||| occurs_at(t, a, "Arch".spec_bytes())
    ||| occurs_at(t, a, "Arm64".spec_bytes())
    ||| occurs_at(t, a, "X64".spec_bytes())
    ||| occurs_at(t, a, "IA32".spec_bytes())
    ||| occurs_at(t, a, "Riscv".spec_bytes())
    ||| occurs_at(t, a, "Mips".spec_bytes())
    ||| occurs_at(t, a, "Loong".spec_bytes())
    ||| occurs_at(t, a, "Ppc".spec_bytes())
    ||| occurs_at(t, a, "S390".spec_bytes())
}

fn is_arch_like(t: &[u8], a: usize) -> (yes: bool)
    ensures
        yes == arch_like(t@, a as int),
{
    text::starts_with_at(t, a, "Arch") || text::starts_with_at(t, a, "Arm64")
        || text::starts_with_at(t, a, "X64") || text::starts_with_at(t, a, "IA32")
        || text::starts_with_at(t, a, "Riscv") || text::starts_with_at(t, a, "Mips")
        || text::starts_with_at(t, a, "Loong") || text::starts_with_at(t, a, "Ppc")
        || text::starts_with_at(t, a, "S390")
}

/// An instruction without a destination. More than an upper-case word is asked
/// for: an architecture's name, a fused branch, or registers as operands.
pub open spec fn plain_row(
    t: Seq<u8>,
    a: int,
    m: InternModel,
    last: Option<NodeId>,
) -> Option<LineOutcome> {
    let refs = vreg_refs_of(t, a);
    let e = run_end(t, a, ByteClass::Mnemonic);
    let opcode_like = e - a >= 2 && text::is_upper(t[a]);
    if arch_like(t, a) || find_from(t, 0, " && ".spec_bytes()) is Some || (refs.len() > 0
        && opcode_like) {
        Some(
            instruction(
                SCHEDULE_ONLY,
                None,
                span(a, a),
                m,
                if e > a {
                    text_of(t, a, e)
                } else {
                    "insn"@
                },
                span(a, e),
                refs,
                last,
            ),
        )
    } else {
        None
    }
}

/// One line of an instruction sequence.
pub open spec fn instruction_line(t: Seq<u8>, m: InternModel, last: Option<NodeId>) -> LineOutcome {
    let a = trimmed_start(t, 0);
    let control = LineOutcome { info: LineModel::Control, interned: m, last_node: last };
    if furniture(t) {
        control
    } else if instruction_block(t) is Some {
        LineOutcome {
            info: LineModel::BlockHeader { block: instruction_block(t)->0 },
            interned: m,
            last_node: last,
        }
    } else if instruction_furniture(t, a) {
        control
    } else if gap_row(t, a, m, last) is Some {
        gap_row(t, a, m, last)->0
    } else if phi_row(t, a, m, last) is Some {
        phi_row(t, a, m, last)->0
    } else if def_row(t, a, m, last) is Some {
        def_row(t, a, m, last)->0
    } else if plain_row(t, a, m, last) is Some {
        plain_row(t, a, m, last)->0
    } else {
        LineOutcome {
            info: LineModel::Annotation { after_node: last },
            interned: m,
            last_node: last,
        }
    }
}

fn make_instruction(
    id: NodeId,
    schedule_pos: Option<u32>,
    def_span: Span,
    interner: &mut Interner,
    name: String,
    opcode_span: Span,
    inputs: Vec<NodeRef>,
    last_node: &mut Option<NodeId>,
) -> (info: LineInfo)
    ensures
        ({
            let out = instruction(
                id,
                schedule_pos,
                def_span,
                old(interner)@,
                name@,
                opcode_span,
                inputs@,
                *old(last_node),
            );
            info@ == out.info && final(interner)@ == out.interned && *final(last_node)
                == out.last_node
        }),
{
    let opcode: u32 = interner.opcode(name);
    if id != SCHEDULE_ONLY {
        *last_node = Some(id);
    }
    let node = IRNode {
        id,
        schedule_pos,
        def_span,
        opcode,
        opcode_span,
        inputs,
        uses: None,
        dead: false,
        targets: Vec::new(),
    };
    assert(node@.targets =~= Seq::empty());
    LineInfo::Node(node)
}

/// The outcome of a row, if it has one, is what was returned.
pub open spec fn row_done(
    out: Option<LineOutcome>,
    info: Option<LineInfo>,
    before: (InternModel, Option<NodeId>),
    after: (InternModel, Option<NodeId>),
) -> bool {
    match out {
        Some(o) => info is Some && info->0@ == o.info && after.0 == o.interned && after.1
            == o.last_node,
        None => info is None && after == before,
    }
}

fn read_gap_row(
    t: &[u8],
    a: usize,
    interner: &mut Interner,
    last_node: &mut Option<NodeId>,
) -> (info: Option<LineInfo>)
    requires
        a <= t.len(),
    ensures
        row_done(
            gap_row(t@, a as int, old(interner)@, *old(last_node)),
            info,
            (old(interner)@, *old(last_node)),
            (final(interner)@, *final(last_node)),
        ),
{
    let b: usize = text::skip(t, a, ByteClass::Digit);
    if b == a || !text::starts_with_at(t, b, ": ") {
        return None;
    }
    let o: usize = b + ": ".len();
    let e: usize = text::skip(t, o, ByteClass::Mnemonic);
    let schedule_pos = text::parse_u32(t, a, b);
    let refs = vreg_refs(t, o);
    if e > o {
        Some(
            make_instruction(
                SCHEDULE_ONLY,
                schedule_pos,
                span_of(a, b),
                interner,
                text::text_between(t, o, e),
                span_of(o, e),
                refs,
                last_node,
            ),
        )
    } else {
        let opcode_span = Range { start: o as u32, end: (o as u128 + 1) as u32 };
        Some(
            make_instruction(
                SCHEDULE_ONLY,
                schedule_pos,
                span_of(a, b),
                interner,
                text::owned("gap"),
                opcode_span,
                refs,
                last_node,
            ),
        )
    }
}

fn read_phi_row(
    t: &[u8],
    a: usize,
    interner: &mut Interner,
    last_node: &mut Option<NodeId>,
) -> (info: Option<LineInfo>)
    requires
        a <= t.len(),
    ensures
        row_done(
            phi_row(t@, a as int, old(interner)@, *old(last_node)),
            info,
            (old(interner)@, *old(last_node)),
            (final(interner)@, *final(last_node)),
        ),
{
    if !text::starts_with_at(t, a, "phi:") {
        return None;
    }
    proof {
        reveal_strlit("phi:");
        vstd::utf8::is_ascii_chars_encode_utf8("phi:"@);
    }
    let mut refs = vreg_refs(t, a);
    let p: usize = text::trim_start(t, a + "phi:".len());
    if refs.len() > 0 && text::byte_at(t, p, 0x76) {
        let first: NodeRef = refs.remove(0);
        Some(
            make_instruction(
                first.node,
                None,
                first.span,
                interner,
                text::owned("phi"),
                span_of(a, a + 3),
                refs,
                last_node,
            ),
        )
    } else {
        Some(
            make_instruction(
                SCHEDULE_ONLY,
                None,
                span_of(a, a),
                interner,
                text::owned("phi"),
                span_of(a, a + 3),
                refs,
                last_node,
            ),
        )
    }
}

fn drop_span(refs: &Vec<NodeRef>, def: &Span) -> (kept: Vec<NodeRef>)
    ensures
        kept@ == refs_without(refs@, refs@.len() as int, *def),
{
    let mut kept: Vec<NodeRef> = Vec::new();
    let mut k: usize = 0;
    while k < refs.len()
        invariant
            k <= refs.len(),
            kept@ == refs_without(refs@, k as int, *def),
        decreases refs.len() - k,
    {
        let r = &refs[k];
        if !(r.span.start == def.start && r.span.end == def.end) {
            kept.push(
                NodeRef { node: r.node, span: Range { start: r.span.start, end: r.span.end } },
            );
        }
        k += 1;
    }
    kept
}

fn read_def_row(
    t: &[u8],
    a: usize,
    interner: &mut Interner,
    last_node: &mut Option<NodeId>,
) -> (info: Option<LineInfo>)
    requires
        a <= t.len(),
    ensures
        row_done(
            def_row(t@, a as int, old(interner)@, *old(last_node)),
            info,
            (old(interner)@, *old(last_node)),
            (final(interner)@, *final(last_node)),
        ),
{
    if !text::byte_at(t, a, 0x76) && !text::byte_at(t, a, 0x5b) {
        return None;
    }
    match text::find(t, 0, " = ") {
        None => None,
        Some(eq) => {
            let o: usize = eq + " = ".len();
            let e: usize = text::skip(t, o, ByteClass::Mnemonic);
            if e == o {
                return None;
            }
            let refs = vreg_refs(t, a);
            let name = text::text_between(t, o, e);
            if refs.len() > 0 && text::byte_at(t, a, 0x76) && refs[0].span.start as usize == a {
                let id: NodeId = refs[0].node;
                let def: Span = Range { start: refs[0].span.start, end: refs[0].span.end };
                let inputs = if id == SCHEDULE_ONLY {
                    refs
                } else {
                    drop_span(&refs, &def)
                };
                Some(
                    make_instruction(
                        id,
                        None,
                        def,
                        interner,
                        name,
                        span_of(o, e),
                        inputs,
                        last_node,
                    ),
                )
            } else {
                Some(
                    make_instruction(
                        SCHEDULE_ONLY,
                        None,
                        span_of(a, a),
                        interner,
                        name,
                        span_of(o, e),
                        refs,
                        last_node,
                    ),
                )
            }
        },
    }
}

fn read_plain_row(
    t: &[u8],
    a: usize,
    interner: &mut Interner,
    last_node: &mut Option<NodeId>,
) -> (info: Option<LineInfo>)
    requires
        a <= t.len(),
    ensures
        row_done(
            plain_row(t@, a as int, old(interner)@, *old(last_node)),
            info,
            (old(interner)@, *old(last_node)),
            (final(interner)@, *final(last_node)),
        ),
{
    let refs = vreg_refs(t, a);
    let e: usize = text::skip(t, a, ByteClass::Mnemonic);
    let opcode_like: bool = e - a >= 2 && 0x41 <= t[a] && t[a] <= 0x5a;
    if is_arch_like(t, a) || text::find(t, 0, " && ").is_some() || (refs.len() > 0 && opcode_like) {
        let name = if e > a {
            text::text_between(t, a, e)
        } else {
            text::owned("insn")
        };
        Some(
            make_instruction(
                SCHEDULE_ONLY,
                None,
                span_of(a, a),
                interner,
                name,
                span_of(a, e),
                refs,
                last_node,
            ),
        )
    } else {
        None
    }
}

fn read_instruction_block(t: &[u8]) -> (block: Option<u32>)
    ensures
        block == instruction_block(t@),
{
    if !text::byte_at(t, 0, 0x42) {
        return None;
    }
    let e: usize = text::skip(t, 1, ByteClass::Digit);
    if text::byte_at(t, e, 0x3a) {
        text::parse_u32(t, 1, e)
    } else {
        None
    }
}

/// Classifies one line of an instruction sequence.
pub fn classify_instructions(
    s: &[u8],
    interner: &mut Interner,
    last_node: &mut Option<NodeId>,
) -> (info: LineInfo)
    ensures
        info@ == instruction_line(body(s@), old(interner)@, *old(last_node)).info,
        final(interner)@ == instruction_line(body(s@), old(interner)@, *old(last_node)).interned,
        *final(last_node) == instruction_line(body(s@), old(interner)@, *old(last_node)).last_node,
{
    let t = trimmed(s);
    if is_trailer(t) {
        return LineInfo::Control;
    }
    if let Some(block) = read_instruction_block(t) {
        return LineInfo::BlockHeader { block };
    }
    let a: usize = text::trim_start(t, 0);
    if text::starts_with_at(t, 0, "IMM#") || text::starts_with_at(t, 0, "CST#")
        || text::starts_with_at(t, a, "predecessors") || text::starts_with_at(t, a, "successors") {
        return LineInfo::Control;
    }
    if let Some(info) = read_gap_row(t, a, interner, last_node) {
        return info;
    }
    if let Some(info) = read_phi_row(t, a, interner, last_node) {
        return info;
    }
    if let Some(info) = read_def_row(t, a, interner, last_node) {
        return info;
    }
    if let Some(info) = read_plain_row(t, a, interner, last_node) {
        return info;
    }
    LineInfo::Annotation { after_node: *last_node }
}

// ---------------------------------------------------------------------------
// Phases
// ---------------------------------------------------------------------------

/// A phase with one more line: nodes are counted, and so are their uses.
#[verifier::opaque]
pub open spec fn recorded(phase: PhaseModel, info: LineModel) -> PhaseModel {
    let at = phase.infos.len() as u32;
    let infos = phase.infos.push(info);
    match info {
        LineModel::Node(node) => PhaseModel {
            infos,
            defs: if node.id != SCHEDULE_ONLY {
                phase.defs.insert(node.id, at)
            } else {
                phase.defs
            },
            users: with_uses(phase.users, node.inputs, node.inputs.len() as int, at),
            node_count: next_count(phase.node_count),
            ..phase
        },
        LineModel::BlockHeader { .. } => PhaseModel {
            infos,
            block_count: next_count(phase.block_count),
            ..phase
        },
        LineModel::Annotation { .. } => PhaseModel {
            infos,
            annotation_count: next_count(phase.annotation_count),
            ..phase
        },
        _ => PhaseModel { infos, ..phase },
    }
}

/// Adds a line to a phase.
pub fn record(phase: &mut ParsedPhase, info: LineInfo)
    ensures
        final(phase)@ == recorded(old(phase)@, info@),
{
    reveal(recorded);
    let at: u32 = phase.infos.len() as u32;
    match &info {
        LineInfo::Node(node) => {
            phase.node_count = count_up(phase.node_count);
            if node.id != SCHEDULE_ONLY {
                phase.add_def(node.id, at);
            }
            phase.add_uses(&node.inputs, at);
        },
        LineInfo::BlockHeader { .. } => {
            phase.block_count = count_up(phase.block_count);
        },
        LineInfo::Annotation { .. } => {
            phase.annotation_count = count_up(phase.annotation_count);
        },
        _ => {},
    }
    phase.push_info(info);
}

/// One line in the grammar at hand.
#[verifier::opaque]
pub open spec fn grammar_line(
    grammar: Grammar,
    s: Seq<u8>,
    m: InternModel,
    last: Option<NodeId>,
) -> LineOutcome {
    match grammar {
        Grammar::Sea => sea_line(body(s), m, last),
        Grammar::Schedule => schedule_line(body(s), m, last),
        Grammar::Turboshaft => turboshaft_line(body(s), m, last),
        Grammar::Instructions => instruction_line(body(s), m, last),
    }
}

fn classify_line(
    grammar: Grammar,
    s: &[u8],
    interner: &mut Interner,
    last_node: &mut Option<NodeId>,
) -> (info: LineInfo)
    ensures
        info@ == grammar_line(grammar, s@, old(interner)@, *old(last_node)).info,
        final(interner)@ == grammar_line(grammar, s@, old(interner)@, *old(last_node)).interned,
        *final(last_node) == grammar_line(grammar, s@, old(interner)@, *old(last_node)).last_node,
{
    reveal(grammar_line);
    match grammar {
        Grammar::Sea => classify_sea(s, interner, last_node),
        Grammar::Schedule => classify_schedule(s, interner, last_node),
        Grammar::Turboshaft => classify_turboshaft(s, interner, last_node),
        Grammar::Instructions => classify_instructions(s, interner, last_node),
    }
}

/// What is known after some lines of a phase.
#[verifier::ext_equal]
pub struct PhaseState {
    pub phase: PhaseModel,
    pub interned: InternModel,
    pub last_node: Option<NodeId>,
}

/// The state after the first `n` lines; line zero is the banner.
pub open spec fn phase_state(
    grammar: Grammar,
    lines: Seq<Seq<u8>>,
    m: InternModel,
    n: int,
) -> PhaseState
    decreases n,
{
    if n <= 0 {
        PhaseState { phase: empty_phase(), interned: m, last_node: None }
    } else {
        let before = phase_state(grammar, lines, m, n - 1);
        if n == 1 {
            PhaseState { phase: recorded(before.phase, LineModel::Banner), ..before }
        } else {
            let out = grammar_line(grammar, lines[n - 1], before.interned, before.last_node);
            PhaseState {
                phase: recorded(before.phase, out.info),
                interned: out.interned,
                last_node: out.last_node,
            }
        }
    }
}

/// Parses one phase of the optimising pipeline.
pub fn parse_phase(
    buffer: &LogBuffer,
    lines: Range<usize>,
    phase_name: &str,
    interner: &mut Interner,
) -> (phase: ParsedPhase)
    requires
        buffer.wf(),
    ensures
        ({
            let texts = buffer@.texts(lines.start as int, lines.end as int);
            let out = phase_state(
                grammar_of(phase_name.spec_bytes()),
                texts,
                old(interner)@,
                texts.len() as int,
            );
            phase@ == out.phase && final(interner)@ == out.interned
        }),
{
    let grammar = choose_grammar(phase_name.as_bytes());
    let mut phase = ParsedPhase::default();
    let mut last_node: Option<NodeId> = None;
    let ghost texts = buffer@.texts(lines.start as int, lines.end as int);
    let ghost before = interner@;
    let mut line: usize = lines.start;
    while line < lines.end
        invariant
            buffer.wf(),
            texts == buffer@.texts(lines.start as int, lines.end as int),
            lines.start <= line,
            line <= lines.end || line == lines.start,
            phase_state(grammar, texts, before, line - lines.start) == (PhaseState {
                phase: phase@,
                interned: interner@,
                last_node,
            }),
        decreases lines.end - line,
    {
        let chars = buffer.line_text(line);
        let s = chars.as_str().as_bytes();
        assert(texts[line - lines.start] == s@);
        let info = if line == lines.start {
            LineInfo::Banner
        } else {
            classify_line(grammar, s, interner, &mut last_node)
        };
        record(&mut phase, info);
        line += 1;
    }
    phase
}

/// Every line of a phase is classified.
pub proof fn law_lines_are_all_classified(
    grammar: Grammar,
    lines: Seq<Seq<u8>>,
    m: InternModel,
    n: int,
)
    requires
        0 <= n <= lines.len(),
    ensures
        phase_state(grammar, lines, m, n).phase.infos.len() == n,
    decreases n,
{
    reveal(recorded);
    if n > 0 {
        law_lines_are_all_classified(grammar, lines, m, n - 1);
    }
}

} // verus!
