//! The Maglev graph grammar.
//!
//! Line-oriented and total: every line of a compilation gets exactly one
//! classification, and what no rule matches becomes an annotation in place.
//! The grammar reads stripped text and records spans into it.
//!
//! - A node line is `11: Opcode …` before scheduling and `12/13: Opcode …`
//!   after it. The identity is the node id, the second number where there are
//!   two.
//! - Deopt frames belong to a node: eager frames print before it, lazy and
//!   throw frames after it.
//! - Graph lines stand behind a gutter of box-drawing characters.

use vstd::prelude::*;
#[allow(unused_imports)]
use vstd::string::*;

use super::bytecode;
#[allow(unused_imports)]
use super::bytecode::interleaved_row;
#[allow(unused_imports)]
use super::intern::{FrameKey, FrameKeyModel, InternModel, Interner};
use crate::model::{
    span_of, BlockRef, DeoptFrame, FrameArrow, IRNode, InlineDecision, LineInfo, NodeId, NodeRef,
    SCHEDULE_ONLY,
};
#[allow(unused_imports)]
use crate::model::{decision_models, span, DecisionModel, LineModel, NodeModel};
use crate::text;
#[allow(unused_imports)]
use crate::text::{
    byte_is, class_is, decimal_i32, decimal_u32, find_from, hex_u64, number_u32, occurs_at,
    run_end, text_of, trimmed_end, trimmed_start, word_is, ByteClass,
};

verus! {

// ---------------------------------------------------------------------------
// The control-flow gutter
// ---------------------------------------------------------------------------

/// The three-byte encodings of the gutter's characters: the box-drawing lines
/// and corners, the arrow heads and the down arrow.
pub open spec fn gutter_three(a: u8, b: u8, c: u8) -> bool {
    &&& a == 0xe2
    &&& {
        ||| b == 0x94 && (c == 0x82 || c == 0x80)
        ||| b == 0x95 && (c == 0xad || c == 0xb0 || c == 0xae || c == 0xaf || c == 0x90)
        ||| b == 0x96 && (c == 0xba || c == 0xbc || c == 0xb2)
        ||| b == 0x97 && c == 0x84
        ||| b == 0x86 && c == 0x93
    }
}

/// The length of the gutter character at `i`, zero where none stands.
pub open spec fn gutter_len(s: Seq<u8>, i: int) -> int {
    if byte_is(s, i, 0x20) {
        1
    } else if 0 <= i && i + 2 < s.len() && gutter_three(s[i], s[i + 1], s[i + 2]) {
        3
    } else {
        0
    }
}

/// Where the content starts, the gutter from `i` on skipped.
pub open spec fn content_from(s: Seq<u8>, i: int) -> int
    decreases s.len() - i,
{
    if gutter_len(s, i) > 0 {
        content_from(s, i + gutter_len(s, i))
    } else {
        i
    }
}

fn gutter_at(s: &[u8], i: usize) -> (n: usize)
    requires
        i <= s.len(),
    ensures
        n == gutter_len(s@, i as int),
        i + n <= s.len(),
{
    if text::byte_at(s, i, 0x20) {
        return 1;
    }
    if s.len() - i < 3 || s[i] != 0xe2 {
        return 0;
    }
    let b: u8 = s[i + 1];
    let c: u8 = s[i + 2];
    if (b == 0x94 && (c == 0x82 || c == 0x80)) || (b == 0x95 && (c == 0xad || c == 0xb0 || c == 0xae
        || c == 0xaf || c == 0x90)) || (b == 0x96 && (c == 0xba || c == 0xbc || c == 0xb2)) || (b
        == 0x97 && c == 0x84) || (b == 0x86 && c == 0x93) {
        3
    } else {
        0
    }
}

/// Skips the gutter.
pub fn content_start(s: &[u8]) -> (start: usize)
    ensures
        start == content_from(s@, 0),
        start <= s.len(),
{
    let mut i: usize = 0;
    let mut n: usize = gutter_at(s, 0);
    while n > 0
        invariant
            i <= s.len(),
            n == gutter_len(s@, i as int),
            i + n <= s.len(),
            content_from(s@, 0) == content_from(s@, i as int),
        decreases s.len() - i,
    {
        i += n;
        n = gutter_at(s, i);
    }
    i
}

// ---------------------------------------------------------------------------
// References
// ---------------------------------------------------------------------------

/// The number that starts at `i`, if digits do and it fits.
pub open spec fn leading_u32(s: Seq<u8>, i: int) -> Option<u32> {
    decimal_u32(s, i, run_end(s, i, ByteClass::Digit))
}

/// Reads the number that starts at `i`.
pub fn leading_number(s: &[u8], i: usize) -> (n: Option<u32>)
    requires
        i <= s.len(),
    ensures
        n == leading_u32(s@, i as int),
{
    let e: usize = text::skip(s, i, ByteClass::Digit);
    text::parse_u32(s, i, e)
}

/// A token made of `letter` and digits starts at `i`, not in the middle of a
/// word; what stands before `lo` does not matter.
pub open spec fn ref_token(s: Seq<u8>, lo: int, i: int, letter: u8) -> bool {
    &&& byte_is(s, i, letter)
    &&& class_is(s, i + 1, ByteClass::Digit)
    &&& i <= lo || !class_is(s, i - 1, ByteClass::Alphanumeric)
}

pub(crate) fn is_ref_token(s: &[u8], lo: usize, i: usize, letter: u8) -> (yes: bool)
    requires
        i < s.len(),
    ensures
        yes == ref_token(s@, lo as int, i as int, letter),
        yes ==> i + 1 < s.len(),
{
    s[i] == letter && s.len() - i > 1 && text::class_at(s, i + 1, ByteClass::Digit) && (i <= lo
        || !text::class_at(s, i - 1, ByteClass::Alphanumeric))
}

/// The reference made by the token at `i`, if no letter follows its digits and
/// its number fits.
pub open spec fn node_ref_at(s: Seq<u8>, i: int) -> Option<NodeRef> {
    let e = run_end(s, i + 1, ByteClass::Digit);
    if e < s.len() && text::is_alpha(s[e]) {
        None
    } else {
        match decimal_u32(s, i + 1, e) {
            Some(node) => Some(NodeRef { node, span: span(i, e) }),
            None => None,
        }
    }
}

/// `list` with `x` added, where there is one.
pub open spec fn with_some<T>(list: Seq<T>, x: Option<T>) -> Seq<T> {
    match x {
        Some(v) => list.push(v),
        None => list,
    }
}

/// The `nN` tokens from `i` on, added to `refs`. Tokens inside `<…>`, where
/// `angles` counts the open ones, and inside quotes are names, not references.
pub open spec fn node_refs_from(
    s: Seq<u8>,
    i: int,
    angles: int,
    quoted: bool,
    refs: Seq<NodeRef>,
) -> Seq<NodeRef>
    decreases s.len() - i,
{
    if i < 0 || i >= s.len() {
        refs
    } else if s[i] == 0x3c && !quoted {
        node_refs_from(s, i + 1, angles + 1, quoted, refs)
    } else if s[i] == 0x3e && !quoted {
        node_refs_from(
            s,
            i + 1,
            if angles > 0 {
                angles - 1
            } else {
                0
            },
            quoted,
            refs,
        )
    } else if s[i] == 0x22 {
        node_refs_from(s, i + 1, angles, !quoted, refs)
    } else if angles > 0 || quoted {
        node_refs_from(s, i + 1, angles, quoted, refs)
    } else if ref_token(s, 0, i, 0x6e) {
        proof {
            text::lemma_run_end(s, i + 1, ByteClass::Digit);
        }
        node_refs_from(
            s,
            run_end(s, i + 1, ByteClass::Digit),
            angles,
            quoted,
            with_some(refs, node_ref_at(s, i)),
        )
    } else {
        node_refs_from(s, i + 1, angles, quoted, refs)
    }
}

/// The node references from `from` to the end of the line.
pub open spec fn node_refs_of(s: Seq<u8>, from: int) -> Seq<NodeRef> {
    node_refs_from(s, from, 0, false, Seq::empty())
}

/// Collects the node references from `from` to the end of the line.
pub fn node_refs(s: &[u8], from: usize) -> (refs: Vec<NodeRef>)
    requires
        from <= s.len(),
    ensures
        refs@ == node_refs_of(s@, from as int),
{
    let mut refs: Vec<NodeRef> = Vec::new();
    let mut i: usize = from;
    let mut angles: usize = 0;
    let mut quoted: bool = false;
    while i < s.len()
        invariant
            from <= i <= s.len(),
            angles <= i,
            node_refs_of(s@, from as int) == node_refs_from(
                s@,
                i as int,
                angles as int,
                quoted,
                refs@,
            ),
        decreases s.len() - i,
    {
        if s[i] == 0x3c && !quoted {
            angles += 1;
            i += 1;
        } else if s[i] == 0x3e && !quoted {
            if angles > 0 {
                angles -= 1;
            }
            i += 1;
        } else if s[i] == 0x22 {
            quoted = !quoted;
            i += 1;
        } else if angles > 0 || quoted {
            i += 1;
        } else if is_ref_token(s, 0, i, 0x6e) {
            let e: usize = text::skip(s, i + 1, ByteClass::Digit);
            if !(e < s.len() && ((0x41 <= s[e] && s[e] <= 0x5a) || (0x61 <= s[e] && s[e] <= 0x7a))) {
                if let Some(node) = text::parse_u32(s, i + 1, e) {
                    refs.push(NodeRef { node, span: span_of(i, e) });
                }
            }
            i = e;
        } else {
            i += 1;
        }
    }
    refs
}

/// The reference made by the block token at `i`.
pub open spec fn block_ref_at(s: Seq<u8>, i: int) -> Option<BlockRef> {
    let e = run_end(s, i + 1, ByteClass::Digit);
    if class_is(s, e, ByteClass::Alphanumeric) {
        None
    } else {
        match decimal_u32(s, i + 1, e) {
            Some(block) => Some(BlockRef { block, span: span(i, e) }),
            None => None,
        }
    }
}

/// The block tokens made with `letter` from `i` on, added to `refs`.
pub open spec fn block_refs_from(
    s: Seq<u8>,
    lo: int,
    i: int,
    letter: u8,
    refs: Seq<BlockRef>,
) -> Seq<BlockRef>
    decreases s.len() - i,
{
    if i < 0 || i >= s.len() {
        refs
    } else if ref_token(s, lo, i, letter) {
        proof {
            text::lemma_run_end(s, i + 1, ByteClass::Digit);
        }
        block_refs_from(
            s,
            lo,
            run_end(s, i + 1, ByteClass::Digit),
            letter,
            with_some(refs, block_ref_at(s, i)),
        )
    } else {
        block_refs_from(s, lo, i + 1, letter, refs)
    }
}

/// Collects the block references made with `letter` from `from` on.
pub fn block_refs(s: &[u8], lo: usize, from: usize, letter: u8) -> (refs: Vec<BlockRef>)
    requires
        from <= s.len(),
    ensures
        refs@ == block_refs_from(s@, lo as int, from as int, letter, Seq::empty()),
{
    let mut refs: Vec<BlockRef> = Vec::new();
    let mut i: usize = from;
    while i < s.len()
        invariant
            from <= i <= s.len(),
            block_refs_from(s@, lo as int, from as int, letter, Seq::empty()) == block_refs_from(
                s@,
                lo as int,
                i as int,
                letter,
                refs@,
            ),
        decreases s.len() - i,
    {
        if is_ref_token(s, lo, i, letter) {
            let e: usize = text::skip(s, i + 1, ByteClass::Digit);
            if !text::class_at(s, e, ByteClass::Alphanumeric) {
                if let Some(block) = text::parse_u32(s, i + 1, e) {
                    refs.push(BlockRef { block, span: span_of(i, e) });
                }
            }
            i = e;
        } else {
            i += 1;
        }
    }
    refs
}

// ---------------------------------------------------------------------------
// Node lines
// ---------------------------------------------------------------------------

/// The end of the opcode that starts at `i`: the first space or parenthesis
/// outside attached brackets.
pub open spec fn opcode_end_from(s: Seq<u8>, i: int, depth: int) -> int
    decreases s.len() - i,
{
    if i < 0 || i >= s.len() {
        i
    } else if s[i] == 0x5b {
        opcode_end_from(s, i + 1, depth + 1)
    } else if s[i] == 0x5d {
        opcode_end_from(
            s,
            i + 1,
            if depth > 0 {
                depth - 1
            } else {
                0
            },
        )
    } else if (s[i] == 0x20 || s[i] == 0x28) && depth == 0 {
        i
    } else {
        opcode_end_from(s, i + 1, depth)
    }
}

fn find_opcode_end(s: &[u8], from: usize) -> (end: usize)
    requires
        from <= s.len(),
    ensures
        end == opcode_end_from(s@, from as int, 0),
        from <= end <= s.len(),
{
    let mut i: usize = from;
    let mut depth: usize = 0;
    while i < s.len() && !((s[i] == 0x20 || s[i] == 0x28) && depth == 0)
        invariant
            from <= i <= s.len(),
            depth <= i,
            opcode_end_from(s@, from as int, 0) == opcode_end_from(s@, i as int, depth as int),
        decreases s.len() - i,
    {
        if s[i] == 0x5b {
            depth += 1;
        } else if s[i] == 0x5d && depth > 0 {
            depth -= 1;
        }
        i += 1;
    }
    i
}

/// The start of the digits that end at `i`, none of them before `lo`.
pub open spec fn digits_before(s: Seq<u8>, lo: int, i: int) -> int
    decreases i - lo,
{
    if lo < i && class_is(s, i - 1, ByteClass::Digit) {
        digits_before(s, lo, i - 1)
    } else {
        i
    }
}

/// The `N` of the first `N uses` from `from` on.
pub open spec fn uses_of(s: Seq<u8>, from: int) -> Option<u32> {
    match find_from(s, from, " uses".spec_bytes()) {
        Some(at) => {
            let d = digits_before(s, from, at);
            if d > from {
                decimal_u32(s, d, at)
            } else {
                None
            }
        },
        None => None,
    }
}

/// Reads the number of uses that a node line prints.
pub fn parse_uses(s: &[u8], from: usize) -> (uses: Option<u32>)
    requires
        from <= s.len(),
    ensures
        uses == uses_of(s@, from as int),
{
    match text::find(s, from, " uses") {
        None => None,
        Some(at) => {
            let mut d: usize = at;
            while d > from && text::class_at(s, d - 1, ByteClass::Digit)
                invariant
                    from <= d <= at <= s.len(),
                    digits_before(s@, from as int, at as int) == digits_before(
                        s@,
                        from as int,
                        d as int,
                    ),
                decreases d - from,
            {
                d -= 1;
            }
            if d > from {
                text::parse_u32(s, d, at)
            } else {
                None
            }
        },
    }
}

/// The ids in front of a node's colon.
pub struct NodeIds {
    pub first: u32,
    pub second: Option<u32>,
    /// Where the colon stands.
    pub end: usize,
}

/// The ids at `start` and where their colon stands: `11: ` or `12/13: `.
pub open spec fn node_ids(s: Seq<u8>, start: int) -> Option<(u32, Option<u32>, int)> {
    let a = run_end(s, start, ByteClass::Digit);
    let b = run_end(s, a + 1, ByteClass::Digit);
    match decimal_u32(s, start, a) {
        None => None,
        Some(first) => {
            if byte_is(s, a, 0x2f) {
                match decimal_u32(s, a + 1, b) {
                    None => None,
                    Some(second) => {
                        if occurs_at(s, b, ": ".spec_bytes()) {
                            Some((first, Some(second), b))
                        } else {
                            None
                        }
                    },
                }
            } else if occurs_at(s, a, ": ".spec_bytes()) {
                Some((first, None, a))
            } else {
                None
            }
        },
    }
}

fn parse_node_ids(s: &[u8], start: usize) -> (ids: Option<NodeIds>)
    requires
        start <= s.len(),
    ensures
        match node_ids(s@, start as int) {
            Some((first, second, end)) => ids matches Some(i) && i.first == first && i.second
                == second && i.end == end && start <= end && occurs_at(s@, end, ": ".spec_bytes()),
            None => ids is None,
        },
{
    let a: usize = text::skip(s, start, ByteClass::Digit);
    match text::parse_u32(s, start, a) {
        None => None,
        Some(first) => {
            if text::byte_at(s, a, 0x2f) {
                let b: usize = text::skip(s, a + 1, ByteClass::Digit);
                match text::parse_u32(s, a + 1, b) {
                    None => None,
                    Some(second) => {
                        if text::starts_with_at(s, b, ": ") {
                            Some(NodeIds { first, second: Some(second), end: b })
                        } else {
                            None
                        }
                    },
                }
            } else if text::starts_with_at(s, a, ": ") {
                Some(NodeIds { first, second: None, end: a })
            } else {
                None
            }
        },
    }
}

/// A gap move stands at `at`: it takes a schedule position and defines nothing.
pub open spec fn gap_move_at(s: Seq<u8>, at: int) -> bool {
    occurs_at(s, at, "GapMove".spec_bytes()) || occurs_at(s, at, "ConstantGapMove".spec_bytes())
}

/// What reading a node line gives: the node, the interner after it, and whether
/// the phase prints schedule positions by now.
pub struct NodeOutcome {
    pub node: Option<NodeModel>,
    pub interned: InternModel,
    pub dual: bool,
}

/// The node line whose content starts at `start`. `dual` says whether the phase
/// has printed `A/B:` ids before: from then on a bare `N:` is a schedule
/// position alone.
pub open spec fn node_line(s: Seq<u8>, start: int, m: InternModel, dual: bool) -> NodeOutcome {
    match node_ids(s, start) {
        None => NodeOutcome { node: None, interned: m, dual },
        Some((first, second, ids_end)) => {
            let o = ids_end + ": ".spec_bytes().len();
            let e = opcode_end_from(s, o, 0);
            let dual_now = dual || second is Some;
            if e <= o {
                NodeOutcome { node: None, interned: m, dual: dual_now }
            } else {
                let name = text_of(s, o, e);
                let scheduled_only = (second is None && dual) || gap_move_at(s, o);
                NodeOutcome {
                    node: Some(
                        NodeModel {
                            id: if scheduled_only {
                                SCHEDULE_ONLY
                            } else {
                                match second {
                                    Some(n) => n,
                                    None => first,
                                }
                            },
                            schedule_pos: if second is Some {
                                Some(first)
                            } else if scheduled_only || first == SCHEDULE_ONLY {
                                Some(first)
                            } else {
                                None
                            },
                            def_span: span(start, ids_end),
                            opcode: m.opcode_id(name),
                            opcode_span: span(o, e),
                            inputs: node_refs_of(s, e),
                            uses: uses_of(s, e),
                            dead: find_from(s, e, "🪦".spec_bytes()) is Some,
                            targets: block_refs_from(s, e, e, 0x62, Seq::empty()),
                        },
                    ),
                    interned: m.with_opcode(name),
                    dual: dual_now,
                }
            }
        },
    }
}

/// The view of an optional node.
pub open spec fn node_model(node: Option<IRNode>) -> Option<NodeModel> {
    match node {
        Some(n) => Some(n@),
        None => None,
    }
}

/// Reads a node line.
pub fn parse_node_line(
    s: &[u8],
    start: usize,
    interner: &mut Interner,
    saw_dual_id: &mut bool,
) -> (node: Option<IRNode>)
    requires
        start <= s.len(),
        old(interner)@.wf(),
    ensures
        node_model(node) == node_line(s@, start as int, old(interner)@, *old(saw_dual_id)).node,
        final(interner)@ == node_line(s@, start as int, old(interner)@, *old(saw_dual_id)).interned,
        *final(saw_dual_id) == node_line(
            s@,
            start as int,
            old(interner)@,
            *old(saw_dual_id),
        ).dual,
        final(interner)@.wf(),
{
    match parse_node_ids(s, start) {
        None => None,
        Some(ids) => {
            let o: usize = ids.end + ": ".len();
            let e: usize = find_opcode_end(s, o);
            let dual_before: bool = *saw_dual_id;
            if ids.second.is_some() {
                *saw_dual_id = true;
            }
            if e == o {
                return None;
            }
            let name: String = text::text_between(s, o, e);
            let scheduled_only: bool = (ids.second.is_none() && dual_before)
                || text::starts_with_at(s, o, "GapMove") || text::starts_with_at(
                s,
                o,
                "ConstantGapMove",
            );
            let id: NodeId = if scheduled_only {
                SCHEDULE_ONLY
            } else {
                match ids.second {
                    Some(n) => n,
                    None => ids.first,
                }
            };
            let schedule_pos: Option<u32> = if ids.second.is_some() || id == SCHEDULE_ONLY {
                Some(ids.first)
            } else {
                None
            };
            let opcode: u32 = interner.opcode(name);
            let node = IRNode {
                id,
                schedule_pos,
                def_span: span_of(start, ids.end),
                opcode,
                opcode_span: span_of(o, e),
                inputs: node_refs(s, e),
                uses: parse_uses(s, e),
                dead: text::find(s, e, "🪦").is_some(),
                targets: block_refs(s, e, e, 0x62),
            };
            Some(node)
        },
    }
}

// ---------------------------------------------------------------------------
// Deopt frames
// ---------------------------------------------------------------------------

/// The arrow of a frame line, where its payload starts before trimming, and
/// whether it names the arrow itself. A line without an arrow continues the
/// frame of the arrow before it.
pub open spec fn frame_arrow(s: Seq<u8>, start: int, last: FrameArrow) -> (FrameArrow, int) {
    if occurs_at(s, start, "↱ eager".spec_bytes()) {
        (FrameArrow::Eager, start + "↱ eager".spec_bytes().len())
    } else if occurs_at(s, start, "↳ lazy".spec_bytes()) {
        (FrameArrow::Lazy, start + "↳ lazy".spec_bytes().len())
    } else if occurs_at(s, start, "↳ throw".spec_bytes()) {
        (FrameArrow::Throw, start + "↳ throw".spec_bytes().len())
    } else {
        (last, start)
    }
}

fn find_frame_arrow(s: &[u8], start: usize, last: FrameArrow) -> (found: (FrameArrow, usize))
    requires
        start <= s.len(),
    ensures
        found.0 == frame_arrow(s@, start as int, last).0,
        found.1 == frame_arrow(s@, start as int, last).1,
        start <= found.1 <= s.len(),
{
    if text::starts_with_at(s, start, "↱ eager") {
        (FrameArrow::Eager, start + "↱ eager".len())
    } else if text::starts_with_at(s, start, "↳ lazy") {
        (FrameArrow::Lazy, start + "↳ lazy".len())
    } else if text::starts_with_at(s, start, "↳ throw") {
        (FrameArrow::Throw, start + "↳ throw".len())
    } else {
        (last, start)
    }
}

/// The frame whose payload starts at `r`.
pub open spec fn frame_at(s: Seq<u8>, r: int, arrow: FrameArrow) -> DeoptFrame {
    DeoptFrame {
        arrow,
        bytecode_offset: if byte_is(s, r, 0x40) {
            decimal_i32(s, r + 1, run_end(s, r + 1, ByteClass::SignedDigit))
        } else {
            None
        },
        catch_block: if arrow == FrameArrow::Throw {
            match find_from(s, r, "(b".spec_bytes()) {
                Some(i) => leading_u32(s, i + "(b".spec_bytes().len()),
                None => None,
            }
        } else {
            None
        },
        addr: match find_from(s, r, "(addr:0x".spec_bytes()) {
            Some(i) => {
                let h = i + "(addr:0x".spec_bytes().len();
                hex_u64(s, h, run_end(s, h, ByteClass::Hex))
            },
            None => None,
        },
        occurrences: 1,
    }
}

fn read_frame(s: &[u8], r: usize, arrow: FrameArrow) -> (frame: DeoptFrame)
    requires
        r <= s.len(),
    ensures
        frame == frame_at(s@, r as int, arrow),
{
    let bytecode_offset: Option<i32> = if text::byte_at(s, r, 0x40) {
        let e: usize = text::skip(s, r + 1, ByteClass::SignedDigit);
        text::parse_i32(s, r + 1, e)
    } else {
        None
    };
    let catch_block: Option<u32> = if arrow == FrameArrow::Throw {
        match text::find(s, r, "(b") {
            Some(i) => leading_number(s, i + "(b".len()),
            None => None,
        }
    } else {
        None
    };
    let addr: Option<u64> = match text::find(s, r, "(addr:0x") {
        Some(i) => {
            let h: usize = i + "(addr:0x".len();
            let e: usize = text::skip(s, h, ByteClass::Hex);
            text::parse_hex(s, h, e)
        },
        None => None,
    };
    DeoptFrame { arrow, bytecode_offset, catch_block, addr, occurrences: 1 }
}

/// What identifies the frame: its host pointer, or the payload as printed.
pub open spec fn frame_key(s: Seq<u8>, r: int, frame: DeoptFrame) -> FrameKeyModel {
    match frame.addr {
        Some(a) => FrameKeyModel::Addr(a),
        None => FrameKeyModel::Payload(frame.arrow, s.subrange(r, s.len() as int)),
    }
}

/// What reading a frame line gives.
pub struct FrameOutcome {
    pub info: LineModel,
    pub interned: InternModel,
    pub arrow: FrameArrow,
}

/// The frame line whose content starts at `start`. An eager frame waits for the
/// node after it; the others belong to the node before.
pub open spec fn frame_line(
    s: Seq<u8>,
    start: int,
    m: InternModel,
    last_node: Option<NodeId>,
    last_arrow: FrameArrow,
) -> FrameOutcome {
    let (arrow, after) = frame_arrow(s, start, last_arrow);
    let r = trimmed_start(s, after);
    let frame = frame_at(s, r, arrow);
    let key = frame_key(s, r, frame);
    FrameOutcome {
        info: LineModel::Frame {
            frame: m.frame_id(key),
            after_node: if arrow == FrameArrow::Eager {
                None
            } else {
                last_node
            },
            refs: node_refs_of(s, start),
        },
        interned: m.with_frame(frame, key),
        arrow,
    }
}

/// Reads a deopt-frame line.
pub fn parse_frame_line(
    s: &[u8],
    start: usize,
    interner: &mut Interner,
    last_node: Option<NodeId>,
    last_arrow: &mut FrameArrow,
) -> (info: LineInfo)
    requires
        start <= s.len(),
        old(interner)@.wf(),
    ensures
        info@ == frame_line(s@, start as int, old(interner)@, last_node, *old(last_arrow)).info,
        final(interner)@ == frame_line(
            s@,
            start as int,
            old(interner)@,
            last_node,
            *old(last_arrow),
        ).interned,
        *final(last_arrow) == frame_line(
            s@,
            start as int,
            old(interner)@,
            last_node,
            *old(last_arrow),
        ).arrow,
        final(interner)@.wf(),
{
    let (arrow, after) = find_frame_arrow(s, start, *last_arrow);
    *last_arrow = arrow;
    let r: usize = text::trim_start(s, after);
    let frame: DeoptFrame = read_frame(s, r, arrow);
    let key: FrameKey = match frame.addr {
        Some(a) => FrameKey::Addr(a),
        None => FrameKey::Payload(
            arrow,
            vstd::slice::slice_to_vec(vstd::slice::slice_subrange(s, r, s.len())),
        ),
    };
    let id: u32 = interner.frame(frame, key);
    LineInfo::Frame {
        frame: id,
        after_node: if arrow == FrameArrow::Eager {
            None
        } else {
            last_node
        },
        refs: node_refs(s, start),
    }
}

// ---------------------------------------------------------------------------
// Function contexts and inlining decisions
// ---------------------------------------------------------------------------

/// The `…:line:col)` at the end of the content, `(0, 0)` where none is printed.
pub open spec fn sfi_position(s: Seq<u8>, start: int) -> (u32, u32) {
    let e = trimmed_end(s, start, s.len() as int) - 1;
    if e < start || !byte_is(s, e, 0x29) {
        (0, 0)
    } else {
        match text::rfind_byte_in(s, start, e, 0x3a) {
            None => (0, 0),
            Some(c) => {
                let l = match text::rfind_byte_in(s, start, c, 0x3a) {
                    Some(k) => k + 1,
                    None => start,
                };
                match (number_u32(s, l, c), number_u32(s, c + 1, e)) {
                    (Some(line), Some(col)) => (line, col),
                    _ => (0, 0),
                }
            },
        }
    }
}

/// Reads the definition position that a function context prints.
pub fn parse_sfi_position(s: &[u8], start: usize) -> (position: (u32, u32))
    requires
        start <= s.len(),
    ensures
        position == sfi_position(s@, start as int),
{
    let end: usize = text::trim_end(s, start, s.len());
    if end == start || !text::byte_at(s, end - 1, 0x29) {
        return (0, 0);
    }
    let e: usize = end - 1;
    match text::rfind_byte(s, start, e, 0x3a) {
        None => (0, 0),
        Some(c) => {
            let l: usize = match text::rfind_byte(s, start, c, 0x3a) {
                Some(k) => k + 1,
                None => start,
            };
            let line = text::parse_number(s, l, c);
            let col = text::parse_number(s, c + 1, e);
            match (line, col) {
                (Some(line), Some(col)) => (line, col),
                _ => (0, 0),
            }
        },
    }
}

/// The quoted path of the string object that the line names.
pub open spec fn script_of(s: Seq<u8>) -> Option<Seq<char>> {
    match find_from(s, 0, "<String[".spec_bytes()) {
        None => None,
        Some(at) => match text::find_byte_in(s, at, s.len() as int, 0x22) {
            None => None,
            Some(open) => match text::find_byte_in(s, open + 1, s.len() as int, 0x22) {
                None => None,
                Some(close) => Some(text_of(s, open + 1, close)),
            },
        },
    }
}

/// Reads the script path that the line names.
pub fn parse_script(s: &[u8]) -> (script: Option<String>)
    ensures
        crate::model::opt_text(script) == script_of(s@),
{
    match text::find(s, 0, "<String[") {
        None => None,
        Some(at) => match text::find_byte(s, at, s.len(), 0x22) {
            None => None,
            Some(open) => match text::find_byte(s, open + 1, s.len(), 0x22) {
                None => None,
                Some(close) => Some(text::text_between(s, open + 1, close)),
            },
        },
    }
}

/// Where the decision starts: after white space and after a compilation-id
/// prefix, which carries no meaning.
pub open spec fn decision_start(s: Seq<u8>) -> int {
    let c = trimmed_start(s, 0);
    if occurs_at(s, c, "[ML:".spec_bytes()) {
        match find_from(s, c + "[ML:".spec_bytes().len(), "] ".spec_bytes()) {
            Some(e) => e + "] ".spec_bytes().len(),
            None => c,
        }
    } else {
        c
    }
}

/// The text between `from` and `to` without white space around it.
pub open spec fn trimmed_text(s: Seq<u8>, from: int, to: int) -> Seq<char> {
    let e = trimmed_end(s, from, to);
    let b = if trimmed_start(s, from) < e {
        trimmed_start(s, from)
    } else {
        e
    };
    text_of(s, b, e)
}

/// Copies out the text between `from` and `to` without white space around it.
pub fn trimmed(s: &[u8], from: usize, to: usize) -> (out: String)
    requires
        from <= to <= s.len(),
    ensures
        out@ == trimmed_text(s@, from as int, to as int),
{
    let e: usize = text::trim_end(s, from, to);
    let b: usize = text::trim_start(s, from);
    if b < e {
        text::text_between(s, b, e)
    } else {
        text::text_between(s, e, e)
    }
}

/// The decision whose callee starts at `at`: two spaces part it from its
/// reason.
pub open spec fn decision_at(s: Seq<u8>, at: int, line: int, inlined: bool) -> DecisionModel {
    let c = trimmed_start(s, at);
    match find_from(s, c, "  ".spec_bytes()) {
        Some(gap) => DecisionModel {
            line,
            inlined,
            callee: trimmed_text(s, c, gap),
            reason: trimmed_text(s, gap + "  ".spec_bytes().len(), s.len() as int),
        },
        None => DecisionModel {
            line,
            inlined,
            callee: trimmed_text(s, c, s.len() as int),
            reason: Seq::empty(),
        },
    }
}

/// The inlining decision that a line records, if it does.
pub open spec fn decision_of(s: Seq<u8>, line: int) -> Option<DecisionModel> {
    let b = decision_start(s);
    if occurs_at(s, b, "⚡ INLINE".spec_bytes()) {
        Some(decision_at(s, b + "⚡ INLINE".spec_bytes().len(), line, true))
    } else if occurs_at(s, b, "❌ SKIP".spec_bytes()) {
        Some(decision_at(s, b + "❌ SKIP".spec_bytes().len(), line, false))
    } else {
        None
    }
}

fn find_decision_start(s: &[u8]) -> (at: usize)
    ensures
        at == decision_start(s@),
        at <= s.len(),
{
    let c: usize = text::trim_start(s, 0);
    if text::starts_with_at(s, c, "[ML:") {
        match text::find(s, c + "[ML:".len(), "] ") {
            Some(e) => e + "] ".len(),
            None => c,
        }
    } else {
        c
    }
}

fn read_decision(s: &[u8], at: usize, line: usize, inlined: bool) -> (d: InlineDecision)
    requires
        at <= s.len(),
    ensures
        d@ == decision_at(s@, at as int, line as int, inlined),
{
    let c: usize = text::trim_start(s, at);
    match text::find(s, c, "  ") {
        Some(gap) => InlineDecision {
            line,
            inlined,
            callee: trimmed(s, c, gap),
            reason: trimmed(s, gap + "  ".len(), s.len()),
        },
        None => InlineDecision {
            line,
            inlined,
            callee: trimmed(s, c, s.len()),
            reason: String::new(),
        },
    }
}

/// Records the inlining decision of a line, if it has one.
pub fn record_inline_decision(s: &[u8], line: usize, decisions: &mut Vec<InlineDecision>)
    ensures
        decision_models(final(decisions)@) == with_some(
            decision_models(old(decisions)@),
            decision_of(s@, line as int),
        ),
{
    let b: usize = find_decision_start(s);
    if text::starts_with_at(s, b, "⚡ INLINE") {
        let d = read_decision(s, b + "⚡ INLINE".len(), line, true);
        decisions.push(d);
        assert(decision_models(decisions@) =~= decision_models(old(decisions)@).push(d@));
    } else if text::starts_with_at(s, b, "❌ SKIP") {
        let d = read_decision(s, b + "❌ SKIP".len(), line, false);
        decisions.push(d);
        assert(decision_models(decisions@) =~= decision_models(old(decisions)@).push(d@));
    }
}

/// What a line before the first banner is: blank lines are furniture, the rest
/// is annotation.
pub open spec fn preamble_info(s: Seq<u8>) -> LineModel {
    if text::blank_from(s, 0) {
        LineModel::Control
    } else {
        LineModel::Annotation { after_node: None }
    }
}

/// The decision that a line before the first banner records.
pub open spec fn preamble_decision(s: Seq<u8>, line: int) -> Option<DecisionModel> {
    if text::blank_from(s, 0) {
        None
    } else {
        decision_of(s, line)
    }
}

/// Classifies a line that stands before the first banner.
pub fn classify_preamble(s: &[u8], line: usize, decisions: &mut Vec<InlineDecision>) -> (info:
    LineInfo)
    ensures
        info@ == preamble_info(s@),
        decision_models(final(decisions)@) == with_some(
            decision_models(old(decisions)@),
            preamble_decision(s@, line as int),
        ),
{
    if text::is_blank(s, 0) {
        return LineInfo::Control;
    }
    record_inline_decision(s, line, decisions);
    LineInfo::Annotation { after_node: None }
}

// ---------------------------------------------------------------------------
// Lines of a graph
// ---------------------------------------------------------------------------

/// What the grammar remembers from line to line.
pub struct GraphMemory {
    pub interner: Interner,
    /// The phase has printed `A/B:` ids.
    pub saw_dual_id: bool,
    pub last_node: Option<NodeId>,
    pub last_arrow: FrameArrow,
}

/// The view of a `GraphMemory`.
#[verifier::ext_equal]
pub struct MemoryModel {
    pub interned: InternModel,
    pub dual: bool,
    pub last_node: Option<NodeId>,
    pub last_arrow: FrameArrow,
}

impl View for GraphMemory {
    type V = MemoryModel;

    open spec fn view(&self) -> MemoryModel {
        MemoryModel {
            interned: self.interner@,
            dual: self.saw_dual_id,
            last_node: self.last_node,
            last_arrow: self.last_arrow,
        }
    }
}

/// A header `Block bN`.
pub open spec fn block_header(s: Seq<u8>, start: int) -> Option<u32> {
    if occurs_at(s, start, "Block b".spec_bytes()) {
        leading_u32(s, start + "Block b".spec_bytes().len())
    } else {
        None
    }
}

/// The line belongs to a deopt frame.
pub open spec fn frame_starts(s: Seq<u8>, start: int) -> bool {
    occurs_at(s, start, "↱".spec_bytes()) || occurs_at(s, start, "↳".spec_bytes()) || byte_is(
        s,
        start,
        0x40,
    )
}

/// A phi-input move: a bullet, an arrow and a phi.
pub open spec fn phi_move(s: Seq<u8>, start: int) -> bool {
    &&& occurs_at(s, start, "- ".spec_bytes())
    &&& find_from(s, start, "→".spec_bytes()) is Some
    &&& find_from(s, start, "φ".spec_bytes()) is Some
}

/// A switch of the function context.
pub open spec fn sfi_context(s: Seq<u8>, start: int) -> bool {
    occurs_at(s, start, "0x".spec_bytes()) && find_from(
        s,
        start,
        "<SharedFunctionInfo".spec_bytes(),
    ) is Some
}

/// The furniture that closes a section: its rule and its trailers.
pub open spec fn section_trailer(s: Seq<u8>, start: int) -> bool {
    let e = trimmed_end(s, start, s.len() as int);
    ||| occurs_at(s, start, "Finished compiling method ".spec_bytes())
    ||| occurs_at(s, start, "Begin compiling method ".spec_bytes())
    ||| e - start >= 20 && run_end(s, start, ByteClass::Dash) >= e
}

/// The classification of one graph line and what is remembered after it.
pub open spec fn graph_line(s: Seq<u8>, mem: MemoryModel) -> (LineModel, MemoryModel) {
    let start = content_from(s, 0);
    if start == s.len() || word_is(s, start, s.len() as int, "Graph".spec_bytes()) {
        (LineModel::Control, mem)
    } else if block_header(s, start) is Some {
        (LineModel::BlockHeader { block: block_header(s, start)->0 }, mem)
    } else if frame_starts(s, start) {
        let out = frame_line(s, start, mem.interned, mem.last_node, mem.last_arrow);
        (out.info, MemoryModel { interned: out.interned, last_arrow: out.arrow, ..mem })
    } else if occurs_at(s, start, "VOs ".spec_bytes()) || word_is(
        s,
        start,
        s.len() as int,
        "VOs".spec_bytes(),
    ) {
        (LineModel::VirtualObjects, mem)
    } else if phi_move(s, start) {
        (LineModel::PhiMove { refs: node_refs_of(s, start) }, mem)
    } else if sfi_context(s, start) {
        let (line, col) = sfi_position(s, start);
        (LineModel::SfiContext { line, col, same_script: true }, mem)
    } else {
        let out = node_line(s, start, mem.interned, mem.dual);
        let after = MemoryModel { interned: out.interned, dual: out.dual, ..mem };
        match out.node {
            Some(node) => (
                LineModel::Node(node),
                if node.id != SCHEDULE_ONLY {
                    MemoryModel { last_node: Some(node.id), ..after }
                } else {
                    after
                },
            ),
            None => (
                if interleaved_row(s, start) is Some {
                    interleaved_row(s, start)->0
                } else if section_trailer(s, start) {
                    LineModel::Control
                } else {
                    LineModel::Annotation { after_node: mem.last_node }
                },
                after,
            ),
        }
    }
}

fn is_section_trailer(s: &[u8], start: usize) -> (yes: bool)
    requires
        start <= s.len(),
    ensures
        yes == section_trailer(s@, start as int),
{
    if text::starts_with_at(s, start, "Finished compiling method ") || text::starts_with_at(
        s,
        start,
        "Begin compiling method ",
    ) {
        return true;
    }
    let e: usize = text::trim_end(s, start, s.len());
    let d: usize = text::skip(s, start, ByteClass::Dash);
    e - start >= 20 && d >= e
}

/// Classifies one line of a graph.
pub fn classify_graph_line(s: &[u8], mem: &mut GraphMemory) -> (info: LineInfo)
    requires
        old(mem)@.interned.wf(),
    ensures
        info@ == graph_line(s@, old(mem)@).0,
        final(mem)@ == graph_line(s@, old(mem)@).1,
        final(mem)@.interned.wf(),
{
    let start: usize = content_start(s);
    if start == s.len() || text::slice_is(s, start, s.len(), "Graph") {
        return LineInfo::Control;
    }
    if text::starts_with_at(s, start, "Block b") {
        if let Some(block) = leading_number(s, start + "Block b".len()) {
            return LineInfo::BlockHeader { block };
        }
    }
    if text::starts_with_at(s, start, "↱") || text::starts_with_at(s, start, "↳") || text::byte_at(
        s,
        start,
        0x40,
    ) {
        let last_node = mem.last_node;
        return parse_frame_line(s, start, &mut mem.interner, last_node, &mut mem.last_arrow);
    }
    if text::starts_with_at(s, start, "VOs ") || text::slice_is(s, start, s.len(), "VOs") {
        return LineInfo::VirtualObjects;
    }
    if text::starts_with_at(s, start, "- ") && text::find(s, start, "→").is_some() && text::find(
        s,
        start,
        "φ",
    ).is_some() {
        return LineInfo::PhiMove { refs: node_refs(s, start) };
    }
    if text::starts_with_at(s, start, "0x") && text::find(s, start, "<SharedFunctionInfo").is_some() {
        let (line, col) = parse_sfi_position(s, start);
        return LineInfo::SfiContext { line, col, same_script: true };
    }
    if let Some(node) = parse_node_line(s, start, &mut mem.interner, &mut mem.saw_dual_id) {
        if node.id != SCHEDULE_ONLY {
            mem.last_node = Some(node.id);
        }
        return LineInfo::Node(node);
    }
    if let Some(info) = bytecode::parse_interleaved_bytecode(s, start) {
        return info;
    }
    if is_section_trailer(s, start) {
        return LineInfo::Control;
    }
    LineInfo::Annotation { after_node: mem.last_node }
}

} // verus!
