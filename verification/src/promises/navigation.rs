//! Where the keys that follow references lead.

use vstd::prelude::*;
#[allow(unused_imports)]
use vstd::string::*;

#[allow(unused_imports)]
use crate::app::links::{law_consumers_are_the_uses, law_references_are_the_uses, lines_fit};
#[allow(unused_imports)]
use crate::app::nav::{anchor_at, block_after, block_before, block_label, input_step, StepModel};
#[allow(unused_imports)]
use crate::app::refs::{
    consumer_lines, def_place, header_from, input_lines, jump_lines, line_of, operand_lines,
    target_lines, wanted_elsewhere, wanted_from, wanted_line, with_line, with_wanted, Wanted,
};
#[allow(unused_imports)]
use crate::app::timeline::bytecode_from;
#[allow(unused_imports)]
use crate::app::views::info_shown;
#[allow(unused_imports)]
use crate::app::Anchor;
#[allow(unused_imports)]
use crate::model::{
    BlockId, BlockRef, CompilationModel, LineModel, NodeId, NodeRef, ParsedModel, PhaseModel, Span,
};
#[allow(unused_imports)]
use crate::parse::compilation::{law_phases_mirror_the_index, parsed_compilation, phase_size};
#[allow(unused_imports)]
use crate::parse::links::{law_phases_record_their_links, linked, refers, refs_of};
#[allow(unused_imports)]
use crate::source::LogModel;
#[allow(unused_imports)]
use crate::view::ViewContents;

verus! {

/// A list of references names a node.
pub open spec fn names(refs: Seq<NodeRef>, id: NodeId) -> bool {
    exists|k: int| 0 <= k < refs.len() && (#[trigger] refs[k]).node == id
}

/// A line takes a node: as an input, in a deopt frame or in a phi move.
pub open spec fn takes(info: LineModel, id: NodeId) -> bool {
    match info {
        LineModel::Node(node) => names(node.inputs, id),
        LineModel::Frame { refs, .. } => names(refs, id),
        LineModel::PhiMove { refs } => names(refs, id),
        _ => false,
    }
}

/// A line makes a node. A place in the schedule alone makes none.
pub open spec fn makes(info: LineModel, id: NodeId) -> bool {
    info matches LineModel::Node(node) && node.id == id && id != u32::MAX
}

/// Line `d` is the last of a phase that makes a node.
pub open spec fn last_made(infos: Seq<LineModel>, id: NodeId, d: int) -> bool {
    &&& 0 <= d < infos.len()
    &&& makes(infos[d], id)
    &&& forall|j: int| d < j < infos.len() ==> !makes(#[trigger] infos[j], id)
}

/// The phases of a compilation are those of a machine.
pub open spec fn fits(c: CompilationModel) -> bool {
    forall|k: int|
        0 <= k < c.phases.len() ==> 0 <= (#[trigger] c.phases[k]).start && phase_size(c.phases[k])
            <= u32::MAX && c.phases[k].start + phase_size(c.phases[k]) <= usize::MAX
}

proof fn lemma_phase(buffer: LogModel, c: CompilationModel, p: int)
    requires
        fits(c),
        0 <= p < c.phases.len(),
    ensures
        ({
            let phase = parsed_compilation(buffer, c).phases[p];
            &&& linked(phase.infos, phase.defs, phase.users)
            &&& phase.infos.len() == phase_size(c.phases[p])
            &&& lines_fit(c, phase, p)
            &&& phase.infos.len() <= u32::MAX
        }),
{
    assert forall|j: int| 0 <= j < c.phases.len() implies phase_size(#[trigger] c.phases[j])
        <= u32::MAX by {}
    law_phases_record_their_links(buffer, c, p);
    law_phases_mirror_the_index(buffer, c);
    assert(parsed_compilation(buffer, c).phases[p].infos.len() == phase_size(c.phases[p]));
}

/// The consumers of a node are the lines of the phase that take it, all of them
/// and no others.
pub proof fn law_consumers_are_the_lines_that_take_a_node(
    buffer: LogModel,
    c: CompilationModel,
    p: int,
    id: NodeId,
    i: int,
)
    requires
        fits(c),
        0 <= p < c.phases.len(),
        0 <= i < parsed_compilation(buffer, c).phases[p].infos.len(),
    ensures
        ({
            let phase = parsed_compilation(buffer, c).phases[p];
            consumer_lines(c, phase, p, Anchor::Node(id)).contains(
                (c.phases[p].start + i) as usize,
            ) <==> takes(phase.infos[i], id)
        }),
{
    let phase = parsed_compilation(buffer, c).phases[p];
    lemma_phase(buffer, c, p);
    law_consumers_are_the_uses(c, phase, p, id, i);
    let refs = refs_of(phase.infos[i]);
    assert(refers(phase.infos[i], id) <==> names(refs, id));
}

proof fn lemma_last_made(buffer: LogModel, c: CompilationModel, p: int, id: NodeId, d: int)
    requires
        fits(c),
        0 <= p < c.phases.len(),
        last_made(parsed_compilation(buffer, c).phases[p].infos, id, d),
    ensures
        def_place(parsed_compilation(buffer, c).phases[p], id) == Some(d),
{
    let phase = parsed_compilation(buffer, c).phases[p];
    lemma_phase(buffer, c, p);
    assert(crate::parse::links::defines(phase.infos[d], id));
    assert(phase.defs.dom().contains(id));
    let e = phase.defs[id] as int;
    assert(makes(phase.infos[e], id));
}

proof fn lemma_inputs_in_order(
    c: CompilationModel,
    phase: PhaseModel,
    p: int,
    inputs: Seq<NodeRef>,
    places: Seq<int>,
    n: int,
)
    requires
        0 <= n <= inputs.len(),
        places.len() == inputs.len(),
        forall|m: int|
            0 <= m < inputs.len() ==> def_place(phase, (#[trigger] inputs[m]).node) == Some(
                places[m],
            ),
    ensures
        input_lines(c, phase, p, inputs, n).len() == n,
        forall|m: int|
            0 <= m < n ==> #[trigger] input_lines(c, phase, p, inputs, n)[m] == line_of(
                c,
                p,
                places[m],
            ),
    decreases n,
{
    if n > 0 {
        lemma_inputs_in_order(c, phase, p, inputs, places, n - 1);
        assert(def_place(phase, inputs[n - 1].node) == Some(places[n - 1]));
    }
}

/// The jump to the inputs of a node goes through all of them, in the order in
/// which the node takes them: the stop for each is the line that makes it.
/// Line `at` makes the node, and `places` are the lines that make its inputs.
pub proof fn law_inputs_are_visited_in_order(
    buffer: LogModel,
    c: CompilationModel,
    p: int,
    at: int,
    places: Seq<int>,
)
    requires
        fits(c),
        0 <= p < c.phases.len(),
        ({
            let infos = parsed_compilation(buffer, c).phases[p].infos;
            &&& 0 <= at < infos.len()
            &&& infos[at] matches LineModel::Node(node) && {
                &&& last_made(infos, node.id, at)
                &&& node.inputs.len() > 0
                &&& places.len() == node.inputs.len()
                &&& forall|m: int|
                    0 <= m < places.len() ==> last_made(
                        infos,
                        infos[at]->Node_0.inputs[m].node,
                        #[trigger] places[m],
                    )
            }
        }),
    ensures
        ({
            let parsed = parsed_compilation(buffer, c);
            let node = parsed.phases[p].infos[at]->Node_0;
            input_step(c, parsed, p, Anchor::Node(node.id)) matches StepModel::Go {
                anchor,
                targets,
                ..
            } && {
                &&& anchor == Anchor::Node(node.id)
                &&& targets.len() == node.inputs.len()
                &&& forall|m: int|
                    0 <= m < targets.len() ==> #[trigger] targets[m] == c.phases[p].start
                        + places[m]
            }
        }),
{
    let parsed = parsed_compilation(buffer, c);
    let phase = parsed.phases[p];
    let node = phase.infos[at]->Node_0;
    lemma_phase(buffer, c, p);
    lemma_last_made(buffer, c, p, node.id, at);
    assert forall|m: int| 0 <= m < node.inputs.len() implies def_place(
        phase,
        (#[trigger] node.inputs[m]).node,
    ) == Some(places[m]) by {
        assert(last_made(phase.infos, node.inputs[m].node, places[m]));
        lemma_last_made(buffer, c, p, node.inputs[m].node, places[m]);
    }
    lemma_inputs_in_order(c, phase, p, node.inputs, places, node.inputs.len() as int);
    let lines = input_lines(c, phase, p, node.inputs, node.inputs.len() as int);
    assert forall|m: int| 0 <= m < lines.len() implies #[trigger] lines[m] == c.phases[p].start
        + places[m] by {
        assert(last_made(phase.infos, node.inputs[m].node, places[m]));
        assert(c.phases[p].start + phase_size(c.phases[p]) <= usize::MAX);
    }
}

// ---------------------------------------------------------------------------
// Blocks
// ---------------------------------------------------------------------------

/// Line `h` is the first header of a block.
pub open spec fn first_header(infos: Seq<LineModel>, block: BlockId, h: int) -> bool {
    &&& 0 <= h < infos.len()
    &&& infos[h] == (LineModel::BlockHeader { block })
    &&& forall|j: int| 0 <= j < h ==> #[trigger] infos[j] != (LineModel::BlockHeader { block })
}

proof fn lemma_header(infos: Seq<LineModel>, block: BlockId, i: int)
    requires
        0 <= i,
        forall|j: int|
            0 <= j < i && j < infos.len() ==> #[trigger] infos[j] != (LineModel::BlockHeader {
                block,
            }),
    ensures
        match header_from(infos, block, i) {
            Some(h) => first_header(infos, block, h),
            None => forall|h: int| !first_header(infos, block, h),
        },
    decreases infos.len() - i,
{
    if i < infos.len() && infos[i] != (LineModel::BlockHeader { block }) {
        lemma_header(infos, block, i + 1);
    }
}

proof fn lemma_target_lines(
    c: CompilationModel,
    phase: PhaseModel,
    p: int,
    targets: Seq<BlockRef>,
    n: int,
    line: usize,
)
    requires
        0 <= n <= targets.len(),
        lines_fit(c, phase, p),
    ensures
        target_lines(c, phase, p, targets, n).contains(line) <==> exists|m: int, h: int|
            0 <= m < n && #[trigger] first_header(phase.infos, (#[trigger] targets[m]).block, h)
                && line == c.phases[p].start + h,
    decreases n,
{
    if n > 0 {
        lemma_target_lines(c, phase, p, targets, n - 1, line);
        lemma_header(phase.infos, targets[n - 1].block, 0);
        let before = target_lines(c, phase, p, targets, n - 1);
        let all = target_lines(c, phase, p, targets, n);
        let block = targets[n - 1].block;
        lemma_with_line(before, line_of(c, p, header_from(phase.infos, block, 0)->0), line);
        if exists|m: int, h: int|
            0 <= m < n && #[trigger] first_header(phase.infos, (#[trigger] targets[m]).block, h)
                && line == c.phases[p].start + h {
            let (m, h) = choose|m: int, h: int|
                0 <= m < n && #[trigger] first_header(phase.infos, (#[trigger] targets[m]).block, h)
                    && line == c.phases[p].start + h;
            if m == n - 1 {
                lemma_one_header(phase.infos, block, h, header_from(phase.infos, block, 0)->0);
            } else {
                assert(0 <= m < n - 1 && first_header(phase.infos, targets[m].block, h));
            }
        }
        if all.contains(line) && !before.contains(line) {
            let h = header_from(phase.infos, block, 0)->0;
            assert(first_header(phase.infos, targets[n - 1].block, h));
        }
    }
}

proof fn lemma_one_header(infos: Seq<LineModel>, block: BlockId, h: int, k: int)
    requires
        first_header(infos, block, h),
    ensures
        first_header(infos, block, k) ==> h == k,
{
}

proof fn lemma_with_line(list: Seq<usize>, line: usize, x: usize)
    ensures
        with_line(list, line).contains(x) <==> list.contains(x) || x == line,
{
    let out = with_line(list, line);
    if list.contains(x) {
        let k = choose|k: int| 0 <= k < list.len() && list[k] == x;
        assert(out[k] == x);
    }
    if x == line && !list.contains(line) {
        assert(out[list.len() as int] == x);
    }
    if out.contains(x) && x != line {
        let k = choose|k: int| 0 <= k < out.len() && out[k] == x;
        assert(list[k] == x);
    }
}

/// The blocks that a line branches to are followed to their headers, all of
/// them and nothing else.
pub proof fn law_targets_lead_to_their_headers(
    c: CompilationModel,
    phase: PhaseModel,
    p: int,
    targets: Seq<BlockRef>,
    line: usize,
)
    requires
        lines_fit(c, phase, p),
    ensures
        target_lines(c, phase, p, targets, targets.len() as int).contains(line) <==> exists|
            m: int,
            h: int,
        |
            0 <= m < targets.len() && #[trigger] first_header(
                phase.infos,
                (#[trigger] targets[m]).block,
                h,
            ) && line == c.phases[p].start + h,
{
    lemma_target_lines(c, phase, p, targets, targets.len() as int, line);
}

/// The predecessors of a block are the lines that branch to it.
pub proof fn law_predecessors_branch_to_the_block(
    c: CompilationModel,
    phase: PhaseModel,
    p: int,
    block: BlockId,
    i: int,
)
    requires
        lines_fit(c, phase, p),
        0 <= i < phase.infos.len(),
    ensures
        consumer_lines(c, phase, p, Anchor::Block(block)).contains((c.phases[p].start + i) as usize)
            <==> (phase.infos[i] matches LineModel::Node(node) && exists|k: int|
            0 <= k < node.targets.len() && (#[trigger] node.targets[k]).block == block),
{
    law_references_are_the_uses(c, phase, p, Anchor::Block(block), i);
}

// ---------------------------------------------------------------------------
// Bytecode
// ---------------------------------------------------------------------------

/// A list of operands names a number.
pub open spec fn lists(list: Seq<(u32, Span)>, x: u32) -> bool {
    exists|k: int| 0 <= k < list.len() && (#[trigger] list[k]).0 == x
}

/// The rows that refer to a bytecode offset jump there; those that refer to a
/// feedback slot or a pool entry have it among their operands.
pub proof fn law_bytecode_consumers_have_the_operand(
    c: CompilationModel,
    phase: PhaseModel,
    p: int,
    x: u32,
    i: int,
)
    requires
        lines_fit(c, phase, p),
        0 <= i < phase.infos.len(),
    ensures
        ({
            let line = (c.phases[p].start + i) as usize;
            &&& consumer_lines(c, phase, p, Anchor::Offset(x)).contains(line) <==> (
            phase.infos[i] matches LineModel::Bytecode(bc) && lists(bc.targets, x))
            &&& consumer_lines(c, phase, p, Anchor::Slot(x)).contains(line) <==> (
            phase.infos[i] matches LineModel::Bytecode(bc) && lists(bc.fbv, x))
            &&& consumer_lines(c, phase, p, Anchor::Pool(x)).contains(line) <==> (
            phase.infos[i] matches LineModel::Bytecode(bc) && lists(bc.pool, x))
        }),
{
    law_references_are_the_uses(c, phase, p, Anchor::Offset(x), i);
    law_references_are_the_uses(c, phase, p, Anchor::Slot(x), i);
    law_references_are_the_uses(c, phase, p, Anchor::Pool(x), i);
}

/// Row `r` is the first of a phase at a bytecode offset.
pub open spec fn first_at(infos: Seq<LineModel>, offset: u32, r: int) -> bool {
    &&& 0 <= r < infos.len()
    &&& infos[r] matches LineModel::Bytecode(bc) && bc.offset == offset
    &&& forall|j: int|
        0 <= j < r ==> !(#[trigger] infos[j] matches LineModel::Bytecode(bc) && bc.offset == offset)
}

proof fn lemma_first_at(infos: Seq<LineModel>, offset: u32, i: int)
    requires
        0 <= i,
        forall|j: int|
            0 <= j < i && j < infos.len() ==> !(#[trigger] infos[j] matches LineModel::Bytecode(bc)
                && bc.offset == offset),
    ensures
        match bytecode_from(infos, offset, i) {
            Some(r) => first_at(infos, offset, r),
            None => forall|r: int| !first_at(infos, offset, r),
        },
    decreases infos.len() - i,
{
    if i < infos.len() && !(infos[i] matches LineModel::Bytecode(bc) && bc.offset == offset) {
        lemma_first_at(infos, offset, i + 1);
    }
}

/// Line `r` of a phase is the header of a feedback slot, or an entry of the
/// constant pool, with a number, and the first such.
pub open spec fn first_entry(infos: Seq<LineModel>, slot: bool, x: u32, r: int) -> bool {
    &&& 0 <= r < infos.len()
    &&& is_entry(infos[r], slot, x)
    &&& forall|j: int| 0 <= j < r ==> !is_entry(#[trigger] infos[j], slot, x)
}

/// A line is the header of a feedback slot, or an entry of the constant pool,
/// with a number.
pub open spec fn is_entry(info: LineModel, slot: bool, x: u32) -> bool {
    match info {
        LineModel::FeedbackSlot { index, .. } => slot && index == x,
        LineModel::PoolEntry { index, .. } => !slot && index == x,
        _ => false,
    }
}

/// Where an operand of a row in phase `p` leads: into the same phase, or else
/// into the first phase that has the entry.
pub open spec fn entry_place(
    c: CompilationModel,
    parsed: ParsedModel,
    p: int,
    slot: bool,
    x: u32,
    q: int,
    r: int,
) -> bool {
    &&& 0 <= q < parsed.phases.len()
    &&& first_entry(parsed.phases[q].infos, slot, x, r)
    &&& q != p ==> (forall|j: int| !first_entry(parsed.phases[p].infos, slot, x, j)) && forall|
        k: int,
        j: int,
    |
        0 <= k < q ==> !#[trigger] first_entry(parsed.phases[k].infos, slot, x, j)
}

spec fn wanted_for(slot: bool, x: u32) -> Wanted {
    if slot {
        Wanted::Slot(x)
    } else {
        Wanted::Pool(x)
    }
}

proof fn lemma_entry(infos: Seq<LineModel>, slot: bool, x: u32, i: int)
    requires
        0 <= i,
        forall|j: int| 0 <= j < i && j < infos.len() ==> !is_entry(#[trigger] infos[j], slot, x),
    ensures
        match wanted_from(infos, wanted_for(slot, x), i) {
            Some(r) => first_entry(infos, slot, x, r),
            None => forall|r: int| !first_entry(infos, slot, x, r),
        },
    decreases infos.len() - i,
{
    if i < infos.len() && !is_entry(infos[i], slot, x) {
        lemma_entry(infos, slot, x, i + 1);
    }
}

proof fn lemma_elsewhere(
    c: CompilationModel,
    parsed: ParsedModel,
    p: int,
    slot: bool,
    x: u32,
    q: int,
)
    requires
        0 <= q,
        0 <= p < parsed.phases.len(),
        forall|j: int| !first_entry(parsed.phases[p].infos, slot, x, j),
        forall|k: int, j: int|
            0 <= k < q && k < parsed.phases.len() ==> !#[trigger] first_entry(
                parsed.phases[k].infos,
                slot,
                x,
                j,
            ),
    ensures
        match wanted_elsewhere(c, parsed, p, wanted_for(slot, x), q) {
            Some(line) => exists|k: int, r: int| #[trigger]
                entry_place(c, parsed, p, slot, x, k, r) && line == line_of(c, k, r),
            None => forall|k: int, r: int| !#[trigger] entry_place(c, parsed, p, slot, x, k, r),
        },
    decreases parsed.phases.len() - q,
{
    if q < parsed.phases.len() {
        lemma_entry(parsed.phases[q].infos, slot, x, 0);
        match wanted_from(parsed.phases[q].infos, wanted_for(slot, x), 0) {
            Some(r) => {
                if q != p {
                    assert(entry_place(c, parsed, p, slot, x, q, r));
                } else {
                    lemma_elsewhere(c, parsed, p, slot, x, q + 1);
                }
            },
            None => {
                lemma_elsewhere(c, parsed, p, slot, x, q + 1);
            },
        }
    } else {
        assert forall|k: int, r: int| !#[trigger] entry_place(c, parsed, p, slot, x, k, r) by {
            if entry_place(c, parsed, p, slot, x, k, r) {
                assert(first_entry(parsed.phases[k].infos, slot, x, r));
            }
        }
    }
}

/// An operand `FBV[n]` or `[n:…]` leads to the entry with its number: the first
/// one of its own phase, or else the first one of the first phase that has it.
pub proof fn law_an_operand_leads_to_its_entry(
    c: CompilationModel,
    parsed: ParsedModel,
    p: int,
    x: u32,
    slot: bool,
)
    requires
        0 <= p < parsed.phases.len(),
    ensures
        ({
            let wanted = if slot {
                Wanted::Slot(x)
            } else {
                Wanted::Pool(x)
            };
            match wanted_line(c, parsed, p, wanted) {
                Some(line) => exists|q: int, r: int| #[trigger]
                    entry_place(c, parsed, p, slot, x, q, r) && line == (c.phases[q].start
                        + r) as usize,
                None => forall|q: int, r: int| !#[trigger]
                entry_place(c, parsed, p, slot, x, q, r),
            }
        }),
{
    lemma_entry(parsed.phases[p].infos, slot, x, 0);
    match wanted_from(parsed.phases[p].infos, wanted_for(slot, x), 0) {
        Some(r) => {
            assert(entry_place(c, parsed, p, slot, x, p, r));
        },
        None => {
            lemma_elsewhere(c, parsed, p, slot, x, 0);
            match wanted_elsewhere(c, parsed, p, wanted_for(slot, x), 0) {
                Some(line) => {
                    let (k, r) = choose|k: int, r: int| #[trigger]
                        entry_place(c, parsed, p, slot, x, k, r) && line == line_of(c, k, r);
                    assert(entry_place(c, parsed, p, slot, x, k, r));
                },
                None => {},
            }
        },
    }
}

proof fn lemma_jump_lines(
    c: CompilationModel,
    phase: PhaseModel,
    p: int,
    targets: Seq<(u32, Span)>,
    n: int,
    line: usize,
)
    requires
        0 <= n <= targets.len(),
        lines_fit(c, phase, p),
    ensures
        jump_lines(c, phase, p, targets, n).contains(line) <==> exists|m: int, r: int|
            0 <= m < n && #[trigger] first_at(phase.infos, (#[trigger] targets[m]).0, r) && line
                == c.phases[p].start + r,
    decreases n,
{
    if n > 0 {
        lemma_jump_lines(c, phase, p, targets, n - 1, line);
        let o = targets[n - 1].0;
        lemma_first_at(phase.infos, o, 0);
        let before = jump_lines(c, phase, p, targets, n - 1);
        let all = jump_lines(c, phase, p, targets, n);
        let place = bytecode_from(phase.infos, o, 0);
        lemma_with_line(before, line_of(c, p, place->0), line);
        if exists|m: int, r: int|
            0 <= m < n && #[trigger] first_at(phase.infos, (#[trigger] targets[m]).0, r) && line
                == c.phases[p].start + r {
            let (m, r) = choose|m: int, r: int|
                0 <= m < n && #[trigger] first_at(phase.infos, (#[trigger] targets[m]).0, r) && line
                    == c.phases[p].start + r;
            if m == n - 1 {
                assert(first_at(phase.infos, o, r));
                assert(place is Some);
                if r < place->0 {
                    assert(phase.infos[r] matches LineModel::Bytecode(bc) && bc.offset == o);
                }
                if place->0 < r {
                    assert(phase.infos[place->0] matches LineModel::Bytecode(bc) && bc.offset == o);
                }
            } else {
                assert(0 <= m < n - 1 && first_at(phase.infos, targets[m].0, r));
            }
        }
        if all.contains(line) && !before.contains(line) {
            assert(first_at(phase.infos, targets[n - 1].0, place->0));
        }
    }
}

proof fn lemma_wanted_lines(
    list: Seq<usize>,
    c: CompilationModel,
    parsed: ParsedModel,
    p: int,
    operands: Seq<(u32, Span)>,
    slots: bool,
    n: int,
    line: usize,
)
    requires
        0 <= n <= operands.len(),
    ensures
        with_wanted(list, c, parsed, p, operands, slots, n).contains(line) <==> list.contains(line)
            || exists|m: int|
            0 <= m < n && wanted_line(
                c,
                parsed,
                p,
                wanted_for(slots, (#[trigger] operands[m]).0),
            ) == Some(line),
    decreases n,
{
    if n > 0 {
        lemma_wanted_lines(list, c, parsed, p, operands, slots, n - 1, line);
        let before = with_wanted(list, c, parsed, p, operands, slots, n - 1);
        let w = wanted_line(c, parsed, p, wanted_for(slots, operands[n - 1].0));
        lemma_with_line(before, w->0, line);
        if exists|m: int|
            0 <= m < n && wanted_line(
                c,
                parsed,
                p,
                wanted_for(slots, (#[trigger] operands[m]).0),
            ) == Some(line) {
            let m = choose|m: int|
                0 <= m < n && wanted_line(
                    c,
                    parsed,
                    p,
                    wanted_for(slots, (#[trigger] operands[m]).0),
                ) == Some(line);
            if m < n - 1 {
                assert(0 <= m < n - 1 && wanted_line(
                    c,
                    parsed,
                    p,
                    wanted_for(slots, operands[m].0),
                ) == Some(line));
            }
        }
    }
}

/// The operands of a bytecode row lead to the rows that it jumps to, to its
/// feedback slots and to its pool entries, and nowhere else.
pub proof fn law_a_bytecode_row_leads_to_its_operands(
    c: CompilationModel,
    parsed: ParsedModel,
    p: int,
    at: int,
    line: usize,
)
    requires
        0 <= p < parsed.phases.len(),
        lines_fit(c, parsed.phases[p], p),
        parsed.phases[p].infos[at] is Bytecode,
        first_at(parsed.phases[p].infos, parsed.phases[p].infos[at]->Bytecode_0.offset, at),
    ensures
        ({
            let infos = parsed.phases[p].infos;
            let bc = infos[at]->Bytecode_0;
            operand_lines(c, parsed, p, bc.offset).contains(line) <==> {
                ||| exists|m: int, r: int|
                    0 <= m < bc.targets.len() && #[trigger] first_at(
                        infos,
                        (#[trigger] bc.targets[m]).0,
                        r,
                    ) && line == c.phases[p].start + r
                ||| exists|m: int|
                    0 <= m < bc.fbv.len() && wanted_line(
                        c,
                        parsed,
                        p,
                        Wanted::Slot((#[trigger] bc.fbv[m]).0),
                    ) == Some(line)
                ||| exists|m: int|
                    0 <= m < bc.pool.len() && wanted_line(
                        c,
                        parsed,
                        p,
                        Wanted::Pool((#[trigger] bc.pool[m]).0),
                    ) == Some(line)
            }
        }),
{
    let phase = parsed.phases[p];
    let bc = phase.infos[at]->Bytecode_0;
    lemma_first_at(phase.infos, bc.offset, 0);
    let r = bytecode_from(phase.infos, bc.offset, 0)->0;
    if r < at {
        assert(phase.infos[r] matches LineModel::Bytecode(b) && b.offset == bc.offset);
    }
    if at < r {
        assert(phase.infos[at] matches LineModel::Bytecode(b) && b.offset == bc.offset);
    }
    let jumps = jump_lines(c, phase, p, bc.targets, bc.targets.len() as int);
    let slots = with_wanted(jumps, c, parsed, p, bc.fbv, true, bc.fbv.len() as int);
    lemma_jump_lines(c, phase, p, bc.targets, bc.targets.len() as int, line);
    lemma_wanted_lines(jumps, c, parsed, p, bc.fbv, true, bc.fbv.len() as int, line);
    lemma_wanted_lines(slots, c, parsed, p, bc.pool, false, bc.pool.len() as int, line);
    if exists|m: int|
        0 <= m < bc.fbv.len() && wanted_line(
            c,
            parsed,
            p,
            Wanted::Slot((#[trigger] bc.fbv[m]).0),
        ) == Some(line) {
        let m = choose|m: int|
            0 <= m < bc.fbv.len() && wanted_line(
                c,
                parsed,
                p,
                Wanted::Slot((#[trigger] bc.fbv[m]).0),
            ) == Some(line);
        assert(wanted_for(true, bc.fbv[m].0) == Wanted::Slot(bc.fbv[m].0));
    }
    if exists|m: int|
        0 <= m < bc.pool.len() && wanted_line(
            c,
            parsed,
            p,
            Wanted::Pool((#[trigger] bc.pool[m]).0),
        ) == Some(line) {
        let m = choose|m: int|
            0 <= m < bc.pool.len() && wanted_line(
                c,
                parsed,
                p,
                Wanted::Pool((#[trigger] bc.pool[m]).0),
            ) == Some(line);
        assert(wanted_for(false, bc.pool[m].0) == Wanted::Pool(bc.pool[m].0));
    }
}

// ---------------------------------------------------------------------------
// From block to block
// ---------------------------------------------------------------------------

/// A row begins a block: it is a header, folded or not, or a row of
/// disassembly that a branch goes to.
pub open spec fn begins_block(vm: ViewContents, at: int) -> bool {
    &&& 0 <= at < vm.rows_len()
    &&& vm.row_at(at).kind is BlockFold || (info_shown(vm, at) matches Some((_, _, info)) && (
    info is BlockHeader || (info matches LineModel::Disasm { labeled, .. } && labeled)))
}

proof fn lemma_block_after(vm: ViewContents, at: int)
    requires
        0 <= at,
    ensures
        match block_after(vm, at) {
            Some(k) => at < k && begins_block(vm, k) && forall|j: int|
                at < j < k ==> !#[trigger] begins_block(vm, j),
            None => forall|j: int| at < j ==> !#[trigger] begins_block(vm, j),
        },
    decreases vm.rows_len() - at,
{
    if at + 1 < vm.rows_len() {
        assert(block_label(vm, at + 1) is Some <==> begins_block(vm, at + 1));
        if !(block_label(vm, at + 1) is Some) {
            lemma_block_after(vm, at + 1);
        }
    }
}

proof fn lemma_block_before(vm: ViewContents, at: int)
    requires
        at <= vm.rows_len(),
    ensures
        match block_before(vm, at) {
            Some(k) => k < at && begins_block(vm, k) && forall|j: int|
                k < j < at ==> !#[trigger] begins_block(vm, j),
            None => forall|j: int| j < at ==> !#[trigger] begins_block(vm, j),
        },
    decreases at,
{
    if at > 0 {
        assert(block_label(vm, at - 1) is Some <==> begins_block(vm, at - 1));
        if !(block_label(vm, at - 1) is Some) {
            lemma_block_before(vm, at - 1);
        }
    }
}

/// The next and the previous block are the nearest rows that begin one.
pub proof fn law_steps_go_to_the_nearest_block(vm: ViewContents, at: int)
    requires
        0 <= at <= vm.rows_len(),
    ensures
        match block_after(vm, at) {
            Some(k) => at < k && begins_block(vm, k) && forall|j: int|
                at < j < k ==> !#[trigger] begins_block(vm, j),
            None => forall|j: int| at < j ==> !#[trigger] begins_block(vm, j),
        },
        match block_before(vm, at) {
            Some(k) => k < at && begins_block(vm, k) && forall|j: int|
                k < j < at ==> !#[trigger] begins_block(vm, j),
            None => forall|j: int| j < at ==> !#[trigger] begins_block(vm, j),
        },
{
    lemma_block_after(vm, at);
    lemma_block_before(vm, at);
}

/// What a row is followed by: a node by its id, a bytecode row by its offset, a
/// slot and an entry by their numbers, a header by its block, a row of
/// disassembly by its offset.
pub proof fn law_a_row_is_followed_by_what_it_is(vm: ViewContents, at: int)
    requires
        info_shown(vm, at) is Some,
    ensures
        match (info_shown(vm, at)->0).2 {
            LineModel::Node(node) => anchor_at(vm, at) == (if node.id == u32::MAX {
                None
            } else {
                Some(Anchor::Node(node.id))
            }),
            LineModel::Bytecode(bc) => anchor_at(vm, at) == Some(Anchor::Offset(bc.offset)),
            LineModel::FeedbackSlot { index, .. } => anchor_at(vm, at) == Some(Anchor::Slot(index)),
            LineModel::PoolEntry { index, .. } => anchor_at(vm, at) == Some(Anchor::Pool(index)),
            LineModel::BlockHeader { block } => anchor_at(vm, at) == Some(Anchor::Block(block)),
            LineModel::Disasm { offset, .. } => anchor_at(vm, at) == Some(Anchor::Insn(offset)),
            _ => anchor_at(vm, at) is None,
        },
{
}

} // verus!
