//! What the lines of a compilation refer to, and who refers to them.

use vstd::prelude::*;
#[allow(unused_imports)]
use vstd::string::*;

use super::timeline::find_bytecode;
#[allow(unused_imports)]
use super::timeline::{bytecode_from, mirrors};
use super::Anchor;
use crate::model::{
    BlockId, BlockRef, CompilationSection, IRNode, LineInfo, NodeId, NodeRef, ParsedCompilation,
    ParsedPhase, Span,
};
#[allow(unused_imports)]
use crate::model::{line_models, CompilationModel, LineModel, NodeModel, ParsedModel, PhaseModel};
#[allow(unused_imports)]
use crate::parse::compilation::phase_size;
use crate::text;

verus! {

/// The line of place `i` of phase `p`.
pub open spec fn line_of(section: CompilationModel, p: int, i: int) -> usize {
    (section.phases[p].start + i) as usize
}

/// A list with a line that it holds only once.
pub open spec fn with_line(list: Seq<usize>, line: usize) -> Seq<usize> {
    if list.contains(line) {
        list
    } else {
        list.push(line)
    }
}

/// Appends a line unless the list holds it.
pub(crate) fn push_line(list: &mut Vec<usize>, line: usize)
    ensures
        final(list)@ == with_line(old(list)@, line),
{
    let mut k: usize = 0;
    while k < list.len()
        invariant
            list@ == old(list)@,
            k <= list@.len(),
            forall|m: int| 0 <= m < k ==> list@[m] != line,
        decreases list.len() - k,
    {
        if list[k] == line {
            return ;
        }
        k += 1;
    }
    list.push(line);
}

/// The address of place `i` of phase `p`.
pub(crate) fn line_at_place(section: &CompilationSection, p: usize, i: usize) -> (line: usize)
    requires
        p < section.phases@.len(),
        i < phase_size(section@.phases[p as int]),
    ensures
        line == line_of(section@, p as int, i as int),
{
    assert(section@.phases[p as int] == section.phases@[p as int]@);
    section.phases[p].lines.start + i
}

// ---------------------------------------------------------------------------
// Nodes and blocks
// ---------------------------------------------------------------------------

/// Where a phase defines a node.
pub open spec fn def_place(phase: PhaseModel, id: NodeId) -> Option<int> {
    if phase.defs.dom().contains(id) && phase.defs[id] < phase.infos.len() {
        Some(phase.defs[id] as int)
    } else {
        None
    }
}

/// The node that a phase defines under an id.
pub open spec fn def_node(phase: PhaseModel, id: NodeId) -> Option<NodeModel> {
    match def_place(phase, id) {
        Some(i) => match phase.infos[i] {
            LineModel::Node(node) => Some(node),
            _ => None,
        },
        None => None,
    }
}

pub(crate) fn find_def(phase: &ParsedPhase, id: NodeId) -> (at: Option<usize>)
    ensures
        text::pos(at) == def_place(phase@, id),
        at matches Some(i) ==> i < phase.infos@.len(),
{
    broadcast use vstd::std_specs::hash::group_hash_axioms;

    match phase.defs.get(&id) {
        Some(i) => if (*i as usize) < phase.infos.len() {
            Some(*i as usize)
        } else {
            None
        },
        None => None,
    }
}

pub(crate) fn find_node<'a>(phase: &'a ParsedPhase, id: NodeId) -> (node: Option<&'a IRNode>)
    ensures
        match node {
            Some(n) => def_node(phase@, id) == Some(n@),
            None => def_node(phase@, id) is None,
        },
{
    match find_def(phase, id) {
        Some(i) => {
            assert(phase@.infos[i as int] == phase.infos@[i as int]@);
            match &phase.infos[i] {
                LineInfo::Node(node) => Some(node),
                _ => None,
            }
        },
        None => None,
    }
}

/// The lines that define the first `n` inputs.
pub open spec fn input_lines(
    section: CompilationModel,
    phase: PhaseModel,
    p: int,
    inputs: Seq<NodeRef>,
    n: int,
) -> Seq<usize>
    decreases n,
{
    if n <= 0 {
        Seq::empty()
    } else {
        let before = input_lines(section, phase, p, inputs, n - 1);
        match def_place(phase, inputs[n - 1].node) {
            Some(i) => before.push(line_of(section, p, i)),
            None => before,
        }
    }
}

pub(crate) fn list_inputs(
    section: &CompilationSection,
    phase: &ParsedPhase,
    p: usize,
    inputs: &Vec<NodeRef>,
) -> (lines: Vec<usize>)
    requires
        p < section.phases@.len(),
        phase.infos@.len() == phase_size(section@.phases[p as int]),
    ensures
        lines@ == input_lines(section@, phase@, p as int, inputs@, inputs@.len() as int),
{
    let mut lines: Vec<usize> = Vec::new();
    let mut n: usize = 0;
    while n < inputs.len()
        invariant
            n <= inputs@.len(),
            p < section.phases@.len(),
            phase.infos@.len() == phase_size(section@.phases[p as int]),
            lines@ == input_lines(section@, phase@, p as int, inputs@, n as int),
        decreases inputs.len() - n,
    {
        if let Some(i) = find_def(phase, inputs[n].node) {
            lines.push(line_at_place(section, p, i));
        }
        n += 1;
    }
    lines
}

/// The first header of a block at or after place `i`.
pub open spec fn header_from(infos: Seq<LineModel>, block: BlockId, i: int) -> Option<int>
    decreases infos.len() - i,
{
    if i < 0 || i >= infos.len() {
        None
    } else if infos[i] matches LineModel::BlockHeader { block: b } && b == block {
        Some(i)
    } else {
        header_from(infos, block, i + 1)
    }
}

fn find_block(infos: &Vec<LineInfo>, block: BlockId) -> (at: Option<usize>)
    ensures
        text::pos(at) == header_from(line_models(infos@), block, 0),
        at matches Some(i) ==> i < infos@.len(),
{
    let ghost all = line_models(infos@);
    let mut i: usize = 0;
    while i < infos.len()
        invariant
            i <= infos@.len(),
            all == line_models(infos@),
            header_from(all, block, 0) == header_from(all, block, i as int),
        decreases infos.len() - i,
    {
        assert(all[i as int] == infos@[i as int]@);
        if let LineInfo::BlockHeader { block: b } = &infos[i] {
            if *b == block {
                return Some(i);
            }
        }
        i += 1;
    }
    None
}

/// The headers of the first `n` blocks that are branched to.
pub open spec fn target_lines(
    section: CompilationModel,
    phase: PhaseModel,
    p: int,
    targets: Seq<BlockRef>,
    n: int,
) -> Seq<usize>
    decreases n,
{
    if n <= 0 {
        Seq::empty()
    } else {
        let before = target_lines(section, phase, p, targets, n - 1);
        match header_from(phase.infos, targets[n - 1].block, 0) {
            Some(i) => with_line(before, line_of(section, p, i)),
            None => before,
        }
    }
}

pub(crate) fn list_targets(
    section: &CompilationSection,
    phase: &ParsedPhase,
    p: usize,
    targets: &Vec<BlockRef>,
) -> (lines: Vec<usize>)
    requires
        p < section.phases@.len(),
        phase.infos@.len() == phase_size(section@.phases[p as int]),
    ensures
        lines@ == target_lines(section@, phase@, p as int, targets@, targets@.len() as int),
{
    let mut lines: Vec<usize> = Vec::new();
    let mut n: usize = 0;
    while n < targets.len()
        invariant
            n <= targets@.len(),
            p < section.phases@.len(),
            phase.infos@.len() == phase_size(section@.phases[p as int]),
            lines@ == target_lines(section@, phase@, p as int, targets@, n as int),
        decreases targets.len() - n,
    {
        if let Some(i) = find_block(&phase.infos, targets[n].block) {
            push_line(&mut lines, line_at_place(section, p, i));
        }
        n += 1;
    }
    lines
}

// ---------------------------------------------------------------------------
// Bytecode
// ---------------------------------------------------------------------------

/// What a bytecode operand refers to.
#[derive(Debug, Clone, Copy, PartialEq, Eq, Structural)]
pub enum Wanted {
    Slot(u32),
    Pool(u32),
}

/// A line is what an operand refers to.
pub open spec fn is_wanted(info: LineModel, wanted: Wanted) -> bool {
    match (info, wanted) {
        (LineModel::FeedbackSlot { index, .. }, Wanted::Slot(s)) => index == s,
        (LineModel::PoolEntry { index, .. }, Wanted::Pool(c)) => index == c,
        _ => false,
    }
}

/// The first line at or after place `i` that an operand refers to.
pub open spec fn wanted_from(infos: Seq<LineModel>, wanted: Wanted, i: int) -> Option<int>
    decreases infos.len() - i,
{
    if i < 0 || i >= infos.len() {
        None
    } else if is_wanted(infos[i], wanted) {
        Some(i)
    } else {
        wanted_from(infos, wanted, i + 1)
    }
}

fn find_wanted(infos: &Vec<LineInfo>, wanted: Wanted) -> (at: Option<usize>)
    ensures
        text::pos(at) == wanted_from(line_models(infos@), wanted, 0),
        at matches Some(i) ==> i < infos@.len(),
{
    let ghost all = line_models(infos@);
    let mut i: usize = 0;
    while i < infos.len()
        invariant
            i <= infos@.len(),
            all == line_models(infos@),
            wanted_from(all, wanted, 0) == wanted_from(all, wanted, i as int),
        decreases infos.len() - i,
    {
        assert(all[i as int] == infos@[i as int]@);
        let yes: bool = match (&infos[i], wanted) {
            (LineInfo::FeedbackSlot { index, .. }, Wanted::Slot(s)) => *index == s,
            (LineInfo::PoolEntry { index, .. }, Wanted::Pool(c)) => *index == c,
            _ => false,
        };
        if yes {
            return Some(i);
        }
        i += 1;
    }
    None
}

/// The first line that an operand refers to in a phase at or after `q`, phase
/// `p` left out.
pub open spec fn wanted_elsewhere(
    section: CompilationModel,
    parsed: ParsedModel,
    p: int,
    wanted: Wanted,
    q: int,
) -> Option<usize>
    decreases parsed.phases.len() - q,
{
    if q < 0 || q >= parsed.phases.len() {
        None
    } else {
        match (q != p, wanted_from(parsed.phases[q].infos, wanted, 0)) {
            (true, Some(i)) => Some(line_of(section, q, i)),
            _ => wanted_elsewhere(section, parsed, p, wanted, q + 1),
        }
    }
}

/// The line that an operand in phase `p` refers to: there, or else in the
/// first other phase that has it.
pub open spec fn wanted_line(
    section: CompilationModel,
    parsed: ParsedModel,
    p: int,
    wanted: Wanted,
) -> Option<usize> {
    match wanted_from(parsed.phases[p].infos, wanted, 0) {
        Some(i) => Some(line_of(section, p, i)),
        None => wanted_elsewhere(section, parsed, p, wanted, 0),
    }
}

fn find_in_phases(
    section: &CompilationSection,
    parsed: &ParsedCompilation,
    p: usize,
    wanted: Wanted,
) -> (line: Option<usize>)
    requires
        mirrors(section@, parsed@),
        p < section.phases@.len(),
    ensures
        line == wanted_line(section@, parsed@, p as int, wanted),
{
    assert(parsed@.phases.len() == parsed.phases@.len());
    assert(parsed@.phases[p as int] == parsed.phases@[p as int]@);
    if let Some(i) = find_wanted(&parsed.phases[p].infos, wanted) {
        return Some(line_at_place(section, p, i));
    }
    let mut q: usize = 0;
    while q < parsed.phases.len()
        invariant
            q <= parsed.phases@.len(),
            mirrors(section@, parsed@),
            section@.phases.len() == section.phases@.len(),
            parsed@.phases.len() == parsed.phases@.len(),
            wanted_from(parsed@.phases[p as int].infos, wanted, 0) is None,
            wanted_elsewhere(section@, parsed@, p as int, wanted, 0) == wanted_elsewhere(
                section@,
                parsed@,
                p as int,
                wanted,
                q as int,
            ),
        decreases parsed.phases.len() - q,
    {
        assert(parsed@.phases[q as int] == parsed.phases@[q as int]@);
        if q != p {
            if let Some(i) = find_wanted(&parsed.phases[q].infos, wanted) {
                return Some(line_at_place(section, q, i));
            }
        }
        q += 1;
    }
    None
}

/// The rows that the first `n` jump targets name.
pub open spec fn jump_lines(
    section: CompilationModel,
    phase: PhaseModel,
    p: int,
    targets: Seq<(u32, Span)>,
    n: int,
) -> Seq<usize>
    decreases n,
{
    if n <= 0 {
        Seq::empty()
    } else {
        let before = jump_lines(section, phase, p, targets, n - 1);
        match bytecode_from(phase.infos, targets[n - 1].0, 0) {
            Some(i) => with_line(before, line_of(section, p, i)),
            None => before,
        }
    }
}

/// `list` with the lines that the first `n` operands refer to.
pub open spec fn with_wanted(
    list: Seq<usize>,
    section: CompilationModel,
    parsed: ParsedModel,
    p: int,
    operands: Seq<(u32, Span)>,
    slots: bool,
    n: int,
) -> Seq<usize>
    decreases n,
{
    if n <= 0 {
        list
    } else {
        let before = with_wanted(list, section, parsed, p, operands, slots, n - 1);
        let wanted = if slots {
            Wanted::Slot(operands[n - 1].0)
        } else {
            Wanted::Pool(operands[n - 1].0)
        };
        match wanted_line(section, parsed, p, wanted) {
            Some(line) => with_line(before, line),
            None => before,
        }
    }
}

/// The lines that the operands of a bytecode row refer to: jump targets, then
/// feedback slots, then entries of the constant pool.
pub open spec fn operand_lines(
    section: CompilationModel,
    parsed: ParsedModel,
    p: int,
    offset: u32,
) -> Seq<usize> {
    let phase = parsed.phases[p];
    match bytecode_from(phase.infos, offset, 0) {
        Some(i) => match phase.infos[i] {
            LineModel::Bytecode(bc) => {
                let jumps = jump_lines(section, phase, p, bc.targets, bc.targets.len() as int);
                let slots = with_wanted(
                    jumps,
                    section,
                    parsed,
                    p,
                    bc.fbv,
                    true,
                    bc.fbv.len() as int,
                );
                with_wanted(slots, section, parsed, p, bc.pool, false, bc.pool.len() as int)
            },
            _ => Seq::empty(),
        },
        None => Seq::empty(),
    }
}

fn list_jumps(
    section: &CompilationSection,
    phase: &ParsedPhase,
    p: usize,
    targets: &Vec<(u32, Span)>,
) -> (lines: Vec<usize>)
    requires
        p < section.phases@.len(),
        phase.infos@.len() == phase_size(section@.phases[p as int]),
    ensures
        lines@ == jump_lines(section@, phase@, p as int, targets@, targets@.len() as int),
{
    let mut lines: Vec<usize> = Vec::new();
    let mut n: usize = 0;
    while n < targets.len()
        invariant
            n <= targets@.len(),
            p < section.phases@.len(),
            phase.infos@.len() == phase_size(section@.phases[p as int]),
            lines@ == jump_lines(section@, phase@, p as int, targets@, n as int),
        decreases targets.len() - n,
    {
        if let Some(i) = find_bytecode(&phase.infos, targets[n].0) {
            push_line(&mut lines, line_at_place(section, p, i));
        }
        n += 1;
    }
    lines
}

fn add_wanted(
    lines: &mut Vec<usize>,
    section: &CompilationSection,
    parsed: &ParsedCompilation,
    p: usize,
    operands: &Vec<(u32, Span)>,
    slots: bool,
)
    requires
        mirrors(section@, parsed@),
        p < section.phases@.len(),
    ensures
        final(lines)@ == with_wanted(
            old(lines)@,
            section@,
            parsed@,
            p as int,
            operands@,
            slots,
            operands@.len() as int,
        ),
{
    let mut n: usize = 0;
    while n < operands.len()
        invariant
            n <= operands@.len(),
            mirrors(section@, parsed@),
            p < section.phases@.len(),
            lines@ == with_wanted(
                old(lines)@,
                section@,
                parsed@,
                p as int,
                operands@,
                slots,
                n as int,
            ),
        decreases operands.len() - n,
    {
        let wanted = if slots {
            Wanted::Slot(operands[n].0)
        } else {
            Wanted::Pool(operands[n].0)
        };
        if let Some(line) = find_in_phases(section, parsed, p, wanted) {
            push_line(lines, line);
        }
        n += 1;
    }
}

/// The lines that the operands of a bytecode row refer to.
pub(crate) fn bytecode_ref_targets(
    section: &CompilationSection,
    parsed: &ParsedCompilation,
    p: usize,
    offset: u32,
) -> (lines: Vec<usize>)
    requires
        mirrors(section@, parsed@),
        p < section.phases@.len(),
    ensures
        lines@ == operand_lines(section@, parsed@, p as int, offset),
{
    assert(parsed@.phases.len() == parsed.phases@.len());
    assert(parsed@.phases[p as int] == parsed.phases@[p as int]@);
    let phase = &parsed.phases[p];
    match find_bytecode(&phase.infos, offset) {
        Some(i) => {
            assert(phase@.infos[i as int] == phase.infos@[i as int]@);
            match &phase.infos[i] {
                LineInfo::Bytecode(bc) => {
                    let mut lines = list_jumps(section, phase, p, &bc.targets);
                    add_wanted(&mut lines, section, parsed, p, &bc.fbv, true);
                    add_wanted(&mut lines, section, parsed, p, &bc.pool, false);
                    lines
                },
                _ => Vec::new(),
            }
        },
        None => Vec::new(),
    }
}

// ---------------------------------------------------------------------------
// Disassembly
// ---------------------------------------------------------------------------

/// The first row of disassembly at or after place `i` with an offset.
pub open spec fn insn_from(infos: Seq<LineModel>, offset: u32, i: int) -> Option<int>
    decreases infos.len() - i,
{
    if i < 0 || i >= infos.len() {
        None
    } else if infos[i] matches LineModel::Disasm { offset: o, .. } && o == offset {
        Some(i)
    } else {
        insn_from(infos, offset, i + 1)
    }
}

pub(crate) fn find_insn(infos: &Vec<LineInfo>, offset: u32) -> (at: Option<usize>)
    ensures
        text::pos(at) == insn_from(line_models(infos@), offset, 0),
        at matches Some(i) ==> i < infos@.len() && infos@[i as int] is Disasm,
{
    let ghost all = line_models(infos@);
    let mut i: usize = 0;
    while i < infos.len()
        invariant
            i <= infos@.len(),
            all == line_models(infos@),
            insn_from(all, offset, 0) == insn_from(all, offset, i as int),
        decreases infos.len() - i,
    {
        assert(all[i as int] == infos@[i as int]@);
        if let LineInfo::Disasm { offset: o, .. } = &infos[i] {
            if *o == offset {
                return Some(i);
            }
        }
        i += 1;
    }
    None
}

/// A row of disassembly is a branch destination, by offset or by address.
pub open spec fn is_destination(info: LineModel, offset: Option<u32>, addr: Option<u64>) -> bool {
    match info {
        LineModel::Disasm { offset: o, addr: a, .. } => offset == Some(o) || addr == Some(a),
        _ => false,
    }
}

/// The first destination at or after place `i`.
pub open spec fn destination_from(
    infos: Seq<LineModel>,
    offset: Option<u32>,
    addr: Option<u64>,
    i: int,
) -> Option<int>
    decreases infos.len() - i,
{
    if i < 0 || i >= infos.len() {
        None
    } else if is_destination(infos[i], offset, addr) {
        Some(i)
    } else {
        destination_from(infos, offset, addr, i + 1)
    }
}

fn same_offset(a: Option<u32>, b: u32) -> (yes: bool)
    ensures
        yes == (a == Some(b)),
{
    match a {
        Some(x) => x == b,
        None => false,
    }
}

fn same_addr(a: Option<u64>, b: u64) -> (yes: bool)
    ensures
        yes == (a == Some(b)),
{
    match a {
        Some(x) => x == b,
        None => false,
    }
}

pub(crate) fn find_destination(
    infos: &Vec<LineInfo>,
    offset: Option<u32>,
    addr: Option<u64>,
) -> (at: Option<usize>)
    ensures
        text::pos(at) == destination_from(line_models(infos@), offset, addr, 0),
        at matches Some(i) ==> i < infos@.len(),
{
    let ghost all = line_models(infos@);
    let mut i: usize = 0;
    while i < infos.len()
        invariant
            i <= infos@.len(),
            all == line_models(infos@),
            destination_from(all, offset, addr, 0) == destination_from(
                all,
                offset,
                addr,
                i as int,
            ),
        decreases infos.len() - i,
    {
        assert(all[i as int] == infos@[i as int]@);
        if let LineInfo::Disasm { offset: o, addr: a, .. } = &infos[i] {
            if same_offset(offset, *o) || same_addr(addr, *a) {
                return Some(i);
            }
        }
        i += 1;
    }
    None
}

/// The address of the first row of disassembly with an offset.
pub open spec fn insn_addr(infos: Seq<LineModel>, offset: u32) -> Option<u64> {
    match insn_from(infos, offset, 0) {
        Some(i) => match infos[i] {
            LineModel::Disasm { addr, .. } => Some(addr),
            _ => None,
        },
        None => None,
    }
}

// ---------------------------------------------------------------------------
// Consumers
// ---------------------------------------------------------------------------

/// A list of references holds `x`.
pub open spec fn has_ref(list: Seq<(u32, Span)>, x: u32) -> bool {
    exists|k: int| 0 <= k < list.len() && (#[trigger] list[k]).0 == x
}

fn holds_ref(list: &Vec<(u32, Span)>, x: u32) -> (yes: bool)
    ensures
        yes == has_ref(list@, x),
{
    let mut k: usize = 0;
    while k < list.len()
        invariant
            k <= list@.len(),
            forall|m: int| 0 <= m < k ==> (#[trigger] list@[m]).0 != x,
        decreases list.len() - k,
    {
        if list[k].0 == x {
            return true;
        }
        k += 1;
    }
    false
}

/// A list of block references holds `b`.
pub open spec fn has_block(list: Seq<BlockRef>, b: BlockId) -> bool {
    exists|k: int| 0 <= k < list.len() && (#[trigger] list[k]).block == b
}

fn holds_block(list: &Vec<BlockRef>, b: BlockId) -> (yes: bool)
    ensures
        yes == has_block(list@, b),
{
    let mut k: usize = 0;
    while k < list.len()
        invariant
            k <= list@.len(),
            forall|m: int| 0 <= m < k ==> (#[trigger] list@[m]).block != b,
        decreases list.len() - k,
    {
        if list[k].block == b {
            return true;
        }
        k += 1;
    }
    false
}

/// A line refers to an anchor. For a row of disassembly `own` is its address.
pub open spec fn consumes(info: LineModel, anchor: Anchor, own: Option<u64>) -> bool {
    match (anchor, info) {
        (Anchor::Offset(o), LineModel::Bytecode(bc)) => has_ref(bc.targets, o),
        (Anchor::Slot(s), LineModel::Bytecode(bc)) => has_ref(bc.fbv, s),
        (Anchor::Pool(c), LineModel::Bytecode(bc)) => has_ref(bc.pool, c),
        (Anchor::Block(b), LineModel::Node(node)) => has_block(node.targets, b),
        (Anchor::Insn(o), LineModel::Disasm { target_offset, target_addr, .. }) => target_offset
            == Some(o) || (own is Some && target_addr == own),
        _ => false,
    }
}

fn is_consumer(info: &LineInfo, anchor: Anchor, own: Option<u64>) -> (yes: bool)
    ensures
        yes == consumes(info@, anchor, own),
{
    match (anchor, info) {
        (Anchor::Offset(o), LineInfo::Bytecode(bc)) => holds_ref(&bc.targets, o),
        (Anchor::Slot(s), LineInfo::Bytecode(bc)) => holds_ref(&bc.fbv, s),
        (Anchor::Pool(c), LineInfo::Bytecode(bc)) => holds_ref(&bc.pool, c),
        (Anchor::Block(b), LineInfo::Node(node)) => holds_block(&node.targets, b),
        (Anchor::Insn(o), LineInfo::Disasm { target_offset, target_addr, .. }) => same_offset(
            *target_offset,
            o,
        ) || match own {
            Some(a) => same_addr(*target_addr, a),
            None => false,
        },
        _ => false,
    }
}

/// The lines among the first `n` of a phase that refer to an anchor.
pub open spec fn consuming(
    section: CompilationModel,
    infos: Seq<LineModel>,
    p: int,
    anchor: Anchor,
    own: Option<u64>,
    n: int,
) -> Seq<usize>
    decreases n,
{
    if n <= 0 {
        Seq::empty()
    } else {
        let before = consuming(section, infos, p, anchor, own, n - 1);
        if consumes(infos[n - 1], anchor, own) {
            before.push(line_of(section, p, n - 1))
        } else {
            before
        }
    }
}

/// The lines of the first `n` uses of a node.
pub open spec fn user_lines(
    section: CompilationModel,
    phase: PhaseModel,
    p: int,
    users: Seq<u32>,
    n: int,
) -> Seq<usize>
    decreases n,
{
    if n <= 0 {
        Seq::empty()
    } else {
        let before = user_lines(section, phase, p, users, n - 1);
        if users[n - 1] < phase.infos.len() {
            before.push(line_of(section, p, users[n - 1] as int))
        } else {
            before
        }
    }
}

/// The lines of a phase that refer to an anchor.
pub open spec fn consumer_lines(
    section: CompilationModel,
    phase: PhaseModel,
    p: int,
    anchor: Anchor,
) -> Seq<usize> {
    match anchor {
        Anchor::Node(id) => if phase.users.dom().contains(id) {
            user_lines(section, phase, p, phase.users[id], phase.users[id].len() as int)
        } else {
            Seq::empty()
        },
        Anchor::Insn(o) => consuming(
            section,
            phase.infos,
            p,
            anchor,
            insn_addr(phase.infos, o),
            phase.infos.len() as int,
        ),
        _ => consuming(section, phase.infos, p, anchor, None, phase.infos.len() as int),
    }
}

fn list_users(
    section: &CompilationSection,
    phase: &ParsedPhase,
    p: usize,
    users: &Vec<u32>,
) -> (lines: Vec<usize>)
    requires
        p < section.phases@.len(),
        phase.infos@.len() == phase_size(section@.phases[p as int]),
    ensures
        lines@ == user_lines(section@, phase@, p as int, users@, users@.len() as int),
{
    let mut lines: Vec<usize> = Vec::new();
    let mut n: usize = 0;
    while n < users.len()
        invariant
            n <= users@.len(),
            p < section.phases@.len(),
            phase.infos@.len() == phase_size(section@.phases[p as int]),
            phase@.infos.len() == phase.infos@.len(),
            lines@ == user_lines(section@, phase@, p as int, users@, n as int),
        decreases users.len() - n,
    {
        let i: usize = users[n] as usize;
        if i < phase.infos.len() {
            lines.push(line_at_place(section, p, i));
        }
        n += 1;
    }
    lines
}

fn list_consuming(
    section: &CompilationSection,
    infos: &Vec<LineInfo>,
    p: usize,
    anchor: Anchor,
    own: Option<u64>,
) -> (lines: Vec<usize>)
    requires
        p < section.phases@.len(),
        infos@.len() == phase_size(section@.phases[p as int]),
    ensures
        lines@ == consuming(
            section@,
            line_models(infos@),
            p as int,
            anchor,
            own,
            infos@.len() as int,
        ),
{
    let ghost all = line_models(infos@);
    let mut lines: Vec<usize> = Vec::new();
    let mut n: usize = 0;
    while n < infos.len()
        invariant
            n <= infos@.len(),
            p < section.phases@.len(),
            infos@.len() == phase_size(section@.phases[p as int]),
            all == line_models(infos@),
            lines@ == consuming(section@, all, p as int, anchor, own, n as int),
        decreases infos.len() - n,
    {
        assert(all[n as int] == infos@[n as int]@);
        if is_consumer(&infos[n], anchor, own) {
            lines.push(line_at_place(section, p, n));
        }
        n += 1;
    }
    lines
}

/// The lines of a phase that refer to an anchor.
pub(crate) fn list_consumers(
    section: &CompilationSection,
    phase: &ParsedPhase,
    p: usize,
    anchor: Anchor,
) -> (lines: Vec<usize>)
    requires
        p < section.phases@.len(),
        phase.infos@.len() == phase_size(section@.phases[p as int]),
    ensures
        lines@ == consumer_lines(section@, phase@, p as int, anchor),
{
    broadcast use vstd::std_specs::hash::group_hash_axioms;

    match anchor {
        Anchor::Node(id) => match phase.users.get(&id) {
            Some(users) => {
                assert(phase@.users[id] == users@);
                list_users(section, phase, p, users)
            },
            None => Vec::new(),
        },
        Anchor::Insn(o) => {
            let own: Option<u64> = match find_insn(&phase.infos, o) {
                Some(i) => {
                    assert(phase@.infos[i as int] == phase.infos@[i as int]@);
                    match &phase.infos[i] {
                        LineInfo::Disasm { addr, .. } => Some(*addr),
                        _ => None,
                    }
                },
                None => None,
            };
            list_consuming(section, &phase.infos, p, anchor, own)
        },
        _ => list_consuming(section, &phase.infos, p, anchor, None),
    }
}

} // verus!
