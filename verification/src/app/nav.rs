//! Jumps along the references of a row, and from block to block.
//!
//! A key that is pressed again goes to the next target of the row that the
//! first jump left, not of the row that it landed on.

use vstd::prelude::*;
#[allow(unused_imports)]
use vstd::string::*;

use super::jumps::push_counted;
use super::refs::{
    bytecode_ref_targets, find_destination, find_insn, find_node, line_at_place, list_consumers,
    list_inputs, list_targets,
};
#[allow(unused_imports)]
use super::refs::{
    consumer_lines, def_node, destination_from, input_lines, insn_from, line_of, operand_lines,
    target_lines,
};
#[allow(unused_imports)]
use super::timeline::mirrors;
use super::views::info_at_row;
#[allow(unused_imports)]
use super::views::info_shown;
use super::{Anchor, App, Cycle, Leg, Pane};
#[allow(unused_imports)]
use super::{AppModel, CycleModel};
use crate::model::{
    CompilationSection, LineInfo, ParsedCompilation, ParsedPhase, SCHEDULE_ONLY,
};
#[allow(unused_imports)]
use crate::model::{CompilationModel, LineModel, NodeModel, ParsedModel, PhaseModel};
#[allow(unused_imports)]
use crate::parse::compilation::law_phases_mirror_the_index;
use crate::text;
#[allow(unused_imports)]
use crate::text::{decimal, written};
#[allow(unused_imports)]
use crate::view::ViewContents;
use crate::view::{RowKind, ViewModel};

verus! {

// ---------------------------------------------------------------------------
// Names
// ---------------------------------------------------------------------------

/// How an anchor is named.
pub open spec fn anchor_text(anchor: Anchor) -> Seq<char> {
    match anchor {
        Anchor::Node(n) => "n"@ + decimal(n as int),
        Anchor::Offset(o) => "@"@ + decimal(o as int),
        Anchor::Slot(s) => "FBV["@ + decimal(s as int) + "]"@,
        Anchor::Pool(c) => "pool["@ + decimal(c as int) + "]"@,
        Anchor::Block(b) => "b"@ + decimal(b as int),
        Anchor::Line(l) => "L"@ + decimal(l + 1),
        Anchor::Insn(o) => "+0x"@ + written(o as nat, 16),
    }
}

/// How the jumps of a cycle are named.
pub open spec fn leg_text(leg: Leg) -> Seq<char> {
    match leg {
        Leg::Input => "input"@,
        Leg::Reference => "ref"@,
        Leg::Target => "target"@,
        Leg::Consumer => "consumer"@,
        Leg::Predecessor => "predecessor"@,
        Leg::AlignedRow => "aligned row"@,
    }
}

impl Anchor {
    /// The name of the anchor.
    pub fn name(self) -> (out: String)
        ensures
            out@ == anchor_text(self),
    {
        match self {
            Anchor::Node(n) => {
                let mut out = text::owned("n");
                text::push_decimal(&mut out, n as usize);
                out
            },
            Anchor::Offset(o) => {
                let mut out = text::owned("@");
                text::push_decimal(&mut out, o as usize);
                out
            },
            Anchor::Slot(s) => {
                let mut out = text::owned("FBV[");
                text::push_decimal(&mut out, s as usize);
                out.append("]");
                out
            },
            Anchor::Pool(c) => {
                let mut out = text::owned("pool[");
                text::push_decimal(&mut out, c as usize);
                out.append("]");
                out
            },
            Anchor::Block(b) => {
                let mut out = text::owned("b");
                text::push_decimal(&mut out, b as usize);
                out
            },
            Anchor::Line(l) => {
                let mut out = text::owned("L");
                push_counted(&mut out, l);
                out
            },
            Anchor::Insn(o) => {
                let mut out = text::owned("+0x");
                text::push_number(&mut out, o as u64, 16);
                out
            },
        }
    }
}

impl Leg {
    /// The name of the jumps.
    pub fn name(self) -> (out: &'static str)
        ensures
            out@ == leg_text(self),
    {
        match self {
            Leg::Input => "input",
            Leg::Reference => "ref",
            Leg::Target => "target",
            Leg::Consumer => "consumer",
            Leg::Predecessor => "predecessor",
            Leg::AlignedRow => "aligned row",
        }
    }
}

// ---------------------------------------------------------------------------
// What a key does
// ---------------------------------------------------------------------------

/// What a key that jumps does.
pub enum Step {
    Stay,
    Say(String),
    Go { anchor: Anchor, what: Leg, targets: Vec<usize> },
}

/// The view of a `Step`.
#[verifier::ext_equal]
pub enum StepModel {
    Stay,
    Say(Seq<char>),
    Go { anchor: Anchor, what: Leg, targets: Seq<usize> },
}

impl View for Step {
    type V = StepModel;

    open spec fn view(&self) -> StepModel {
        match self {
            Step::Stay => StepModel::Stay,
            Step::Say(m) => StepModel::Say(m@),
            Step::Go { anchor, what, targets } => StepModel::Go {
                anchor: *anchor,
                what: *what,
                targets: targets@,
            },
        }
    }
}

/// A message that begins with the name of an anchor.
pub open spec fn of_anchor(anchor: Anchor, rest: Seq<char>) -> StepModel {
    StepModel::Say(anchor_text(anchor) + rest)
}

fn say_of(anchor: Anchor, rest: &str) -> (step: Step)
    ensures
        step@ == of_anchor(anchor, rest@),
{
    let mut out = anchor.name();
    out.append(rest);
    Step::Say(out)
}

/// What a row can be an anchor as: a node, or what names it in a listing.
pub open spec fn anchor_at(vm: ViewContents, at: int) -> Option<Anchor> {
    match info_shown(vm, at) {
        Some((_, _, LineModel::Node(node))) => if node.id != SCHEDULE_ONLY {
            Some(Anchor::Node(node.id))
        } else {
            None
        },
        Some((_, _, LineModel::Bytecode(bc))) => Some(Anchor::Offset(bc.offset)),
        Some((_, _, LineModel::FeedbackSlot { index, .. })) => Some(Anchor::Slot(index)),
        Some((_, _, LineModel::PoolEntry { index, .. })) => Some(Anchor::Pool(index)),
        Some((_, _, LineModel::BlockHeader { block })) => Some(Anchor::Block(block)),
        Some((_, _, LineModel::Disasm { offset, .. })) => Some(Anchor::Insn(offset)),
        _ => None,
    }
}

/// The anchor that a row can be.
pub fn cursor_anchor(vm: &ViewModel, at: usize) -> (anchor: Option<Anchor>)
    ensures
        anchor == anchor_at(vm@, at as int),
{
    match info_at_row(vm, at) {
        Some((_, _, info)) => match info {
            LineInfo::Node(node) => if node.id != SCHEDULE_ONLY {
                Some(Anchor::Node(node.id))
            } else {
                None
            },
            LineInfo::Bytecode(bc) => Some(Anchor::Offset(bc.offset)),
            LineInfo::FeedbackSlot { index, .. } => Some(Anchor::Slot(*index)),
            LineInfo::PoolEntry { index, .. } => Some(Anchor::Pool(*index)),
            LineInfo::BlockHeader { block } => Some(Anchor::Block(*block)),
            LineInfo::Disasm { offset, .. } => Some(Anchor::Insn(*offset)),
            _ => None,
        },
        None => None,
    }
}

/// Where the inputs of an anchor in phase `p` are.
pub open spec fn input_step(
    section: CompilationModel,
    parsed: ParsedModel,
    p: int,
    anchor: Anchor,
) -> StepModel {
    let phase = parsed.phases[p];
    match anchor {
        Anchor::Node(id) => match def_node(phase, id) {
            None => of_anchor(anchor, " is not defined in this phase"@),
            Some(node) => {
                let targets = input_lines(section, phase, p, node.inputs, node.inputs.len() as int);
                if targets.len() == 0 {
                    of_anchor(anchor, " has no inputs defined in this phase"@)
                } else {
                    StepModel::Go { anchor, what: Leg::Input, targets }
                }
            },
        },
        Anchor::Offset(offset) => {
            let targets = operand_lines(section, parsed, p, offset);
            if targets.len() == 0 {
                of_anchor(anchor, " has no resolvable refs here"@)
            } else {
                StepModel::Go { anchor, what: Leg::Reference, targets }
            }
        },
        Anchor::Block(_) => of_anchor(anchor, " has no inputs — u cycles its predecessors"@),
        Anchor::Insn(o) => branch_step(section, phase, p, anchor, o),
        Anchor::Slot(_) | Anchor::Pool(_) | Anchor::Line(_) => of_anchor(
            anchor,
            " has no inputs — u cycles its uses"@,
        ),
    }
}

/// Where the branch of a row of disassembly goes.
pub open spec fn branch_step(
    section: CompilationModel,
    phase: PhaseModel,
    p: int,
    anchor: Anchor,
    o: u32,
) -> StepModel {
    match insn_from(phase.infos, o, 0) {
        None => of_anchor(anchor, ": no such row in this phase"@),
        Some(i) => match phase.infos[i] {
            LineModel::Disasm { target_offset, target_addr, .. } => if target_offset is None
                && target_addr is None {
                of_anchor(anchor, " has no branch target — u cycles its sources"@)
            } else {
                match destination_from(phase.infos, target_offset, target_addr, 0) {
                    None => of_anchor(anchor, ": target is outside this listing"@),
                    Some(d) => StepModel::Go {
                        anchor,
                        what: Leg::Target,
                        targets: seq![line_of(section, p, d)],
                    },
                }
            },
            _ => of_anchor(anchor, ": no such row in this phase"@),
        },
    }
}

fn decide_branch(
    section: &CompilationSection,
    phase: &ParsedPhase,
    p: usize,
    anchor: Anchor,
    o: u32,
) -> (step: Step)
    requires
        p < section.phases@.len(),
        phase.infos@.len() == crate::parse::compilation::phase_size(section@.phases[p as int]),
    ensures
        step@ == branch_step(section@, phase@, p as int, anchor, o),
{
    let i: usize = match find_insn(&phase.infos, o) {
        Some(i) => i,
        None => {
            return say_of(anchor, ": no such row in this phase");
        },
    };
    assert(phase@.infos[i as int] == phase.infos@[i as int]@);
    match &phase.infos[i] {
        LineInfo::Disasm { target_offset, target_addr, .. } => {
            if target_offset.is_none() && target_addr.is_none() {
                return say_of(anchor, " has no branch target — u cycles its sources");
            }
            match find_destination(&phase.infos, *target_offset, *target_addr) {
                Some(d) => {
                    let mut targets: Vec<usize> = Vec::new();
                    targets.push(line_at_place(section, p, d));
                    assert(targets@ =~= seq![line_of(section@, p as int, d as int)]);
                    Step::Go { anchor, what: Leg::Target, targets }
                },
                None => say_of(anchor, ": target is outside this listing"),
            }
        },
        _ => say_of(anchor, ": no such row in this phase"),
    }
}

fn decide_input(
    section: &CompilationSection,
    parsed: &ParsedCompilation,
    p: usize,
    anchor: Anchor,
) -> (step: Step)
    requires
        mirrors(section@, parsed@),
        p < section.phases@.len(),
    ensures
        step@ == input_step(section@, parsed@, p as int, anchor),
{
    assert(parsed@.phases.len() == parsed.phases@.len());
    assert(parsed@.phases[p as int] == parsed.phases@[p as int]@);
    let phase = &parsed.phases[p];
    match anchor {
        Anchor::Node(id) => match find_node(phase, id) {
            Some(node) => {
                let targets = list_inputs(section, phase, p, &node.inputs);
                if targets.len() == 0 {
                    say_of(anchor, " has no inputs defined in this phase")
                } else {
                    Step::Go { anchor, what: Leg::Input, targets }
                }
            },
            None => say_of(anchor, " is not defined in this phase"),
        },
        Anchor::Offset(offset) => {
            let targets = bytecode_ref_targets(section, parsed, p, offset);
            if targets.len() == 0 {
                say_of(anchor, " has no resolvable refs here")
            } else {
                Step::Go { anchor, what: Leg::Reference, targets }
            }
        },
        Anchor::Block(_) => say_of(anchor, " has no inputs — u cycles its predecessors"),
        Anchor::Insn(o) => decide_branch(section, phase, p, anchor, o),
        Anchor::Slot(_) | Anchor::Pool(_) | Anchor::Line(_) => say_of(
            anchor,
            " has no inputs — u cycles its uses",
        ),
    }
}

/// How the lines that refer to an anchor are called.
pub open spec fn consumer_leg(anchor: Anchor) -> Leg {
    if anchor is Block {
        Leg::Predecessor
    } else {
        Leg::Consumer
    }
}

/// Where the lines that refer to an anchor are.
pub open spec fn consumer_step(
    section: CompilationModel,
    phase: PhaseModel,
    p: int,
    anchor: Anchor,
) -> StepModel {
    let targets = consumer_lines(section, phase, p, anchor);
    let what = consumer_leg(anchor);
    if targets.len() == 0 {
        StepModel::Say(anchor_text(anchor) + " has no "@ + leg_text(what) + "s in this phase"@)
    } else {
        StepModel::Go { anchor, what, targets }
    }
}

fn decide_consumer(
    section: &CompilationSection,
    phase: &ParsedPhase,
    p: usize,
    anchor: Anchor,
) -> (step: Step)
    requires
        p < section.phases@.len(),
        phase.infos@.len() == crate::parse::compilation::phase_size(section@.phases[p as int]),
    ensures
        step@ == consumer_step(section@, phase@, p as int, anchor),
{
    let targets = list_consumers(section, phase, p, anchor);
    let what = match anchor {
        Anchor::Block(_) => Leg::Predecessor,
        _ => Leg::Consumer,
    };
    if targets.len() == 0 {
        let mut out = anchor.name();
        out.append(" has no ");
        out.append(what.name());
        out.append("s in this phase");
        Step::Say(out)
    } else {
        Step::Go { anchor, what, targets }
    }
}

/// The node that a branch anchor of phase `p` stands for.
pub open spec fn branch_node(
    section: CompilationModel,
    phase: PhaseModel,
    p: int,
    anchor: Anchor,
) -> Option<NodeModel> {
    match anchor {
        Anchor::Node(id) => def_node(phase, id),
        Anchor::Line(line) => {
            let i = line - section.phases[p].start;
            if 0 <= i < phase.infos.len() {
                match phase.infos[i] {
                    LineModel::Node(node) => Some(node),
                    _ => None,
                }
            } else {
                None
            }
        },
        _ => None,
    }
}

/// Where the blocks are that an anchor branches to.
pub open spec fn block_step(
    section: CompilationModel,
    phase: PhaseModel,
    p: int,
    anchor: Anchor,
) -> StepModel {
    match branch_node(section, phase, p, anchor) {
        None => StepModel::Say("no block refs under cursor"@),
        Some(node) => {
            let targets = target_lines(section, phase, p, node.targets, node.targets.len() as int);
            if targets.len() > 0 {
                StepModel::Go { anchor, what: Leg::Target, targets }
            } else if node.targets.len() == 0 {
                StepModel::Say("no block refs under cursor"@)
            } else {
                of_anchor(anchor, ": target block has no header in this phase"@)
            }
        },
    }
}

fn decide_block(
    section: &CompilationSection,
    phase: &ParsedPhase,
    p: usize,
    anchor: Anchor,
) -> (step: Step)
    requires
        p < section.phases@.len(),
        phase.infos@.len() == crate::parse::compilation::phase_size(section@.phases[p as int]),
    ensures
        step@ == block_step(section@, phase@, p as int, anchor),
{
    assert(section@.phases[p as int] == section.phases@[p as int]@);
    let start: usize = section.phases[p].lines.start;
    let found = match anchor {
        Anchor::Node(id) => find_node(phase, id),
        Anchor::Line(line) => if line >= start && line - start < phase.infos.len() {
            assert(phase@.infos[line - start] == phase.infos@[line - start]@);
            match &phase.infos[line - start] {
                LineInfo::Node(node) => Some(node),
                _ => None,
            }
        } else {
            None
        },
        _ => None,
    };
    match found {
        None => Step::Say(text::owned("no block refs under cursor")),
        Some(node) => {
            let targets = list_targets(section, phase, p, &node.targets);
            if targets.len() > 0 {
                Step::Go { anchor, what: Leg::Target, targets }
            } else if node.targets.len() == 0 {
                Step::Say(text::owned("no block refs under cursor"))
            } else {
                say_of(anchor, ": target block has no header in this phase")
            }
        },
    }
}

// ---------------------------------------------------------------------------
// The state
// ---------------------------------------------------------------------------

/// The label of the block that a row begins.
pub open spec fn block_label(vm: ViewContents, at: int) -> Option<Seq<char>> {
    if !(0 <= at < vm.rows_len()) {
        None
    } else {
        match vm.row_at(at).kind {
            RowKind::BlockFold { block, .. } => Some(anchor_text(Anchor::Block(block))),
            _ => match info_shown(vm, at) {
                Some((_, _, LineModel::BlockHeader { block })) => Some(
                    anchor_text(Anchor::Block(block)),
                ),
                Some((_, _, LineModel::Disasm { offset, labeled, .. })) => if labeled {
                    Some(anchor_text(Anchor::Insn(offset)))
                } else {
                    None
                },
                _ => None,
            },
        }
    }
}

/// The first row after `at` that begins a block.
pub open spec fn block_after(vm: ViewContents, at: int) -> Option<int>
    decreases vm.rows_len() - at,
{
    if at + 1 >= vm.rows_len() {
        None
    } else if block_label(vm, at + 1) is Some {
        Some(at + 1)
    } else {
        block_after(vm, at + 1)
    }
}

/// The last row before `at` that begins a block. A row behind the last has
/// none.
pub open spec fn block_before(vm: ViewContents, at: int) -> Option<int>
    decreases at,
{
    if at <= 0 || at > vm.rows_len() {
        None
    } else if block_label(vm, at - 1) is Some {
        Some(at - 1)
    } else {
        block_before(vm, at - 1)
    }
}

/// The row in one direction that begins a block.
pub open spec fn block_found(vm: ViewContents, at: int, forward: bool) -> Option<int> {
    if forward {
        block_after(vm, at)
    } else {
        block_before(vm, at)
    }
}

fn label_at(vm: &ViewModel, at: usize) -> (label: Option<String>)
    ensures
        match label {
            Some(s) => block_label(vm@, at as int) == Some(s@),
            None => block_label(vm@, at as int) is None,
        },
{
    match vm.row(at) {
        Some(row) => match row.kind {
            RowKind::BlockFold { block, .. } => Some(Anchor::Block(block).name()),
            _ => match info_at_row(vm, at) {
                Some((_, _, LineInfo::BlockHeader { block })) => Some(Anchor::Block(*block).name()),
                Some((_, _, LineInfo::Disasm { offset, labeled, .. })) => if *labeled {
                    Some(Anchor::Insn(*offset).name())
                } else {
                    None
                },
                _ => None,
            },
        },
        None => None,
    }
}

fn find_block_row(vm: &ViewModel, at: usize, forward: bool) -> (found: Option<(usize, String)>)
    ensures
        match found {
            Some((row, label)) => block_found(vm@, at as int, forward) == Some(row as int)
                && block_label(vm@, row as int) == Some(label@),
            None => block_found(vm@, at as int, forward) is None,
        },
{
    let n: usize = vm.len();
    let mut k: usize = at;
    if forward {
        while k < n && k + 1 < n
            invariant
                forward,
                n == vm@.rows_len(),
                block_after(vm@, at as int) == block_after(vm@, k as int),
            decreases n - k,
        {
            if let Some(label) = label_at(vm, k + 1) {
                return Some((k + 1, label));
            }
            k += 1;
        }
    } else {
        while k > 0 && k <= n
            invariant
                !forward,
                n == vm@.rows_len(),
                block_before(vm@, at as int) == block_before(vm@, k as int),
            decreases k,
        {
            if let Some(label) = label_at(vm, k - 1) {
                return Some((k - 1, label));
            }
            k -= 1;
        }
    }
    None
}

impl AppModel {
    /// The jump that comes next: the one behind the last jump of the same
    /// cycle, or else the first.
    pub open spec fn next_leg(self, anchor: Anchor, targets: Seq<usize>) -> int {
        match self.cycle {
            Some(c) => if c.anchor == anchor && c.targets == targets {
                (c.at + 1) % (targets.len() as int)
            } else {
                0
            },
            None => 0,
        }
    }

    /// The cursor goes to the next target of a cycle.
    pub open spec fn cycled(self, anchor: Anchor, what: Leg, targets: Seq<usize>) -> AppModel {
        let at = self.next_leg(anchor, targets);
        self.history_pushed().gone_to(targets[at] as int).with_cycle(
            Some(CycleModel { anchor, what, targets, at: at as usize }),
        ).say(
            anchor_text(anchor) + " "@ + leg_text(what) + " "@ + decimal(at + 1) + "/"@ + decimal(
                targets.len() as int,
            ),
        )
    }

    /// What a key that jumps does.
    pub open spec fn stepped(self, step: StepModel) -> AppModel {
        match step {
            StepModel::Stay => self,
            StepModel::Say(message) => self.say(message),
            StepModel::Go { anchor, what, targets } => self.cycled(anchor, what, targets),
        }
    }

    /// The anchor of the inputs that are gone through.
    pub open spec fn input_anchor(self) -> Option<Anchor> {
        match self.cycle {
            Some(c) => if (c.what == Leg::Input || c.what == Leg::Reference) && !(c.anchor is Insn) {
                Some(c.anchor)
            } else {
                anchor_at(self.shown(), self.cursor as int)
            },
            None => anchor_at(self.shown(), self.cursor as int),
        }
    }

    /// The anchor of the consumers that are gone through.
    pub open spec fn consumer_anchor(self) -> Option<Anchor> {
        match self.cycle {
            Some(c) => if c.what == Leg::Consumer || c.what == Leg::Predecessor {
                Some(c.anchor)
            } else {
                anchor_at(self.shown(), self.cursor as int)
            },
            None => anchor_at(self.shown(), self.cursor as int),
        }
    }

    /// The anchor of the branch that is followed.
    pub open spec fn branch_anchor(self) -> Option<Anchor> {
        match self.cycle {
            Some(c) => if c.what == Leg::Target && (c.anchor is Node || c.anchor is Line) {
                Some(c.anchor)
            } else {
                self.branch_under_cursor()
            },
            None => self.branch_under_cursor(),
        }
    }

    /// The node under the cursor as the anchor of a branch.
    pub open spec fn branch_under_cursor(self) -> Option<Anchor> {
        match info_shown(self.shown(), self.cursor as int) {
            Some((_, _, LineModel::Node(node))) => Some(
                if node.id != SCHEDULE_ONLY {
                    Anchor::Node(node.id)
                } else {
                    Anchor::Line(self.shown().row_at(self.cursor as int).line)
                },
            ),
            _ => None,
        }
    }

    /// What the key for inputs does.
    pub open spec fn input_choice(self) -> StepModel {
        match (self.shown(), info_shown(self.shown(), self.cursor as int)) {
            (ViewContents::Modeled { parsed, comp, .. }, Some((p, _, _))) =>
                match self.input_anchor() {
                    None => StepModel::Say("no node under cursor"@),
                    Some(anchor) => input_step(self.compilations()[comp], parsed, p as int, anchor),
                },
            _ => StepModel::Stay,
        }
    }

    /// What the key for consumers does.
    pub open spec fn consumer_choice(self) -> StepModel {
        match (self.shown(), info_shown(self.shown(), self.cursor as int)) {
            (ViewContents::Modeled { parsed, comp, .. }, Some((p, _, _))) =>
                match self.consumer_anchor() {
                    None => StepModel::Say("no node under cursor"@),
                    Some(anchor) => consumer_step(
                        self.compilations()[comp],
                        parsed.phases[p as int],
                        p as int,
                        anchor,
                    ),
                },
            _ => StepModel::Stay,
        }
    }

    /// What the key for branches does.
    pub open spec fn branch_choice(self) -> StepModel {
        if self.cursor >= self.shown().rows_len() {
            StepModel::Stay
        } else {
            match (self.shown(), info_shown(self.shown(), self.cursor as int)) {
                (ViewContents::Modeled { parsed, comp, .. }, Some((p, _, _))) =>
                    match self.branch_anchor() {
                        None => StepModel::Say("no block refs under cursor"@),
                        Some(anchor) => block_step(
                            self.compilations()[comp],
                            parsed.phases[p as int],
                            p as int,
                            anchor,
                        ),
                    },
                _ => StepModel::Say("no block refs under cursor"@),
            }
        }
    }

    /// The cursor goes to an input.
    #[verifier::opaque]
    pub open spec fn at_input(self) -> AppModel {
        if self.diff {
            self.say("node jumps are off in diff view (d to leave)"@)
        } else {
            self.stepped(self.input_choice())
        }
    }

    /// The cursor goes to a consumer.
    #[verifier::opaque]
    pub open spec fn at_consumer(self) -> AppModel {
        if self.diff {
            self.say("node jumps are off in diff view (d to leave)"@)
        } else {
            self.stepped(self.consumer_choice())
        }
    }

    /// The cursor follows a branch.
    #[verifier::opaque]
    pub open spec fn at_target(self) -> AppModel {
        if self.diff {
            self.say("node jumps are off in diff view (d to leave)"@)
        } else {
            self.stepped(self.branch_choice())
        }
    }

    /// The cursor goes to the next or the previous block.
    #[verifier::opaque]
    pub open spec fn block_stepped(self, forward: bool) -> AppModel {
        let vm = self.shown();
        if self.diff {
            self.say("block navigation is off in diff view (d to leave)"@)
        } else {
            match block_found(vm, self.cursor as int, forward) {
                Some(row) => self.with_cursor(row as usize).with_focus(Pane::Viewport).with_follow(
                    false,
                ).with_cycle(None).say(block_label(vm, row)->0),
                None => self.say(
                    if forward {
                        "no next block"@
                    } else {
                        "no previous block"@
                    },
                ),
            }
        }
    }
}

fn same_lines(a: &Vec<usize>, b: &Vec<usize>) -> (yes: bool)
    ensures
        yes == (a@ == b@),
{
    if a.len() != b.len() {
        return false;
    }
    let mut k: usize = 0;
    while k < a.len()
        invariant
            k <= a@.len(),
            a@.len() == b@.len(),
            forall|m: int| 0 <= m < k ==> a@[m] == b@[m],
        decreases a.len() - k,
    {
        if a[k] != b[k] {
            return false;
        }
        k += 1;
    }
    assert(a@ =~= b@);
    true
}

impl App {
    fn find_next_leg(&self, anchor: Anchor, targets: &Vec<usize>) -> (at: usize)
        requires
            targets@.len() > 0,
        ensures
            at == self@.next_leg(anchor, targets@),
            at < targets@.len(),
    {
        proof {
            self.lemma_fields();
        }
        match &self.cycle {
            Some(c) => if c.anchor == anchor && same_lines(&c.targets, targets) {
                assert(targets@.len() == targets.len());
                let next: u128 = (c.at as u128 + 1) % (targets.len() as u128);
                next as usize
            } else {
                0
            },
            None => 0,
        }
    }

    /// Goes to the next target of a cycle.
    pub(crate) fn cycle_jump(&mut self, anchor: Anchor, what: Leg, targets: Vec<usize>)
        requires
            old(self).wf(),
            targets@.len() > 0,
        ensures
            final(self).wf(),
            final(self)@ == old(self)@.cycled(anchor, what, targets@),
    {
        let at: usize = self.find_next_leg(anchor, &targets);
        let mut message = anchor.name();
        message.append(" ");
        message.append(what.name());
        message.append(" ");
        push_counted(&mut message, at);
        message.append("/");
        text::push_decimal(&mut message, targets.len());
        self.push_history();
        self.goto_line(targets[at]);
        self.set_cycle(Some(Cycle { anchor, what, targets, at }));
        self.say_text(message);
    }

    fn take_step(&mut self, step: Step)
        requires
            old(self).wf(),
            step@ matches StepModel::Go { targets, .. } ==> targets.len() > 0,
        ensures
            final(self).wf(),
            final(self)@ == old(self)@.stepped(step@),
    {
        match step {
            Step::Stay => {},
            Step::Say(message) => {
                self.say_text(message);
            },
            Step::Go { anchor, what, targets } => {
                self.cycle_jump(anchor, what, targets);
            },
        }
    }

    fn find_input_anchor(&self, vm: &ViewModel) -> (anchor: Option<Anchor>)
        requires
            vm@ == self@.shown(),
        ensures
            anchor == self@.input_anchor(),
    {
        proof {
            self.lemma_fields();
        }
        if let Some(c) = &self.cycle {
            let insn: bool = match c.anchor {
                Anchor::Insn(_) => true,
                _ => false,
            };
            if (c.what == Leg::Input || c.what == Leg::Reference) && !insn {
                return Some(c.anchor);
            }
        }
        cursor_anchor(vm, self.cursor)
    }

    fn find_consumer_anchor(&self, vm: &ViewModel) -> (anchor: Option<Anchor>)
        requires
            vm@ == self@.shown(),
        ensures
            anchor == self@.consumer_anchor(),
    {
        proof {
            self.lemma_fields();
        }
        if let Some(c) = &self.cycle {
            if c.what == Leg::Consumer || c.what == Leg::Predecessor {
                return Some(c.anchor);
            }
        }
        cursor_anchor(vm, self.cursor)
    }

    fn find_branch_anchor(&self, vm: &ViewModel) -> (anchor: Option<Anchor>)
        requires
            vm@ == self@.shown(),
        ensures
            anchor == self@.branch_anchor(),
    {
        proof {
            self.lemma_fields();
        }
        if let Some(c) = &self.cycle {
            let kept: bool = match c.anchor {
                Anchor::Node(_) | Anchor::Line(_) => true,
                _ => false,
            };
            if c.what == Leg::Target && kept {
                return Some(c.anchor);
            }
        }
        match info_at_row(vm, self.cursor) {
            Some((_, _, LineInfo::Node(node))) => if node.id != SCHEDULE_ONLY {
                Some(Anchor::Node(node.id))
            } else {
                match vm.row(self.cursor) {
                    Some(row) => Some(Anchor::Line(row.line)),
                    None => None,
                }
            },
            _ => None,
        }
    }

    /// The parse in view, with the phase of the cursor.
    fn choose_input(&mut self) -> (step: Step)
        requires
            old(self).wf(),
        ensures
            final(self).wf(),
            final(self)@ == old(self)@,
            step@ == old(self)@.input_choice(),
            step@ matches StepModel::Go { targets, .. } ==> targets.len() > 0,
    {
        let comp: usize = match self.current_comp() {
            Some(comp) => comp,
            None => {
                return Step::Stay;
            },
        };
        let vm = self.view_model();
        proof {
            self.lemma_fields();
            law_phases_mirror_the_index(self@.source().buffer, self@.compilations()[comp as int]);
        }
        match (&vm, info_at_row(&vm, self.cursor)) {
            (ViewModel::Modeled { parsed, .. }, Some((p, _, _))) => {
                match self.find_input_anchor(&vm) {
                    None => Step::Say(text::owned("no node under cursor")),
                    Some(anchor) => decide_input(
                        self.active_source().index.compilation(comp),
                        &**parsed,
                        p,
                        anchor,
                    ),
                }
            },
            _ => Step::Stay,
        }
    }

    fn choose_consumer(&mut self) -> (step: Step)
        requires
            old(self).wf(),
        ensures
            final(self).wf(),
            final(self)@ == old(self)@,
            step@ == old(self)@.consumer_choice(),
            step@ matches StepModel::Go { targets, .. } ==> targets.len() > 0,
    {
        let comp: usize = match self.current_comp() {
            Some(comp) => comp,
            None => {
                return Step::Stay;
            },
        };
        let vm = self.view_model();
        proof {
            self.lemma_fields();
            law_phases_mirror_the_index(self@.source().buffer, self@.compilations()[comp as int]);
        }
        match (&vm, info_at_row(&vm, self.cursor)) {
            (ViewModel::Modeled { parsed, .. }, Some((p, _, _))) => {
                assert((**parsed)@.phases[p as int] == parsed.phases@[p as int]@);
                match self.find_consumer_anchor(&vm) {
                    None => Step::Say(text::owned("no node under cursor")),
                    Some(anchor) => decide_consumer(
                        self.active_source().index.compilation(comp),
                        &parsed.phases[p],
                        p,
                        anchor,
                    ),
                }
            },
            _ => Step::Stay,
        }
    }

    fn choose_branch(&mut self) -> (step: Step)
        requires
            old(self).wf(),
        ensures
            final(self).wf(),
            final(self)@ == old(self)@,
            step@ == old(self)@.branch_choice(),
            step@ matches StepModel::Go { targets, .. } ==> targets.len() > 0,
    {
        let vm = self.view_model();
        proof {
            self.lemma_fields();
        }
        if self.cursor >= vm.len() {
            return Step::Stay;
        }
        let comp: usize = match self.current_comp() {
            Some(comp) => comp,
            None => {
                return Step::Say(text::owned("no block refs under cursor"));
            },
        };
        proof {
            self.lemma_fields();
            law_phases_mirror_the_index(self@.source().buffer, self@.compilations()[comp as int]);
        }
        match (&vm, info_at_row(&vm, self.cursor)) {
            (ViewModel::Modeled { parsed, .. }, Some((p, _, _))) => {
                assert((**parsed)@.phases[p as int] == parsed.phases@[p as int]@);
                match self.find_branch_anchor(&vm) {
                    None => Step::Say(text::owned("no block refs under cursor")),
                    Some(anchor) => decide_block(
                        self.active_source().index.compilation(comp),
                        &parsed.phases[p],
                        p,
                        anchor,
                    ),
                }
            },
            _ => Step::Say(text::owned("no block refs under cursor")),
        }
    }

    /// Goes to an input of the row under the cursor, or to the next input of
    /// the row that the last jump left.
    pub(crate) fn jump_to_input(&mut self)
        requires
            old(self).wf(),
        ensures
            final(self).wf(),
            final(self)@ == old(self)@.at_input(),
    {
        reveal(AppModel::at_input);
        proof {
            self.lemma_fields();
        }
        if self.diff {
            self.say("node jumps are off in diff view (d to leave)");
            return ;
        }
        let step = self.choose_input();
        self.take_step(step);
    }

    /// Goes to a line that refers to the row under the cursor, or to the next
    /// one that refers to the row that the last jump left.
    pub(crate) fn cycle_consumers(&mut self)
        requires
            old(self).wf(),
        ensures
            final(self).wf(),
            final(self)@ == old(self)@.at_consumer(),
    {
        reveal(AppModel::at_consumer);
        proof {
            self.lemma_fields();
        }
        if self.diff {
            self.say("node jumps are off in diff view (d to leave)");
            return ;
        }
        let step = self.choose_consumer();
        self.take_step(step);
    }

    /// Follows the branches of the node under the cursor.
    pub(crate) fn follow_targets(&mut self)
        requires
            old(self).wf(),
        ensures
            final(self).wf(),
            final(self)@ == old(self)@.at_target(),
    {
        reveal(AppModel::at_target);
        proof {
            self.lemma_fields();
        }
        if self.diff {
            self.say("node jumps are off in diff view (d to leave)");
            return ;
        }
        let step = self.choose_branch();
        self.take_step(step);
    }

    /// Goes to the next or the previous block.
    pub(crate) fn step_block(&mut self, forward: bool)
        requires
            old(self).wf(),
        ensures
            final(self).wf(),
            final(self)@ == old(self)@.block_stepped(forward),
    {
        reveal(AppModel::block_stepped);
        proof {
            self.lemma_fields();
        }
        if self.diff {
            self.say("block navigation is off in diff view (d to leave)");
            return ;
        }
        let cursor: usize = self.cursor;
        let vm = self.view_model();
        match find_block_row(&vm, cursor, forward) {
            Some((row, label)) => {
                self.set_cursor(row);
                self.set_focus(Pane::Viewport);
                self.set_follow(false);
                self.set_cycle(None);
                self.say_text(label);
            },
            None => {
                self.say(
                    if forward {
                        "no next block"
                    } else {
                        "no previous block"
                    },
                );
            },
        }
    }
}

} // verus!
