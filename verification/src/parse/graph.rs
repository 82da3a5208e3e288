//! Whole phases of the Maglev grammar: graphs and bytecode dumps.

use std::ops::Range;
use vstd::prelude::*;
#[allow(unused_imports)]
use vstd::string::*;

use super::bytecode;
#[allow(unused_imports)]
use super::bytecode::{bytecode_row, pool_entry, slot_header};
use super::intern::Interner;
#[allow(unused_imports)]
use super::intern::InternModel;
use super::maglev;
use super::maglev::GraphMemory;
#[allow(unused_imports)]
use super::maglev::{decision_of, graph_line, script_of, with_some, MemoryModel};
use crate::model::{count_up, FrameArrow, LineInfo, NodeId, ParsedCompilation, ParsedPhase, SCHEDULE_ONLY};
#[allow(unused_imports)]
use crate::model::{
    empty_phase, line_models, next_count, with_uses, LineModel, ParsedModel, PhaseModel,
};
use crate::source::LogBuffer;
use crate::text;
#[allow(unused_imports)]
use crate::text::{find_from, occurs_at, trimmed_start};

verus! {

/// A frame line that now belongs to `node`; other lines stay as they are.
pub open spec fn claimed(info: LineModel, node: NodeId) -> LineModel {
    match info {
        LineModel::Frame { frame, after_node, refs } => LineModel::Frame {
            frame,
            after_node: Some(node),
            refs,
        },
        _ => info,
    }
}

/// `infos` after `node` claimed the first `n` waiting frames.
pub open spec fn claimed_by(
    infos: Seq<LineModel>,
    waiting: Seq<usize>,
    n: int,
    node: NodeId,
) -> Seq<LineModel>
    decreases n,
{
    if n <= 0 {
        infos
    } else {
        let before = claimed_by(infos, waiting, n - 1, node);
        let k = waiting[n - 1] as int;
        if k < before.len() {
            before.update(k, claimed(before[k], node))
        } else {
            before
        }
    }
}

/// What is known after some lines of a graph.
#[verifier::ext_equal]
pub struct GraphState {
    pub mem: MemoryModel,
    pub phase: PhaseModel,
    /// The eager frames that wait for their node.
    pub waiting: Seq<usize>,
    pub parsed: ParsedModel,
}

/// The script of the compilation once a function context was met.
pub open spec fn script_after(parsed: ParsedModel, s: Seq<u8>) -> Option<Seq<char>> {
    if parsed.script is None {
        script_of(s)
    } else {
        parsed.script
    }
}

/// The function context is one of the compilation's own script.
pub open spec fn in_script(parsed: ParsedModel, s: Seq<u8>) -> bool {
    script_of(s) is Some && script_of(s) == script_after(parsed, s)
}

/// The state after the line `s`, which `info` classifies.
#[verifier::opaque]
pub open spec fn after_line(
    st: GraphState,
    mem: MemoryModel,
    info: LineModel,
    s: Seq<u8>,
    line: int,
) -> GraphState {
    let at = st.phase.infos.len() as u32;
    let st = GraphState { mem, ..st };
    match info {
        LineModel::Node(node) => GraphState {
            phase: PhaseModel {
                infos: claimed_by(
                    st.phase.infos,
                    st.waiting,
                    st.waiting.len() as int,
                    node.id,
                ).push(info),
                defs: if node.id != SCHEDULE_ONLY {
                    st.phase.defs.insert(node.id, at)
                } else {
                    st.phase.defs
                },
                users: with_uses(st.phase.users, node.inputs, node.inputs.len() as int, at),
                node_count: next_count(st.phase.node_count),
                ..st.phase
            },
            waiting: Seq::empty(),
            ..st
        },
        LineModel::Frame { after_node, refs, .. } => GraphState {
            phase: PhaseModel {
                infos: st.phase.infos.push(info),
                users: with_uses(st.phase.users, refs, refs.len() as int, at),
                ..st.phase
            },
            waiting: if after_node is None {
                st.waiting.push(st.phase.infos.len() as usize)
            } else {
                st.waiting
            },
            ..st
        },
        LineModel::PhiMove { refs } => GraphState {
            phase: PhaseModel {
                infos: st.phase.infos.push(info),
                users: with_uses(st.phase.users, refs, refs.len() as int, at),
                ..st.phase
            },
            ..st
        },
        LineModel::BlockHeader { .. } => GraphState {
            phase: PhaseModel {
                infos: st.phase.infos.push(info),
                block_count: next_count(st.phase.block_count),
                ..st.phase
            },
            ..st
        },
        LineModel::SfiContext { line: l, col, .. } => GraphState {
            phase: PhaseModel {
                infos: st.phase.infos.push(
                    LineModel::SfiContext { line: l, col, same_script: in_script(st.parsed, s) },
                ),
                ..st.phase
            },
            parsed: ParsedModel {
                script: script_after(st.parsed, s),
                script_line: if in_script(st.parsed, s) && l > 0 && st.parsed.script_line is None {
                    Some(l)
                } else {
                    st.parsed.script_line
                },
                ..st.parsed
            },
            ..st
        },
        LineModel::Annotation { .. } => GraphState {
            phase: PhaseModel {
                infos: st.phase.infos.push(info),
                annotation_count: next_count(st.phase.annotation_count),
                ..st.phase
            },
            parsed: ParsedModel {
                inline_decisions: with_some(st.parsed.inline_decisions, decision_of(s, line)),
                ..st.parsed
            },
            ..st
        },
        _ => GraphState {
            phase: PhaseModel { infos: st.phase.infos.push(info), ..st.phase },
            ..st
        },
    }
}

/// The state before the first line.
pub open spec fn graph_start(m: InternModel, parsed: ParsedModel) -> GraphState {
    GraphState {
        mem: MemoryModel {
            interned: m,
            dual: false,
            last_node: None,
            last_arrow: FrameArrow::Eager,
        },
        phase: empty_phase(),
        waiting: Seq::empty(),
        parsed,
    }
}

/// The state after the first `n` lines of a graph whose banner is line `start`
/// of the trace.
pub open spec fn graph_state(
    lines: Seq<Seq<u8>>,
    start: int,
    m: InternModel,
    parsed: ParsedModel,
    n: int,
) -> GraphState
    decreases n,
{
    if n <= 0 {
        graph_start(m, parsed)
    } else {
        let before = graph_state(lines, start, m, parsed, n - 1);
        let s = lines[n - 1];
        if n == 1 {
            after_line(before, before.mem, LineModel::Banner, s, start)
        } else {
            let (info, mem) = graph_line(s, before.mem);
            after_line(before, mem, info, s, start + n - 1)
        }
    }
}

fn claim_frames(infos: &mut Vec<LineInfo>, waiting: &Vec<usize>, node: NodeId)
    ensures
        line_models(final(infos)@) == claimed_by(
            line_models(old(infos)@),
            waiting@,
            waiting@.len() as int,
            node,
        ),
{
    let mut n: usize = 0;
    while n < waiting.len()
        invariant
            n <= waiting.len(),
            line_models(infos@) == claimed_by(
                line_models(old(infos)@),
                waiting@,
                n as int,
                node,
            ),
        decreases waiting.len() - n,
    {
        let k: usize = waiting[n];
        if k < infos.len() {
            let ghost before = infos@;
            let mut taken = LineInfo::Control;
            std::mem::swap(&mut infos[k], &mut taken);
            let done = match taken {
                LineInfo::Frame { frame, after_node: _, refs } => LineInfo::Frame {
                    frame,
                    after_node: Some(node),
                    refs,
                },
                other => other,
            };
            assert(done@ == claimed(before[k as int]@, node));
            infos.set(k, done);
            assert(line_models(infos@) =~= line_models(before).update(k as int, done@));
        }
        n += 1;
    }
}

/// The parse of a graph while it runs.
pub struct GraphParse {
    pub mem: GraphMemory,
    pub phase: ParsedPhase,
    pub waiting: Vec<usize>,
}

/// The view of a running parse.
pub open spec fn running(run: GraphParse, parsed: ParsedModel) -> GraphState {
    GraphState { mem: run.mem@, phase: run.phase@, waiting: run.waiting@, parsed }
}

impl GraphParse {
    fn take_line(
        &mut self,
        parsed: &mut ParsedCompilation,
        Ghost(before): Ghost<GraphState>,
        info: LineInfo,
        s: &[u8],
        line: usize,
    )
        requires
            running(*old(self), old(parsed)@) == (GraphState { mem: old(self).mem@, ..before }),
        ensures
            running(*final(self), final(parsed)@) == after_line(
                before,
                old(self).mem@,
                info@,
                s@,
                line as int,
            ),
            final(self).mem == old(self).mem,
    {
        reveal(after_line);
        let at: u32 = self.phase.infos.len() as u32;
        let index: usize = self.phase.infos.len();
        assert(index == before.phase.infos.len());
        match info {
            LineInfo::Node(node) => {
                self.phase.node_count = count_up(self.phase.node_count);
                if node.id != SCHEDULE_ONLY {
                    self.phase.add_def(node.id, at);
                }
                self.phase.add_uses(&node.inputs, at);
                claim_frames(&mut self.phase.infos, &self.waiting, node.id);
                self.waiting.clear();
                self.phase.push_info(LineInfo::Node(node));
            },
            LineInfo::Frame { frame, after_node, refs } => {
                self.phase.add_uses(&refs, at);
                if after_node.is_none() {
                    self.waiting.push(index);
                }
                self.phase.push_info(LineInfo::Frame { frame, after_node, refs });
            },
            LineInfo::PhiMove { refs } => {
                self.phase.add_uses(&refs, at);
                self.phase.push_info(LineInfo::PhiMove { refs });
            },
            LineInfo::BlockHeader { block } => {
                self.phase.block_count = count_up(self.phase.block_count);
                self.phase.push_info(LineInfo::BlockHeader { block });
            },
            LineInfo::SfiContext { line: l, col, same_script: _ } => {
                let script = maglev::parse_script(s);
                if parsed.script.is_none() {
                    parsed.script = match &script {
                        Some(name) => Some(name.clone()),
                        None => None,
                    };
                }
                let same: bool = match (&script, &parsed.script) {
                    (Some(a), Some(b)) => *a == *b,
                    _ => false,
                };
                if same && l > 0 && parsed.script_line.is_none() {
                    parsed.script_line = Some(l);
                }
                self.phase.push_info(LineInfo::SfiContext { line: l, col, same_script: same });
            },
            LineInfo::Annotation { after_node } => {
                self.phase.annotation_count = count_up(self.phase.annotation_count);
                maglev::record_inline_decision(s, line, &mut parsed.inline_decisions);
                self.phase.push_info(LineInfo::Annotation { after_node });
            },
            other => {
                self.phase.push_info(other);
            },
        }
    }
}

/// Parses a graph. The banner is its first line.
#[verifier::spinoff_prover]
#[verifier::rlimit(50)]
pub fn parse_graph_phase(
    buffer: &LogBuffer,
    lines: Range<usize>,
    interner: &mut Interner,
    parsed: &mut ParsedCompilation,
) -> (phase: ParsedPhase)
    requires
        buffer.wf(),
        old(interner)@.wf(),
    ensures
        ({
            let texts = buffer@.texts(lines.start as int, lines.end as int);
            let out = graph_state(
                texts,
                lines.start as int,
                old(interner)@,
                old(parsed)@,
                texts.len() as int,
            );
            phase@ == out.phase && final(interner)@ == out.mem.interned && final(parsed)@
                == out.parsed
        }),
        final(interner)@.wf(),
{
    let ghost texts = buffer@.texts(lines.start as int, lines.end as int);
    let ghost m = interner@;
    let ghost parsed_before = parsed@;
    let mut mine = Interner::new();
    std::mem::swap(interner, &mut mine);
    let mut run = GraphParse {
        mem: GraphMemory {
            interner: mine,
            saw_dual_id: false,
            last_node: None,
            last_arrow: FrameArrow::Eager,
        },
        phase: ParsedPhase::default(),
        waiting: Vec::new(),
    };
    assert(running(run, parsed@) =~= graph_start(m, parsed_before));
    let mut line: usize = lines.start;
    while line < lines.end
        invariant
            buffer.wf(),
            texts == buffer@.texts(lines.start as int, lines.end as int),
            lines.start <= line,
            line <= lines.end || line == lines.start,
            run.mem@.interned.wf(),
            running(run, parsed@) == graph_state(
                texts,
                lines.start as int,
                m,
                parsed_before,
                line - lines.start,
            ),
        decreases lines.end - line,
    {
        let chars = buffer.line_text(line);
        let s = chars.as_str().as_bytes();
        assert(texts[line - lines.start] == s@);
        let ghost before = running(run, parsed@);
        let info = if line == lines.start {
            LineInfo::Banner
        } else {
            maglev::classify_graph_line(s, &mut run.mem)
        };
        assert(running(run, parsed@) == (GraphState { mem: run.mem@, ..before }));
        run.take_line(parsed, Ghost(before), info, s, line);
        line += 1;
    }
    let GraphParse { mem, phase, waiting: _ } = run;
    let GraphMemory { interner: theirs, saw_dual_id: _, last_node: _, last_arrow: _ } = mem;
    *interner = theirs;
    phase
}

// ---------------------------------------------------------------------------
// Bytecode dumps
// ---------------------------------------------------------------------------

/// The parts of a bytecode dump, in the order in which they are printed.
#[derive(Clone, Copy, PartialEq, Eq, Structural)]
pub enum DumpRegion {
    Code,
    Pool,
    Tables,
    Feedback,
}

/// The region that a line opens, if it is such a header.
pub open spec fn region_header(s: Seq<u8>) -> Option<DumpRegion> {
    let t = trimmed_start(s, 0);
    if occurs_at(s, t, "Constant pool (size".spec_bytes()) {
        Some(DumpRegion::Pool)
    } else if occurs_at(s, t, "Handler Table (size".spec_bytes()) || occurs_at(
        s,
        t,
        "Source Position Table (size".spec_bytes(),
    ) {
        Some(DumpRegion::Tables)
    } else if occurs_at(s, t, "0x".spec_bytes()) && find_from(
        s,
        t,
        ": [FeedbackVector]".spec_bytes(),
    ) is Some {
        Some(DumpRegion::Feedback)
    } else {
        None
    }
}

/// The row that a line of `region` holds, if it holds one.
pub open spec fn region_row(s: Seq<u8>, region: DumpRegion) -> Option<LineModel> {
    match region {
        DumpRegion::Code => bytecode_row(s, true),
        DumpRegion::Pool => pool_entry(s),
        DumpRegion::Tables => None,
        DumpRegion::Feedback => slot_header(s),
    }
}

/// What is known after some lines of a dump.
#[verifier::ext_equal]
pub struct DumpState {
    pub phase: PhaseModel,
    pub region: DumpRegion,
    pub parsed: ParsedModel,
}

/// The state after one more line of a dump. Lines that are neither a header nor
/// a row are expected content; some of them record inlining decisions.
#[verifier::opaque]
pub open spec fn after_dump_line(st: DumpState, s: Seq<u8>, line: int) -> DumpState {
    match region_header(s) {
        Some(region) => DumpState {
            phase: PhaseModel { infos: st.phase.infos.push(LineModel::Control), ..st.phase },
            region,
            ..st
        },
        None => match region_row(s, st.region) {
            Some(info) => DumpState {
                phase: PhaseModel { infos: st.phase.infos.push(info), ..st.phase },
                ..st
            },
            None => DumpState {
                phase: PhaseModel { infos: st.phase.infos.push(LineModel::Control), ..st.phase },
                parsed: ParsedModel {
                    inline_decisions: with_some(st.parsed.inline_decisions, decision_of(s, line)),
                    ..st.parsed
                },
                ..st
            },
        },
    }
}

/// The state after the first `n` lines of a dump whose banner is line `start`.
pub open spec fn dump_state(
    lines: Seq<Seq<u8>>,
    start: int,
    parsed: ParsedModel,
    n: int,
) -> DumpState
    decreases n,
{
    if n <= 0 {
        DumpState { phase: empty_phase(), region: DumpRegion::Code, parsed }
    } else {
        let before = dump_state(lines, start, parsed, n - 1);
        if n == 1 {
            DumpState {
                phase: PhaseModel {
                    infos: before.phase.infos.push(LineModel::Banner),
                    ..before.phase
                },
                ..before
            }
        } else {
            after_dump_line(before, lines[n - 1], start + n - 1)
        }
    }
}

fn find_region_header(s: &[u8]) -> (region: Option<DumpRegion>)
    ensures
        region == region_header(s@),
{
    let t: usize = text::trim_start(s, 0);
    if text::starts_with_at(s, t, "Constant pool (size") {
        Some(DumpRegion::Pool)
    } else if text::starts_with_at(s, t, "Handler Table (size") || text::starts_with_at(
        s,
        t,
        "Source Position Table (size",
    ) {
        Some(DumpRegion::Tables)
    } else if text::starts_with_at(s, t, "0x") && text::find(s, t, ": [FeedbackVector]").is_some() {
        Some(DumpRegion::Feedback)
    } else {
        None
    }
}

fn find_region_row(s: &[u8], region: DumpRegion) -> (row: Option<LineInfo>)
    ensures
        crate::model::line_model(row) == region_row(s@, region),
{
    match region {
        DumpRegion::Code => bytecode::parse_bytecode_row(s, true),
        DumpRegion::Pool => bytecode::parse_pool_entry(s),
        DumpRegion::Tables => None,
        DumpRegion::Feedback => bytecode::parse_slot_header(s),
    }
}

fn take_dump_line(
    phase: &mut ParsedPhase,
    region: &mut DumpRegion,
    parsed: &mut ParsedCompilation,
    s: &[u8],
    line: usize,
)
    ensures
        (DumpState { phase: final(phase)@, region: *final(region), parsed: final(parsed)@ })
            == after_dump_line(
            DumpState { phase: old(phase)@, region: *old(region), parsed: old(parsed)@ },
            s@,
            line as int,
        ),
{
    reveal(after_dump_line);
    if let Some(next) = find_region_header(s) {
        *region = next;
        phase.push_info(LineInfo::Control);
    } else if let Some(info) = find_region_row(s, *region) {
        phase.push_info(info);
    } else {
        maglev::record_inline_decision(s, line, &mut parsed.inline_decisions);
        phase.push_info(LineInfo::Control);
    }
}

/// Parses a bytecode dump. The banner is its first line.
pub fn parse_dump_phase(
    buffer: &LogBuffer,
    lines: Range<usize>,
    parsed: &mut ParsedCompilation,
) -> (phase: ParsedPhase)
    requires
        buffer.wf(),
    ensures
        ({
            let texts = buffer@.texts(lines.start as int, lines.end as int);
            let out = dump_state(texts, lines.start as int, old(parsed)@, texts.len() as int);
            phase@ == out.phase && final(parsed)@ == out.parsed
        }),
{
    let ghost texts = buffer@.texts(lines.start as int, lines.end as int);
    let ghost parsed_before = parsed@;
    let mut phase = ParsedPhase::default();
    let mut region = DumpRegion::Code;
    let mut line: usize = lines.start;
    while line < lines.end
        invariant
            buffer.wf(),
            texts == buffer@.texts(lines.start as int, lines.end as int),
            lines.start <= line,
            line <= lines.end || line == lines.start,
            (DumpState { phase: phase@, region, parsed: parsed@ }) == dump_state(
                texts,
                lines.start as int,
                parsed_before,
                line - lines.start,
            ),
        decreases lines.end - line,
    {
        if line == lines.start {
            phase.push_info(LineInfo::Banner);
        } else {
            let chars = buffer.line_text(line);
            let s = chars.as_str().as_bytes();
            assert(texts[line - lines.start] == s@);
            take_dump_line(&mut phase, &mut region, parsed, s, line);
        }
        line += 1;
    }
    phase
}

// ---------------------------------------------------------------------------
// Laws
// ---------------------------------------------------------------------------

proof fn lemma_claimed_len(infos: Seq<LineModel>, waiting: Seq<usize>, n: int, node: NodeId)
    ensures
        claimed_by(infos, waiting, n, node).len() == infos.len(),
    decreases n,
{
    if n > 0 {
        lemma_claimed_len(infos, waiting, n - 1, node);
    }
}

/// Every line of a graph is classified: none is dropped, none is made up.
pub proof fn law_graph_lines_are_all_classified(
    lines: Seq<Seq<u8>>,
    start: int,
    m: InternModel,
    parsed: ParsedModel,
    n: int,
)
    requires
        0 <= n <= lines.len(),
    ensures
        graph_state(lines, start, m, parsed, n).phase.infos.len() == n,
    decreases n,
{
    reveal(after_line);
    if n > 0 {
        law_graph_lines_are_all_classified(lines, start, m, parsed, n - 1);
        let before = graph_state(lines, start, m, parsed, n - 1);
        let info = if n == 1 {
            LineModel::Banner
        } else {
            graph_line(lines[n - 1], before.mem).0
        };
        if let LineModel::Node(node) = info {
            lemma_claimed_len(
                before.phase.infos,
                before.waiting,
                before.waiting.len() as int,
                node.id,
            );
        }
    }
}

/// Every line of a dump is classified.
pub proof fn law_dump_lines_are_all_classified(
    lines: Seq<Seq<u8>>,
    start: int,
    parsed: ParsedModel,
    n: int,
)
    requires
        0 <= n <= lines.len(),
    ensures
        dump_state(lines, start, parsed, n).phase.infos.len() == n,
    decreases n,
{
    reveal(after_dump_line);
    if n > 0 {
        law_dump_lines_are_all_classified(lines, start, parsed, n - 1);
    }
}

pub(crate) proof fn lemma_graph_keeps_phases(
    lines: Seq<Seq<u8>>,
    start: int,
    m: InternModel,
    parsed: ParsedModel,
    n: int,
)
    ensures
        graph_state(lines, start, m, parsed, n).parsed.phases == parsed.phases,
    decreases n,
{
    reveal(after_line);
    if n > 0 {
        lemma_graph_keeps_phases(lines, start, m, parsed, n - 1);
    }
}

pub(crate) proof fn lemma_dump_keeps_phases(
    lines: Seq<Seq<u8>>,
    start: int,
    parsed: ParsedModel,
    n: int,
)
    ensures
        dump_state(lines, start, parsed, n).parsed.phases == parsed.phases,
    decreases n,
{
    reveal(after_dump_line);
    if n > 0 {
        lemma_dump_keeps_phases(lines, start, parsed, n - 1);
    }
}

} // verus!
