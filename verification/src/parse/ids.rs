//! Every id in a parse names an entry of its tables.

use vstd::prelude::*;
#[allow(unused_imports)]
use vstd::string::*;

#[allow(unused_imports)]
use super::compilation::{
    after_phase, parsed_compilation, phases_state, preamble_state, CompileState,
};
#[allow(unused_imports)]
use super::graph::{
    after_dump_line, after_line, claimed_by, dump_state, graph_state, lemma_dump_keeps_phases,
    lemma_graph_keeps_phases,
};
#[allow(unused_imports)]
use super::intern::{lemma_place, nothing_interned, FrameKeyModel, InternModel};
#[allow(unused_imports)]
use super::listing::listing_phase;
#[allow(unused_imports)]
use super::bytecode::interleaved_row;
#[allow(unused_imports)]
use super::maglev::{
    content_from, frame_arrow, frame_at, frame_key, frame_line, graph_line, node_ids, node_line,
    opcode_end_from, MemoryModel,
};
#[allow(unused_imports)]
use super::turbofan::{grammar_line, grammar_of, phase_state, recorded, Grammar};
#[allow(unused_imports)]
use crate::model::{
    empty_parse, CompilationModel, DeoptFrame, FrameArrow, LineModel, NodeId, ParsedModel, PhaseKindModel,
    PhaseModel, PhaseSectionModel, TierModel,
};
#[allow(unused_imports)]
use crate::source::LogModel;
#[allow(unused_imports)]
use crate::text::{text_of, trimmed_start};

verus! {

/// The opcode or the frame that a line names is one of the first so many.
pub open spec fn ids_known(info: LineModel, opcodes: int, frames: int) -> bool {
    match info {
        LineModel::Node(node) => node.opcode < opcodes,
        LineModel::Frame { frame, .. } => frame < frames,
        _ => true,
    }
}

/// All lines of a phase name opcodes and frames among the first so many.
pub open spec fn phase_ids_known(phase: PhaseModel, opcodes: int, frames: int) -> bool {
    forall|i: int|
        0 <= i < phase.infos.len() ==> ids_known(#[trigger] phase.infos[i], opcodes, frames)
}

spec fn tidy(m: InternModel) -> bool {
    m.wf() && m.opcodes.no_duplicates()
}

spec fn grown(a: InternModel, b: InternModel) -> bool {
    a.opcodes.len() <= b.opcodes.len() && a.frames.len() <= b.frames.len()
}

spec fn all_known(infos: Seq<LineModel>, m: InternModel) -> bool {
    forall|i: int|
        0 <= i < infos.len() ==> ids_known(
            #[trigger] infos[i],
            m.opcodes.len() as int,
            m.frames.len() as int,
        )
}

proof fn lemma_opcode(m: InternModel, name: Seq<char>)
    requires
        tidy(m),
    ensures
        tidy(m.with_opcode(name)),
        grown(m, m.with_opcode(name)),
        m.opcode_id(name) < m.with_opcode(name).opcodes.len(),
{
    lemma_place(m.opcodes, name, 0);
}

proof fn lemma_frame(m: InternModel, frame: DeoptFrame, key: FrameKeyModel)
    requires
        tidy(m),
    ensures
        tidy(m.with_frame(frame, key)),
        grown(m, m.with_frame(frame, key)),
        m.frame_id(key) < m.with_frame(frame, key).frames.len(),
{
    lemma_place(m.keys, key, 0);
}

/// What a line says of the interner it leaves behind.
spec fn settles(m: InternModel, info: LineModel, after: InternModel) -> bool {
    &&& tidy(after)
    &&& grown(m, after)
    &&& ids_known(info, after.opcodes.len() as int, after.frames.len() as int)
}

proof fn lemma_grammar_line(grammar: Grammar, s: Seq<u8>, m: InternModel, last: Option<NodeId>)
    requires
        tidy(m),
    ensures
        ({
            let out = grammar_line(grammar, s, m, last);
            settles(m, out.info, out.interned)
        }),
{
    reveal(grammar_line);
    assert forall|name: Seq<char>| #[trigger] tidy(m.with_opcode(name)) && grown(
        m,
        m.with_opcode(name),
    ) && m.opcode_id(name) < m.with_opcode(name).opcodes.len() by {
        lemma_opcode(m, name);
    }
    let out = grammar_line(grammar, s, m, last);
    assert(out.interned == m || exists|name: Seq<char>|
        out.interned == #[trigger] m.with_opcode(name) && (out.info matches LineModel::Node(node)
            ==> node.opcode == m.opcode_id(name)));
}

proof fn lemma_frame_line(
    s: Seq<u8>,
    start: int,
    m: InternModel,
    last_node: Option<NodeId>,
    last_arrow: FrameArrow,
)
    requires
        tidy(m),
    ensures
        ({
            let out = frame_line(s, start, m, last_node, last_arrow);
            settles(m, out.info, out.interned)
        }),
{
    let (arrow, after) = frame_arrow(s, start, last_arrow);
    let r = trimmed_start(s, after);
    let frame = frame_at(s, r, arrow);
    lemma_frame(m, frame, frame_key(s, r, frame));
}

proof fn lemma_node_line(s: Seq<u8>, start: int, m: InternModel, dual: bool)
    requires
        tidy(m),
    ensures
        ({
            let out = node_line(s, start, m, dual);
            &&& tidy(out.interned)
            &&& grown(m, out.interned)
            &&& out.node matches Some(node) ==> node.opcode < out.interned.opcodes.len()
        }),
{
    if let Some((first, second, ids_end)) = node_ids(s, start) {
        let o = ids_end + ": ".spec_bytes().len();
        lemma_opcode(m, text_of(s, o, opcode_end_from(s, o, 0)));
    }
}

proof fn lemma_graph_line(s: Seq<u8>, mem: MemoryModel)
    requires
        tidy(mem.interned),
    ensures
        settles(mem.interned, graph_line(s, mem).0, graph_line(s, mem).1.interned),
{
    let start = content_from(s, 0);
    lemma_frame_line(s, start, mem.interned, mem.last_node, mem.last_arrow);
    lemma_node_line(s, start, mem.interned, mem.dual);
    lemma_interleaved(s, start);
}

/// A row between the nodes names neither an opcode nor a frame.
proof fn lemma_interleaved(s: Seq<u8>, start: int)
    ensures
        interleaved_row(s, start) matches Some(info) ==> !(info is Node) && !(info is Frame),
{
}

proof fn lemma_phase_state(grammar: Grammar, lines: Seq<Seq<u8>>, m: InternModel, n: int)
    requires
        tidy(m),
    ensures
        ({
            let st = phase_state(grammar, lines, m, n);
            tidy(st.interned) && grown(m, st.interned) && all_known(st.phase.infos, st.interned)
        }),
    decreases n,
{
    reveal(recorded);
    if n > 0 {
        lemma_phase_state(grammar, lines, m, n - 1);
        let before = phase_state(grammar, lines, m, n - 1);
        lemma_grammar_line(grammar, lines[n - 1], before.interned, before.last_node);
    }
}

proof fn lemma_claimed(
    infos: Seq<LineModel>,
    waiting: Seq<usize>,
    n: int,
    node: NodeId,
    m: InternModel,
)
    requires
        all_known(infos, m),
    ensures
        all_known(claimed_by(infos, waiting, n, node), m),
    decreases n,
{
    if n > 0 {
        lemma_claimed(infos, waiting, n - 1, node, m);
    }
}

proof fn lemma_graph_state(
    lines: Seq<Seq<u8>>,
    start: int,
    m: InternModel,
    parsed: ParsedModel,
    n: int,
)
    requires
        tidy(m),
    ensures
        ({
            let st = graph_state(lines, start, m, parsed, n);
            &&& tidy(st.mem.interned)
            &&& grown(m, st.mem.interned)
            &&& all_known(st.phase.infos, st.mem.interned)
        }),
    decreases n,
{
    reveal(after_line);
    if n > 0 {
        lemma_graph_state(lines, start, m, parsed, n - 1);
        let before = graph_state(lines, start, m, parsed, n - 1);
        lemma_graph_line(lines[n - 1], before.mem);
        let (info, mem) = if n == 1 {
            (LineModel::Banner, before.mem)
        } else {
            graph_line(lines[n - 1], before.mem)
        };
        assert(all_known(before.phase.infos, mem.interned));
        if let LineModel::Node(node) = info {
            lemma_claimed(
                before.phase.infos,
                before.waiting,
                before.waiting.len() as int,
                node.id,
                mem.interned,
            );
        }
    }
}

proof fn lemma_dump_state(lines: Seq<Seq<u8>>, start: int, parsed: ParsedModel, n: int, m: InternModel)
    ensures
        all_known(dump_state(lines, start, parsed, n).phase.infos, m),
    decreases n,
{
    reveal(after_dump_line);
    if n > 0 {
        lemma_dump_state(lines, start, parsed, n - 1, m);
    }
}

proof fn lemma_listing(name: Seq<u8>, lines: Seq<Seq<u8>>, m: InternModel)
    ensures
        all_known(listing_phase(name, lines).infos, m),
{
}

spec fn phases_known(phases: Seq<PhaseModel>, m: InternModel) -> bool {
    forall|k: int| 0 <= k < phases.len() ==> all_known((#[trigger] phases[k]).infos, m)
}

proof fn lemma_after_phase(
    st: CompileState,
    buffer: LogModel,
    tier: TierModel,
    phase: PhaseSectionModel,
)
    requires
        tidy(st.interned),
        phases_known(st.parsed.phases, st.interned),
    ensures
        ({
            let out = after_phase(st, buffer, tier, phase);
            &&& tidy(out.interned)
            &&& phases_known(out.parsed.phases, out.interned)
            &&& out.parsed.preamble == st.parsed.preamble
        }),
{
    reveal(after_phase);
    let lines = buffer.texts(phase.start, phase.end);
    let name = vstd::utf8::encode_utf8(phase.name);
    let n = lines.len() as int;
    lemma_listing(name, lines, st.interned);
    lemma_phase_state(grammar_of(name), lines, st.interned, n);
    lemma_graph_state(lines, phase.start, st.interned, st.parsed, n);
    lemma_dump_state(lines, phase.start, st.parsed, n, st.interned);
    lemma_graph_keeps_phases(lines, phase.start, st.interned, st.parsed, n);
    lemma_dump_keeps_phases(lines, phase.start, st.parsed, n);
    lemma_graph_keeps_preamble(lines, phase.start, st.interned, st.parsed, n);
    lemma_dump_keeps_preamble(lines, phase.start, st.parsed, n);
    let out = after_phase(st, buffer, tier, phase);
    assert(out.parsed.phases.drop_last() =~= st.parsed.phases);
    assert forall|k: int| 0 <= k < out.parsed.phases.len() implies all_known(
        (#[trigger] out.parsed.phases[k]).infos,
        out.interned,
    ) by {
        if k < st.parsed.phases.len() {
            assert(out.parsed.phases[k] == st.parsed.phases[k]);
            assert(all_known(st.parsed.phases[k].infos, st.interned));
        }
    }
}

proof fn lemma_graph_keeps_preamble(
    lines: Seq<Seq<u8>>,
    start: int,
    m: InternModel,
    parsed: ParsedModel,
    n: int,
)
    ensures
        graph_state(lines, start, m, parsed, n).parsed.preamble == parsed.preamble,
    decreases n,
{
    reveal(after_line);
    if n > 0 {
        lemma_graph_keeps_preamble(lines, start, m, parsed, n - 1);
    }
}

proof fn lemma_dump_keeps_preamble(lines: Seq<Seq<u8>>, start: int, parsed: ParsedModel, n: int)
    ensures
        dump_state(lines, start, parsed, n).parsed.preamble == parsed.preamble,
    decreases n,
{
    reveal(after_dump_line);
    if n > 0 {
        lemma_dump_keeps_preamble(lines, start, parsed, n - 1);
    }
}

proof fn lemma_phases_state(
    start: CompileState,
    buffer: LogModel,
    tier: TierModel,
    phases: Seq<PhaseSectionModel>,
    n: int,
)
    requires
        tidy(start.interned),
        phases_known(start.parsed.phases, start.interned),
    ensures
        ({
            let out = phases_state(start, buffer, tier, phases, n);
            &&& tidy(out.interned)
            &&& phases_known(out.parsed.phases, out.interned)
            &&& out.parsed.preamble == start.parsed.preamble
        }),
    decreases n,
{
    if n > 0 {
        lemma_phases_state(start, buffer, tier, phases, n - 1);
        lemma_after_phase(
            phases_state(start, buffer, tier, phases, n - 1),
            buffer,
            tier,
            phases[n - 1],
        );
    }
}

proof fn lemma_preamble(lines: Seq<Seq<u8>>, start: int, listing: bool, n: int)
    requires
        0 <= n <= lines.len(),
    ensures
        preamble_state(lines, start, listing, n).0.len() == n,
    decreases n,
{
    if n > 0 {
        lemma_preamble(lines, start, listing, n - 1);
    }
}

/// In a parse every opcode and every frame that a line names stands in the
/// tables, no opcode stands there twice, and the preamble has one entry for
/// each of its lines.
pub proof fn law_a_parse_is_consistent(buffer: LogModel, c: CompilationModel)
    ensures
        ({
            let parsed = parsed_compilation(buffer, c);
            &&& parsed.opcodes.no_duplicates()
            &&& forall|k: int|
                0 <= k < parsed.phases.len() ==> phase_ids_known(
                    #[trigger] parsed.phases[k],
                    parsed.opcodes.len() as int,
                    parsed.frames.len() as int,
                )
            &&& parsed.preamble.len() == crate::view::span_len(c.preamble_start, c.preamble_end)
        }),
{
    let listing = c.phases.len() > 0 && c.phases[0].kind == PhaseKindModel::Listing;
    let pre = buffer.texts(c.preamble_start, c.preamble_end);
    lemma_preamble(pre, c.preamble_start, listing, pre.len() as int);
    let (preamble, decisions) = preamble_state(pre, c.preamble_start, listing, pre.len() as int);
    let start = CompileState {
        interned: nothing_interned(),
        parsed: ParsedModel { preamble, inline_decisions: decisions, ..empty_parse() },
    };
    let n = c.phases.len() as int;
    lemma_phases_state(start, buffer, c.tier, c.phases, n);
    let out = phases_state(start, buffer, c.tier, c.phases, n);
    let parsed = parsed_compilation(buffer, c);
    assert forall|k: int| 0 <= k < parsed.phases.len() implies phase_ids_known(
        #[trigger] parsed.phases[k],
        parsed.opcodes.len() as int,
        parsed.frames.len() as int,
    ) by {
        assert(all_known(out.parsed.phases[k].infos, out.interned));
    }
}

} // verus!
