//! What a phase records of definitions and uses is what its lines say.

use vstd::prelude::*;

#[allow(unused_imports)]
use super::compilation::{
    after_phase, parsed_compilation, phase_size, phases_state, CompileState,
};
#[allow(unused_imports)]
use super::graph::{
    after_dump_line, after_line, claimed_by, dump_state, graph_state, GraphState,
};
#[allow(unused_imports)]
use super::intern::InternModel;
#[allow(unused_imports)]
use super::maglev::{graph_line, MemoryModel};
#[allow(unused_imports)]
use super::turbofan::{grammar_line, phase_state, recorded, Grammar};
#[allow(unused_imports)]
use crate::model::{
    with_use, with_uses, CompilationModel, LineModel, NodeId, NodeRef, ParsedModel, PhaseKindModel,
    PhaseSectionModel, TierModel, SCHEDULE_ONLY,
};
#[allow(unused_imports)]
use crate::source::LogModel;

verus! {

/// The nodes that a line refers to.
pub open spec fn refs_of(info: LineModel) -> Seq<NodeRef> {
    match info {
        LineModel::Node(node) => node.inputs,
        LineModel::Frame { refs, .. } => refs,
        LineModel::PhiMove { refs } => refs,
        _ => Seq::empty(),
    }
}

/// A line refers to a node.
pub open spec fn refers(info: LineModel, id: NodeId) -> bool {
    exists|k: int| 0 <= k < refs_of(info).len() && (#[trigger] refs_of(info)[k]).node == id
}

/// A use of a node at a line is recorded.
pub open spec fn used_at(users: Map<NodeId, Seq<u32>>, id: NodeId, at: u32) -> bool {
    users.dom().contains(id) && users[id].contains(at)
}

/// The line defines a node that can be referred to.
pub open spec fn defines(info: LineModel, id: NodeId) -> bool {
    info matches LineModel::Node(node) && node.id == id && id != SCHEDULE_ONLY
}

/// What is recorded is what the lines say: each definition is a line that
/// defines the node, the last one where there are several; no definition is
/// missing; and a use is recorded exactly where a line refers to the node.
pub open spec fn linked(
    infos: Seq<LineModel>,
    defs: Map<NodeId, u32>,
    users: Map<NodeId, Seq<u32>>,
) -> bool {
    &&& forall|id: NodeId| #[trigger]
        defs.dom().contains(id) ==> defs[id] < infos.len() && defines(infos[defs[id] as int], id)
    &&& forall|i: int, id: NodeId|
        0 <= i < infos.len() && #[trigger] defines(infos[i], id) ==> defs.dom().contains(id) && i
            <= defs[id]
    &&& forall|id: NodeId, at: u32| #[trigger]
        used_at(users, id, at) <==> at < infos.len() && refers(infos[at as int], id)
}

spec fn among(refs: Seq<NodeRef>, n: int, id: NodeId) -> bool {
    exists|k: int| 0 <= k < n && (#[trigger] refs[k]).node == id
}

proof fn lemma_with_use(users: Map<NodeId, Seq<u32>>, node: NodeId, at: u32, id: NodeId, i: u32)
    ensures
        used_at(with_use(users, node, at), id, i) <==> used_at(users, id, i) || (node == id && i
            == at),
{
    if node == id {
        let old_list = if users.dom().contains(id) {
            users[id]
        } else {
            Seq::empty()
        };
        let list = old_list.push(at);
        assert(with_use(users, node, at)[id] =~= list);
        if old_list.contains(i) {
            let k = choose|k: int| 0 <= k < old_list.len() && old_list[k] == i;
            assert(list[k] == i);
        }
        if i == at {
            assert(list[old_list.len() as int] == i);
        }
        if list.contains(i) && i != at {
            let k = choose|k: int| 0 <= k < list.len() && list[k] == i;
            assert(old_list[k] == i);
        }
    }
}

proof fn lemma_with_uses(
    users: Map<NodeId, Seq<u32>>,
    refs: Seq<NodeRef>,
    n: int,
    at: u32,
    id: NodeId,
    i: u32,
)
    requires
        0 <= n <= refs.len(),
    ensures
        used_at(with_uses(users, refs, n, at), id, i) <==> used_at(users, id, i) || (i == at
            && among(refs, n, id)),
    decreases n,
{
    if n > 0 {
        lemma_with_uses(users, refs, n - 1, at, id, i);
        lemma_with_use(with_uses(users, refs, n - 1, at), refs[n - 1].node, at, id, i);
        if among(refs, n - 1, id) {
            let k = choose|k: int| 0 <= k < n - 1 && (#[trigger] refs[k]).node == id;
            assert(refs[k].node == id);
        }
        if among(refs, n, id) && refs[n - 1].node != id {
            let k = choose|k: int| 0 <= k < n && (#[trigger] refs[k]).node == id;
            assert(refs[k].node == id && k < n - 1);
        }
        if refs[n - 1].node == id {
            assert(among(refs, n, id));
        }
    }
}

/// Two lines say the same of definitions and uses.
spec fn same_links(a: LineModel, b: LineModel) -> bool {
    &&& refs_of(a) == refs_of(b)
    &&& (a is Node <==> b is Node)
    &&& a is Node ==> a == b
}

proof fn lemma_claimed(infos: Seq<LineModel>, waiting: Seq<usize>, n: int, node: NodeId)
    ensures
        claimed_by(infos, waiting, n, node).len() == infos.len(),
        forall|j: int|
            0 <= j < infos.len() ==> same_links(
                #[trigger] claimed_by(infos, waiting, n, node)[j],
                infos[j],
            ),
    decreases n,
{
    if n > 0 {
        lemma_claimed(infos, waiting, n - 1, node);
        let before = claimed_by(infos, waiting, n - 1, node);
        let out = claimed_by(infos, waiting, n, node);
        assert forall|j: int| 0 <= j < infos.len() implies same_links(#[trigger] out[j], infos[j]) by {
            assert(same_links(before[j], infos[j]));
        }
    }
}

/// One more line, recorded, keeps what is recorded in step with the lines.
proof fn lemma_recorded(
    before: Seq<LineModel>,
    infos: Seq<LineModel>,
    info: LineModel,
    defs: Map<NodeId, u32>,
    users: Map<NodeId, Seq<u32>>,
)
    requires
        linked(before, defs, users),
        before.len() == infos.len() < u32::MAX,
        forall|j: int| 0 <= j < infos.len() ==> same_links(#[trigger] infos[j], before[j]),
    ensures
        ({
            let at = infos.len() as u32;
            linked(
                infos.push(info),
                if info matches LineModel::Node(node) && node.id != SCHEDULE_ONLY {
                    defs.insert(info->Node_0.id, at)
                } else {
                    defs
                },
                with_uses(users, refs_of(info), refs_of(info).len() as int, at),
            )
        }),
{
    let at = infos.len() as u32;
    let all = infos.push(info);
    let after = if info matches LineModel::Node(node) && node.id != SCHEDULE_ONLY {
        defs.insert(info->Node_0.id, at)
    } else {
        defs
    };
    let n = refs_of(info).len() as int;
    let used = with_uses(users, refs_of(info), n, at);
    assert forall|id: NodeId| #[trigger] after.dom().contains(id) implies after[id] < all.len()
        && defines(all[after[id] as int], id) by {
        if !defines(info, id) {
            assert(defs.dom().contains(id));
            assert(same_links(infos[defs[id] as int], before[defs[id] as int]));
        }
    }
    assert forall|i: int, id: NodeId|
        0 <= i < all.len() && #[trigger] defines(all[i], id) implies after.dom().contains(id) && i
        <= after[id] by {
        if i < infos.len() {
            assert(same_links(infos[i], before[i]));
            assert(defines(before[i], id));
        }
    }
    assert forall|id: NodeId, i: u32| #[trigger]
        used_at(used, id, i) <==> i < all.len() && refers(all[i as int], id) by {
        lemma_with_uses(users, refs_of(info), n, at, id, i);
        assert(used_at(users, id, i) <==> i < before.len() && refers(before[i as int], id));
        if i < infos.len() {
            assert(same_links(infos[i as int], before[i as int]));
        }
        if i == at {
            assert(all[i as int] == info);
            assert(among(refs_of(info), n, id) <==> refers(info, id));
        }
    }
}

/// A graph records what its lines say.
pub proof fn law_graph_links(
    lines: Seq<Seq<u8>>,
    start: int,
    m: InternModel,
    parsed: ParsedModel,
    n: int,
)
    requires
        0 <= n <= lines.len(),
        n <= u32::MAX,
    ensures
        ({
            let phase = graph_state(lines, start, m, parsed, n).phase;
            linked(phase.infos, phase.defs, phase.users)
        }),
    decreases n,
{
    if n > 0 {
        law_graph_links(lines, start, m, parsed, n - 1);
        super::graph::law_graph_lines_are_all_classified(lines, start, m, parsed, n - 1);
        let before = graph_state(lines, start, m, parsed, n - 1);
        let s = lines[n - 1];
        if n == 1 {
            lemma_graph_line(before, before.mem, LineModel::Banner, s, start);
        } else {
            let (info, mem) = graph_line(s, before.mem);
            lemma_graph_line(before, mem, info, s, start + n - 1);
        }
    }
}

proof fn lemma_graph_line(
    st: GraphState,
    mem: MemoryModel,
    info: LineModel,
    s: Seq<u8>,
    line: int,
)
    requires
        linked(st.phase.infos, st.phase.defs, st.phase.users),
        st.phase.infos.len() < u32::MAX,
    ensures
        ({
            let phase = after_line(st, mem, info, s, line).phase;
            linked(phase.infos, phase.defs, phase.users)
        }),
{
    reveal(after_line);
    let infos = st.phase.infos;
    match info {
        LineModel::Node(node) => {
            let w = st.waiting.len() as int;
            lemma_claimed(infos, st.waiting, w, node.id);
            lemma_recorded(
                infos,
                claimed_by(infos, st.waiting, w, node.id),
                info,
                st.phase.defs,
                st.phase.users,
            );
        },
        _ => {
            let shown = after_line(st, mem, info, s, line).phase.infos.last();
            lemma_recorded(infos, infos, shown, st.phase.defs, st.phase.users);
        },
    }
}

/// The line neither defines nor refers to a node.
spec fn silent(info: LineModel) -> bool {
    !(info is Node) && refs_of(info).len() == 0
}

proof fn lemma_grammar_line(grammar: Grammar, s: Seq<u8>, m: InternModel, last: Option<NodeId>)
    ensures
        ({
            let info = grammar_line(grammar, s, m, last).info;
            info is Node || silent(info)
        }),
{
    reveal(grammar_line);
}

/// A phase of the optimising pipeline records what its lines say.
pub proof fn law_pipeline_links(grammar: Grammar, lines: Seq<Seq<u8>>, m: InternModel, n: int)
    requires
        0 <= n <= lines.len(),
        n <= u32::MAX,
    ensures
        ({
            let phase = phase_state(grammar, lines, m, n).phase;
            linked(phase.infos, phase.defs, phase.users)
        }),
    decreases n,
{
    reveal(recorded);
    if n > 0 {
        law_pipeline_links(grammar, lines, m, n - 1);
        super::turbofan::law_lines_are_all_classified(grammar, lines, m, n - 1);
        let before = phase_state(grammar, lines, m, n - 1);
        let phase = before.phase;
        if n == 1 {
            lemma_recorded(phase.infos, phase.infos, LineModel::Banner, phase.defs, phase.users);
        } else {
            lemma_grammar_line(grammar, lines[n - 1], before.interned, before.last_node);
            let info = grammar_line(grammar, lines[n - 1], before.interned, before.last_node).info;
            lemma_recorded(phase.infos, phase.infos, info, phase.defs, phase.users);
        }
    }
}

/// A phase without nodes records nothing.
proof fn lemma_silent(infos: Seq<LineModel>)
    requires
        forall|i: int| 0 <= i < infos.len() ==> silent(#[trigger] infos[i]),
    ensures
        linked(infos, Map::empty(), Map::empty()),
{
    assert forall|id: NodeId, at: u32| #[trigger]
        used_at(Map::<NodeId, Seq<u32>>::empty(), id, at) <==> at < infos.len() && refers(
            infos[at as int],
            id,
        ) by {
        if at < infos.len() {
            assert(silent(infos[at as int]));
        }
    }
    assert forall|i: int, id: NodeId| 0 <= i < infos.len() && #[trigger] defines(infos[i], id) implies
        false by {
        assert(silent(infos[i]));
    }
}

proof fn lemma_row_is_silent(s: Seq<u8>, region: super::graph::DumpRegion)
    ensures
        super::graph::region_row(s, region) matches Some(info) ==> silent(info),
{
}

proof fn lemma_dump_is_silent(lines: Seq<Seq<u8>>, start: int, parsed: ParsedModel, n: int)
    ensures
        ({
            let phase = dump_state(lines, start, parsed, n).phase;
            &&& phase.defs == Map::<NodeId, u32>::empty()
            &&& phase.users == Map::<NodeId, Seq<u32>>::empty()
            &&& forall|i: int| 0 <= i < phase.infos.len() ==> silent(#[trigger] phase.infos[i])
        }),
    decreases n,
{
    reveal(after_dump_line);
    if n > 0 {
        lemma_dump_is_silent(lines, start, parsed, n - 1);
        let before = dump_state(lines, start, parsed, n - 1);
        lemma_row_is_silent(lines[n - 1], before.region);
    }
}

proof fn lemma_listing_is_silent(name: Seq<u8>, lines: Seq<Seq<u8>>)
    ensures
        ({
            let phase = super::listing::listing_phase(name, lines);
            &&& phase.defs == Map::<NodeId, u32>::empty()
            &&& phase.users == Map::<NodeId, Seq<u32>>::empty()
            &&& forall|i: int| 0 <= i < phase.infos.len() ==> silent(#[trigger] phase.infos[i])
        }),
{
}

/// Phase `k` of a parse records what its lines say.
spec fn phase_linked(parsed: ParsedModel, k: int) -> bool {
    linked(parsed.phases[k].infos, parsed.phases[k].defs, parsed.phases[k].users)
}

proof fn lemma_phase_links(
    st: CompileState,
    buffer: LogModel,
    tier: TierModel,
    phase: PhaseSectionModel,
)
    requires
        phase_size(phase) <= u32::MAX,
    ensures
        ({
            let out = after_phase(st, buffer, tier, phase).parsed;
            &&& out.phases.len() == st.parsed.phases.len() + 1
            &&& out.phases.drop_last() == st.parsed.phases
            &&& phase_linked(out, st.parsed.phases.len() as int)
        }),
{
    reveal(after_phase);
    let lines = buffer.texts(phase.start, phase.end);
    let name = vstd::utf8::encode_utf8(phase.name);
    let n = lines.len() as int;
    let out = after_phase(st, buffer, tier, phase).parsed;
    match phase.kind {
        PhaseKindModel::Listing => {
            lemma_listing_is_silent(name, lines);
            lemma_silent(super::listing::listing_phase(name, lines).infos);
        },
        PhaseKindModel::Graph { .. } => {
            law_graph_links(lines, phase.start, st.interned, st.parsed, n);
            law_pipeline_links(super::turbofan::grammar_of(name), lines, st.interned, n);
            super::graph::lemma_graph_keeps_phases(
                lines,
                phase.start,
                st.interned,
                st.parsed,
                n,
            );
        },
        _ => {
            lemma_dump_is_silent(lines, phase.start, st.parsed, n);
            lemma_silent(dump_state(lines, phase.start, st.parsed, n).phase.infos);
            super::graph::lemma_dump_keeps_phases(lines, phase.start, st.parsed, n);
        },
    }
    assert(out.phases.drop_last() =~= st.parsed.phases);
}

proof fn lemma_phases_links(
    start: CompileState,
    buffer: LogModel,
    tier: TierModel,
    phases: Seq<PhaseSectionModel>,
    n: int,
    k: int,
)
    requires
        start.parsed.phases.len() == 0,
        0 <= k < n <= phases.len(),
        forall|j: int| 0 <= j < phases.len() ==> phase_size(#[trigger] phases[j]) <= u32::MAX,
    ensures
        phases_state(start, buffer, tier, phases, n).parsed.phases.len() == n,
        phase_linked(phases_state(start, buffer, tier, phases, n).parsed, k),
    decreases n,
{
    let before = phases_state(start, buffer, tier, phases, n - 1);
    if n > 1 {
        lemma_phases_links(start, buffer, tier, phases, n - 1, if k < n - 1 {
            k
        } else {
            0
        });
    }
    assert(phase_size(phases[n - 1]) <= u32::MAX);
    lemma_phase_links(before, buffer, tier, phases[n - 1]);
    if k < n - 1 {
        let out = phases_state(start, buffer, tier, phases, n).parsed;
        assert(out.phases.drop_last()[k] == out.phases[k]);
    }
}

/// Every phase of a parse records what its lines say: definitions lead to
/// lines that define the node, and a line counts as a use of a node exactly
/// where it refers to it.
pub proof fn law_phases_record_their_links(buffer: LogModel, c: CompilationModel, k: int)
    requires
        0 <= k < c.phases.len(),
        forall|j: int| 0 <= j < c.phases.len() ==> phase_size(#[trigger] c.phases[j]) <= u32::MAX,
    ensures
        ({
            let phase = parsed_compilation(buffer, c).phases[k];
            linked(phase.infos, phase.defs, phase.users)
        }),
{
    let pre = buffer.texts(c.preamble_start, c.preamble_end);
    let (preamble, decisions) = super::compilation::preamble_state(
        pre,
        c.preamble_start,
        c.phases.len() > 0 && c.phases[0].kind == PhaseKindModel::Listing,
        pre.len() as int,
    );
    let start = CompileState {
        interned: super::intern::nothing_interned(),
        parsed: ParsedModel {
            preamble,
            inline_decisions: decisions,
            ..crate::model::empty_parse()
        },
    };
    lemma_phases_links(start, buffer, c.tier, c.phases, c.phases.len() as int, k);
    assert(phase_linked(parsed_compilation(buffer, c), k));
}

} // verus!
