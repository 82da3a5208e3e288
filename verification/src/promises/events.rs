//! Where the events of the timeline lead.

use vstd::prelude::*;
#[allow(unused_imports)]
use vstd::string::*;

#[allow(unused_imports)]
use crate::app::timeline::{
    bound_comp, bytecode_from, correlation, first_behind, frame_from, frame_with_offset,
    latest_before, left_out_from, offset_place, phase_with_offset,
};
#[allow(unused_imports)]
use crate::model::{
    Addr, CompilationModel, DeoptFrame, EventModel, LineModel, ParsedModel, TierModel,
};

verus! {

/// A compilation that an event can lead to: of its function and tier, and not
/// left out by the name filter.
pub open spec fn eligible(c: CompilationModel, sfi: Addr, tier: TierModel) -> bool {
    c.sfi == sfi && c.tier == tier && !c.filtered_out
}

/// `c` is the last compilation of a function that starts before `line`.
pub open spec fn last_before(
    comps: Seq<CompilationModel>,
    sfi: Addr,
    tier: TierModel,
    line: int,
    c: int,
) -> bool {
    &&& 0 <= c < comps.len()
    &&& eligible(comps[c], sfi, tier)
    &&& comps[c].start < line
    &&& forall|k: int|
        c < k < comps.len() && eligible(#[trigger] comps[k], sfi, tier) ==> comps[k].start >= line
}

/// `c` is the first compilation of a function that does not start before
/// `line`.
pub open spec fn next_after(
    comps: Seq<CompilationModel>,
    sfi: Addr,
    tier: TierModel,
    line: int,
    c: int,
) -> bool {
    &&& 0 <= c < comps.len()
    &&& eligible(comps[c], sfi, tier)
    &&& comps[c].start >= line
    &&& forall|k: int|
        0 <= k < c && eligible(#[trigger] comps[k], sfi, tier) ==> comps[k].start < line
}

/// No compilation of a function starts before `line`.
pub open spec fn none_before(
    comps: Seq<CompilationModel>,
    sfi: Addr,
    tier: TierModel,
    line: int,
) -> bool {
    forall|k: int|
        0 <= k < comps.len() && eligible(#[trigger] comps[k], sfi, tier) ==> comps[k].start >= line
}

/// Every compilation of a function starts before `line`.
pub open spec fn none_after(
    comps: Seq<CompilationModel>,
    sfi: Addr,
    tier: TierModel,
    line: int,
) -> bool {
    forall|k: int|
        0 <= k < comps.len() && eligible(#[trigger] comps[k], sfi, tier) ==> comps[k].start < line
}

proof fn lemma_backward(
    comps: Seq<CompilationModel>,
    sfi: Addr,
    tier: TierModel,
    line: int,
    n: int,
)
    requires
        0 <= n <= comps.len(),
        forall|k: int|
            n <= k < comps.len() && eligible(#[trigger] comps[k], sfi, tier) ==> comps[k].start
                >= line,
    ensures
        match latest_before(comps, sfi, tier, line, n) {
            Some(c) => last_before(comps, sfi, tier, line, c),
            None => none_before(comps, sfi, tier, line),
        },
    decreases n,
{
    if n > 0 && !(eligible(comps[n - 1], sfi, tier) && comps[n - 1].start < line) {
        lemma_backward(comps, sfi, tier, line, n - 1);
    }
}

proof fn lemma_forward(
    comps: Seq<CompilationModel>,
    sfi: Addr,
    tier: TierModel,
    line: int,
    i: int,
)
    requires
        0 <= i <= comps.len(),
        forall|k: int|
            0 <= k < i && eligible(#[trigger] comps[k], sfi, tier) ==> comps[k].start < line,
    ensures
        match first_behind(comps, sfi, tier, line, i) {
            Some(c) => next_after(comps, sfi, tier, line, c),
            None => none_after(comps, sfi, tier, line),
        },
    decreases comps.len() - i,
{
    if i < comps.len() && !(eligible(comps[i], sfi, tier) && comps[i].start >= line) {
        lemma_forward(comps, sfi, tier, line, i + 1);
    }
}

/// Where an event on a line leads among the compilations.
pub open spec fn destination(
    comps: Seq<CompilationModel>,
    line: int,
    event: EventModel,
) -> Option<int> {
    match correlation(event) {
        Some((sfi, tier, _, bind)) => bound_comp(comps, sfi, tier, line, bind),
        None => None,
    }
}

/// A completion is reported behind its dump: it leads to the latest compilation
/// of its function and tier that started before it. One that starts behind it
/// is taken only where none did.
pub proof fn law_a_completion_leads_back(
    comps: Seq<CompilationModel>,
    line: int,
    name: Seq<char>,
    sfi: Addr,
    target: TierModel,
    osr: bool,
)
    ensures
        ({
            let event = EventModel::CompileDone { name, sfi: Some(sfi), target, osr };
            let to = destination(comps, line, event);
            &&& !none_before(comps, sfi, target, line) ==> (to matches Some(c) && last_before(
                comps,
                sfi,
                target,
                line,
                c,
            ))
            &&& none_before(comps, sfi, target, line) && !none_after(comps, sfi, target, line)
                ==> (to matches Some(c) && next_after(comps, sfi, target, line, c))
            &&& none_before(comps, sfi, target, line) && none_after(comps, sfi, target, line)
                ==> to is None
        }),
{
    lemma_backward(comps, sfi, target, line, comps.len() as int);
    lemma_forward(comps, sfi, target, line, 0);
}

/// What triggers a compilation is reported before it: a start and a marking
/// lead to the first compilation of their function and tier behind them, and to
/// an earlier one only where none follows.
pub proof fn law_a_trigger_leads_ahead(
    comps: Seq<CompilationModel>,
    line: int,
    name: Seq<char>,
    sfi: Addr,
    target: TierModel,
    osr: bool,
    reason: Seq<char>,
)
    ensures
        ({
            let start = EventModel::CompileStart { name, sfi: Some(sfi), target, osr };
            let mark = EventModel::Marking { name, sfi: Some(sfi), target, reason };
            let to = destination(comps, line, start);
            &&& destination(comps, line, mark) == to
            &&& !none_after(comps, sfi, target, line) ==> (to matches Some(c) && next_after(
                comps,
                sfi,
                target,
                line,
                c,
            ))
            &&& none_after(comps, sfi, target, line) && !none_before(comps, sfi, target, line)
                ==> (to matches Some(c) && last_before(comps, sfi, target, line, c))
            &&& none_before(comps, sfi, target, line) && none_after(comps, sfi, target, line)
                ==> to is None
        }),
{
    lemma_backward(comps, sfi, target, line, comps.len() as int);
    lemma_forward(comps, sfi, target, line, 0);
}

/// A deoptimisation tears down code that was compiled before: it leads to the
/// latest compilation of its function and tier in front of it and never to a
/// later one, and on to the bytecode offset that it names.
pub proof fn law_a_deopt_leads_back_only(
    comps: Seq<CompilationModel>,
    line: int,
    kind: Seq<char>,
    reason: Seq<char>,
    name: Seq<char>,
    sfi: Addr,
    tier: TierModel,
    opt_id: Option<u32>,
    offset: Option<u32>,
)
    ensures
        ({
            let event = EventModel::DeoptBegin {
                kind,
                reason,
                name,
                sfi: Some(sfi),
                tier,
                opt_id,
                bytecode_offset: offset,
            };
            let to = destination(comps, line, event);
            &&& correlation(event) matches Some((s, t, o, _)) && s == sfi && t == tier && o
                == offset
            &&& !none_before(comps, sfi, tier, line) ==> (to matches Some(c) && last_before(
                comps,
                sfi,
                tier,
                line,
                c,
            ))
            &&& none_before(comps, sfi, tier, line) ==> to is None
        }),
{
    lemma_backward(comps, sfi, tier, line, comps.len() as int);
}

/// Events that name no function lead nowhere.
pub proof fn law_an_event_without_function_leads_nowhere(
    comps: Seq<CompilationModel>,
    line: int,
    event: EventModel,
)
    requires
        match event {
            EventModel::Marking { sfi, .. } => sfi is None,
            EventModel::CompileStart { sfi, .. } => sfi is None,
            EventModel::CompileDone { sfi, .. } => sfi is None,
            EventModel::DeoptBegin { sfi, .. } => sfi is None,
            EventModel::DeoptEnd { .. } => true,
            EventModel::Osr { .. } => true,
        },
    ensures
        correlation(event) is None,
        destination(comps, line, event) is None,
{
}

proof fn lemma_left_out(comps: Seq<CompilationModel>, sfi: Addr, tier: TierModel, i: int)
    requires
        0 <= i,
    ensures
        left_out_from(comps, sfi, tier, i) <==> exists|k: int|
            i <= k < comps.len() && (#[trigger] comps[k]).sfi == sfi && comps[k].tier == tier
                && comps[k].filtered_out,
    decreases comps.len() - i,
{
    if i < comps.len() {
        lemma_left_out(comps, sfi, tier, i + 1);
        if exists|k: int|
            i <= k < comps.len() && (#[trigger] comps[k]).sfi == sfi && comps[k].tier == tier
                && comps[k].filtered_out {
            let k = choose|k: int|
                i <= k < comps.len() && (#[trigger] comps[k]).sfi == sfi && comps[k].tier == tier
                    && comps[k].filtered_out;
            if k != i {
                assert(i + 1 <= k < comps.len() && comps[k].sfi == sfi);
            }
        }
    }
}

/// A function counts as hidden by the filter exactly where a compilation of it
/// is.
pub proof fn law_hidden_means_left_out(comps: Seq<CompilationModel>, sfi: Addr, tier: TierModel)
    ensures
        left_out_from(comps, sfi, tier, 0) <==> exists|k: int|
            0 <= k < comps.len() && (#[trigger] comps[k]).sfi == sfi && comps[k].tier == tier
                && comps[k].filtered_out,
{
    lemma_left_out(comps, sfi, tier, 0);
}

// ---------------------------------------------------------------------------
// Bytecode offsets
// ---------------------------------------------------------------------------

/// Line `i` of phase `p` is a bytecode row at the offset, in a phase of the
/// kind.
pub open spec fn row_at_offset(
    section: CompilationModel,
    parsed: ParsedModel,
    offset: u32,
    graph: bool,
    p: int,
    i: int,
) -> bool {
    &&& 0 <= p < section.phases.len()
    &&& 0 <= i < parsed.phases[p].infos.len()
    &&& if graph {
        section.phases[p].kind is Graph
    } else {
        section.phases[p].kind is Bytecode
    }
    &&& parsed.phases[p].infos[i] matches LineModel::Bytecode(bc) && bc.offset == offset
}

/// Line `i` of phase `p` is a deopt frame at the offset.
pub open spec fn frame_at_offset(
    section: CompilationModel,
    parsed: ParsedModel,
    offset: u32,
    p: int,
    i: int,
) -> bool {
    &&& 0 <= p < section.phases.len()
    &&& 0 <= i < parsed.phases[p].infos.len()
    &&& parsed.phases[p].infos[i] matches LineModel::Frame { frame, .. } && frame
        < parsed.frames.len() && parsed.frames[frame as int].bytecode_offset == Some(offset as i32)
}

proof fn lemma_bytecode_from(infos: Seq<LineModel>, offset: u32, i: int)
    requires
        0 <= i,
    ensures
        match bytecode_from(infos, offset, i) {
            Some(k) => i <= k < infos.len() && (infos[k] matches LineModel::Bytecode(bc)
                && bc.offset == offset) && forall|j: int|
                i <= j < k ==> !(#[trigger] infos[j] matches LineModel::Bytecode(bc) && bc.offset
                    == offset),
            None => forall|j: int|
                i <= j < infos.len() ==> !(#[trigger] infos[j] matches LineModel::Bytecode(bc)
                    && bc.offset == offset),
        },
    decreases infos.len() - i,
{
    if i < infos.len() {
        lemma_bytecode_from(infos, offset, i + 1);
    }
}

proof fn lemma_phase_with(
    section: CompilationModel,
    parsed: ParsedModel,
    offset: u32,
    graph: bool,
    p: int,
)
    requires
        0 <= p,
    ensures
        match phase_with_offset(section, parsed, offset, graph, p) {
            Some(line) => exists|q: int, i: int| #[trigger]
                row_at_offset(section, parsed, offset, graph, q, i) && p <= q && line
                    == section.phases[q].start + i && forall|r: int, j: int|
                    p <= r && (r < q || (r == q && j < i)) ==> !#[trigger] row_at_offset(
                        section,
                        parsed,
                        offset,
                        graph,
                        r,
                        j,
                    ),
            None => forall|r: int, j: int|
                p <= r ==> !#[trigger] row_at_offset(section, parsed, offset, graph, r, j),
        },
    decreases section.phases.len() - p,
{
    if p < section.phases.len() {
        let infos = parsed.phases[p].infos;
        lemma_bytecode_from(infos, offset, 0);
        let fits = if graph {
            section.phases[p].kind is Graph
        } else {
            section.phases[p].kind is Bytecode
        };
        if fits && bytecode_from(infos, offset, 0) is Some {
            let i = bytecode_from(infos, offset, 0)->0;
            assert(row_at_offset(section, parsed, offset, graph, p, i));
        } else {
            lemma_phase_with(section, parsed, offset, graph, p + 1);
            assert forall|j: int| !#[trigger] row_at_offset(
                section,
                parsed,
                offset,
                graph,
                p,
                j,
            ) by {
                if row_at_offset(section, parsed, offset, graph, p, j) {
                    assert(infos[j] matches LineModel::Bytecode(bc) && bc.offset == offset);
                }
            }
        }
    }
}

proof fn lemma_frame_from(infos: Seq<LineModel>, frames: Seq<DeoptFrame>, offset: u32, i: int)
    requires
        0 <= i,
    ensures
        match frame_from(infos, frames, offset, i) {
            Some(k) => i <= k < infos.len() && crate::app::timeline::frame_at(
                frames,
                infos[k],
                offset,
            ) && forall|j: int|
                i <= j < k ==> !crate::app::timeline::frame_at(frames, #[trigger] infos[j], offset),
            None => forall|j: int|
                i <= j < infos.len() ==> !crate::app::timeline::frame_at(
                    frames,
                    #[trigger] infos[j],
                    offset,
                ),
        },
    decreases infos.len() - i,
{
    if i < infos.len() {
        lemma_frame_from(infos, frames, offset, i + 1);
    }
}

proof fn lemma_frame_with(section: CompilationModel, parsed: ParsedModel, offset: u32, p: int)
    requires
        0 <= p,
    ensures
        match frame_with_offset(section, parsed, offset, p) {
            Some(line) => exists|q: int, i: int| #[trigger]
                frame_at_offset(section, parsed, offset, q, i) && p <= q && line
                    == section.phases[q].start + i && forall|r: int, j: int|
                    p <= r && (r < q || (r == q && j < i)) ==> !#[trigger] frame_at_offset(
                        section,
                        parsed,
                        offset,
                        r,
                        j,
                    ),
            None => forall|r: int, j: int|
                p <= r ==> !#[trigger] frame_at_offset(section, parsed, offset, r, j),
        },
    decreases section.phases.len() - p,
{
    if p < section.phases.len() {
        let infos = parsed.phases[p].infos;
        lemma_frame_from(infos, parsed.frames, offset, 0);
        if frame_from(infos, parsed.frames, offset, 0) is Some {
            let i = frame_from(infos, parsed.frames, offset, 0)->0;
            assert(frame_at_offset(section, parsed, offset, p, i));
            assert forall|r: int, j: int| p <= r && (r < p || (r == p && j < i)) implies !#[trigger]
            frame_at_offset(section, parsed, offset, r, j) by {
                if frame_at_offset(section, parsed, offset, p, j) {
                    assert(crate::app::timeline::frame_at(parsed.frames, infos[j], offset));
                }
            }
        } else {
            lemma_frame_with(section, parsed, offset, p + 1);
            assert forall|j: int| !#[trigger] frame_at_offset(section, parsed, offset, p, j) by {
                if frame_at_offset(section, parsed, offset, p, j) {
                    assert(crate::app::timeline::frame_at(parsed.frames, infos[j], offset));
                }
            }
        }
    }
}

/// A bytecode offset is found on the earliest graph row that has it; without
/// one, on the earliest deopt frame at it; without that, in the bytecode array;
/// and nowhere only where none of these has it.
pub proof fn law_an_offset_is_found_in_the_earliest_graph(
    section: CompilationModel,
    parsed: ParsedModel,
    offset: u32,
)
    ensures
        ({
            let found = offset_place(section, parsed, offset);
            let graph = exists|p: int, i: int| #[trigger]
                row_at_offset(section, parsed, offset, true, p, i);
            let frame = exists|p: int, i: int| #[trigger]
                frame_at_offset(section, parsed, offset, p, i);
            let array = exists|p: int, i: int| #[trigger]
                row_at_offset(section, parsed, offset, false, p, i);
            &&& graph ==> exists|p: int, i: int| #[trigger]
                row_at_offset(section, parsed, offset, true, p, i) && found == Some(
                    (section.phases[p].start + i, "graph"@),
                ) && forall|r: int, j: int|
                    r < p || (r == p && j < i) ==> !#[trigger] row_at_offset(
                        section,
                        parsed,
                        offset,
                        true,
                        r,
                        j,
                    )
            &&& !graph && frame ==> exists|p: int, i: int| #[trigger]
                frame_at_offset(section, parsed, offset, p, i) && found == Some(
                    (section.phases[p].start + i, "deopt frame"@),
                ) && forall|r: int, j: int|
                    r < p || (r == p && j < i) ==> !#[trigger] frame_at_offset(
                        section,
                        parsed,
                        offset,
                        r,
                        j,
                    )
            &&& !graph && !frame && array ==> exists|p: int, i: int| #[trigger]
                row_at_offset(section, parsed, offset, false, p, i) && found == Some(
                    (section.phases[p].start + i, "bytecode array"@),
                ) && forall|r: int, j: int|
                    r < p || (r == p && j < i) ==> !#[trigger] row_at_offset(
                        section,
                        parsed,
                        offset,
                        false,
                        r,
                        j,
                    )
            &&& !graph && !frame && !array ==> found is None
        }),
{
    lemma_phase_with(section, parsed, offset, true, 0);
    lemma_frame_with(section, parsed, offset, 0);
    lemma_phase_with(section, parsed, offset, false, 0);
}

} // verus!
