//! What is compared, and how a comparison is summed up.

use vstd::prelude::*;

#[allow(unused_imports)]
use crate::app::compare::{counterpart, dual_phases, first_graph, graph_named, last_graph};
#[allow(unused_imports)]
use crate::app::{AppModel, Row};
#[allow(unused_imports)]
use crate::diff::align::Step;
#[allow(unused_imports)]
use crate::diff::side::{node_id_of, numbering, SideModel};
#[allow(unused_imports)]
use crate::diff::{
    aligned, judged, single_judged, with_added, with_deleted, with_pairs, with_step, with_steps,
    Aligned, DiffRow, RowStatus, Summary,
};
#[allow(unused_imports)]
use crate::model::{CompilationModel, NodeId, ParsedModel, PhaseSectionModel};
#[allow(unused_imports)]
use crate::view::ViewRow;

verus! {

// ---------------------------------------------------------------------------
// Summaries
// ---------------------------------------------------------------------------

/// The numbers of a summary.
pub enum Figure {
    NodesAdded,
    NodesDeleted,
    NodesChanged,
    NodesReplaced,
    NodesMoved,
    LinesAdded,
    LinesDeleted,
}

/// A row of a side is a node's.
pub open spec fn is_node_row(side: SideModel, at: Option<usize>) -> bool {
    at matches Some(k) && (side.keys[k as int] is Node || side.keys[k as int] is Structure)
}

/// A row counts in a number of the summary. A node that moved counts where it
/// was.
pub open spec fn counts_in(left: SideModel, right: SideModel, row: DiffRow, what: Figure) -> bool {
    match what {
        Figure::NodesAdded => row.status is Added && is_node_row(right, row.right),
        Figure::LinesAdded => row.status is Added && !is_node_row(right, row.right),
        Figure::NodesDeleted => row.status is Deleted && is_node_row(left, row.left),
        Figure::LinesDeleted => row.status is Deleted && !is_node_row(left, row.left),
        Figure::NodesReplaced => row.status is Replaced,
        Figure::NodesMoved => row.status is Moved && row.left is Some,
        Figure::NodesChanged => row.status is Changed || (row.status == (RowStatus::Moved {
            changed: true,
        }) && row.left is Some),
    }
}

/// How many of the first `n` rows count in a number.
pub open spec fn how_many(
    left: SideModel,
    right: SideModel,
    rows: Seq<DiffRow>,
    what: Figure,
    n: int,
) -> int
    decreases n,
{
    if n <= 0 {
        0
    } else {
        how_many(left, right, rows, what, n - 1) + (if counts_in(left, right, rows[n - 1], what) {
            1int
        } else {
            0
        })
    }
}

/// A number of a summary.
pub open spec fn figure_of(s: Summary, what: Figure) -> int {
    match what {
        Figure::NodesAdded => s.nodes_added as int,
        Figure::NodesDeleted => s.nodes_deleted as int,
        Figure::NodesChanged => s.nodes_changed as int,
        Figure::NodesReplaced => s.nodes_replaced as int,
        Figure::NodesMoved => s.nodes_moved as int,
        Figure::LinesAdded => s.lines_added as int,
        Figure::LinesDeleted => s.lines_deleted as int,
    }
}

spec fn in_step(left: SideModel, right: SideModel, st: Aligned) -> bool {
    forall|what: Figure| #[trigger]
        figure_of(st.summary, what) == how_many(
            left,
            right,
            st.rows,
            what,
            st.rows.len() as int,
        )
}

proof fn lemma_same_rows(
    left: SideModel,
    right: SideModel,
    a: Seq<DiffRow>,
    b: Seq<DiffRow>,
    what: Figure,
    n: int,
)
    requires
        forall|k: int| 0 <= k < n ==> a[k] == b[k],
    ensures
        how_many(left, right, a, what, n) == how_many(left, right, b, what, n),
    decreases n,
{
    if n > 0 {
        lemma_same_rows(left, right, a, b, what, n - 1);
    }
}

proof fn lemma_bound(left: SideModel, right: SideModel, rows: Seq<DiffRow>, what: Figure, n: int)
    requires
        0 <= n,
    ensures
        0 <= how_many(left, right, rows, what, n) <= n,
    decreases n,
{
    if n > 0 {
        lemma_bound(left, right, rows, what, n - 1);
    }
}

proof fn lemma_with(
    left: SideModel,
    right: SideModel,
    st: Aligned,
    l: Option<usize>,
    r: Option<usize>,
    judgement: (RowStatus, Summary),
)
    requires
        in_step(left, right, st),
        forall|what: Figure| #[trigger]
            figure_of(judgement.1, what) == figure_of(st.summary, what) + (if counts_in(
                left,
                right,
                DiffRow { left: l, right: r, status: judgement.0 },
                what,
            ) {
                1int
            } else {
                0
            }),
    ensures
        in_step(left, right, st.with(l, r, judgement)),
{
    let out = st.with(l, r, judgement);
    let n = st.rows.len() as int;
    assert forall|what: Figure| #[trigger]
        figure_of(out.summary, what) == how_many(left, right, out.rows, what, n + 1) by {
        assert(figure_of(st.summary, what) == how_many(left, right, st.rows, what, n));
        lemma_same_rows(left, right, st.rows, out.rows, what, n);
        assert(figure_of(judgement.1, what) == figure_of(st.summary, what) + (if counts_in(
            left,
            right,
            out.rows[n],
            what,
        ) {
            1int
        } else {
            0
        }));
    }
}

proof fn lemma_room(left: SideModel, right: SideModel, st: Aligned, what: Figure)
    requires
        in_step(left, right, st),
        st.rows.len() < usize::MAX,
    ensures
        figure_of(st.summary, what) < usize::MAX,
{
    assert(figure_of(st.summary, what) == how_many(
        left,
        right,
        st.rows,
        what,
        st.rows.len() as int,
    ));
    lemma_bound(left, right, st.rows, what, st.rows.len() as int);
}

proof fn lemma_rooms(left: SideModel, right: SideModel, st: Aligned)
    requires
        in_step(left, right, st),
        st.rows.len() < usize::MAX,
    ensures
        st.summary.nodes_added < usize::MAX,
        st.summary.nodes_deleted < usize::MAX,
        st.summary.nodes_changed < usize::MAX,
        st.summary.nodes_replaced < usize::MAX,
        st.summary.nodes_moved < usize::MAX,
        st.summary.lines_added < usize::MAX,
        st.summary.lines_deleted < usize::MAX,
{
    lemma_room(left, right, st, Figure::NodesAdded);
    lemma_room(left, right, st, Figure::NodesDeleted);
    lemma_room(left, right, st, Figure::NodesChanged);
    lemma_room(left, right, st, Figure::NodesReplaced);
    lemma_room(left, right, st, Figure::NodesMoved);
    lemma_room(left, right, st, Figure::LinesAdded);
    lemma_room(left, right, st, Figure::LinesDeleted);
}

proof fn lemma_pairs(st: Aligned, left: SideModel, l: int, right: SideModel, r: int, n: int)
    requires
        in_step(left, right, st),
        0 <= n,
        0 <= l,
        0 <= r,
        l + n <= usize::MAX,
        r + n <= usize::MAX,
        st.rows.len() + n <= usize::MAX,
    ensures
        in_step(left, right, with_pairs(st, left, l, right, r, n)),
        with_pairs(st, left, l, right, r, n).rows.len() == st.rows.len() + n,
    decreases n,
{
    if n > 0 {
        lemma_pairs(st, left, l, right, r, n - 1);
        let before = with_pairs(st, left, l, right, r, n - 1);
        lemma_rooms(left, right, before);
        lemma_with(
            left,
            right,
            before,
            Some((l + n - 1) as usize),
            Some((r + n - 1) as usize),
            judged(left, l + n - 1, right, r + n - 1, before.summary),
        );
    }
}

proof fn lemma_deleted(st: Aligned, left: SideModel, l: int, right: SideModel, n: int)
    requires
        in_step(left, right, st),
        0 <= n,
        0 <= l,
        l + n <= usize::MAX,
        st.rows.len() + n <= usize::MAX,
    ensures
        in_step(left, right, with_deleted(st, left, l, right, n)),
        with_deleted(st, left, l, right, n).rows.len() == st.rows.len() + n,
    decreases n,
{
    if n > 0 {
        lemma_deleted(st, left, l, right, n - 1);
        let before = with_deleted(st, left, l, right, n - 1);
        lemma_rooms(left, right, before);
        lemma_with(
            left,
            right,
            before,
            Some((l + n - 1) as usize),
            None,
            single_judged(left.keys[l + n - 1], left, right, before.summary, false),
        );
    }
}

proof fn lemma_added(st: Aligned, left: SideModel, right: SideModel, r: int, n: int)
    requires
        in_step(left, right, st),
        0 <= n,
        0 <= r,
        r + n <= usize::MAX,
        st.rows.len() + n <= usize::MAX,
    ensures
        in_step(left, right, with_added(st, left, right, r, n)),
        with_added(st, left, right, r, n).rows.len() == st.rows.len() + n,
    decreases n,
{
    if n > 0 {
        lemma_added(st, left, right, r, n - 1);
        let before = with_added(st, left, right, r, n - 1);
        lemma_rooms(left, right, before);
        lemma_with(
            left,
            right,
            before,
            None,
            Some((r + n - 1) as usize),
            single_judged(right.keys[r + n - 1], right, left, before.summary, true),
        );
    }
}

proof fn lemma_longer(st: Aligned, left: SideModel, right: SideModel, step: Step)
    ensures
        with_step(st, left, right, step).rows.len() == st.rows.len() + (match step {
            Step::Equal { len, .. } => len as int,
            Step::Delete { len, .. } => len as int,
            Step::Insert { len, .. } => len as int,
            Step::Replace { old_len, new_len, .. } => old_len + new_len,
        }),
{
    match step {
        Step::Equal { old, new, len } => {
            lemma_pairs_len(st, left, old as int, right, new as int, len as int);
        },
        Step::Delete { old, len } => {
            lemma_deleted_len(st, left, old as int, right, len as int);
        },
        Step::Insert { new, len } => {
            lemma_added_len(st, left, right, new as int, len as int);
        },
        Step::Replace { old, old_len, new, new_len } => {
            lemma_deleted_len(st, left, old as int, right, old_len as int);
            lemma_added_len(
                with_deleted(st, left, old as int, right, old_len as int),
                left,
                right,
                new as int,
                new_len as int,
            );
        },
    }
}

proof fn lemma_pairs_len(st: Aligned, left: SideModel, l: int, right: SideModel, r: int, n: int)
    requires
        0 <= n,
    ensures
        with_pairs(st, left, l, right, r, n).rows.len() == st.rows.len() + n,
    decreases n,
{
    if n > 0 {
        lemma_pairs_len(st, left, l, right, r, n - 1);
    }
}

proof fn lemma_deleted_len(st: Aligned, left: SideModel, l: int, right: SideModel, n: int)
    requires
        0 <= n,
    ensures
        with_deleted(st, left, l, right, n).rows.len() == st.rows.len() + n,
    decreases n,
{
    if n > 0 {
        lemma_deleted_len(st, left, l, right, n - 1);
    }
}

proof fn lemma_added_len(st: Aligned, left: SideModel, right: SideModel, r: int, n: int)
    requires
        0 <= n,
    ensures
        with_added(st, left, right, r, n).rows.len() == st.rows.len() + n,
    decreases n,
{
    if n > 0 {
        lemma_added_len(st, left, right, r, n - 1);
    }
}

/// The place and the length of every step can be counted.
pub open spec fn steps_fit(steps: Seq<Step>) -> bool {
    forall|k: int|
        0 <= k < steps.len() ==> match #[trigger] steps[k] {
            Step::Equal { old, new, len } => old + len <= usize::MAX && new + len <= usize::MAX,
            Step::Delete { old, len } => old + len <= usize::MAX,
            Step::Insert { new, len } => new + len <= usize::MAX,
            Step::Replace { old, old_len, new, new_len } => old + old_len <= usize::MAX && new
                + new_len <= usize::MAX,
        }
}

proof fn lemma_steps(left: SideModel, right: SideModel, steps: Seq<Step>, k: int)
    requires
        0 <= k <= steps.len(),
        steps_fit(steps),
        with_steps(left, right, steps, k).rows.len() <= usize::MAX,
    ensures
        in_step(left, right, with_steps(left, right, steps, k)),
    decreases k,
{
    if k > 0 {
        let before = with_steps(left, right, steps, k - 1);
        let step = steps[k - 1];
        lemma_longer(before, left, right, step);
        lemma_steps(left, right, steps, k - 1);
        match step {
            Step::Equal { old, new, len } => {
                lemma_pairs(before, left, old as int, right, new as int, len as int);
            },
            Step::Delete { old, len } => {
                lemma_deleted(before, left, old as int, right, len as int);
            },
            Step::Insert { new, len } => {
                lemma_added(before, left, right, new as int, len as int);
            },
            Step::Replace { old, old_len, new, new_len } => {
                lemma_deleted(before, left, old as int, right, old_len as int);
                lemma_added(
                    with_deleted(before, left, old as int, right, old_len as int),
                    left,
                    right,
                    new as int,
                    new_len as int,
                );
            },
        }
    } else {
        let st = with_steps(left, right, steps, 0);
        assert forall|what: Figure| #[trigger]
            figure_of(st.summary, what) == how_many(left, right, st.rows, what, 0) by {}
    }
}

/// The summary of a comparison counts its rows: each number is how many rows have
/// that mark.
pub proof fn law_the_summary_counts_the_rows(
    left: SideModel,
    right: SideModel,
    steps: Seq<Step>,
    what: Figure,
)
    requires
        steps_fit(steps),
        aligned(left, right, steps).rows.len() <= usize::MAX,
    ensures
        figure_of(aligned(left, right, steps).summary, what) == how_many(
            left,
            right,
            aligned(left, right, steps).rows,
            what,
            aligned(left, right, steps).rows.len() as int,
        ),
{
    lemma_steps(left, right, steps, steps.len() as int);
    let st = aligned(left, right, steps);
    assert(figure_of(st.summary, what) == how_many(
        left,
        right,
        st.rows,
        what,
        st.rows.len() as int,
    ));
}

// ---------------------------------------------------------------------------
// Phases and compilations
// ---------------------------------------------------------------------------

proof fn lemma_first_graph(phases: Seq<PhaseSectionModel>, i: int)
    requires
        0 <= i,
    ensures
        first_graph(phases, i) matches Some(p) ==> i <= p < phases.len() && phases[p].kind is Graph
            && forall|k: int| i <= k < p ==> !((#[trigger] phases[k]).kind is Graph),
        first_graph(phases, i) is None ==> forall|k: int|
            i <= k < phases.len() ==> !((#[trigger] phases[k]).kind is Graph),
    decreases phases.len() - i,
{
    if i < phases.len() && !(phases[i].kind is Graph) {
        lemma_first_graph(phases, i + 1);
    }
}

proof fn lemma_last_graph(phases: Seq<PhaseSectionModel>, n: int)
    requires
        0 <= n <= phases.len(),
    ensures
        last_graph(phases, n) matches Some(p) ==> 0 <= p < n && phases[p].kind is Graph && forall|
            k: int,
        | p < k < n ==> !((#[trigger] phases[k]).kind is Graph),
        last_graph(phases, n) is None ==> forall|k: int|
            0 <= k < n ==> !((#[trigger] phases[k]).kind is Graph),
    decreases n,
{
    if n > 0 && !(phases[n - 1].kind is Graph) {
        lemma_last_graph(phases, n - 1);
    }
}

/// A phase is compared with the nearest graph in front of it. A compilation is
/// compared with itself, from its first graph to its last.
pub proof fn law_a_pair_spans_what_it_is_offered_for(app: AppModel, comp: usize, phase: usize)
    requires
        comp < app.compilations().len(),
        phase < app.compilations()[comp as int].phases.len(),
    ensures
        ({
            let phases = app.compilations()[comp as int].phases;
            &&& app.offered_pair(Some(Row::Phase { comp, phase })) matches Ok((c, a, b)) ==> {
                &&& c == comp && b == phase
                &&& 0 <= a < b
                &&& phases[a].kind is Graph && phases[b].kind is Graph
                &&& forall|k: int| a < k < b ==> !((#[trigger] phases[k]).kind is Graph)
            }
            &&& app.offered_pair(Some(Row::Phase { comp, phase })) is Err ==> !(
            phases[phase as int].kind is Graph) || forall|k: int|
                0 <= k < phase ==> !((#[trigger] phases[k]).kind is Graph)
            &&& app.offered_pair(Some(Row::Compilation(comp))) matches Ok((c, a, b)) ==> {
                &&& c == comp
                &&& 0 <= a < b < phases.len()
                &&& phases[a].kind is Graph && phases[b].kind is Graph
                &&& forall|k: int| 0 <= k < a ==> !((#[trigger] phases[k]).kind is Graph)
                &&& forall|k: int| b < k < phases.len() ==> !((#[trigger] phases[k]).kind is Graph)
            }
        }),
{
    let phases = app.compilations()[comp as int].phases;
    lemma_last_graph(phases, phase as int);
    lemma_first_graph(phases, 0);
    lemma_last_graph(phases, phases.len() as int);
}

/// A compilation that can stand for `section` in another run.
pub open spec fn eligible(c: CompilationModel, section: CompilationModel) -> bool {
    c.name == section.name && c.tier == section.tier && !c.filtered_out
}

/// In another run a compilation is matched by name and tier. One with the same
/// ordinal is preferred to one without, and otherwise the later ordinal.
pub proof fn law_the_best_counterpart_is_taken(
    comps: Seq<CompilationModel>,
    section: CompilationModel,
    n: int,
    c: int,
)
    requires
        0 <= c < n <= comps.len(),
        eligible(comps[c], section),
    ensures
        counterpart(comps, section, n) matches Some(b) && 0 <= b < n && eligible(comps[b], section)
            && {
            let best = comps[b].ordinal == section.ordinal;
            let same = comps[c].ordinal == section.ordinal;
            &&& same ==> best
            &&& same == best ==> comps[c].ordinal <= comps[b].ordinal
        },
    decreases n,
{
    if c < n - 1 {
        law_the_best_counterpart_is_taken(comps, section, n - 1, c);
    } else if n > 1 {
        lemma_counterpart(comps, section, n - 1);
    }
}

proof fn lemma_counterpart(comps: Seq<CompilationModel>, section: CompilationModel, n: int)
    requires
        0 <= n <= comps.len(),
    ensures
        counterpart(comps, section, n) matches Some(b) ==> 0 <= b < n && eligible(
            comps[b],
            section,
        ),
    decreases n,
{
    if n > 0 {
        lemma_counterpart(comps, section, n - 1);
    }
}

proof fn lemma_graph_named(phases: Seq<PhaseSectionModel>, name: Seq<char>, i: int)
    requires
        0 <= i,
    ensures
        graph_named(phases, name, i) matches Some(p) ==> i <= p < phases.len()
            && phases[p].kind is Graph && phases[p].name == name,
        graph_named(phases, name, i) is None ==> forall|k: int|
            i <= k < phases.len() ==> !((#[trigger] phases[k]).kind is Graph && phases[k].name
                == name),
    decreases phases.len() - i,
{
    if i < phases.len() && !(phases[i].kind is Graph && phases[i].name == name) {
        lemma_graph_named(phases, name, i + 1);
    }
}

/// Phase `k` is a graph with that name.
pub open spec fn graph_called(phases: Seq<PhaseSectionModel>, name: Seq<char>, k: int) -> bool {
    0 <= k < phases.len() && phases[k].kind is Graph && phases[k].name == name
}

/// Across two runs a phase that was picked is compared with a graph of the same
/// name. Where the other run has none, or none was picked, the last graphs are
/// compared.
pub proof fn law_two_runs_are_compared_by_the_name_of_the_phase(
    own: Seq<PhaseSectionModel>,
    p: int,
    theirs: Seq<PhaseSectionModel>,
    k: int,
)
    requires
        0 <= p < own.len(),
    ensures
        graph_called(theirs, own[p].name, k) ==> {
            let (a, b) = dual_phases(own, Some(p), theirs);
            a == Some(p) && b is Some && graph_called(theirs, own[p].name, b->0)
        },
        (forall|j: int| !#[trigger] graph_called(theirs, own[p].name, j)) ==> dual_phases(
            own,
            Some(p),
            theirs,
        ) == (last_graph(own, own.len() as int), last_graph(theirs, theirs.len() as int)),
        dual_phases(own, None, theirs) == (
            last_graph(own, own.len() as int),
            last_graph(theirs, theirs.len() as int),
        ),
{
    lemma_graph_named(theirs, own[p].name, 0);
    match graph_named(theirs, own[p].name, 0) {
        Some(b) => {
            assert(graph_called(theirs, own[p].name, b));
        },
        None => {
            if graph_called(theirs, own[p].name, k) {
                assert(!(theirs[k].kind is Graph && theirs[k].name == own[p].name));
            }
        },
    }
}

// ---------------------------------------------------------------------------
// Definition order
// ---------------------------------------------------------------------------

/// Row `i` is the first that defines `id`.
pub open spec fn first_defines(
    parsed: ParsedModel,
    rows: Seq<ViewRow>,
    i: int,
    id: NodeId,
) -> bool {
    &&& node_id_of(parsed, rows[i]) == Some(id)
    &&& forall|j: int| 0 <= j < i ==> node_id_of(parsed, #[trigger] rows[j]) != Some(id)
}

proof fn lemma_numbered(parsed: ParsedModel, rows: Seq<ViewRow>, n: int)
    requires
        0 <= n <= rows.len() < u32::MAX,
    ensures
        numbering(parsed, rows, n).next <= n,
        forall|id: NodeId| #[trigger]
            numbering(parsed, rows, n).places.dom().contains(id) ==> numbering(
                parsed,
                rows,
                n,
            ).places[id] < numbering(parsed, rows, n).next,
        forall|id: NodeId| #[trigger]
            numbering(parsed, rows, n).places.dom().contains(id) <==> exists|i: int|
                0 <= i < n && node_id_of(parsed, #[trigger] rows[i]) == Some(id),
    decreases n,
{
    if n > 0 {
        lemma_numbered(parsed, rows, n - 1);
        let before = numbering(parsed, rows, n - 1);
        let now = numbering(parsed, rows, n);
        assert forall|id: NodeId| #[trigger] now.places.dom().contains(id) <==> exists|i: int|
            0 <= i < n && node_id_of(parsed, #[trigger] rows[i]) == Some(id) by {
            if before.places.dom().contains(id) {
                let i = choose|i: int|
                    0 <= i < n - 1 && node_id_of(parsed, #[trigger] rows[i]) == Some(id);
                assert(node_id_of(parsed, rows[i]) == Some(id));
            }
            if node_id_of(parsed, rows[n - 1]) == Some(id) {
                assert(now.places.dom().contains(id));
            }
        }
        assert forall|id: NodeId| #[trigger] now.places.dom().contains(id) implies now.places[id]
            < now.next by {
            if before.places.dom().contains(id) {
                assert(before.places[id] < before.next);
            }
        }
    }
}

/// Nodes are numbered in the order in which they are first defined: a node that is
/// defined earlier has the smaller number, so two phases that define the same
/// nodes under other ids give them the same numbers.
pub proof fn law_nodes_are_numbered_in_the_order_of_definition(
    parsed: ParsedModel,
    rows: Seq<ViewRow>,
    n: int,
    i: int,
    j: int,
    a: NodeId,
    b: NodeId,
)
    requires
        0 <= i < j < n <= rows.len() < u32::MAX,
        first_defines(parsed, rows, i, a),
        first_defines(parsed, rows, j, b),
    ensures
        ({
            let places = numbering(parsed, rows, n).places;
            &&& places.dom().contains(a)
            &&& places.dom().contains(b)
            &&& places[a] < places[b]
        }),
    decreases n,
{
    lemma_numbered(parsed, rows, n);
    lemma_numbered(parsed, rows, n - 1);
    let before = numbering(parsed, rows, n - 1);
    let now = numbering(parsed, rows, n);
    assert(node_id_of(parsed, rows[i]) == Some(a));
    assert(node_id_of(parsed, rows[j]) == Some(b));
    if j < n - 1 {
        law_nodes_are_numbered_in_the_order_of_definition(parsed, rows, n - 1, i, j, a, b);
    } else {
        assert(before.places.dom().contains(a));
        assert(!before.places.dom().contains(b)) by {
            if before.places.dom().contains(b) {
                let k = choose|k: int|
                    0 <= k < n - 1 && node_id_of(parsed, #[trigger] rows[k]) == Some(b);
                assert(node_id_of(parsed, rows[k]) != Some(b));
            }
        }
        assert(before.places[a] < before.next);
        assert(now.places[b] == before.next);
        assert(a != b);
        assert(now.places[a] == before.places[a]);
    }
}

} // verus!
