//! A phase compared with itself.

use vstd::prelude::*;

#[allow(unused_imports)]
use super::align::{unchanged, Step};
#[allow(unused_imports)]
use super::side::{node_of, shapes, side_from, KeyModel, SideModel};
#[allow(unused_imports)]
use super::{
    aligned, judged, no_changes, same_rows, single_judged, with_added, with_deleted, with_pairs,
    with_steps, Aligned, DiffRow, RowStatus, Summary,
};
#[allow(unused_imports)]
use crate::model::ParsedModel;
#[allow(unused_imports)]
use crate::source::LogModel;
#[allow(unused_imports)]
use crate::view::ViewRow;

verus! {

/// Rows are known by node id, and every node has its shape.
spec fn by_id(side: SideModel) -> bool {
    forall|k: int|
        0 <= k < side.keys.len() ==> !((#[trigger] side.keys[k]) is Structure) && (
        side.keys[k] matches KeyModel::Node(id) ==> side.nodes.dom().contains(id))
}

proof fn lemma_shape_kept(
    parsed: ParsedModel,
    buffer: LogModel,
    rows: Seq<ViewRow>,
    k: int,
    n: int,
)
    requires
        0 <= k < n <= rows.len(),
        node_of(parsed, rows[k]) is Some,
    ensures
        shapes(parsed, buffer, rows, n).dom().contains(node_of(parsed, rows[k])->0.id),
    decreases n,
{
    if k < n - 1 {
        lemma_shape_kept(parsed, buffer, rows, k, n - 1);
    }
}

proof fn lemma_by_id(parsed: ParsedModel, buffer: LogModel, rows: Seq<ViewRow>, source: int)
    ensures
        by_id(side_from(parsed, buffer, rows, source, true)),
{
    let side = side_from(parsed, buffer, rows, source, true);
    assert forall|k: int| 0 <= k < side.keys.len() implies !((#[trigger] side.keys[k]) is Structure)
        && (side.keys[k] matches KeyModel::Node(id) ==> side.nodes.dom().contains(id)) by {
        if node_of(parsed, rows[k]) is Some {
            lemma_shape_kept(parsed, buffer, rows, k, rows.len() as int);
        }
    }
}

/// No node was added, deleted, changed or replaced.
pub open spec fn no_node_changed(s: Summary) -> bool {
    s.nodes_added == 0 && s.nodes_deleted == 0 && s.nodes_changed == 0 && s.nodes_replaced == 0
}

proof fn lemma_single(side: SideModel, k: int, summary: Summary, added: bool)
    requires
        by_id(side),
        0 <= k < side.keys.len(),
        no_node_changed(summary),
    ensures
        no_node_changed(single_judged(side.keys[k], side, side, summary, added).1),
{
}

proof fn lemma_deleted(st: Aligned, side: SideModel, l: int, n: int)
    requires
        by_id(side),
        0 <= l,
        l + n <= side.keys.len(),
        no_node_changed(st.summary),
    ensures
        no_node_changed(with_deleted(st, side, l, side, n).summary),
    decreases n,
{
    if n > 0 {
        lemma_deleted(st, side, l, n - 1);
        lemma_single(side, l + n - 1, with_deleted(st, side, l, side, n - 1).summary, false);
    }
}

proof fn lemma_added(st: Aligned, side: SideModel, r: int, n: int)
    requires
        by_id(side),
        0 <= r,
        r + n <= side.keys.len(),
        no_node_changed(st.summary),
    ensures
        no_node_changed(with_added(st, side, side, r, n).summary),
    decreases n,
{
    if n > 0 {
        lemma_added(st, side, r, n - 1);
        lemma_single(side, r + n - 1, with_added(st, side, side, r, n - 1).summary, true);
    }
}

proof fn lemma_pairs(st: Aligned, side: SideModel, l: int, r: int, n: int)
    requires
        by_id(side),
        0 <= l,
        l + n <= side.keys.len(),
        no_node_changed(st.summary),
    ensures
        no_node_changed(with_pairs(st, side, l, side, r, n).summary),
    decreases n,
{
    if n > 0 {
        lemma_pairs(st, side, l, r, n - 1);
        let before = with_pairs(st, side, l, side, r, n - 1);
        let key = side.keys[l + n - 1];
        assert(!(key is Structure));
    }
}

proof fn lemma_steps(side: SideModel, steps: Seq<Step>, k: int)
    requires
        by_id(side),
        super::steps_within(steps, side.keys.len() as int, side.keys.len() as int),
        0 <= k <= steps.len(),
    ensures
        no_node_changed(with_steps(side, side, steps, k).summary),
    decreases k,
{
    if k > 0 {
        lemma_steps(side, steps, k - 1);
        let st = with_steps(side, side, steps, k - 1);
        assert(super::step_within(
            steps[k - 1],
            side.keys.len() as int,
            side.keys.len() as int,
        ));
        match steps[k - 1] {
            Step::Equal { old, new, len } => {
                lemma_pairs(st, side, old as int, new as int, len as int);
            },
            Step::Delete { old, len } => {
                lemma_deleted(st, side, old as int, len as int);
            },
            Step::Insert { new, len } => {
                lemma_added(st, side, new as int, len as int);
            },
            Step::Replace { old, old_len, new, new_len } => {
                lemma_deleted(st, side, old as int, old_len as int);
                let mid = with_deleted(st, side, old as int, side, old_len as int);
                lemma_added(mid, side, new as int, new_len as int);
            },
        }
    }
}

proof fn lemma_same_rows(side: SideModel, n: nat)
    requires
        n <= side.keys.len(),
    ensures
        ({
            let start = Aligned { rows: Seq::empty(), summary: no_changes() };
            with_pairs(start, side, 0, side, 0, n as int) == Aligned {
                rows: same_rows(n),
                summary: no_changes(),
            }
        }),
    decreases n,
{
    let start = Aligned { rows: Seq::empty(), summary: no_changes() };
    if n > 0 {
        lemma_same_rows(side, (n - 1) as nat);
        let before = with_pairs(start, side, 0, side, 0, n - 1);
        assert(judged(side, n - 1, side, n - 1, before.summary) == (RowStatus::Same, no_changes()));
        assert(same_rows(n) =~= same_rows((n - 1) as nat).push(
            DiffRow {
                left: Some((n - 1) as usize),
                right: Some((n - 1) as usize),
                status: RowStatus::Same,
            },
        ));
    } else {
        assert(same_rows(n) =~= Seq::empty());
    }
}

/// A phase whose rows all stand beside themselves shows no change: every row
/// says the same on both sides, and nothing is counted.
pub proof fn law_an_unchanged_phase_shows_no_change(side: SideModel, n: nat)
    requires
        n <= side.keys.len(),
        n <= usize::MAX,
    ensures
        aligned(side, side, unchanged(n)).rows == same_rows(n),
        aligned(side, side, unchanged(n)).summary == no_changes(),
{
    reveal_with_fuel(with_steps, 2);
    lemma_same_rows(side, n);
    if n > 0 {
        assert(unchanged(n)[0] == (Step::Equal { old: 0, new: 0, len: n as usize }));
    }
}

/// A phase compared with itself has no node that was added, deleted, changed
/// or replaced, however its rows are aligned.
pub proof fn law_a_phase_does_not_differ_from_itself(
    parsed: ParsedModel,
    buffer: LogModel,
    rows: Seq<ViewRow>,
    source: int,
    steps: Seq<Step>,
)
    requires
        super::steps_within(steps, rows.len() as int, rows.len() as int),
    ensures
        ({
            let side = side_from(parsed, buffer, rows, source, true);
            no_node_changed(aligned(side, side, steps).summary)
        }),
{
    let side = side_from(parsed, buffer, rows, source, true);
    lemma_by_id(parsed, buffer, rows, source);
    lemma_steps(side, steps, steps.len() as int);
}

} // verus!
