//! What a comparison of two phases must report.

use vstd::prelude::*;
#[allow(unused_imports)]
use vstd::string::*;

#[allow(unused_imports)]
use super::bytes::{lemma_mentions, mentions};
#[allow(unused_imports)]
use crate::diff::shape::{body_change_of, operands_change, operands_of, OperandsModel, ShapeModel};
#[allow(unused_imports)]
use crate::diff::side::{
    identities, info_of, key_of, node_of, resolved, shape_of, shapes, side_from, KeyModel,
    SideModel, MAX_IDENTITY_HOPS,
};
#[allow(unused_imports)]
use crate::diff::{pair_judged, resolved_all, single_judged, structures_judged, RowStatus, Summary};
#[allow(unused_imports)]
use crate::model::{LineModel, NodeId, NodeModel, ParsedModel};
#[allow(unused_imports)]
use crate::source::LogModel;
#[allow(unused_imports)]
use crate::view::ViewRow;

verus! {

// ---------------------------------------------------------------------------
// Operands
// ---------------------------------------------------------------------------

/// Two texts do not contradict each other: one is not printed, or they are the
/// same.
pub open spec fn texts_agree(x: Seq<char>, y: Seq<char>) -> bool {
    x == y || x.len() == 0 || y.len() == 0
}

/// Two verdicts do not contradict each other.
pub open spec fn verdicts_agree(x: Option<bool>, y: Option<bool>) -> bool {
    !(x == Some(true) && y == Some(false)) && !(x == Some(false) && y == Some(true))
}

/// Whatever both operands print is the same on both.
pub open spec fn agree(a: OperandsModel, b: OperandsModel) -> bool {
    &&& texts_agree(a.attached, b.attached)
    &&& texts_agree(a.heap, b.heap)
    &&& texts_agree(a.brackets, b.brackets)
    &&& verdicts_agree(a.truncate, b.truncate)
    &&& verdicts_agree(a.dead, b.dead)
}

proof fn lemma_words_differ()
    ensures
        "can truncate"@ != "cannot truncate"@,
        "dead 🪦"@ != "live"@,
{
    reveal_strlit("can truncate");
    reveal_strlit("cannot truncate");
    reveal_strlit("dead 🪦");
    reveal_strlit("live");
    assert("can truncate"@.len() != "cannot truncate"@.len());
    assert("dead 🪦"@.len() != "live"@.len());
}

/// Operands changed exactly where a part that both sides print differs, a dead
/// mark or a truncation verdict no less than a text. Which side comes first
/// does not matter for that; it turns the two halves of the report round. The
/// halves are never the same.
pub proof fn law_operands_change_where_a_printed_part_differs(a: OperandsModel, b: OperandsModel)
    ensures
        operands_change(a, b) is None <==> agree(a, b),
        operands_change(b, a) == (match operands_change(a, b) {
            Some((x, y)) => Some((y, x)),
            None => None,
        }),
        operands_change(a, b) matches Some((x, y)) ==> x != y,
{
    lemma_words_differ();
}

/// The report of a change in operands names the part: the texts themselves, or
/// the verdicts in words.
pub proof fn law_a_change_in_operands_is_told(a: OperandsModel, b: OperandsModel)
    ensures
        !texts_agree(a.attached, b.attached) ==> operands_change(a, b) == Some(
            (a.attached, b.attached),
        ),
        texts_agree(a.attached, b.attached) && !texts_agree(a.heap, b.heap) ==> operands_change(
            a,
            b,
        ) == Some((a.heap, b.heap)),
        texts_agree(a.attached, b.attached) && texts_agree(a.heap, b.heap) && !texts_agree(
            a.brackets,
            b.brackets,
        ) ==> operands_change(a, b) == Some((a.brackets, b.brackets)),
        agree(a, OperandsModel { truncate: a.truncate, ..b }) && a.truncate == Some(true)
            && b.truncate == Some(false) ==> operands_change(a, b) == Some(
            ("can truncate"@, "cannot truncate"@),
        ),
        agree(a, OperandsModel { dead: a.dead, ..b }) && a.dead == Some(false) && b.dead == Some(
            true,
        ) ==> operands_change(a, b) == Some(("live"@, "dead 🪦"@)),
        agree(a, OperandsModel { dead: a.dead, ..b }) && a.dead == Some(true) && b.dead == Some(
            false,
        ) ==> operands_change(a, b) == Some(("dead 🪦"@, "live"@)),
{
}

/// Two nodes say something else behind their opcodes and inputs exactly where
/// their branch targets differ or their operands do.
pub proof fn law_a_body_changes_with_targets_or_operands(a: ShapeModel, b: ShapeModel)
    ensures
        body_change_of(a, b) is None <==> a.targets == b.targets && agree(a.operands, b.operands),
{
}

/// The dead mark of a line counts where the line prints how often the node is
/// used, and what it says of truncation is what it prints.
pub proof fn law_verdicts_are_what_the_line_prints(s: Seq<u8>, node: NodeModel)
    requires
        node.opcode_span.end < s.len(),
    ensures
        operands_of(s, node).dead == (if node.uses is Some {
            Some(node.dead)
        } else {
            None
        }),
        mentions(s, 0, "cannot truncate"@) ==> operands_of(s, node).truncate == Some(false),
        !mentions(s, 0, "cannot truncate"@) && mentions(s, 0, "can truncate"@) ==> operands_of(
            s,
            node,
        ).truncate == Some(true),
        !mentions(s, 0, "cannot truncate"@) && !mentions(s, 0, "can truncate"@) ==> operands_of(
            s,
            node,
        ).truncate is None,
{
    reveal_strlit("cannot truncate");
    reveal_strlit("can truncate");
    lemma_mentions(s, 0, "cannot truncate"@);
    lemma_mentions(s, 0, "can truncate"@);
}

// ---------------------------------------------------------------------------
// Identity nodes
// ---------------------------------------------------------------------------

/// A chain of `Identity` nodes from its first node to the value it stands for.
pub open spec fn is_chain(identity: Map<NodeId, NodeId>, chain: Seq<NodeId>) -> bool {
    &&& chain.len() > 0
    &&& !identity.dom().contains(chain.last())
    &&& forall|k: int|
        0 <= k < chain.len() - 1 ==> identity.dom().contains(#[trigger] chain[k])
            && identity[chain[k]] == chain[k + 1]
}

proof fn lemma_chain(identity: Map<NodeId, NodeId>, chain: Seq<NodeId>, hops: int)
    requires
        is_chain(identity, chain),
        chain.len() - 1 <= hops,
    ensures
        resolved(identity, chain[0], hops) == chain.last(),
    decreases chain.len(),
{
    if chain.len() > 1 {
        let rest = chain.drop_first();
        assert(identity[chain[0]] == chain[1]);
        assert forall|k: int| 0 <= k < rest.len() - 1 implies identity.dom().contains(
            #[trigger] rest[k],
        ) && identity[rest[k]] == rest[k + 1] by {
            assert(rest[k] == chain[k + 1]);
            assert(identity[chain[k + 1]] == chain[k + 1 + 1]);
        }
        lemma_chain(identity, rest, hops - 1);
    }
}

/// A chain of `Identity` nodes, as long as any that is printed, is followed to
/// the value at its end.
pub proof fn law_identities_are_followed_to_the_end(
    identity: Map<NodeId, NodeId>,
    chain: Seq<NodeId>,
)
    requires
        is_chain(identity, chain),
        chain.len() <= 65,
    ensures
        resolved(identity, chain[0], MAX_IDENTITY_HOPS as int) == chain.last(),
{
    lemma_chain(identity, chain, MAX_IDENTITY_HOPS as int);
}

// ---------------------------------------------------------------------------
// What a pair means
// ---------------------------------------------------------------------------

/// Two shapes say the same.
pub open spec fn say_the_same(l: ShapeModel, r: ShapeModel) -> bool {
    l.opcode == r.opcode && l.inputs == r.inputs && l.targets == r.targets && agree(
        l.operands,
        r.operands,
    )
}

/// Two lists of inputs are the same values once every `Identity` is followed.
pub open spec fn same_values(
    identity: Map<NodeId, NodeId>,
    l: Seq<NodeId>,
    r: Seq<NodeId>,
) -> bool {
    l.len() == r.len() && forall|k: int|
        0 <= k < l.len() ==> resolved(identity, #[trigger] l[k], MAX_IDENTITY_HOPS as int)
            == resolved(identity, r[k], MAX_IDENTITY_HOPS as int)
}

proof fn lemma_same_values(identity: Map<NodeId, NodeId>, l: Seq<NodeId>, r: Seq<NodeId>)
    ensures
        (resolved_all(identity, l) == resolved_all(identity, r)) == same_values(identity, l, r),
{
    let a = resolved_all(identity, l);
    let b = resolved_all(identity, r);
    if same_values(identity, l, r) {
        assert forall|k: int| 0 <= k < a.len() implies a[k] == b[k] by {
            assert(resolved(identity, l[k], MAX_IDENTITY_HOPS as int) == resolved(
                identity,
                r[k],
                MAX_IDENTITY_HOPS as int,
            ));
        }
        assert(a =~= b);
    }
    if a == b {
        assert(l.len() == a.len() && r.len() == b.len());
        assert forall|k: int| 0 <= k < l.len() implies resolved(
            identity,
            #[trigger] l[k],
            MAX_IDENTITY_HOPS as int,
        ) == resolved(identity, r[k], MAX_IDENTITY_HOPS as int) by {
            assert(a[k] == b[k]);
        }
    }
}

/// A node with the same id on both sides is the same exactly where both lines
/// say the same. Where only the right one is an `Identity`, the node was
/// replaced by the value that this stands for. Otherwise it changed, and the
/// report says in what; the change of inputs is a mere detour exactly where the
/// values are the same behind `Identity` nodes. One count goes up, by one.
pub proof fn law_a_pair_is_judged_by_what_it_says(
    id: NodeId,
    left: SideModel,
    right: SideModel,
    summary: Summary,
)
    requires
        left.nodes.dom().contains(id),
        right.nodes.dom().contains(id),
        summary.nodes_replaced < usize::MAX,
        summary.nodes_changed < usize::MAX,
    ensures
        ({
            let l = left.nodes[id];
            let r = right.nodes[id];
            let (status, after) = pair_judged(id, left, right, summary);
            &&& status is Same <==> say_the_same(l, r)
            &&& status is Same ==> after == summary
            &&& status is Replaced <==> r.opcode == "Identity"@ && l.opcode != "Identity"@
            &&& status matches RowStatus::Replaced { by } ==> by == resolved(
                right.identity,
                id,
                MAX_IDENTITY_HOPS as int,
            ) && after == (Summary {
                nodes_replaced: (summary.nodes_replaced + 1) as usize,
                ..summary
            })
            &&& status is Same || status is Replaced || status is Changed
            &&& status matches RowStatus::Changed { opcode, inputs, operands, rerouted } ==> {
                &&& opcode <==> l.opcode != r.opcode
                &&& inputs <==> l.inputs != r.inputs
                &&& operands <==> l.opcode == r.opcode && !(l.targets == r.targets && agree(
                    l.operands,
                    r.operands,
                ))
                &&& rerouted <==> l.opcode == r.opcode && l.inputs != r.inputs && (same_values(
                    left.identity,
                    l.inputs,
                    r.inputs,
                ) || same_values(right.identity, l.inputs, r.inputs))
                &&& after == (Summary {
                    nodes_changed: (summary.nodes_changed + 1) as usize,
                    ..summary
                })
            }
        }),
{
    let l = left.nodes[id];
    let r = right.nodes[id];
    law_a_body_changes_with_targets_or_operands(l, r);
    lemma_same_values(left.identity, l.inputs, r.inputs);
    lemma_same_values(right.identity, l.inputs, r.inputs);
}

/// A node that both sides have but not at the same place moved, changed or not;
/// it is counted on its left row alone. A node that the other side lacks was
/// added or deleted, and so was a line that is no node.
pub proof fn law_a_row_without_partner_is_told(
    key: KeyModel,
    own: SideModel,
    other: SideModel,
    summary: Summary,
    added: bool,
)
    requires
        summary.nodes_moved < usize::MAX,
        summary.nodes_changed < usize::MAX,
        summary.nodes_added < usize::MAX,
        summary.nodes_deleted < usize::MAX,
        summary.lines_added < usize::MAX,
        summary.lines_deleted < usize::MAX,
    ensures
        ({
            let (status, after) = single_judged(key, own, other, summary, added);
            let moved = key matches KeyModel::Node(id) && other.nodes.dom().contains(id);
            let node = key is Node || key is Structure;
            &&& status is Moved <==> moved
            &&& status is Added <==> !moved && added
            &&& status is Deleted <==> !moved && !added
            &&& status matches RowStatus::Moved { changed } ==> (key matches KeyModel::Node(id) && {
                &&& own.nodes.dom().contains(id) ==> changed == !say_the_same(
                    own.nodes[id],
                    other.nodes[id],
                )
                &&& added ==> after == summary
                &&& !added ==> after == (Summary {
                    nodes_moved: (summary.nodes_moved + 1) as usize,
                    nodes_changed: (summary.nodes_changed + if changed {
                        1int
                    } else {
                        0int
                    }) as usize,
                    ..summary
                })
            })
            &&& status is Added && node ==> after == (Summary {
                nodes_added: (summary.nodes_added + 1) as usize,
                ..summary
            })
            &&& status is Added && !node ==> after == (Summary {
                lines_added: (summary.lines_added + 1) as usize,
                ..summary
            })
            &&& status is Deleted && node ==> after == (Summary {
                nodes_deleted: (summary.nodes_deleted + 1) as usize,
                ..summary
            })
            &&& status is Deleted && !node ==> after == (Summary {
                lines_deleted: (summary.lines_deleted + 1) as usize,
                ..summary
            })
        }),
{
    if let KeyModel::Node(id) = key {
        if other.nodes.dom().contains(id) {
            law_a_body_changes_with_targets_or_operands(own.nodes[id], other.nodes[id]);
        }
    }
}

/// Two nodes of different compilations that have the same structure changed
/// exactly where their targets or their operands differ.
pub proof fn law_a_pair_by_structure_is_judged_by_the_rest(
    left: SideModel,
    l: int,
    right: SideModel,
    r: int,
    summary: Summary,
)
    requires
        0 <= l < left.row_nodes.len(),
        0 <= r < right.row_nodes.len(),
        left.row_nodes[l] is Some,
        right.row_nodes[r] is Some,
        left.nodes.dom().contains(left.row_nodes[l]->0),
        right.nodes.dom().contains(right.row_nodes[r]->0),
        summary.nodes_changed < usize::MAX,
    ensures
        ({
            let a = left.nodes[left.row_nodes[l]->0];
            let b = right.nodes[right.row_nodes[r]->0];
            let (status, after) = structures_judged(left, l, right, r, summary);
            if a.targets == b.targets && agree(a.operands, b.operands) {
                status is Same && after == summary
            } else {
                status == (RowStatus::Changed {
                    opcode: false,
                    inputs: false,
                    operands: true,
                    rerouted: false,
                }) && after == (Summary {
                    nodes_changed: (summary.nodes_changed + 1) as usize,
                    ..summary
                })
            }
        }),
{
    law_operands_change_where_a_printed_part_differs(
        left.nodes[left.row_nodes[l]->0].operands,
        right.nodes[right.row_nodes[r]->0].operands,
    );
}

// ---------------------------------------------------------------------------
// What a row is known by
// ---------------------------------------------------------------------------

/// The node that a row defines is in its side under its id, with the opcode,
/// the inputs and the targets of its line, unless a later row defines the id
/// again. What is no node of a row is in no side.
proof fn lemma_shapes(parsed: ParsedModel, buffer: LogModel, rows: Seq<ViewRow>, n: int, k: int)
    requires
        0 <= k < n <= rows.len(),
        node_of(parsed, rows[k]) is Some,
        forall|j: int|
            k < j < n ==> (node_of(parsed, #[trigger] rows[j]) matches Some(m) ==> m.id != node_of(
                parsed,
                rows[k],
            )->0.id),
    ensures
        ({
            let node = node_of(parsed, rows[k])->0;
            let all = shapes(parsed, buffer, rows, n);
            &&& all.dom().contains(node.id)
            &&& all[node.id] == shape_of(parsed, node, buffer.line_text(rows[k].line as int))
        }),
    decreases n,
{
    if k < n - 1 {
        lemma_shapes(parsed, buffer, rows, n - 1, k);
        assert(node_of(parsed, rows[n - 1]) matches Some(m) ==> m.id != node_of(
            parsed,
            rows[k],
        )->0.id);
    }
}

proof fn lemma_only_shapes(
    parsed: ParsedModel,
    buffer: LogModel,
    rows: Seq<ViewRow>,
    n: int,
    id: NodeId,
)
    requires
        0 <= n <= rows.len(),
        forall|j: int|
            0 <= j < n ==> (node_of(parsed, #[trigger] rows[j]) matches Some(m) ==> m.id != id),
    ensures
        !shapes(parsed, buffer, rows, n).dom().contains(id),
    decreases n,
{
    if n > 0 {
        lemma_only_shapes(parsed, buffer, rows, n - 1, id);
        assert(node_of(parsed, rows[n - 1]) matches Some(m) ==> m.id != id);
    }
}

/// A shape has the opcode of a node, its inputs in order and its targets.
pub open spec fn tells(shape: ShapeModel, parsed: ParsedModel, node: NodeModel) -> bool {
    &&& (node.opcode as int) < parsed.opcodes.len() ==> shape.opcode
        == parsed.opcodes[node.opcode as int]
    &&& shape.inputs.len() == node.inputs.len()
    &&& forall|m: int|
        0 <= m < node.inputs.len() ==> shape.inputs[m] == (#[trigger] node.inputs[m]).node
    &&& shape.targets.len() == node.targets.len()
    &&& forall|m: int|
        0 <= m < node.targets.len() ==> shape.targets[m] == (#[trigger] node.targets[m]).block
}

/// No row in `a..b` defines the node `id`.
pub open spec fn undefined_in(
    parsed: ParsedModel,
    rows: Seq<ViewRow>,
    a: int,
    b: int,
    id: NodeId,
) -> bool {
    forall|j: int|
        a <= j < b ==> (node_of(parsed, #[trigger] rows[j]) matches Some(m) ==> m.id != id)
}

/// A side knows a node by the last row that defines it: its opcode, the nodes
/// that the line takes as inputs in order, and the blocks that it goes to. A
/// node that no row defines is not there.
pub proof fn law_a_side_knows_its_nodes(
    parsed: ParsedModel,
    buffer: LogModel,
    rows: Seq<ViewRow>,
    source: int,
    by_id: bool,
    id: NodeId,
    k: int,
)
    ensures
        ({
            let side = side_from(parsed, buffer, rows, source, by_id);
            let n = rows.len() as int;
            &&& undefined_in(parsed, rows, 0, n, id) ==> !side.nodes.dom().contains(id)
            &&& 0 <= k < n && (node_of(parsed, rows[k]) matches Some(m) && m.id == id)
                && undefined_in(parsed, rows, k + 1, n, id) ==> side.nodes.dom().contains(id)
                && tells(side.nodes[id], parsed, node_of(parsed, rows[k])->0)
        }),
{
    let n = rows.len() as int;
    if undefined_in(parsed, rows, 0, n, id) {
        lemma_only_shapes(parsed, buffer, rows, n, id);
    }
    if 0 <= k < n && (node_of(parsed, rows[k]) matches Some(m) && m.id == id) && undefined_in(
        parsed,
        rows,
        k + 1,
        n,
        id,
    ) {
        lemma_shapes(parsed, buffer, rows, n, k);
    }
}

/// A row that defines a node is one that the parse calls a node, unless it
/// only takes a place in the schedule.
pub proof fn law_a_row_defines_the_node_of_its_line(parsed: ParsedModel, row: ViewRow, p: usize, i: usize)
    requires
        row.info == Some((p, i)),
        p < parsed.phases.len(),
        i < parsed.phases[p as int].infos.len(),
    ensures
        match parsed.phases[p as int].infos[i as int] {
            LineModel::Node(node) => node_of(parsed, row) == (if node.id == u32::MAX {
                None
            } else {
                Some(node)
            }),
            _ => node_of(parsed, row) is None,
        },
{
}

/// Within one compilation a node is known by its id. Between two, it is known
/// by its opcode and its inputs, where an input that the phase defines counts
/// by its place among the definitions. Banners stand beside banners and block
/// headers beside those of the same block.
pub proof fn law_a_node_row_is_known_by_its_node(
    parsed: ParsedModel,
    buffer: LogModel,
    row: ViewRow,
    places: Map<NodeId, u32>,
)
    ensures
        node_of(parsed, row) matches Some(node) ==> {
            &&& key_of(parsed, buffer, row, true, places) == KeyModel::Node(node.id)
            &&& key_of(parsed, buffer, row, false, places) matches KeyModel::Structure(op, ins) && {
                &&& (node.opcode as int) < parsed.opcodes.len() ==> op
                    == parsed.opcodes[node.opcode as int]
                &&& ins.len() == node.inputs.len()
                &&& forall|m: int|
                    0 <= m < ins.len() ==> #[trigger] ins[m] == (if places.dom().contains(
                        node.inputs[m].node,
                    ) {
                        (false, places[node.inputs[m].node])
                    } else {
                        (true, node.inputs[m].node)
                    })
            }
        },
        forall|by_id: bool|
            info_of(parsed, row) matches Some(LineModel::BlockHeader { block }) ==> #[trigger]
            key_of(parsed, buffer, row, by_id, places) == KeyModel::Header(block),
        forall|by_id: bool|
            info_of(parsed, row) == Some(LineModel::Banner) ==> #[trigger] key_of(
                parsed,
                buffer,
                row,
                by_id,
                places,
            ) == KeyModel::Banner,
{
}

proof fn lemma_identities(parsed: ParsedModel, rows: Seq<ViewRow>, n: int, id: NodeId)
    requires
        0 <= n <= rows.len(),
    ensures
        identities(parsed, rows, n).dom().contains(id) ==> exists|k: int|
            0 <= k < n && (node_of(parsed, #[trigger] rows[k]) matches Some(m) && m.id == id
                && m.inputs.len() == 1 && m.inputs[0].node == identities(parsed, rows, n)[id]
                && (m.opcode as int) < parsed.opcodes.len() && parsed.opcodes[m.opcode as int]
                == "Identity"@),
    decreases n,
{
    if n > 0 {
        lemma_identities(parsed, rows, n - 1, id);
        reveal_strlit("Identity");
        assert("Identity"@.len() > 0);
        let before = identities(parsed, rows, n - 1);
        if identities(parsed, rows, n).dom().contains(id) && before.dom().contains(id)
            && identities(parsed, rows, n)[id] == before[id] {
            let k = choose|k: int|
                0 <= k < n - 1 && (node_of(parsed, #[trigger] rows[k]) matches Some(m) && m.id == id
                    && m.inputs.len() == 1 && m.inputs[0].node == before[id] && (m.opcode as int)
                    < parsed.opcodes.len() && parsed.opcodes[m.opcode as int] == "Identity"@);
            assert(0 <= k < n);
            assert(node_of(parsed, rows[k]) is Some);
        } else if identities(parsed, rows, n).dom().contains(id) {
            assert(node_of(parsed, rows[n - 1]) is Some);
        }
    }
}

proof fn lemma_has_identity(parsed: ParsedModel, rows: Seq<ViewRow>, n: int, k: int)
    requires
        0 <= k < n <= rows.len(),
        node_of(parsed, rows[k]) matches Some(m) && m.inputs.len() == 1 && (m.opcode as int)
            < parsed.opcodes.len() && parsed.opcodes[m.opcode as int] == "Identity"@,
    ensures
        identities(parsed, rows, n).dom().contains(node_of(parsed, rows[k])->0.id),
    decreases n,
{
    if k < n - 1 {
        lemma_has_identity(parsed, rows, n - 1, k);
    }
}

/// A node stands for another one exactly where a row says
/// `nA: Identity [nB]`; it then stands for `nB`.
pub proof fn law_identities_are_the_identity_rows(
    parsed: ParsedModel,
    rows: Seq<ViewRow>,
    id: NodeId,
)
    ensures
        ({
            let all = identities(parsed, rows, rows.len() as int);
            &&& all.dom().contains(id) ==> exists|k: int|
                0 <= k < rows.len() && (node_of(parsed, #[trigger] rows[k]) matches Some(m) && m.id
                    == id && m.inputs.len() == 1 && m.inputs[0].node == all[id] && (m.opcode as int)
                    < parsed.opcodes.len() && parsed.opcodes[m.opcode as int] == "Identity"@)
            &&& forall|k: int|
                0 <= k < rows.len() && (node_of(parsed, #[trigger] rows[k]) matches Some(m)
                    && m.inputs.len() == 1 && (m.opcode as int) < parsed.opcodes.len()
                    && parsed.opcodes[m.opcode as int] == "Identity"@) ==> all.dom().contains(
                    node_of(parsed, rows[k])->0.id,
                )
        }),
{
    let n = rows.len() as int;
    lemma_identities(parsed, rows, n, id);
    assert forall|k: int|
        0 <= k < rows.len() && (node_of(parsed, #[trigger] rows[k]) matches Some(m)
            && m.inputs.len() == 1 && (m.opcode as int) < parsed.opcodes.len()
            && parsed.opcodes[m.opcode as int] == "Identity"@) implies identities(
        parsed,
        rows,
        n,
    ).dom().contains(node_of(parsed, rows[k])->0.id) by {
        lemma_has_identity(parsed, rows, n, k);
    }
}

} // verus!
