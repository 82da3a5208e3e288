//! What is said of a row of a comparison, and the counts of the pipeline.

use vstd::prelude::*;
#[allow(unused_imports)]
use vstd::string::*;

#[allow(unused_imports)]
use super::notes::{alike, lemma_tally, lemma_tally_bound, tally};
#[allow(unused_imports)]
use super::words::{holds, lemma_holds, lemma_keeps, stands_at};
#[allow(unused_imports)]
use crate::diff::shape::{body_change_of, id_list, ShapeModel};
#[allow(unused_imports)]
use crate::diff::side::SideModel;
#[allow(unused_imports)]
use crate::diff::{
    body_detail, clipped, detail_of, dotted, half_node, inputs_detail, opcode_detail, row_text,
    DiffRow, RowStatus,
};
#[allow(unused_imports)]
use crate::model::NodeId;
#[allow(unused_imports)]
use crate::parse::intern::InternModel;
#[allow(unused_imports)]
use crate::parse::turbofan::{phase_state, recorded, Grammar};
#[allow(unused_imports)]
use crate::text::decimal;

verus! {

proof fn lemma_dotted(a: Seq<char>, b: Seq<char>, part: Seq<char>)
    ensures
        holds(a, part) ==> holds(dotted(a, b), part),
        holds(b, part) ==> holds(dotted(a, b), part),
        dotted(a, b).len() == 0 <==> a.len() == 0 && b.len() == 0,
{
    let s = dotted(a, b);
    let none = Seq::<char>::empty();
    if a.len() > 0 && b.len() > 0 {
        assert(s =~= none + a + (" · "@ + b));
        assert(s =~= (a + " · "@) + b + none);
        if holds(a, part) {
            lemma_keeps(s, none, a, " · "@ + b, part);
        }
        if holds(b, part) {
            lemma_keeps(s, a + " · "@, b, none, part);
        }
    } else if a.len() == 0 {
        if holds(a, part) {
            let i = choose|i: int| #[trigger] stands_at(a, i, part);
            assert(part.len() == 0);
            assert(s.subrange(0, 0) =~= part);
            assert(stands_at(s, 0, part));
        }
    } else {
        if holds(b, part) {
            let i = choose|i: int| #[trigger] stands_at(b, i, part);
            assert(part.len() == 0);
            assert(s.subrange(0, 0) =~= part);
            assert(stands_at(s, 0, part));
        }
    }
}

proof fn lemma_opcode(l: ShapeModel, r: ShapeModel)
    ensures
        l.opcode != r.opcode ==> holds(opcode_detail(l, r), l.opcode + " → "@ + r.opcode),
        opcode_detail(l, r).len() == 0 <==> l.opcode == r.opcode,
{
    reveal_strlit("opcode ");
    let none = Seq::<char>::empty();
    let part = l.opcode + " → "@ + r.opcode;
    if l.opcode != r.opcode {
        let s = opcode_detail(l, r);
        assert(s =~= "opcode "@ + part + none);
        lemma_holds(s, "opcode "@, part, none);
    }
}

proof fn lemma_inputs(left: SideModel, right: SideModel, l: ShapeModel, r: ShapeModel)
    ensures
        l.inputs != r.inputs ==> holds(
            inputs_detail(left, right, l, r, true),
            "["@ + id_list(l.inputs, 'n', ", "@) + "] → ["@ + id_list(r.inputs, 'n', ", "@) + "]"@,
        ),
        inputs_detail(left, right, l, r, true).len() == 0 <==> l.inputs == r.inputs,
{
    reveal_strlit("inputs rerouted via Identity: [");
    reveal_strlit("inputs rerouted via Identity: ");
    reveal_strlit("inputs [");
    reveal_strlit("inputs ");
    reveal_strlit("[");
    let none = Seq::<char>::empty();
    let a = id_list(l.inputs, 'n', ", "@);
    let b = id_list(r.inputs, 'n', ", "@);
    let part = "["@ + a + "] → ["@ + b + "]"@;
    if l.inputs != r.inputs {
        let s = inputs_detail(left, right, l, r, true);
        assert("inputs rerouted via Identity: ["@ =~= "inputs rerouted via Identity: "@ + "["@);
        assert("inputs ["@ =~= "inputs "@ + "["@);
        let head = if crate::diff::rerouted(left, right, l, r) {
            "inputs rerouted via Identity: "@
        } else {
            "inputs "@
        };
        assert(s =~= head + part + none);
        lemma_holds(s, head, part, none);
    }
}

proof fn lemma_body(l: ShapeModel, r: ShapeModel)
    ensures
        body_change_of(l, r) matches Some((from, to)) ==> holds(
            body_detail(l, r),
            clipped(from) + " → "@ + clipped(to),
        ),
        body_detail(l, r).len() == 0 <==> body_change_of(l, r) is None,
{
    reveal_strlit(" → ");
    let none = Seq::<char>::empty();
    if let Some((from, to)) = body_change_of(l, r) {
        let part = clipped(from) + " → "@ + clipped(to);
        assert(body_detail(l, r) =~= none + part + none);
        lemma_holds(body_detail(l, r), none, part, none);
    }
}

/// What is said of a node that changed tells every part that differs, before and
/// after: the opcode, the inputs, and the first difference in the rest. Where
/// nothing differs nothing is said.
pub proof fn law_every_difference_is_told(left: SideModel, right: SideModel, id: NodeId)
    requires
        left.nodes.dom().contains(id),
        right.nodes.dom().contains(id),
    ensures
        ({
            let l = left.nodes[id];
            let r = right.nodes[id];
            let said = detail_of(left, right, id, id);
            &&& said is None <==> l.opcode == r.opcode && l.inputs == r.inputs && body_change_of(
                l,
                r,
            ) is None
            &&& l.opcode != r.opcode ==> said is Some && holds(
                said->0,
                l.opcode + " → "@ + r.opcode,
            )
            &&& l.inputs != r.inputs ==> said is Some && holds(
                said->0,
                "["@ + id_list(l.inputs, 'n', ", "@) + "] → ["@ + id_list(r.inputs, 'n', ", "@)
                    + "]"@,
            )
            &&& body_change_of(l, r) matches Some((from, to)) ==> said is Some && holds(
                said->0,
                clipped(from) + " → "@ + clipped(to),
            )
        }),
{
    let l = left.nodes[id];
    let r = right.nodes[id];
    let a = opcode_detail(l, r);
    let b = inputs_detail(left, right, l, r, true);
    let c = body_detail(l, r);
    lemma_opcode(l, r);
    lemma_inputs(left, right, l, r);
    lemma_body(l, r);
    let x = l.opcode + " → "@ + r.opcode;
    let y = "["@ + id_list(l.inputs, 'n', ", "@) + "] → ["@ + id_list(r.inputs, 'n', ", "@) + "]"@;
    lemma_dotted(a, b, x);
    lemma_dotted(a, b, y);
    lemma_dotted(dotted(a, b), c, x);
    lemma_dotted(dotted(a, b), c, y);
    if let Some((from, to)) = body_change_of(l, r) {
        lemma_dotted(dotted(a, b), c, clipped(from) + " → "@ + clipped(to));
    }
}

/// A text that is cut short keeps its beginning.
pub proof fn law_a_text_is_cut_short_only_where_it_is_long(s: Seq<char>)
    ensures
        clipped(s).len() <= 48,
        s.len() <= 48 ==> clipped(s) == s,
        s.len() > 48 ==> clipped(s).take(47) == s.take(47) && clipped(s).last() == '…',
{
    if s.len() > 48 {
        assert(clipped(s).take(47) =~= s.take(47));
    }
}

/// What is said of a row names the node that it is about: on the right where it
/// was added, on the left otherwise.
pub proof fn law_a_row_is_told_by_its_node(
    left: SideModel,
    right: SideModel,
    row: DiffRow,
    id: NodeId,
)
    ensures
        row.status is Same ==> row_text(left, right, row) is None,
        row.status is Added && half_node(right, row.right) == Some(id) ==> row_text(
            left,
            right,
            row,
        ) == Some("n"@ + decimal(id as int) + " added"@),
        row.status is Deleted && half_node(left, row.left) == Some(id) ==> row_text(
            left,
            right,
            row,
        ) == Some("n"@ + decimal(id as int) + " deleted"@),
        row.status == (RowStatus::Moved { changed: false }) && half_node(left, row.left) == Some(id)
            ==> row_text(left, right, row) == Some("n"@ + decimal(id as int) + " moved"@),
        row.status is Added && half_node(right, row.right) is None ==> row_text(left, right, row)
            == Some("line added"@),
        row.status is Deleted && half_node(left, row.left) is None ==> row_text(left, right, row)
            == Some("line deleted"@),
        row.status is Replaced && half_node(left, row.left) == Some(id) ==> (row_text(
            left,
            right,
            row,
        ) matches Some(said) && holds(said, "n"@ + decimal(id as int)) && holds(
            said,
            "n"@ + decimal(row.status->by as int),
        )),
{
    reveal_strlit("n");
    reveal_strlit(" replaced by n");
    reveal_strlit(" replaced by ");
    assert("n"@ =~= seq!['n']);
    if let RowStatus::Replaced { by } = row.status {
        if half_node(left, row.left) == Some(id) {
            let said = row_text(left, right, row)->0;
            let a = "n"@ + decimal(id as int);
            let b = "n"@ + decimal(by as int);
            let none = Seq::<char>::empty();
            assert(" replaced by n"@ =~= " replaced by "@ + "n"@);
            assert(said =~= none + a + (" replaced by "@ + b + " (Identity)"@));
            lemma_holds(said, none, a, " replaced by "@ + b + " (Identity)"@);
            assert(said =~= (a + " replaced by "@) + b + " (Identity)"@);
            lemma_holds(said, a + " replaced by "@, b, " (Identity)"@);
        }
    }
}

/// A phase of the pipeline counts as many nodes, blocks and notes as its lines
/// are.
pub proof fn law_a_pipeline_phase_counts_its_lines(
    grammar: Grammar,
    lines: Seq<Seq<u8>>,
    m: InternModel,
    n: int,
)
    requires
        0 <= n <= lines.len(),
        n <= u32::MAX,
    ensures
        ({
            let phase = phase_state(grammar, lines, m, n).phase;
            let t = tally(phase.infos, n);
            &&& phase.infos.len() == n
            &&& phase.node_count == t.0
            &&& phase.block_count == t.1
            &&& phase.annotation_count == t.2
        }),
    decreases n,
{
    reveal(recorded);
    if n > 0 {
        law_a_pipeline_phase_counts_its_lines(grammar, lines, m, n - 1);
        let a = phase_state(grammar, lines, m, n - 1).phase.infos;
        let b = phase_state(grammar, lines, m, n).phase.infos;
        lemma_tally_bound(a, n - 1);
        assert(b.drop_last() =~= a);
        assert forall|j: int| 0 <= j < n - 1 implies alike(#[trigger] a[j], b[j]) by {
            assert(b.drop_last()[j] == b[j]);
        }
        lemma_tally(a, b, n - 1);
    }
}

} // verus!
