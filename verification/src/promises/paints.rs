//! Which class each byte of a line is painted in.

use vstd::prelude::*;
#[allow(unused_imports)]
use vstd::string::*;
#[allow(unused_imports)]
use vstd::utf8::*;

#[allow(unused_imports)]
use super::bytes::{lemma_mentions, lemma_says, mentions, says};
#[allow(unused_imports)]
use crate::model::{BlockRef, LineModel, NodeId, NodeModel, NodeRef, ParsedModel, Span};
#[allow(unused_imports)]
use crate::ui::paint::{
    blocks_filled, class_of_opcode, defuse_painted, filled, flat, matches_filled, node_painted,
    opcode_name, operands_filled, refs_filled, uses_filled, Class,
};
#[allow(unused_imports)]
use crate::view::{control_opcode, guard_opcode, phi_opcode};

verus! {

/// Byte `k` lies in a span.
pub open spec fn lies_in(k: int, span: Span) -> bool {
    span.start <= k < span.end
}

/// Byte `k` lies in one of the first `n` references.
pub open spec fn in_refs(refs: Seq<NodeRef>, n: int, k: int) -> bool {
    exists|j: int| 0 <= j < n && lies_in(k, (#[trigger] refs[j]).span)
}

/// Byte `k` lies in one of the first `n` references to `node`.
pub open spec fn in_uses(refs: Seq<NodeRef>, node: NodeId, n: int, k: int) -> bool {
    exists|j: int| 0 <= j < n && (#[trigger] refs[j]).node == node && lies_in(k, refs[j].span)
}

/// Byte `k` lies in one of the first `n` references to blocks.
pub open spec fn in_blocks(refs: Seq<BlockRef>, n: int, k: int) -> bool {
    exists|j: int| 0 <= j < n && lies_in(k, (#[trigger] refs[j]).span)
}

/// Byte `k` lies in one of the first `n` operands.
pub open spec fn in_operands(refs: Seq<(u32, Span)>, n: int, k: int) -> bool {
    exists|j: int| 0 <= j < n && lies_in(k, (#[trigger] refs[j]).1)
}

/// Byte `k` lies in one of the first `n` matches.
pub open spec fn in_matches(spans: Seq<(usize, usize)>, n: int, k: int) -> bool {
    exists|j: int| 0 <= j < n && (#[trigger] spans[j]).0 <= k < spans[j].1
}

/// Every reference is painted whole, and nothing else.
pub proof fn law_references_are_painted(
    paint: Seq<Class>,
    refs: Seq<NodeRef>,
    class: Class,
    n: int,
    k: int,
)
    requires
        0 <= n <= refs.len(),
        0 <= k < paint.len(),
    ensures
        refs_filled(paint, refs, class, n).len() == paint.len(),
        refs_filled(paint, refs, class, n)[k] == (if in_refs(refs, n, k) {
            class
        } else {
            paint[k]
        }),
    decreases n,
{
    if n > 0 {
        law_references_are_painted(paint, refs, class, n - 1, k);
        if in_refs(refs, n - 1, k) {
            let j = choose|j: int| 0 <= j < n - 1 && lies_in(k, (#[trigger] refs[j]).span);
            assert(0 <= j < n && lies_in(k, refs[j].span));
        }
        if lies_in(k, refs[n - 1].span) {
            assert(in_refs(refs, n, k));
        }
    }
}

/// Every use of the cursor node is painted, and no reference to another node.
pub proof fn law_the_uses_of_the_cursor_node_are_painted(
    paint: Seq<Class>,
    refs: Seq<NodeRef>,
    node: NodeId,
    n: int,
    k: int,
)
    requires
        0 <= n <= refs.len(),
        0 <= k < paint.len(),
    ensures
        uses_filled(paint, refs, node, n).len() == paint.len(),
        uses_filled(paint, refs, node, n)[k] == (if in_uses(refs, node, n, k) {
            Class::ConsumerHl
        } else {
            paint[k]
        }),
    decreases n,
{
    if n > 0 {
        law_the_uses_of_the_cursor_node_are_painted(paint, refs, node, n - 1, k);
        if in_uses(refs, node, n - 1, k) {
            let j = choose|j: int|
                0 <= j < n - 1 && (#[trigger] refs[j]).node == node && lies_in(k, refs[j].span);
            assert(0 <= j < n && refs[j].node == node && lies_in(k, refs[j].span));
        }
        if refs[n - 1].node == node && lies_in(k, refs[n - 1].span) {
            assert(in_uses(refs, node, n, k));
        }
    }
}

/// Every block that a line names is painted.
pub proof fn law_blocks_are_painted(paint: Seq<Class>, refs: Seq<BlockRef>, n: int, k: int)
    requires
        0 <= n <= refs.len(),
        0 <= k < paint.len(),
    ensures
        blocks_filled(paint, refs, n).len() == paint.len(),
        blocks_filled(paint, refs, n)[k] == (if in_blocks(refs, n, k) {
            Class::BlockRef
        } else {
            paint[k]
        }),
    decreases n,
{
    if n > 0 {
        law_blocks_are_painted(paint, refs, n - 1, k);
        if in_blocks(refs, n - 1, k) {
            let j = choose|j: int| 0 <= j < n - 1 && lies_in(k, (#[trigger] refs[j]).span);
            assert(0 <= j < n && lies_in(k, refs[j].span));
        }
        if lies_in(k, refs[n - 1].span) {
            assert(in_blocks(refs, n, k));
        }
    }
}

/// Every operand of a kind is painted.
pub proof fn law_operands_are_painted(
    paint: Seq<Class>,
    refs: Seq<(u32, Span)>,
    class: Class,
    n: int,
    k: int,
)
    requires
        0 <= n <= refs.len(),
        0 <= k < paint.len(),
    ensures
        operands_filled(paint, refs, class, n).len() == paint.len(),
        operands_filled(paint, refs, class, n)[k] == (if in_operands(refs, n, k) {
            class
        } else {
            paint[k]
        }),
    decreases n,
{
    if n > 0 {
        law_operands_are_painted(paint, refs, class, n - 1, k);
        if in_operands(refs, n - 1, k) {
            let j = choose|j: int| 0 <= j < n - 1 && lies_in(k, (#[trigger] refs[j]).1);
            assert(0 <= j < n && lies_in(k, refs[j].1));
        }
        if lies_in(k, refs[n - 1].1) {
            assert(in_operands(refs, n, k));
        }
    }
}

/// Every match of a search is painted over whatever a line was.
pub proof fn law_matches_are_painted(
    paint: Seq<Class>,
    spans: Seq<(usize, usize)>,
    n: int,
    k: int,
)
    requires
        0 <= n <= spans.len(),
        0 <= k < paint.len(),
    ensures
        matches_filled(paint, spans, n).len() == paint.len(),
        matches_filled(paint, spans, n)[k] == (if in_matches(spans, n, k) {
            Class::SearchHl
        } else {
            paint[k]
        }),
    decreases n,
{
    if n > 0 {
        law_matches_are_painted(paint, spans, n - 1, k);
        if in_matches(spans, n - 1, k) {
            let j = choose|j: int| 0 <= j < n - 1 && (#[trigger] spans[j]).0 <= k < spans[j].1;
            assert(0 <= j < n && spans[j].0 <= k < spans[j].1);
        }
        if spans[n - 1].0 <= k < spans[n - 1].1 {
            assert(in_matches(spans, n, k));
        }
    }
}

/// On a node line the targets, the inputs, the opcode and the ids are each painted
/// as what they are, and the rest is plain.
pub proof fn law_a_node_line_is_painted_by_its_parts(
    n: nat,
    node: NodeModel,
    parsed: Option<ParsedModel>,
    k: int,
)
    requires
        0 <= k < n,
    ensures
        node_painted(n, node, parsed)[k] == (if in_blocks(
            node.targets,
            node.targets.len() as int,
            k,
        ) {
            Class::BlockRef
        } else if in_refs(node.inputs, node.inputs.len() as int, k) {
            Class::NodeRef
        } else if lies_in(k, node.opcode_span) {
            class_of_opcode(opcode_name(parsed, node.opcode))
        } else if lies_in(k, node.def_span) {
            Class::NodeDef
        } else {
            Class::Base
        }),
{
    let defined = filled(
        flat(n, Class::Base),
        node.def_span.start as int,
        node.def_span.end as int,
        Class::NodeDef,
    );
    let named = filled(
        defined,
        node.opcode_span.start as int,
        node.opcode_span.end as int,
        class_of_opcode(opcode_name(parsed, node.opcode)),
    );
    let inputs = refs_filled(named, node.inputs, Class::NodeRef, node.inputs.len() as int);
    law_references_are_painted(named, node.inputs, Class::NodeRef, node.inputs.len() as int, k);
    law_blocks_are_painted(inputs, node.targets, node.targets.len() as int, k);
}

/// While the cursor is on a node, its definition, the definitions of its inputs
/// and its uses stand out, on whatever line they are; everything else stays as it
/// was.
pub proof fn law_the_cursor_node_stands_out(
    paint: Seq<Class>,
    line: NodeModel,
    node: NodeId,
    inputs: Seq<NodeId>,
    k: int,
)
    requires
        0 <= k < paint.len(),
    ensures
        defuse_painted(paint, Some(LineModel::Node(line)), node, inputs)[k] == (if in_uses(
            line.inputs,
            node,
            line.inputs.len() as int,
            k,
        ) {
            Class::ConsumerHl
        } else if lies_in(k, line.def_span) && line.id == node {
            Class::DefHl
        } else if lies_in(k, line.def_span) && inputs.contains(line.id) {
            Class::InputHl
        } else {
            paint[k]
        }),
{
    let start = line.def_span.start as int;
    let end = line.def_span.end as int;
    let defined = if line.id == node {
        filled(paint, start, end, Class::DefHl)
    } else if inputs.contains(line.id) {
        filled(paint, start, end, Class::InputHl)
    } else {
        paint
    };
    law_the_uses_of_the_cursor_node_are_painted(
        defined,
        line.inputs,
        node,
        line.inputs.len() as int,
        k,
    );
}

/// On a frame or a move the uses of the cursor node stand out.
pub proof fn law_the_cursor_node_stands_out_in_frames(
    paint: Seq<Class>,
    frame: u32,
    after: Option<NodeId>,
    refs: Seq<NodeRef>,
    node: NodeId,
    inputs: Seq<NodeId>,
    k: int,
)
    requires
        0 <= k < paint.len(),
    ensures
        defuse_painted(
            paint,
            Some(LineModel::Frame { frame, after_node: after, refs }),
            node,
            inputs,
        )[k] == (if in_uses(refs, node, refs.len() as int, k) {
            Class::ConsumerHl
        } else {
            paint[k]
        }),
        defuse_painted(paint, Some(LineModel::PhiMove { refs }), node, inputs)[k] == (if in_uses(
            refs,
            node,
            refs.len() as int,
            k,
        ) {
            Class::ConsumerHl
        } else {
            paint[k]
        }),
{
    law_the_uses_of_the_cursor_node_are_painted(paint, refs, node, refs.len() as int, k);
}

/// The opcodes of guards, of control flow, of constants and of calls are each
/// painted as such; a move of the register allocator is dim, whatever it moves.
pub proof fn law_an_opcode_is_painted_by_its_name(name: Seq<u8>)
    ensures
        says(name, 0, "GapMove"@) || says(name, 0, "ConstantGapMove"@) ==> class_of_opcode(name)
            == Class::Dim,
        class_of_opcode(name) == Class::Dim ==> says(name, 0, "GapMove"@) || says(
            name,
            0,
            "ConstantGapMove"@,
        ),
        class_of_opcode(name) == Class::ConstantOp ==> mentions(name, 0, "Constant"@),
        class_of_opcode(name) == Class::CallOp ==> says(name, 0, "Call"@) || says(
            name,
            0,
            "Construct"@,
        ),
        class_of_opcode(name) == Class::Opcode ==> !mentions(name, 0, "Constant"@) && !says(
            name,
            0,
            "Call"@,
        ) && !says(name, 0, "Construct"@),
        phi_opcode(name) && class_of_opcode(name) != Class::Dim ==> class_of_opcode(name)
            == Class::PhiOp,
        guard_opcode(name) && !phi_opcode(name) && class_of_opcode(name) != Class::Dim
            ==> class_of_opcode(name) == Class::Guard,
        control_opcode(name) && !phi_opcode(name) && !guard_opcode(name) && class_of_opcode(name)
            != Class::Dim ==> class_of_opcode(name) == Class::ControlOp,
{
    reveal_strlit("GapMove");
    reveal_strlit("ConstantGapMove");
    reveal_strlit("Constant");
    reveal_strlit("Call");
    reveal_strlit("Construct");
    lemma_says(name, 0, "GapMove"@);
    lemma_says(name, 0, "ConstantGapMove"@);
    lemma_says(name, 0, "Call"@);
    lemma_says(name, 0, "Construct"@);
    lemma_mentions(name, 0, "Constant"@);
}

} // verus!
