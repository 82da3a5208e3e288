//! Which parts of a node line count as its operands in a comparison.

use vstd::prelude::*;
#[allow(unused_imports)]
use vstd::string::*;

#[allow(unused_imports)]
use super::bytes::{lemma_says, says};
#[allow(unused_imports)]
use crate::diff::canon::canonical;
#[allow(unused_imports)]
use crate::diff::shape::{
    ends_masked, group_end, in_input, masked_bytes, masked_group, operands_of, tail_groups,
    touches_input,
};
#[allow(unused_imports)]
use crate::model::{NodeModel, NodeRef};
#[allow(unused_imports)]
use crate::text::{find_byte_in, text_of, utf8_lossy};

verus! {

/// How many groups of `a..b` stay open.
pub open spec fn open_in(s: Seq<u8>, a: int, b: int, open: u8, close: u8) -> int
    decreases b - a,
{
    if a >= b {
        0
    } else {
        open_in(s, a, b - 1, open, close) + (if s[b - 1] == open {
            1int
        } else if s[b - 1] == close {
            -1
        } else {
            0
        })
    }
}

/// `i..=j` is a group: it opens at `i` and what opens there closes at `j`.
pub open spec fn group(s: Seq<u8>, i: int, j: int, open: u8, close: u8) -> bool {
    &&& 0 <= i < j < s.len()
    &&& s[i] == open
    &&& s[j] == close
    &&& open_in(s, i, j, open, close) == 1
    &&& forall|x: int| i < x <= j ==> #[trigger] open_in(s, i, x, open, close) >= 1
}

proof fn lemma_group(s: Seq<u8>, i: int, k: int, j: int, open: u8, close: u8)
    requires
        group(s, i, j, open, close),
        open != close,
        i <= k <= j,
    ensures
        group_end(s, k, open, close, open_in(s, i, k, open, close)) == j + 1,
    decreases j - k,
{
    if k < j {
        assert(open_in(s, i, k + 1, open, close) >= 1);
        if k > i {
            assert(open_in(s, i, k, open, close) >= 1);
        }
        lemma_group(s, i, k + 1, j, open, close);
    }
}

proof fn lemma_unmasked(s: Seq<u8>, inputs: Seq<NodeRef>, at: int, end: int, piece: Seq<u8>)
    requires
        0 <= at <= end <= s.len(),
        forall|k: int| at <= k < end ==> !#[trigger] in_input(inputs, k),
    ensures
        masked_bytes(s, inputs, at, end, piece) == piece + s.subrange(at, end),
    decreases end - at,
{
    if at < end {
        assert(!in_input(inputs, at));
        lemma_unmasked(s, inputs, at + 1, end, piece.push(s[at]));
        assert(piece.push(s[at]) + s.subrange(at + 1, end) =~= piece + s.subrange(at, end));
    } else {
        assert(piece + s.subrange(at, end) =~= piece);
    }
}

/// A group without inputs counts by its text, in canonical form.
pub proof fn law_a_group_counts_by_its_text(
    s: Seq<u8>,
    inputs: Seq<NodeRef>,
    from: int,
    to: int,
)
    requires
        0 <= from <= to <= s.len(),
        forall|k: int| from <= k < to ==> !#[trigger] in_input(inputs, k),
    ensures
        masked_group(s, inputs, from, to) == canonical(text_of(s, from, to)),
{
    lemma_unmasked(s, inputs, from, to, Seq::empty());
    assert(Seq::<u8>::empty() + s.subrange(from, to) =~= s.subrange(from, to));
}

proof fn lemma_masked_run(
    s: Seq<u8>,
    inputs: Seq<NodeRef>,
    at: int,
    b: int,
    end: int,
    piece: Seq<u8>,
)
    requires
        0 <= at <= b <= end <= s.len(),
        forall|k: int| at <= k < b ==> #[trigger] in_input(inputs, k),
        forall|k: int| b <= k < end ==> !#[trigger] in_input(inputs, k),
        ends_masked(piece),
    ensures
        masked_bytes(s, inputs, at, end, piece) == piece + s.subrange(b, end),
    decreases b - at,
{
    if at < b {
        assert(in_input(inputs, at));
        lemma_masked_run(s, inputs, at + 1, b, end, piece);
    } else {
        lemma_unmasked(s, inputs, b, end, piece);
    }
}

proof fn lemma_up_to(
    s: Seq<u8>,
    inputs: Seq<NodeRef>,
    at: int,
    a: int,
    end: int,
    piece: Seq<u8>,
)
    requires
        0 <= at <= a <= end <= s.len(),
        forall|k: int| at <= k < a ==> !#[trigger] in_input(inputs, k),
    ensures
        masked_bytes(s, inputs, at, end, piece) == masked_bytes(
            s,
            inputs,
            a,
            end,
            piece + s.subrange(at, a),
        ),
    decreases a - at,
{
    if at < a {
        assert(!in_input(inputs, at));
        lemma_up_to(s, inputs, at + 1, a, end, piece.push(s[at]));
        assert(piece.push(s[at]) + s.subrange(at + 1, a) =~= piece + s.subrange(at, a));
    } else {
        assert(piece + s.subrange(at, a) =~= piece);
    }
}

/// An input within a group counts as an input, whatever its id: its token is one
/// mark, and what stands around it counts by its text.
pub proof fn law_the_ids_of_inputs_do_not_count(
    s: Seq<u8>,
    inputs: Seq<NodeRef>,
    from: int,
    a: int,
    b: int,
    to: int,
)
    requires
        0 <= from <= a < b <= to <= s.len(),
        forall|k: int| from <= k < a ==> !#[trigger] in_input(inputs, k),
        forall|k: int| a <= k < b ==> #[trigger] in_input(inputs, k),
        forall|k: int| b <= k < to ==> !#[trigger] in_input(inputs, k),
        a == from || a == from + 1 || s[a - 1] != 0xb7 || s[a - 2] != 0xc2,
    ensures
        masked_group(s, inputs, from, to) == canonical(
            utf8_lossy(s.subrange(from, a) + seq![0xc2u8, 0xb7u8] + s.subrange(b, to)),
        ),
{
    let none = Seq::<u8>::empty();
    lemma_up_to(s, inputs, from, a, to, none);
    let head = s.subrange(from, a);
    assert(none + head =~= head);
    assert(in_input(inputs, a));
    if head.len() >= 2 {
        assert(head[head.len() - 1] == s[a - 1]);
        assert(head[head.len() - 2] == s[a - 2]);
    }
    let marked = head.push(0xc2).push(0xb7);
    lemma_masked_run(s, inputs, a + 1, b, to, marked);
    assert(marked =~= head + seq![0xc2u8, 0xb7u8]);
}

/// What stands in parentheses or brackets right behind the opcode is attached to
/// it, up to where it closes; without either nothing is.
pub proof fn law_the_attached_group_is_the_one_behind_the_opcode(
    s: Seq<u8>,
    node: NodeModel,
    j: int,
)
    requires
        node.opcode_span.end < s.len(),
    ensures
        group(s, node.opcode_span.end as int, j, 40, 41) || group(
            s,
            node.opcode_span.end as int,
            j,
            91,
            93,
        ) ==> operands_of(s, node).attached == masked_group(
            s,
            node.inputs,
            node.opcode_span.end as int,
            j + 1,
        ),
        s[node.opcode_span.end as int] != 40 && s[node.opcode_span.end as int] != 91
            ==> operands_of(s, node).attached.len() == 0,
{
    let i = node.opcode_span.end as int;
    if group(s, i, j, 40, 41) {
        lemma_group(s, i, i, j, 40, 41);
    }
    if group(s, i, j, 91, 93) {
        lemma_group(s, i, i, j, 91, 93);
    }
}

/// Every `<…>` behind the attached group is a heap object, and is kept.
pub proof fn law_a_heap_object_is_kept(
    s: Seq<u8>,
    inputs: Seq<NodeRef>,
    i: int,
    j: int,
    heap: Seq<char>,
    brackets: Seq<char>,
)
    requires
        group(s, i, j, 60, 62),
    ensures
        tail_groups(s, inputs, i, heap, brackets) == tail_groups(
            s,
            inputs,
            j + 1,
            (heap + masked_group(s, inputs, i, j + 1)).push(' '),
            brackets,
        ),
{
    lemma_group(s, i, i, j, 60, 62);
}

/// A `[…]` is kept unless it names a register, a live range or inputs: it holds a
/// bar, stands behind `live range: `, or an input reaches into it.
pub proof fn law_a_bracket_is_kept_where_it_means_something(
    s: Seq<u8>,
    inputs: Seq<NodeRef>,
    i: int,
    j: int,
    heap: Seq<char>,
    brackets: Seq<char>,
)
    requires
        group(s, i, j, 91, 93),
    ensures
        ({
            let bar = exists|k: int| i <= k <= j && #[trigger] s[k] == 124;
            let range = says(s, i - 12, "live range: "@);
            let fed = exists|k: int|
                0 <= k < inputs.len() && (#[trigger] inputs[k]).span.start <= j && i
                    < inputs[k].span.end && inputs[k].span.start < inputs[k].span.end;
            let kept = !bar && !range && !fed;
            tail_groups(s, inputs, i, heap, brackets) == tail_groups(
                s,
                inputs,
                j + 1,
                heap,
                if kept {
                    (brackets + masked_group(s, inputs, i, j + 1)).push(' ')
                } else {
                    brackets
                },
            )
        }),
{
    lemma_group(s, i, i, j, 91, 93);
    lemma_bar(s, i, j + 1);
    reveal_strlit("live range: ");
    lemma_says(s, i - 12, "live range: "@);
    let fed = exists|k: int|
        0 <= k < inputs.len() && (#[trigger] inputs[k]).span.start <= j && i < inputs[k].span.end
            && inputs[k].span.start < inputs[k].span.end;
    if touches_input(inputs, i, j + 1) {
        let k = choose|k: int|
            0 <= k < inputs.len() && (#[trigger] inputs[k]).span.start < j + 1 && i
                < inputs[k].span.end && inputs[k].span.start < inputs[k].span.end;
        assert(inputs[k].span.start <= j);
    }
    if fed {
        let k = choose|k: int|
            0 <= k < inputs.len() && (#[trigger] inputs[k]).span.start <= j && i
                < inputs[k].span.end && inputs[k].span.start < inputs[k].span.end;
        assert(inputs[k].span.start < j + 1);
    }
    let bar = exists|k: int| i <= k <= j && #[trigger] s[k] == 124;
    if bar {
        let k = choose|k: int| i <= k <= j && #[trigger] s[k] == 124;
        assert(i <= k < j + 1 && s[k] == 124);
    }
}

proof fn lemma_bar(s: Seq<u8>, i: int, to: int)
    requires
        0 <= i <= to <= s.len(),
    ensures
        find_byte_in(s, i, to, 0x7c) is None <==> forall|k: int|
            i <= k < to ==> #[trigger] s[k] != 124,
    decreases to - i,
{
    if i < to && s[i] != 124 {
        lemma_bar(s, i + 1, to);
    }
}

/// Text outside of groups counts for nothing.
pub proof fn law_text_outside_of_groups_does_not_count(
    s: Seq<u8>,
    inputs: Seq<NodeRef>,
    i: int,
    j: int,
    heap: Seq<char>,
    brackets: Seq<char>,
)
    requires
        0 <= i <= j <= s.len(),
        forall|k: int| i <= k < j ==> #[trigger] s[k] != 60 && s[k] != 91,
    ensures
        tail_groups(s, inputs, i, heap, brackets) == tail_groups(s, inputs, j, heap, brackets),
        j == s.len() ==> tail_groups(s, inputs, i, heap, brackets) == (heap, brackets),
    decreases j - i,
{
    if i < j {
        assert(s[i] != 60 && s[i] != 91);
        law_text_outside_of_groups_does_not_count(s, inputs, i + 1, j, heap, brackets);
    }
}

} // verus!
