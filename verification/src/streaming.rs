//! An index does not depend on how its bytes arrived.

use vstd::prelude::*;

#[allow(unused_imports)]
use crate::index::IndexModel;
#[allow(unused_imports)]
use crate::source::LogModel;

verus! {

proof fn lemma_settled_line(buffer: LogModel, more: Seq<u8>, i: int)
    requires
        !buffer.mapped,
        buffer.ordered(),
        0 <= i,
        i + 1 < buffer.starts.len(),
    ensures
        buffer.appended(more).line_or_empty(i) == buffer.line_or_empty(i),
{
    let after = buffer.appended(more);
    assert(after.starts[i] == buffer.starts[i]);
    assert(after.starts[i + 1] == buffer.starts[i + 1]);
    assert(buffer.starts[i] < buffer.starts[i + 1]);
    assert(after.whole_line(i) =~= buffer.whole_line(i));
}

proof fn lemma_finished_line(buffer: LogModel, i: int)
    requires
        buffer.ordered(),
        0 <= i,
        i + 1 < buffer.starts.len(),
    ensures
        buffer.finished().line_or_empty(i) == buffer.line_or_empty(i),
{
}

/// Lines that two buffers agree on are indexed alike.
proof fn lemma_same_lines(m: IndexModel, a: LogModel, b: LogModel, end: int)
    requires
        forall|i: int|
            m.next_line <= i < end ==> #[trigger] a.line_or_empty(i) == b.line_or_empty(i),
    ensures
        m.advanced(a, end) == m.advanced(b, end),
    decreases end - m.next_line,
{
    if m.next_line < end {
        assert(a.line_or_empty(m.next_line) == b.line_or_empty(m.next_line));
        assert(m.stepped(a) == m.stepped(b));
        lemma_same_lines(m.stepped(a), a, b, end);
    }
}

proof fn lemma_in_two_steps(m: IndexModel, buffer: LogModel, mid: int, end: int)
    requires
        mid <= end,
    ensures
        m.advanced(buffer, mid).advanced(buffer, end) == m.advanced(buffer, end),
    decreases end - m.next_line,
{
    if m.next_line < mid {
        lemma_in_two_steps(m.stepped(buffer), buffer, mid, end);
    }
}

/// Indexing what has arrived and then what has arrived since gives what
/// indexing everything at once gives.
pub proof fn law_streaming_indexes_like_one_read(m: IndexModel, buffer: LogModel, more: Seq<u8>)
    requires
        !buffer.mapped,
        buffer.ordered(),
        m.next_line >= 0,
    ensures
        m.ingested(buffer, false).ingested(buffer.appended(more), false) == m.ingested(
            buffer.appended(more),
            false,
        ),
{
    let after = buffer.appended(more);
    let mid = buffer.starts.len() - 1;
    let end = after.starts.len() - 1;
    assert forall|i: int| m.next_line <= i < mid implies #[trigger] buffer.line_or_empty(i)
        == after.line_or_empty(i) by {
        lemma_settled_line(buffer, more, i);
    }
    lemma_same_lines(m, buffer, after, mid);
    lemma_in_two_steps(m, after, mid, end);
}

/// Nor does it matter that some lines were indexed before the input ended.
pub proof fn law_the_end_indexes_like_one_read(m: IndexModel, buffer: LogModel)
    requires
        buffer.ordered(),
        m.next_line >= 0,
    ensures
        m.ingested(buffer, false).ingested(buffer.finished(), true) == m.ingested(
            buffer.finished(),
            true,
        ),
{
    let after = buffer.finished();
    let mid = buffer.starts.len() - 1;
    let end = after.starts.len() as int;
    assert forall|i: int| m.next_line <= i < mid implies #[trigger] buffer.line_or_empty(i)
        == after.line_or_empty(i) by {
        lemma_finished_line(buffer, i);
    }
    lemma_same_lines(m, buffer, after, mid);
    lemma_in_two_steps(m, after, mid, end);
}

} // verus!
