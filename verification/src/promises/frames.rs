//! Deopt frames, annotations and counts of a Maglev graph.

use vstd::prelude::*;
#[allow(unused_imports)]
use vstd::string::*;
#[allow(unused_imports)]
use vstd::utf8::*;

#[allow(unused_imports)]
use super::bytes::{
    digit, digit_run, hex_number, hex_run, lemma_decimal, lemma_hex, lemma_says, number, says,
};
#[allow(unused_imports)]
use super::disassembly::{first_said, lemma_first, not_said};
#[allow(unused_imports)]
use crate::model::{
    next_count, DeoptFrame, FrameArrow, LineModel, NodeId, ParsedModel, SCHEDULE_ONLY,
};
#[allow(unused_imports)]
use crate::parse::graph::{after_line, claimed, claimed_by, graph_state, GraphState};
#[allow(unused_imports)]
use crate::parse::intern::{lemma_place, place, place_from, FrameKeyModel, InternModel};
#[allow(unused_imports)]
use crate::parse::maglev::{frame_arrow, frame_at, frame_key, frame_line, graph_line, MemoryModel};
#[allow(unused_imports)]
use crate::text::{byte_is, in_class, lemma_run_end, occurs_at, run_end, ByteClass};

verus! {

// ---------------------------------------------------------------------------
// What a frame line says
// ---------------------------------------------------------------------------

/// The text `word` is printed at `k`.
pub open spec fn prints(s: Seq<u8>, k: int, word: Seq<char>) -> bool {
    let w = encode_utf8(word);
    &&& 0 <= k
    &&& k + w.len() <= s.len()
    &&& forall|j: int| 0 <= j < w.len() ==> s[k + j] == #[trigger] w[j]
}

pub(crate) proof fn lemma_prints(s: Seq<u8>, k: int, word: Seq<char>)
    ensures
        prints(s, k, word) == occurs_at(s, k, encode_utf8(word)),
{
    let w = encode_utf8(word);
    if occurs_at(s, k, w) {
        assert forall|j: int| 0 <= j < w.len() implies s[k + j] == #[trigger] w[j] by {
            assert(s.subrange(k, k + w.len())[j] == w[j]);
        }
    }
    if prints(s, k, word) {
        assert(s.subrange(k, k + w.len()) =~= w);
    }
}

/// `↱ eager`, `↳ lazy` and `↳ throw` name the frame's arrow; a line that prints
/// none of them goes on with the arrow before it.
pub proof fn law_a_frame_has_the_arrow_that_is_printed(s: Seq<u8>, k: int, last: FrameArrow)
    ensures
        prints(s, k, "↱ eager"@) ==> frame_arrow(s, k, last).0 == FrameArrow::Eager,
        prints(s, k, "↳ lazy"@) && !prints(s, k, "↱ eager"@) ==> frame_arrow(s, k, last).0
            == FrameArrow::Lazy,
        prints(s, k, "↳ throw"@) && !prints(s, k, "↱ eager"@) && !prints(s, k, "↳ lazy"@)
            ==> frame_arrow(s, k, last).0 == FrameArrow::Throw,
        !prints(s, k, "↱ eager"@) && !prints(s, k, "↳ lazy"@) && !prints(s, k, "↳ throw"@)
            ==> frame_arrow(s, k, last) == (last, k),
{
    lemma_prints(s, k, "↱ eager"@);
    lemma_prints(s, k, "↳ lazy"@);
    lemma_prints(s, k, "↳ throw"@);
}

/// `@N` at the start of a frame is its bytecode offset, `@-N` a negative one;
/// without an at sign there is none.
pub proof fn law_a_frame_has_the_offset_that_is_printed(
    s: Seq<u8>,
    r: int,
    e: int,
    arrow: FrameArrow,
)
    requires
        0 <= r < s.len(),
    ensures
        s[r] != 64 ==> frame_at(s, r, arrow).bytecode_offset is None,
        s[r] == 64 && digit_run(s, r + 1, e) && !byte_is(s, e, 45) && number(s, r + 1, e)
            <= i32::MAX ==> frame_at(s, r, arrow).bytecode_offset == Some(
            number(s, r + 1, e) as i32,
        ),
        s[r] == 64 && byte_is(s, r + 1, 45) && digit_run(s, r + 2, e) && !byte_is(s, e, 45)
            && number(s, r + 2, e) <= i32::MAX ==> frame_at(s, r, arrow).bytecode_offset == Some(
            (0 - number(s, r + 2, e)) as i32,
        ),
{
    let a = if byte_is(s, r + 1, 45) {
        r + 2
    } else {
        r + 1
    };
    if s[r] == 64 && digit_run(s, a, e) && !byte_is(s, e, 45) {
        lemma_decimal(s, a, e);
        let x = run_end(s, r + 1, ByteClass::SignedDigit);
        lemma_run_end(s, r + 1, ByteClass::SignedDigit);
        if x < e {
            if x == r + 1 && a == r + 2 {
                assert(s[x] == 45);
            } else {
                assert(digit(s[x]));
            }
        }
        if e < x {
            assert(in_class(ByteClass::SignedDigit, s[e]));
        }
        assert(digit(s[a]));
    }
}

/// `(bN)` names the block that catches, for a throw alone.
pub proof fn law_a_throw_names_its_catch_block(
    s: Seq<u8>,
    r: int,
    a: int,
    e: int,
    arrow: FrameArrow,
)
    requires
        0 <= r <= s.len(),
    ensures
        arrow != FrameArrow::Throw ==> frame_at(s, r, arrow).catch_block is None,
        arrow == FrameArrow::Throw && first_said(s, r, s.len() as int, a, "(b"@) && digit_run(
            s,
            a + 2,
            e,
        ) && number(s, a + 2, e) <= u32::MAX ==> frame_at(s, r, arrow).catch_block == Some(
            number(s, a + 2, e) as u32,
        ),
        not_said(s, r, s.len() as int, "(b"@) ==> frame_at(s, r, arrow).catch_block is None,
{
    reveal_strlit("(b");
    lemma_first(s, r, s.len() as int, a, "(b"@);
    lemma_says(s, a, "(b"@);
    assert(s.subrange(0, s.len() as int) =~= s);
    if digit_run(s, a + 2, e) {
        lemma_decimal(s, a + 2, e);
    }
}

/// `(addr:0xH)` is the address of the frame, and then what it is known by; a
/// frame without one is known by its arrow and what is printed of it.
pub proof fn law_a_frame_is_known_by_its_address(
    s: Seq<u8>,
    r: int,
    a: int,
    e: int,
    arrow: FrameArrow,
)
    requires
        0 <= r <= s.len(),
    ensures
        first_said(s, r, s.len() as int, a, "(addr:0x"@) && hex_run(s, a + 8, e) && hex_number(
            s,
            a + 8,
            e,
        ) <= u64::MAX ==> {
            let frame = frame_at(s, r, arrow);
            &&& frame.addr == Some(hex_number(s, a + 8, e) as u64)
            &&& frame_key(s, r, frame) == FrameKeyModel::Addr(hex_number(s, a + 8, e) as u64)
        },
        not_said(s, r, s.len() as int, "(addr:0x"@) ==> {
            let frame = frame_at(s, r, arrow);
            &&& frame.addr is None
            &&& frame_key(s, r, frame) == FrameKeyModel::Payload(
                arrow,
                s.subrange(r, s.len() as int),
            )
        },
        frame_at(s, r, arrow).arrow == arrow,
        frame_at(s, r, arrow).occurrences == 1,
{
    reveal_strlit("(addr:0x");
    lemma_first(s, r, s.len() as int, a, "(addr:0x"@);
    lemma_says(s, a, "(addr:0x"@);
    assert(s.subrange(0, s.len() as int) =~= s);
    if hex_run(s, a + 8, e) {
        lemma_hex(s, a + 8, e);
    }
}

/// Frames with one key have one id, whatever was met between them, and frames
/// with different keys have different ids.
pub proof fn law_a_key_is_a_frame(
    m: InternModel,
    frame: DeoptFrame,
    key: FrameKeyModel,
    other: FrameKeyModel,
)
    requires
        m.wf(),
        m.keys.len() < u32::MAX,
    ensures
        ({
            let out = m.with_frame(frame, key);
            let id = m.frame_id(key) as int;
            &&& out.wf()
            &&& id < out.keys.len()
            &&& out.keys[id] == key
            &&& out.frame_id(key) == id
            &&& m.keys.contains(key) ==> out.keys == m.keys && out.frames[id].occurrences
                == next_count(m.frames[id].occurrences)
            &&& !m.keys.contains(key) ==> out.frames[id] == frame && out.keys.len()
                == m.keys.len() + 1
            &&& m.keys.contains(other) ==> out.frame_id(other) == m.frame_id(other)
            &&& m.keys.contains(other) && other != key ==> m.frame_id(other) != id
            &&& forall|k: int| 0 <= k < m.frames.len() && k != id ==> out.frames[k] == m.frames[k]
        }),
{
    lemma_place(m.keys, key, 0);
    lemma_place(m.keys, other, 0);
    let out = m.with_frame(frame, key);
    lemma_place(out.keys, key, 0);
    lemma_place(out.keys, other, 0);
    if place(m.keys, key) is None {
        lemma_place_of_pushed(m.keys, key, other, 0);
        lemma_place_of_pushed(m.keys, key, key, 0);
    }
}

proof fn lemma_place_of_pushed<T>(list: Seq<T>, added: T, x: T, i: int)
    requires
        0 <= i <= list.len(),
    ensures
        place_from(list, x, i) is Some ==> place_from(list.push(added), x, i) == place_from(
            list,
            x,
            i,
        ),
        place_from(list, x, i) is None && added == x ==> place_from(list.push(added), x, i) == Some(
            list.len() as int,
        ),
    decreases list.len() - i,
{
    if i < list.len() {
        assert(list.push(added)[i] == list[i]);
        if list[i] != x {
            lemma_place_of_pushed(list, added, x, i + 1);
        }
    }
}

// ---------------------------------------------------------------------------
// Frames and nodes
// ---------------------------------------------------------------------------

/// The first node among `infos[i..n]`.
pub open spec fn first_node(infos: Seq<LineModel>, i: int, n: int) -> Option<NodeId>
    decreases n - i,
{
    if i >= n {
        None
    } else {
        match infos[i] {
            LineModel::Node(node) => Some(node.id),
            _ => first_node(infos, i + 1, n),
        }
    }
}

/// The last node with an id of its own among the first `n` lines.
pub open spec fn latest_node(infos: Seq<LineModel>, n: int) -> Option<NodeId>
    decreases n,
{
    if n <= 0 {
        None
    } else {
        match infos[n - 1] {
            LineModel::Node(node) => if node.id != SCHEDULE_ONLY {
                Some(node.id)
            } else {
                latest_node(infos, n - 1)
            },
            _ => latest_node(infos, n - 1),
        }
    }
}

/// What line `i` of a graph is when it is met.
#[verifier::opaque]
pub open spec fn met(
    lines: Seq<Seq<u8>>,
    start: int,
    m: InternModel,
    parsed: ParsedModel,
    i: int,
) -> LineModel {
    if i == 0 {
        LineModel::Banner
    } else {
        graph_line(lines[i], graph_state(lines, start, m, parsed, i).mem).0
    }
}

/// `now` is what became of a line that was `info` when it was met, where `next`
/// is the first node after it: a frame that waited belongs to that node.
pub open spec fn settled(info: LineModel, now: LineModel, next: Option<NodeId>) -> bool {
    match info {
        LineModel::Frame { frame, after_node, refs } => now == (LineModel::Frame {
            frame,
            after_node: if after_node is Some {
                after_node
            } else {
                next
            },
            refs,
        }),
        LineModel::SfiContext { line, col, .. } => now matches LineModel::SfiContext {
            line: l,
            col: c,
            ..
        } && l == line && c == col,
        _ => now == info,
    }
}

spec fn waits(info: LineModel) -> bool {
    info matches LineModel::Frame { after_node: None, .. }
}

spec fn same_nodes(a: Seq<LineModel>, b: Seq<LineModel>, n: int) -> bool {
    forall|j: int|
        0 <= j < n ==> ((#[trigger] a[j]) is Node || b[j] is Node ==> a[j] == b[j])
}

proof fn lemma_first_node(a: Seq<LineModel>, b: Seq<LineModel>, i: int, n: int)
    requires
        same_nodes(a, b, n),
        0 <= i,
    ensures
        first_node(a, i, n) == first_node(b, i, n),
    decreases n - i,
{
    if i < n {
        assert(a[i] is Node || b[i] is Node ==> a[i] == b[i]);
        lemma_first_node(a, b, i + 1, n);
    }
}

proof fn lemma_latest_node(a: Seq<LineModel>, b: Seq<LineModel>, n: int)
    requires
        same_nodes(a, b, n),
    ensures
        latest_node(a, n) == latest_node(b, n),
    decreases n,
{
    if n > 0 {
        assert(a[n - 1] is Node || b[n - 1] is Node ==> a[n - 1] == b[n - 1]);
        lemma_latest_node(a, b, n - 1);
    }
}

proof fn lemma_first_node_grown(a: Seq<LineModel>, i: int, n: int)
    requires
        0 <= i <= n < a.len(),
    ensures
        first_node(a, i, n + 1) == (if first_node(a, i, n) is Some {
            first_node(a, i, n)
        } else if a[n] is Node {
            Some(a[n]->Node_0.id)
        } else {
            None
        }),
    decreases n - i,
{
    if i < n {
        lemma_first_node_grown(a, i + 1, n);
    } else {
        assert(first_node(a, n + 1, n + 1) is None);
    }
}

proof fn lemma_claimed_by(infos: Seq<LineModel>, waiting: Seq<usize>, n: int, node: NodeId)
    requires
        0 <= n <= waiting.len(),
        forall|w: int| 0 <= w < waiting.len() ==> #[trigger] waiting[w] < infos.len(),
    ensures
        ({
            let out = claimed_by(infos, waiting, n, node);
            &&& out.len() == infos.len()
            &&& forall|j: int|
                0 <= j < infos.len() ==> #[trigger] out[j] == (if exists|w: int|
                    0 <= w < n && #[trigger] waiting[w] == j {
                    claimed(infos[j], node)
                } else {
                    infos[j]
                })
        }),
    decreases n,
{
    if n > 0 {
        lemma_claimed_by(infos, waiting, n - 1, node);
        let before = claimed_by(infos, waiting, n - 1, node);
        let out = claimed_by(infos, waiting, n, node);
        let k = waiting[n - 1] as int;
        assert(waiting[n - 1] < infos.len());
        assert forall|j: int| 0 <= j < infos.len() implies #[trigger] out[j] == (if exists|w: int|
            0 <= w < n && #[trigger] waiting[w] == j {
            claimed(infos[j], node)
        } else {
            infos[j]
        }) by {
            assert(before[j] == before[j]);
            if j == k {
                assert(waiting[n - 1] == j);
            } else if exists|w: int| 0 <= w < n && #[trigger] waiting[w] == j {
                let w = choose|w: int| 0 <= w < n && #[trigger] waiting[w] == j;
                assert(w != n - 1);
                assert(0 <= w < n - 1 && waiting[w] == j);
            }
        }
    }
}

/// The frames that wait are those that no node has claimed.
spec fn in_wait(st: GraphState) -> bool {
    &&& forall|w: int|
        0 <= w < st.waiting.len() ==> (#[trigger] st.waiting[w]) < st.phase.infos.len() && waits(
            st.phase.infos[st.waiting[w] as int],
        )
    &&& forall|j: int|
        0 <= j < st.phase.infos.len() && waits(#[trigger] st.phase.infos[j]) ==> exists|w: int|
            0 <= w < st.waiting.len() && #[trigger] st.waiting[w] == j
}

/// What one line does to the lines before it.
#[verifier::spinoff_prover]
#[verifier::rlimit(60)]
proof fn lemma_step(st: GraphState, mem: MemoryModel, info: LineModel, s: Seq<u8>, line: int)
    requires
        in_wait(st),
        st.phase.infos.len() < u32::MAX,
    ensures
        ({
            let out = after_line(st, mem, info, s, line);
            let n = st.phase.infos.len() as int;
            &&& in_wait(out)
            &&& out.mem == mem
            &&& out.phase.infos.len() == n + 1
            &&& settled(info, out.phase.infos[n], None)
            &&& forall|j: int|
                0 <= j < n ==> #[trigger] out.phase.infos[j] == (if info is Node && waits(
                    st.phase.infos[j],
                ) {
                    claimed(st.phase.infos[j], info->Node_0.id)
                } else {
                    st.phase.infos[j]
                })
        }),
{
    reveal(after_line);
    let out = after_line(st, mem, info, s, line);
    let infos = st.phase.infos;
    let n = infos.len() as int;
    if let LineModel::Node(node) = info {
        let w = st.waiting.len() as int;
        lemma_claimed_by(infos, st.waiting, w, node.id);
        let c = claimed_by(infos, st.waiting, w, node.id);
        assert forall|j: int| 0 <= j < n implies #[trigger] out.phase.infos[j] == (if waits(
            infos[j],
        ) {
            claimed(infos[j], node.id)
        } else {
            infos[j]
        }) by {
            assert(out.phase.infos[j] == c[j]);
            if exists|v: int| 0 <= v < w && #[trigger] st.waiting[v] == j {
                let v = choose|v: int| 0 <= v < w && #[trigger] st.waiting[v] == j;
                assert(waits(infos[st.waiting[v] as int]));
            }
        }
    } else {
        assert forall|j: int| 0 <= j < n implies #[trigger] out.phase.infos[j] == infos[j] by {}
        assert forall|j: int|
            0 <= j < out.phase.infos.len() && waits(
                #[trigger] out.phase.infos[j],
            ) implies exists|w: int| 0 <= w < out.waiting.len() && #[trigger] out.waiting[w] == j by {
            if j < n {
                assert(waits(infos[j]));
                let w = choose|w: int| 0 <= w < st.waiting.len() && #[trigger] st.waiting[w] == j;
                assert(out.waiting[w] == j);
            } else {
                assert(out.waiting[st.waiting.len() as int] == j);
            }
        }
        assert forall|w: int| 0 <= w < out.waiting.len() implies (#[trigger] out.waiting[w])
            < out.phase.infos.len() && waits(out.phase.infos[out.waiting[w] as int]) by {
            if w < st.waiting.len() {
                assert(out.waiting[w] == st.waiting[w]);
            }
        }
    }
}

spec fn all_settled(
    lines: Seq<Seq<u8>>,
    start: int,
    m: InternModel,
    parsed: ParsedModel,
    n: int,
) -> bool {
    settled_in(lines, start, m, parsed, graph_state(lines, start, m, parsed, n).phase.infos, n)
}

/// What a line leaves as the last node.
#[verifier::spinoff_prover]
#[verifier::rlimit(60)]
proof fn lemma_last_node(s: Seq<u8>, mem: MemoryModel)
    ensures
        graph_line(s, mem).1.last_node == (match graph_line(s, mem).0 {
            LineModel::Node(node) => if node.id != SCHEDULE_ONLY {
                Some(node.id)
            } else {
                mem.last_node
            },
            _ => mem.last_node,
        }),
{
    let start = crate::parse::maglev::content_from(s, 0);
    if crate::parse::bytecode::interleaved_row(s, start) is Some {
        assert(!(crate::parse::bytecode::interleaved_row(s, start)->0 is Node));
    }
}

/// The last line of a graph, as it is met.
#[verifier::spinoff_prover]
#[verifier::rlimit(60)]
proof fn lemma_met(
    lines: Seq<Seq<u8>>,
    start: int,
    m: InternModel,
    parsed: ParsedModel,
    n: int,
) -> (mem: MemoryModel)
    requires
        0 < n <= lines.len(),
    ensures
        graph_state(lines, start, m, parsed, n) == after_line(
            graph_state(lines, start, m, parsed, n - 1),
            mem,
            met(lines, start, m, parsed, n - 1),
            lines[n - 1],
            start + n - 1,
        ),
        mem.last_node == (match met(lines, start, m, parsed, n - 1) {
            LineModel::Node(node) => if node.id != SCHEDULE_ONLY {
                Some(node.id)
            } else {
                graph_state(lines, start, m, parsed, n - 1).mem.last_node
            },
            _ => graph_state(lines, start, m, parsed, n - 1).mem.last_node,
        }),
{
    reveal(met);
    let before = graph_state(lines, start, m, parsed, n - 1);
    if n == 1 {
        before.mem
    } else {
        lemma_last_node(lines[n - 1], before.mem);
        graph_line(lines[n - 1], before.mem).1
    }
}

proof fn lemma_settled(
    lines: Seq<Seq<u8>>,
    start: int,
    m: InternModel,
    parsed: ParsedModel,
    n: int,
)
    requires
        0 <= n <= lines.len(),
        n <= u32::MAX,
    ensures
        ({
            let st = graph_state(lines, start, m, parsed, n);
            &&& in_wait(st)
            &&& st.phase.infos.len() == n
            &&& st.mem.last_node == latest_node(st.phase.infos, n)
        }),
        all_settled(lines, start, m, parsed, n),
    decreases n,
{
    if n > 0 {
        lemma_settled(lines, start, m, parsed, n - 1);
        let before = graph_state(lines, start, m, parsed, n - 1);
        let info = met(lines, start, m, parsed, n - 1);
        let mem = lemma_met(lines, start, m, parsed, n);
        lemma_one_more(lines, start, m, parsed, n, before, mem, info);
    } else {
        assert(latest_node(graph_state(lines, start, m, parsed, 0).phase.infos, 0) is None);
    }
}

spec fn settled_in(
    lines: Seq<Seq<u8>>,
    start: int,
    m: InternModel,
    parsed: ParsedModel,
    infos: Seq<LineModel>,
    n: int,
) -> bool {
    forall|i: int|
        0 <= i < n ==> settled(
            met(lines, start, m, parsed, i),
            #[trigger] infos[i],
            first_node(infos, i + 1, n),
        )
}

#[verifier::spinoff_prover]
#[verifier::rlimit(60)]
proof fn lemma_one_more(
    lines: Seq<Seq<u8>>,
    start: int,
    m: InternModel,
    parsed: ParsedModel,
    n: int,
    before: GraphState,
    mem: MemoryModel,
    info: LineModel,
)
    requires
        0 < n <= u32::MAX,
        in_wait(before),
        before.phase.infos.len() == n - 1,
        before.mem.last_node == latest_node(before.phase.infos, n - 1),
        settled_in(lines, start, m, parsed, before.phase.infos, n - 1),
        info == met(lines, start, m, parsed, n - 1),
        mem.last_node == (match info {
            LineModel::Node(node) => if node.id != SCHEDULE_ONLY {
                Some(node.id)
            } else {
                before.mem.last_node
            },
            _ => before.mem.last_node,
        }),
    ensures
        ({
            let st = after_line(before, mem, info, lines[n - 1], start + n - 1);
            &&& in_wait(st)
            &&& st.phase.infos.len() == n
            &&& st.mem.last_node == latest_node(st.phase.infos, n)
            &&& settled_in(lines, start, m, parsed, st.phase.infos, n)
        }),
{
    let st = after_line(before, mem, info, lines[n - 1], start + n - 1);
    lemma_step(before, mem, info, lines[n - 1], start + n - 1);
    let a = before.phase.infos;
    let b = st.phase.infos;
    assert(same_nodes(a, b, n - 1));
    lemma_latest_node(a, b, n - 1);
    assert forall|i: int| 0 <= i < n implies settled(
        met(lines, start, m, parsed, i),
        #[trigger] b[i],
        first_node(b, i + 1, n),
    ) by {
        if i < n - 1 {
            assert(settled(met(lines, start, m, parsed, i), a[i], first_node(a, i + 1, n - 1)));
            lemma_first_node(a, b, i + 1, n - 1);
            lemma_first_node_grown(b, i + 1, n - 1);
        } else {
            assert(first_node(b, n, n) is None);
        }
    }
}

/// A frame that names no node when it is met belongs to the first node after it,
/// if there is one. A frame that names one keeps it, and no other line changes.
pub proof fn law_a_waiting_frame_belongs_to_the_next_node(
    lines: Seq<Seq<u8>>,
    start: int,
    m: InternModel,
    parsed: ParsedModel,
    n: int,
    i: int,
)
    requires
        0 <= i < n <= lines.len(),
        n <= u32::MAX,
    ensures
        ({
            let infos = graph_state(lines, start, m, parsed, n).phase.infos;
            &&& infos.len() == n
            &&& settled(met(lines, start, m, parsed, i), infos[i], first_node(infos, i + 1, n))
        }),
{
    lemma_settled(lines, start, m, parsed, n);
    let infos = graph_state(lines, start, m, parsed, n).phase.infos;
    assert(settled(met(lines, start, m, parsed, i), infos[i], first_node(infos, i + 1, n)));
}

/// A lazy frame, a throw and an annotation belong to the last node before them,
/// an eager frame to none yet.
pub proof fn law_a_frame_belongs_to_the_node_before(
    lines: Seq<Seq<u8>>,
    start: int,
    m: InternModel,
    parsed: ParsedModel,
    n: int,
    at: int,
)
    requires
        0 < n < lines.len(),
        n <= u32::MAX,
    ensures
        ({
            let st = graph_state(lines, start, m, parsed, n);
            let before = latest_node(st.phase.infos, n);
            let out = frame_line(lines[n], at, st.mem.interned, st.mem.last_node, st.mem.last_arrow);
            &&& out.info matches LineModel::Frame { after_node, .. } && after_node == (
            if out.arrow == FrameArrow::Eager {
                None
            } else {
                before
            })
            &&& met(lines, start, m, parsed, n) matches LineModel::Annotation { after_node: a }
                ==> a == before
        }),
{
    lemma_settled(lines, start, m, parsed, n);
    reveal(met);
    lemma_annotation(lines[n], graph_state(lines, start, m, parsed, n).mem);
}

#[verifier::spinoff_prover]
#[verifier::rlimit(60)]
proof fn lemma_annotation(s: Seq<u8>, mem: MemoryModel)
    ensures
        graph_line(s, mem).0 matches LineModel::Annotation { after_node: a } ==> a
            == mem.last_node,
{
    let start = crate::parse::maglev::content_from(s, 0);
    if crate::parse::bytecode::interleaved_row(s, start) is Some {
        assert(!(crate::parse::bytecode::interleaved_row(s, start)->0 is Annotation));
    }
}

} // verus!
