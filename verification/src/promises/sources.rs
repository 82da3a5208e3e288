//! Where lines of a dump come from in the script.

use vstd::prelude::*;
#[allow(unused_imports)]
use vstd::utf8::*;

#[allow(unused_imports)]
use crate::app::align::{is_placed, lines_from, place_at, placed_in, positions_in};
#[allow(unused_imports)]
use crate::app::scripts::{
    chomped, displayed, embedded_starts, ended_lines, line_behind, line_from, offset_of, text_lines,
};
#[allow(unused_imports)]
use crate::app::{PaneModel, SrcRef};
#[allow(unused_imports)]
use crate::model::LineModel;

verus! {

/// The lines of a pane begin one behind the other.
pub open spec fn ascending(starts: Seq<u32>) -> bool {
    forall|a: int, b: int| 0 <= a < b < starts.len() ==> #[trigger] starts[a] <= #[trigger] starts[b]
}

proof fn lemma_line_behind(starts: Seq<u32>, offset: u32, k: int)
    requires
        0 <= k <= starts.len(),
    ensures
        ({
            let n = line_behind(starts, offset, k);
            &&& k <= n <= starts.len()
            &&& forall|j: int| k <= j < n ==> #[trigger] starts[j] <= offset
            &&& n < starts.len() ==> starts[n] > offset
        }),
    decreases starts.len() - k,
{
    if k < starts.len() && starts[k] <= offset {
        lemma_line_behind(starts, offset, k + 1);
    }
}

/// An offset is shown on the line that begins at it or before it, where the next
/// line begins behind it. An offset in front of the first line is not shown.
pub proof fn law_an_offset_is_shown_on_its_line(pane: PaneModel, c: u32, d: int)
    requires
        ascending(pane.line_starts),
        pane.chars_usable,
    ensures
        displayed(pane, SrcRef::Char(c)) == Some(d) ==> {
            &&& 0 <= d < pane.lines.len()
            &&& d < pane.line_starts.len()
            &&& pane.line_starts[d] <= c
            &&& d + 1 < pane.line_starts.len() ==> c < pane.line_starts[d + 1]
        },
        0 <= d < pane.lines.len() && d < pane.line_starts.len() && pane.line_starts[d] <= c && (d
            + 1 < pane.line_starts.len() ==> c < pane.line_starts[d + 1]) ==> displayed(
            pane,
            SrcRef::Char(c),
        ) == Some(d),
{
    let starts = pane.line_starts;
    lemma_line_behind(starts, c, 0);
    let n = line_behind(starts, c, 0);
    if starts.len() > 0 && starts[0] <= c {
        assert(n > 0);
        assert(starts[n - 1] <= c);
    }
    if 0 <= d < starts.len() && starts[d] <= c {
        if d > 0 {
            assert(starts[0] <= starts[d]);
        }
        if n <= d {
            if n < d {
                assert(starts[n] <= starts[d]);
            }
        }
        if d + 1 < n {
            assert(starts[d + 1] <= c);
        }
    }
}

/// Where the offsets of a pane are not those of the script, no offset is shown.
pub proof fn law_an_unusable_offset_is_not_shown(pane: PaneModel, c: u32)
    requires
        !pane.chars_usable,
    ensures
        displayed(pane, SrcRef::Char(c)) is None,
{
}

/// A line of the script is shown as far behind the first line of the pane as it
/// stands behind the line that the pane begins with.
pub proof fn law_a_line_is_shown_in_its_place(pane: PaneModel, l: u32)
    ensures
        l < pane.base_line ==> displayed(pane, SrcRef::FnLine(l)) is None,
        l >= pane.base_line + pane.lines.len() ==> displayed(pane, SrcRef::FnLine(l)) is None,
        pane.base_line <= l < pane.base_line + pane.lines.len() ==> displayed(
            pane,
            SrcRef::FnLine(l),
        ) == Some(l - pane.base_line),
{
}

// ---------------------------------------------------------------------------
// Lines of a script
// ---------------------------------------------------------------------------

proof fn lemma_line_from(head: Seq<char>, rest: Seq<char>, k: int)
    requires
        0 <= k <= rest.len(),
    ensures
        line_from(head.push('\n') + rest, head.len() + 1 + k) == head.len() + 1 + line_from(
            rest,
            k,
        ),
        0 <= line_from(rest, k) <= k,
    decreases k,
{
    let s = head.push('\n') + rest;
    let n = head.len() + 1 + k;
    if k > 0 {
        assert(s[n - 1] == rest[k - 1]);
        lemma_line_from(head, rest, k - 1);
    } else {
        assert(s[n - 1] == '\n');
    }
}

proof fn lemma_first_line(head: Seq<char>, rest: Seq<char>, n: int)
    requires
        0 <= n <= head.len(),
        forall|k: int| 0 <= k < head.len() ==> #[trigger] head[k] != '\n',
    ensures
        line_from(head.push('\n') + rest, n) == 0,
        ended_lines(head.push('\n') + rest, n) == Seq::<Seq<char>>::empty(),
    decreases n,
{
    let s = head.push('\n') + rest;
    if n > 0 {
        assert(s[n - 1] == head[n - 1]);
        lemma_first_line(head, rest, n - 1);
    }
}

proof fn lemma_ended(head: Seq<char>, rest: Seq<char>, k: int)
    requires
        0 <= k <= rest.len(),
        forall|k: int| 0 <= k < head.len() ==> #[trigger] head[k] != '\n',
    ensures
        ended_lines(head.push('\n') + rest, head.len() + 1 + k) == seq![chomped(head)]
            + ended_lines(rest, k),
    decreases k,
{
    let s = head.push('\n') + rest;
    let h = head.len() as int;
    let n = h + 1 + k;
    if k > 0 {
        assert(s[n - 1] == rest[k - 1]);
        lemma_ended(head, rest, k - 1);
        if rest[k - 1] == '\n' {
            lemma_line_from(head, rest, k - 1);
            let a = line_from(rest, k - 1);
            assert(s.subrange(h + 1 + a, n - 1) =~= rest.subrange(a, k - 1));
            assert(ended_lines(s, n) =~= seq![chomped(head)] + ended_lines(rest, k));
        }
    } else {
        assert(s[h] == '\n');
        lemma_first_line(head, rest, h);
        assert(s.subrange(0, h) =~= head);
        assert(ended_lines(s, n) =~= seq![chomped(head)]);
        assert(seq![chomped(head)] + ended_lines(rest, 0) =~= seq![chomped(head)]);
    }
}

/// The lines of a text are what stands before the first line feed, without a
/// carriage return, and then the lines of what stands behind it. A text without
/// a line feed is one line, or none where it is empty.
pub proof fn law_a_text_is_split_at_line_feeds(head: Seq<char>, rest: Seq<char>)
    requires
        forall|k: int| 0 <= k < head.len() ==> #[trigger] head[k] != '\n',
    ensures
        text_lines(head.push('\n') + rest) == seq![
            if head.len() > 0 && head.last() == '\r' {
                head.drop_last()
            } else {
                head
            },
        ] + text_lines(rest),
        head.len() > 0 ==> text_lines(head) == seq![head],
        head.len() == 0 ==> text_lines(head).len() == 0,
{
    let s = head.push('\n') + rest;
    let n = rest.len() as int;
    lemma_ended(head, rest, n);
    lemma_line_from(head, rest, n);
    let a = line_from(rest, n);
    if a < n {
        assert(s.subrange(head.len() + 1 + a, s.len() as int) =~= rest.subrange(a, n));
    }
    assert(text_lines(s) =~= seq![chomped(head)] + text_lines(rest));
    lemma_one_line(head, head.len() as int);
    assert(head.subrange(0, head.len() as int) =~= head);
    assert(head.len() > 0 ==> text_lines(head) =~= seq![head]);
}

proof fn lemma_one_line(head: Seq<char>, n: int)
    requires
        0 <= n <= head.len(),
        forall|k: int| 0 <= k < head.len() ==> #[trigger] head[k] != '\n',
    ensures
        line_from(head, n) == 0,
        ended_lines(head, n) == Seq::<Seq<char>>::empty(),
    decreases n,
{
    if n > 0 {
        assert(head[n - 1] != '\n');
        lemma_one_line(head, n - 1);
    }
}

/// A line of source that the dump holds begins where the one above it ends, one
/// byte for the line feed counted.
pub proof fn law_embedded_lines_follow_each_other(lines: Seq<Seq<char>>, base: int, k: int)
    requires
        0 <= base,
        0 <= k < lines.len(),
        offset_of(lines, base, k) <= u32::MAX,
    ensures
        embedded_starts(lines, base).len() == lines.len(),
        k == 0 ==> embedded_starts(lines, base)[k] == base,
        k > 0 ==> embedded_starts(lines, base)[k] == embedded_starts(lines, base)[k - 1]
            + encode_utf8(lines[k - 1]).len() + 1,
{
    lemma_offset(lines, base, k);
    if k > 0 {
        lemma_offset(lines, base, k - 1);
    }
}

proof fn lemma_offset(lines: Seq<Seq<char>>, base: int, k: int)
    requires
        0 <= base,
    ensures
        offset_of(lines, base, k) >= base,
    decreases k,
{
    if k > 0 {
        lemma_offset(lines, base, k - 1);
    }
}

// ---------------------------------------------------------------------------
// Places
// ---------------------------------------------------------------------------

/// Line `i` is a bytecode row of `offset` that prints the position `pos`.
pub open spec fn prints_position(info: LineModel, offset: u32, pos: u32) -> bool {
    info matches LineModel::Bytecode(bc) && bc.offset == offset && bc.src_pos == Some(pos)
}

proof fn lemma_positions_in(
    infos: Seq<LineModel>,
    known: Map<u32, u32>,
    n: int,
    offset: u32,
)
    requires
        0 <= n <= infos.len(),
    ensures
        ({
            let out = positions_in(infos, known, n);
            &&& known.dom().contains(offset) ==> out.dom().contains(offset) && out[offset]
                == known[offset]
            &&& !known.dom().contains(offset) && out.dom().contains(offset) ==> exists|i: int|
                0 <= i < n && #[trigger] prints_position(infos[i], offset, out[offset])
                    && forall|j: int, p: u32|
                    0 <= j < i ==> !#[trigger] prints_position(infos[j], offset, p)
            &&& !out.dom().contains(offset) ==> forall|j: int, p: u32|
                0 <= j < n ==> !#[trigger] prints_position(infos[j], offset, p)
        }),
    decreases n,
{
    if n > 0 {
        lemma_positions_in(infos, known, n - 1, offset);
        let before = positions_in(infos, known, n - 1);
        let out = positions_in(infos, known, n);
        if !known.dom().contains(offset) && out.dom().contains(offset) {
            if before.dom().contains(offset) {
                let i = choose|i: int|
                    0 <= i < n - 1 && #[trigger] prints_position(infos[i], offset, before[offset])
                        && forall|j: int, p: u32|
                        0 <= j < i ==> !#[trigger] prints_position(infos[j], offset, p);
                assert(prints_position(infos[i], offset, out[offset]));
            } else {
                assert(prints_position(infos[n - 1], offset, out[offset]));
            }
        }
    }
}

/// The position of a bytecode offset is the first that a row of the phase prints
/// for it, unless an earlier phase printed one.
pub proof fn law_the_first_position_counts(
    infos: Seq<LineModel>,
    known: Map<u32, u32>,
    offset: u32,
    i: int,
    pos: u32,
)
    requires
        0 <= i < infos.len(),
        prints_position(infos[i], offset, pos),
        forall|j: int, p: u32| 0 <= j < i ==> !#[trigger] prints_position(infos[j], offset, p),
    ensures
        ({
            let out = positions_in(infos, known, infos.len() as int);
            &&& out.dom().contains(offset)
            &&& out[offset] == (if known.dom().contains(offset) {
                known[offset]
            } else {
                pos
            })
        }),
{
    lemma_positions_in(infos, known, infos.len() as int, offset);
    let out = positions_in(infos, known, infos.len() as int);
    if !known.dom().contains(offset) {
        assert(prints_position(infos[i], offset, pos));
        let k = choose|k: int|
            0 <= k < infos.len() && #[trigger] prints_position(infos[k], offset, out[offset])
                && forall|j: int, p: u32|
                0 <= j < k ==> !#[trigger] prints_position(infos[j], offset, p);
        if k < i {
            assert(!prints_position(infos[k], offset, out[offset]));
        }
        if i < k {
            assert(!prints_position(infos[i], offset, pos));
        }
    }
}

/// A line tells by itself where it comes from: a context of the script its line,
/// a bytecode row its own position or else the one known for its offset.
pub open spec fn own_place(info: LineModel, pos: Map<u32, u32>, place: SrcRef) -> bool {
    match info {
        LineModel::SfiContext { line, same_script, .. } => same_script && line > 0 && place
            == SrcRef::FnLine(line),
        LineModel::Bytecode(bc) => match bc.src_pos {
            Some(p) => place == SrcRef::Char(p),
            None => pos.dom().contains(bc.offset) && place == SrcRef::Char(pos[bc.offset]),
        },
        _ => false,
    }
}

/// A line leaves the place of the lines above it as it was.
pub open spec fn keeps_place(info: LineModel, pos: Map<u32, u32>) -> bool {
    match info {
        LineModel::SfiContext { .. } => false,
        LineModel::Bytecode(bc) => bc.src_pos is None && !pos.dom().contains(bc.offset),
        _ => true,
    }
}

/// A line comes from where the last line above it, or the line itself, that
/// tells a place comes from.
pub proof fn law_a_line_comes_from_the_last_place_told(
    infos: Seq<LineModel>,
    pos: Map<u32, u32>,
    i: int,
    n: int,
    place: SrcRef,
)
    requires
        0 <= i < n <= infos.len(),
        own_place(infos[i], pos, place),
        forall|k: int| i < k < n ==> keeps_place(#[trigger] infos[k], pos),
    ensures
        place_at(infos, pos, n) == Some(place),
    decreases n,
{
    if n - 1 > i {
        assert(keeps_place(infos[n - 1], pos));
        law_a_line_comes_from_the_last_place_told(infos, pos, i, n - 1, place);
    }
}

/// A context of another script ends what was told: the lines behind it come from
/// nowhere until another place is told.
pub proof fn law_a_foreign_context_ends_the_place(
    infos: Seq<LineModel>,
    pos: Map<u32, u32>,
    i: int,
    n: int,
)
    requires
        0 <= i < n <= infos.len(),
        infos[i] matches LineModel::SfiContext { same_script: false, .. },
        forall|k: int| i < k < n ==> keeps_place(#[trigger] infos[k], pos),
    ensures
        place_at(infos, pos, n) is None,
    decreases n,
{
    if n - 1 > i {
        assert(keeps_place(infos[n - 1], pos));
        law_a_foreign_context_ends_the_place(infos, pos, i, n - 1);
    }
}

proof fn lemma_placed_in(
    infos: Seq<LineModel>,
    start: int,
    pos: Map<u32, u32>,
    known: Map<usize, SrcRef>,
    n: int,
    line: usize,
)
    requires
        0 <= n <= infos.len(),
        0 <= start,
        start + infos.len() <= usize::MAX,
    ensures
        ({
            let out = placed_in(infos, start, pos, known, n);
            let i = line - start;
            &&& 0 <= i < n && is_placed(infos[i]) && place_at(infos, pos, i + 1) is Some
                ==> out.dom().contains(line) && Some(out[line]) == place_at(infos, pos, i + 1)
            &&& !(0 <= i < n && is_placed(infos[i]) && place_at(infos, pos, i + 1) is Some)
                ==> out.dom().contains(line) == known.dom().contains(line) && (
            known.dom().contains(line) ==> out[line] == known[line])
        }),
    decreases n,
{
    if n > 0 {
        lemma_placed_in(infos, start, pos, known, n - 1, line);
    }
}

/// The nodes, frames, moves, contexts and bytecode rows of a phase have the place
/// that was told for them; blocks, notes and banners have none.
pub proof fn law_code_has_the_place_told(
    infos: Seq<LineModel>,
    start: int,
    pos: Map<u32, u32>,
    known: Map<usize, SrcRef>,
    i: int,
)
    requires
        0 <= i < infos.len(),
        0 <= start,
        start + infos.len() <= usize::MAX,
        !known.dom().contains((start + i) as usize),
    ensures
        ({
            let out = placed_in(infos, start, pos, known, infos.len() as int);
            let line = (start + i) as usize;
            let code = match infos[i] {
                LineModel::SfiContext { .. } => true,
                LineModel::Bytecode(_) => true,
                LineModel::Node(_) => true,
                LineModel::Frame { .. } => true,
                LineModel::PhiMove { .. } => true,
                _ => false,
            };
            &&& code && place_at(infos, pos, i + 1) is Some ==> out.dom().contains(line) && Some(
                out[line],
            ) == place_at(infos, pos, i + 1)
            &&& !(code && place_at(infos, pos, i + 1) is Some) ==> !out.dom().contains(line)
        }),
{
    lemma_placed_in(infos, start, pos, known, infos.len() as int, (start + i) as usize);
}

/// The lines that a line of the pane leads to are all those that come from it, in
/// order.
pub proof fn law_a_line_of_the_pane_leads_to_all_that_comes_from_it(
    map: Map<usize, SrcRef>,
    pane: PaneModel,
    display: int,
    from: int,
    to: int,
)
    requires
        0 <= from,
        to <= usize::MAX,
    ensures
        ({
            let list = lines_from(map, pane, display, from, to);
            &&& forall|k: int|
                0 <= k < list.len() ==> from <= (#[trigger] list[k]) < to && map.dom().contains(
                    list[k],
                ) && displayed(pane, map[list[k]]) == Some(display)
            &&& forall|a: int, b: int|
                0 <= a < b < list.len() ==> #[trigger] list[a] < #[trigger] list[b]
            &&& forall|line: usize|
                from <= line < to && #[trigger] map.dom().contains(line) && displayed(
                    pane,
                    map[line],
                ) == Some(display) ==> list.contains(line)
        }),
    decreases to - from,
{
    if from < to {
        law_a_line_of_the_pane_leads_to_all_that_comes_from_it(map, pane, display, from, to - 1);
        let before = lines_from(map, pane, display, from, to - 1);
        let list = lines_from(map, pane, display, from, to);
        assert forall|line: usize|
            from <= line < to && #[trigger] map.dom().contains(line) && displayed(pane, map[line])
                == Some(display) implies list.contains(line) by {
            if line < to - 1 {
                assert(before.contains(line));
                let k = choose|k: int| 0 <= k < before.len() && before[k] == line;
                assert(list[k] == line);
            } else {
                assert(list[before.len() as int] == line);
            }
        }
        assert forall|k: int| 0 <= k < before.len() implies #[trigger] list[k] == before[k] by {}
    }
}

} // verus!
