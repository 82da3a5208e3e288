//! A jump reaches its line, whatever hides it.

use vstd::prelude::*;

#[allow(unused_imports)]
use super::moves::{header_before, less_one, lines_up_to};
#[allow(unused_imports)]
use super::rows::row_exists;
#[allow(unused_imports)]
use super::views::{any_row_from, showing};
#[allow(unused_imports)]
use super::{AppModel, Jump, Row};
#[allow(unused_imports)]
use crate::model::{CompilationModel, LineModel, ParsedModel, PhaseSectionModel};
#[allow(unused_imports)]
use crate::parse::compilation::{law_phases_mirror_the_index, parsed_compilation};
#[allow(unused_imports)]
use crate::phases::phases_tile;
#[allow(unused_imports)]
use crate::view::{
    all_phase_rows, anchor_rows, common_phases, info_at, line_shown, modeled_rows,
    phase_line_rows, phase_rows, preamble_rows, span_len, text_row, FoldKey, RowRules, RowState,
    ViewContents, ViewRow,
};

verus! {

/// A row shows the line.
pub open spec fn has_row(rows: Seq<ViewRow>, line: int) -> bool {
    exists|r: int| 0 <= r < rows.len() && (#[trigger] rows[r]).line == line
}

spec fn waits(pending: Seq<(usize, Option<(usize, usize)>)>, line: int) -> bool {
    exists|r: int| 0 <= r < pending.len() && (#[trigger] pending[r]).0 == line
}

/// The line has a row, or will have one.
spec fn kept(st: RowState, line: int) -> bool {
    has_row(st.rows, line) || waits(st.pending, line)
}

/// Nothing but folded blocks can hide a line.
spec fn bare(rules: RowRules) -> bool {
    rules.lens is None && rules.show_annotations
}

proof fn lemma_push_keeps(rows: Seq<ViewRow>, row: ViewRow, line: int)
    ensures
        has_row(rows, line) ==> has_row(rows.push(row), line),
        row.line == line ==> has_row(rows.push(row), line),
{
    if has_row(rows, line) {
        let r = choose|r: int| 0 <= r < rows.len() && (#[trigger] rows[r]).line == line;
        assert(rows.push(row)[r].line == line);
    }
    if row.line == line {
        assert(rows.push(row)[rows.len() as int].line == line);
    }
}

proof fn lemma_flush_keeps(st: RowState, line: int)
    ensures
        kept(st, line) ==> has_row(st.flushed(true).rows, line),
        st.flushed(true).pending.len() == 0,
        st.flushed(true).fold == st.fold,
{
    let more = st.pending.map_values(|p: (usize, Option<(usize, usize)>)| text_row(p.0, p.1));
    let all = st.rows + more;
    if has_row(st.rows, line) {
        let r = choose|r: int| 0 <= r < st.rows.len() && (#[trigger] st.rows[r]).line == line;
        assert(all[r].line == line);
    }
    if waits(st.pending, line) {
        let r = choose|r: int| 0 <= r < st.pending.len() && (#[trigger] st.pending[r]).0 == line;
        assert(more[r].line == line);
        assert(all[st.rows.len() + r].line == line);
    }
}

proof fn lemma_unfold_keeps(st: RowState, line: int)
    ensures
        kept(st, line) ==> kept(st.unfolded(), line),
        has_row(st.rows, line) ==> has_row(st.unfolded().rows, line),
        st.unfolded().fold is None,
        st.unfolded().pending == st.pending,
{
    if let Some(marker) = st.fold {
        lemma_push_keeps(st.rows, marker, line);
    }
}

proof fn lemma_shown_keeps(
    st: RowState,
    rules: RowRules,
    at: usize,
    place: Option<(usize, usize)>,
    info: Option<LineModel>,
    line: int,
)
    requires
        bare(rules),
    ensures
        kept(st, line) ==> kept(line_shown(st, rules, at, place, info), line),
        at == line ==> kept(line_shown(st, rules, at, place, info), line),
        line_shown(st, rules, at, place, info).fold == st.fold,
{
    let out = line_shown(st, rules, at, place, info);
    if info matches Some(LineModel::Annotation { .. }) {
        if waits(st.pending, line) {
            let r = choose|r: int|
                0 <= r < st.pending.len() && (#[trigger] st.pending[r]).0 == line;
            assert(out.pending[r].0 == line);
        }
        if at == line {
            assert(out.pending[st.pending.len() as int].0 == line);
        }
    } else {
        lemma_flush_keeps(st, line);
        lemma_push_keeps(st.flushed(true).rows, text_row(at, place), line);
    }
}

proof fn lemma_line_keeps(
    st: RowState,
    rules: RowRules,
    graph: bool,
    p: usize,
    i: usize,
    at: usize,
    info: Option<LineModel>,
    line: int,
)
    requires
        bare(rules),
        kept(st, line),
    ensures
        kept(phase_line_rows(st, rules, graph, p, i, at, info), line),
{
    reveal(phase_line_rows);
    lemma_flush_keeps(st, line);
    let flushed = st.flushed(true);
    lemma_unfold_keeps(flushed, line);
    lemma_shown_keeps(st, rules, at, Some((p, i)), info, line);
    lemma_shown_keeps(flushed.unfolded(), rules, at, Some((p, i)), info, line);
}

proof fn lemma_phase_keeps(
    st: RowState,
    rules: RowRules,
    section: PhaseSectionModel,
    infos: Seq<LineModel>,
    p: usize,
    from: int,
    n: int,
    line: int,
)
    requires
        bare(rules),
        0 <= from <= n,
        kept(phase_rows(st, rules, section, infos, p, from), line),
    ensures
        kept(phase_rows(st, rules, section, infos, p, n), line),
    decreases n,
{
    if from < n {
        lemma_phase_keeps(st, rules, section, infos, p, from, n - 1, line);
        lemma_line_keeps(
            phase_rows(st, rules, section, infos, p, n - 1),
            rules,
            section.kind is Graph,
            p,
            (n - 1) as usize,
            (section.start + n - 1) as usize,
            info_at(infos, n - 1),
            line,
        );
    }
}

/// How many of the first `n` lines of a phase are classified.
spec fn known(infos: Seq<LineModel>, n: int) -> int {
    if n < infos.len() {
        n
    } else {
        infos.len() as int
    }
}

/// The block that line `n - 1` of a phase lies in is folded.
spec fn in_folded(rules: RowRules, infos: Seq<LineModel>, p: usize, n: int) -> bool {
    match header_before(infos, known(infos, n)) {
        Some((_, block)) => rules.folded.contains((rules.source, rules.comp, p, block)),
        None => false,
    }
}

/// Only a folded block hides lines.
proof fn lemma_only_folds_hide(
    st: RowState,
    rules: RowRules,
    section: PhaseSectionModel,
    infos: Seq<LineModel>,
    p: usize,
    n: int,
)
    requires
        bare(rules),
        st.fold is None,
        0 <= n,
        0 <= section.start,
        section.start + n <= usize::MAX,
        section.start + n <= rules.end,
    ensures
        ({
            let out = phase_rows(st, rules, section, infos, p, n);
            &&& !(section.kind is Graph) ==> out.fold is None
            &&& section.start + n <= rules.first ==> out.fold is None
            &&& out.fold is Some ==> in_folded(rules, infos, p, n)
        }),
    decreases n,
{
    if n > 0 {
        lemma_only_folds_hide(st, rules, section, infos, p, n - 1);
        let before = phase_rows(st, rules, section, infos, p, n - 1);
        let info = info_at(infos, n - 1);
        let line = (section.start + n - 1) as usize;
        let graph = section.kind is Graph;
        reveal(phase_line_rows);
        lemma_flush_keeps(before, 0);
        lemma_unfold_keeps(before.flushed(true), 0);
        lemma_shown_keeps(before, rules, line, Some((p, (n - 1) as usize)), info, 0);
        lemma_shown_keeps(
            before.flushed(true).unfolded(),
            rules,
            line,
            Some((p, (n - 1) as usize)),
            info,
            0,
        );
    }
}

/// A line that lies in no folded block has a row.
proof fn lemma_line_in_phase(
    st: RowState,
    rules: RowRules,
    section: PhaseSectionModel,
    infos: Seq<LineModel>,
    p: usize,
    line: int,
)
    requires
        bare(rules),
        st.fold is None,
        0 <= section.start <= line < section.end <= usize::MAX,
        rules.first <= line < rules.end,
        !in_folded(rules, infos, p, line - section.start + 1),
    ensures
        kept(
            phase_rows(st, rules, section, infos, p, span_len(section.start, section.end)),
            line,
        ),
{
    let i = line - section.start;
    lemma_only_folds_hide(st, rules, section, infos, p, i);
    let before = phase_rows(st, rules, section, infos, p, i);
    let info = info_at(infos, i);
    reveal(phase_line_rows);
    lemma_flush_keeps(before, line);
    lemma_unfold_keeps(before.flushed(true), line);
    lemma_shown_keeps(before, rules, line as usize, Some((p, i as usize)), info, line);
    lemma_shown_keeps(
        before.flushed(true).unfolded(),
        rules,
        line as usize,
        Some((p, i as usize)),
        info,
        line,
    );
    assert(kept(phase_rows(st, rules, section, infos, p, i + 1), line));
    lemma_phase_keeps(
        st,
        rules,
        section,
        infos,
        p,
        i + 1,
        span_len(section.start, section.end),
        line,
    );
}

proof fn lemma_phases_keep(
    st: RowState,
    rules: RowRules,
    sections: Seq<PhaseSectionModel>,
    from: int,
    k: int,
    line: int,
)
    requires
        bare(rules),
        0 <= from <= k,
        has_row(all_phase_rows(st, rules, sections, from).rows, line),
    ensures
        has_row(all_phase_rows(st, rules, sections, k).rows, line),
    decreases k,
{
    if from < k {
        lemma_phases_keep(st, rules, sections, from, k - 1, line);
        let before = all_phase_rows(st, rules, sections, k - 1);
        let section = sections[k - 1];
        let infos = rules.parsed.phases[k - 1].infos;
        let n = span_len(section.start, section.end);
        lemma_phase_keeps(before, rules, section, infos, (k - 1) as usize, 0, n, line);
        let after = phase_rows(before, rules, section, infos, (k - 1) as usize, n);
        lemma_flush_keeps(after, line);
        lemma_unfold_keeps(after.flushed(true), line);
    }
}

proof fn lemma_phases_settle(
    st: RowState,
    rules: RowRules,
    sections: Seq<PhaseSectionModel>,
    k: int,
)
    requires
        bare(rules),
        st.fold is None,
        st.pending.len() == 0,
    ensures
        all_phase_rows(st, rules, sections, k).fold is None,
        all_phase_rows(st, rules, sections, k).pending.len() == 0,
{
    if k > 0 {
        let section = sections[k - 1];
        let after = phase_rows(
            all_phase_rows(st, rules, sections, k - 1),
            rules,
            section,
            rules.parsed.phases[k - 1].infos,
            (k - 1) as usize,
            span_len(section.start, section.end),
        );
        lemma_flush_keeps(after, 0);
        lemma_unfold_keeps(after.flushed(true), 0);
    }
}

proof fn lemma_anchor(rules: RowRules, start: int, n: int, line: int)
    requires
        0 <= start,
        start + n <= usize::MAX,
    ensures
        anchor_rows(rules, start, n).fold is None,
        start <= line < start + n && rules.first <= line < rules.end ==> kept(
            anchor_rows(rules, start, n),
            line,
        ),
    decreases n,
{
    if n > 0 {
        lemma_anchor(rules, start, n - 1, line);
        let before = anchor_rows(rules, start, n - 1);
        lemma_push_keeps(before.rows, text_row((start + n - 1) as usize, None), line);
        lemma_no_pending_anchor(rules, start, n - 1);
    }
}

proof fn lemma_no_pending_anchor(rules: RowRules, start: int, n: int)
    ensures
        anchor_rows(rules, start, n).pending.len() == 0,
    decreases n,
{
    if n > 0 {
        lemma_no_pending_anchor(rules, start, n - 1);
    }
}

proof fn lemma_preamble(st: RowState, rules: RowRules, start: int, n: int, line: int)
    requires
        bare(rules),
        st.fold is None,
        0 <= start,
        start + n <= usize::MAX,
    ensures
        preamble_rows(st, rules, start, n).fold is None,
        kept(st, line) ==> kept(preamble_rows(st, rules, start, n), line),
        start <= line < start + n && rules.first <= line < rules.end ==> kept(
            preamble_rows(st, rules, start, n),
            line,
        ),
    decreases n,
{
    if n > 0 {
        lemma_preamble(st, rules, start, n - 1, line);
        lemma_shown_keeps(
            preamble_rows(st, rules, start, n - 1),
            rules,
            (start + n - 1) as usize,
            None,
            info_at(rules.parsed.preamble, n - 1),
            line,
        );
    }
}

/// No folded block of the compilation hides a line.
pub open spec fn unhidden(c: CompilationModel, rules: RowRules, line: int) -> bool {
    forall|k: int|
        0 <= k < c.phases.len() && (#[trigger] c.phases[k]).start <= line < c.phases[k].end ==> {
            let infos = rules.parsed.phases[k].infos;
            match header_before(infos, lines_up_to(infos, line - c.phases[k].start)) {
                Some((_, block)) => !rules.folded.contains(
                    (rules.source, rules.comp, k as usize, block),
                ),
                None => true,
            }
        }
}

/// The phase that a line behind the preamble lies in.
proof fn lemma_find_phase(c: CompilationModel, line: int, k: int) -> (at: int)
    requires
        phases_tile(c),
        0 <= k < c.phases.len(),
        c.phases[k].start <= line < c.end,
    ensures
        k <= at < c.phases.len(),
        c.phases[at].start <= line < c.phases[at].end,
    decreases c.phases.len() - k,
{
    if line < c.phases[k].end {
        k
    } else {
        assert(k != c.phases.len() - 1);
        assert(c.phases[k].end == c.phases[k + 1].start);
        lemma_find_phase(c, line, k + 1)
    }
}

/// With annotations shown and no lens, every line of the window that lies in
/// no folded block has a row.
pub proof fn law_an_unhidden_line_has_a_row(c: CompilationModel, rules: RowRules, line: int)
    requires
        phases_tile(c),
        c.end <= usize::MAX,
        c.phases.len() <= usize::MAX,
        rules.parsed.phases.len() == c.phases.len(),
        rules.lens is None,
        rules.show_annotations,
        c.start <= line < c.end,
        rules.first <= line < rules.end,
        unhidden(c, rules, line),
    ensures
        has_row(modeled_rows(c, rules), line),
{
    let head = span_len(c.start, c.preamble_start);
    let body = span_len(c.preamble_start, c.preamble_end);
    let count = common_phases(c, rules.parsed);
    lemma_anchor(rules, c.start, head, line);
    let anchors = anchor_rows(rules, c.start, head);
    lemma_preamble(anchors, rules, c.preamble_start, body, line);
    let pre = preamble_rows(anchors, rules, c.preamble_start, body);
    lemma_flush_keeps(pre, line);
    let st = pre.flushed(true);
    if line < c.preamble_end {
        assert(has_row(st.rows, line));
        assert(all_phase_rows(st, rules, c.phases, 0) == st);
        lemma_phases_keep(st, rules, c.phases, 0, count, line);
    } else {
        let k = lemma_find_phase(c, line, 0);
        let section = c.phases[k];
        let infos = rules.parsed.phases[k].infos;
        lemma_phases_settle(st, rules, c.phases, k);
        let before = all_phase_rows(st, rules, c.phases, k);
        lemma_ends(c, k);
        assert(known(infos, line - section.start + 1) == lines_up_to(
            infos,
            line - section.start,
        ));
        lemma_line_in_phase(before, rules, section, infos, k as usize, line);
        let after = phase_rows(
            before,
            rules,
            section,
            infos,
            k as usize,
            span_len(section.start, section.end),
        );
        lemma_flush_keeps(after, line);
        lemma_unfold_keeps(after.flushed(true), line);
        assert(has_row(all_phase_rows(st, rules, c.phases, k + 1).rows, line));
        lemma_phases_keep(st, rules, c.phases, k + 1, count, line);
    }
}

/// A phase lies within its compilation.
pub(crate) proof fn lemma_ends(c: CompilationModel, k: int)
    requires
        phases_tile(c),
        0 <= k < c.phases.len(),
    ensures
        c.start <= c.phases[k].start <= c.phases[k].end <= c.end,
{
    lemma_reaches(c, k);
    lemma_starts(c, k);
}

proof fn lemma_reaches(c: CompilationModel, k: int)
    requires
        phases_tile(c),
        0 <= k < c.phases.len(),
    ensures
        c.phases[k].end <= c.end,
    decreases c.phases.len() - k,
{
    if k < c.phases.len() - 1 {
        assert(c.phases[k].end == c.phases[k + 1].start);
        lemma_reaches(c, k + 1);
    }
}

proof fn lemma_starts(c: CompilationModel, k: int)
    requires
        phases_tile(c),
        0 <= k < c.phases.len(),
    ensures
        c.preamble_end <= c.phases[k].start,
    decreases k,
{
    if k > 0 {
        assert(c.phases[k - 1].end == c.phases[k].start);
        lemma_starts(c, k - 1);
    }
}

proof fn lemma_found(rows: Seq<ViewRow>, line: int, r: int, i: int)
    requires
        0 <= i <= r < rows.len(),
        rows[r].line == line,
    ensures
        any_row_from(rows, line, i) matches Some(at) && i <= at <= r && rows[at].line == line,
    decreases r - i,
{
    if rows[i].line != line {
        lemma_found(rows, line, r, i + 1);
    }
}

// ---------------------------------------------------------------------------
// Where the rows are
// ---------------------------------------------------------------------------

/// The lines of rows lie in the window.
pub open spec fn rows_within(rows: Seq<ViewRow>, rules: RowRules) -> bool {
    forall|r: int| 0 <= r < rows.len() ==> rules.first <= (#[trigger] rows[r]).line < rules.end
}

spec fn within(st: RowState, rules: RowRules) -> bool {
    &&& rows_within(st.rows, rules)
    &&& forall|r: int|
        0 <= r < st.pending.len() ==> rules.first <= (#[trigger] st.pending[r]).0 < rules.end
    &&& st.fold matches Some(marker) ==> rules.first <= marker.line < rules.end
}

/// How many rows there are, or will be at most.
spec fn size(st: RowState) -> int {
    st.rows.len() + st.pending.len() + if st.fold is Some {
        1int
    } else {
        0
    }
}

proof fn lemma_flush_within(st: RowState, rules: RowRules, show: bool)
    requires
        within(st, rules),
    ensures
        within(st.flushed(show), rules),
        size(st.flushed(show)) <= size(st),
        st.flushed(show).pending.len() == 0,
        st.flushed(show).fold == st.fold,
{
    let out = st.flushed(show);
    assert forall|r: int| 0 <= r < out.rows.len() implies rules.first <= (
    #[trigger] out.rows[r]).line < rules.end by {
        if r < st.rows.len() {
            assert(out.rows[r] == st.rows[r]);
        } else {
            assert(rules.first <= st.pending[r - st.rows.len()].0 < rules.end);
        }
    }
}

proof fn lemma_unfold_within(st: RowState, rules: RowRules)
    requires
        within(st, rules),
    ensures
        within(st.unfolded(), rules),
        size(st.unfolded()) == size(st),
        st.unfolded().fold is None,
        st.unfolded().pending == st.pending,
{
}

proof fn lemma_shown_within(
    st: RowState,
    rules: RowRules,
    at: usize,
    place: Option<(usize, usize)>,
    info: Option<LineModel>,
)
    requires
        within(st, rules),
        rules.first <= at < rules.end,
    ensures
        within(line_shown(st, rules, at, place, info), rules),
        size(line_shown(st, rules, at, place, info)) <= size(st) + 1,
        line_shown(st, rules, at, place, info).fold == st.fold,
{
    lemma_flush_within(st, rules, rules.show_annotations);
}

proof fn lemma_line_within(
    st: RowState,
    rules: RowRules,
    graph: bool,
    p: usize,
    i: usize,
    at: usize,
    info: Option<LineModel>,
)
    requires
        within(st, rules),
    ensures
        within(phase_line_rows(st, rules, graph, p, i, at, info), rules),
        size(phase_line_rows(st, rules, graph, p, i, at, info)) <= size(st) + 1,
{
    reveal(phase_line_rows);
    if rules.first <= at < rules.end {
        let flushed = st.flushed(rules.show_annotations);
        lemma_flush_within(st, rules, rules.show_annotations);
        lemma_unfold_within(flushed, rules);
        lemma_shown_within(st, rules, at, Some((p, i)), info);
        lemma_shown_within(flushed.unfolded(), rules, at, Some((p, i)), info);
    }
}

proof fn lemma_phase_within(
    st: RowState,
    rules: RowRules,
    section: PhaseSectionModel,
    infos: Seq<LineModel>,
    p: usize,
    n: int,
)
    requires
        within(st, rules),
        0 <= n,
    ensures
        within(phase_rows(st, rules, section, infos, p, n), rules),
        size(phase_rows(st, rules, section, infos, p, n)) <= size(st) + n,
    decreases n,
{
    if n > 0 {
        lemma_phase_within(st, rules, section, infos, p, n - 1);
        lemma_line_within(
            phase_rows(st, rules, section, infos, p, n - 1),
            rules,
            section.kind is Graph,
            p,
            (n - 1) as usize,
            (section.start + n - 1) as usize,
            info_at(infos, n - 1),
        );
    }
}

/// Where phase `k` starts, or the compilation ends.
spec fn reached(c: CompilationModel, k: int) -> int {
    if k < c.phases.len() {
        c.phases[k].start
    } else {
        c.end
    }
}

proof fn lemma_phases_within(st: RowState, rules: RowRules, c: CompilationModel, k: int)
    requires
        within(st, rules),
        phases_tile(c),
        0 <= k <= c.phases.len(),
        size(st) <= c.preamble_end - c.start,
    ensures
        within(all_phase_rows(st, rules, c.phases, k), rules),
        size(all_phase_rows(st, rules, c.phases, k)) <= reached(c, k) - c.start,
    decreases k,
{
    if k > 0 {
        lemma_phases_within(st, rules, c, k - 1);
        let section = c.phases[k - 1];
        let n = span_len(section.start, section.end);
        let infos = rules.parsed.phases[k - 1].infos;
        let before = all_phase_rows(st, rules, c.phases, k - 1);
        lemma_phase_within(before, rules, section, infos, (k - 1) as usize, n);
        let after = phase_rows(before, rules, section, infos, (k - 1) as usize, n);
        lemma_flush_within(after, rules, rules.show_annotations);
        lemma_unfold_within(after.flushed(rules.show_annotations), rules);
        assert(section.start <= section.end);
        if k < c.phases.len() {
            assert(c.phases[k - 1].end == c.phases[k].start);
        }
    }
}

proof fn lemma_anchor_within(rules: RowRules, start: int, n: int)
    requires
        0 <= start,
        0 <= n,
        start + n <= usize::MAX,
    ensures
        within(anchor_rows(rules, start, n), rules),
        size(anchor_rows(rules, start, n)) <= n,
    decreases n,
{
    if n > 0 {
        lemma_anchor_within(rules, start, n - 1);
    }
}

proof fn lemma_preamble_within(st: RowState, rules: RowRules, start: int, n: int)
    requires
        within(st, rules),
        0 <= start,
        0 <= n,
        start + n <= usize::MAX,
    ensures
        within(preamble_rows(st, rules, start, n), rules),
        size(preamble_rows(st, rules, start, n)) <= size(st) + n,
    decreases n,
{
    if n > 0 {
        lemma_preamble_within(st, rules, start, n - 1);
        if rules.first <= start + n - 1 < rules.end {
            lemma_shown_within(
                preamble_rows(st, rules, start, n - 1),
                rules,
                (start + n - 1) as usize,
                None,
                info_at(rules.parsed.preamble, n - 1),
            );
        }
    }
}

/// Every row shows a line of the window, and there are no more rows than the
/// compilation has lines.
pub proof fn law_rows_stay_in_their_section(c: CompilationModel, rules: RowRules)
    requires
        phases_tile(c),
        c.end <= usize::MAX,
        rules.parsed.phases.len() == c.phases.len(),
    ensures
        rows_within(modeled_rows(c, rules), rules),
        modeled_rows(c, rules).len() <= c.end - c.start,
{
    let head = span_len(c.start, c.preamble_start);
    let body = span_len(c.preamble_start, c.preamble_end);
    lemma_anchor_within(rules, c.start, head);
    let anchors = anchor_rows(rules, c.start, head);
    lemma_preamble_within(anchors, rules, c.preamble_start, body);
    let pre = preamble_rows(anchors, rules, c.preamble_start, body);
    lemma_flush_within(pre, rules, rules.show_annotations);
    lemma_phases_within(
        pre.flushed(rules.show_annotations),
        rules,
        c,
        common_phases(c, rules.parsed),
    );
}

// ---------------------------------------------------------------------------
// Jumps
// ---------------------------------------------------------------------------

impl AppModel {
    /// The lines of the section that is selected.
    pub open spec fn section_lines(self) -> (int, int) {
        match self.row_at(self.selected as int) {
            Some(Row::Compilation(i)) => (
                self.compilations()[i as int].start,
                self.compilations()[i as int].end,
            ),
            Some(Row::Phase { comp, phase }) => (
                self.compilations()[comp as int].phases[phase as int].start,
                self.compilations()[comp as int].phases[phase as int].end,
            ),
            Some(Row::Function { name_comp, .. }) => (
                self.compilations()[name_comp as int].start,
                self.compilations()[name_comp as int].end,
            ),
            Some(Row::Raw(i)) => (
                self.source().index.raw[i as int].start,
                self.source().index.raw[i as int].end,
            ),
            Some(Row::Event(i)) => self.event_range(i as int),
            None => (0, self.source().buffer.starts.len() as int),
        }
    }

    /// The sections of the source that is shown are in order, and the row that
    /// is selected names one of them.
    pub open spec fn sections_valid(self) -> bool {
        &&& crate::phases::whole(self.source().index)
        &&& forall|i: int|
            0 <= i < self.compilations().len() ==> (#[trigger] self.compilations()[i]).end
                <= usize::MAX && self.compilations()[i].phases.len() <= usize::MAX
        &&& self.row_at(self.selected as int) matches Some(row) ==> row_exists(self.source(), row)
        &&& 0 <= self.section_lines().0
        &&& self.section_lines().1 <= usize::MAX
    }
}

/// The two states list the same sections.
spec fn same_lists(a: AppModel, b: AppModel) -> bool {
    &&& a.sources == b.sources
    &&& a.active == b.active
    &&& a.grouped == b.grouped
    &&& a.expanded == b.expanded
    &&& a.expanded_groups == b.expanded_groups
    &&& a.sidebar_filter == b.sidebar_filter
    &&& a.timeline == b.timeline
    &&& a.timeline_deopts_only == b.timeline_deopts_only
    &&& a.selected == b.selected
}

proof fn lemma_same_lists(a: AppModel, b: AppModel)
    requires
        same_lists(a, b),
    ensures
        a.rows() == b.rows(),
        a.row_at(a.selected as int) == b.row_at(b.selected as int),
        a.section_lines() == b.section_lines(),
        a.sections_valid() == b.sections_valid(),
{
    assert(a.sidebar() == b.sidebar());
    if let Some(Row::Event(i)) = a.row_at(a.selected as int) {
        assert(a.enclosing(a.source().index.events[i as int].0) == b.enclosing(
            b.source().index.events[i as int].0,
        ));
        assert(a.event_range(i as int) == b.event_range(i as int));
    }
}

/// The compilation that is shown, and the phase if only one is.
spec fn compiled(app: AppModel) -> Option<(int, Option<usize>)> {
    match app.row_at(app.selected as int) {
        Some(Row::Compilation(i)) => Some((i as int, None)),
        Some(Row::Phase { comp, phase }) => Some((comp as int, Some(phase))),
        Some(Row::Function { name_comp, .. }) => Some((name_comp as int, None)),
        _ => None,
    }
}

/// What the viewport shows lies in the section, and every row can be counted.
proof fn lemma_shown_rows(app: AppModel, r: int)
    requires
        app.sections_valid(),
        0 <= r < app.shown().rows_len(),
    ensures
        r <= usize::MAX,
        app.section_lines().0 <= app.shown().row_at(r).line < app.section_lines().1,
{
    if let Some((comp, only)) = compiled(app) {
        assert(phases_tile(app.compilations()[comp]));
        if let Some(p) = only {
            lemma_ends(app.compilations()[comp], p as int);
        }
        let (first, end) = app.section_lines();
        let rules = app.rules(comp, first, end);
        law_phases_mirror_the_index(app.source().buffer, app.compilations()[comp]);
        law_rows_stay_in_their_section(app.compilations()[comp], rules);
        assert(app.shown() == app.section_view(comp, only));
    }
}

/// The cursor is on a row that shows the line.
pub open spec fn stands_on(app: AppModel, line: int) -> bool {
    app.cursor < app.shown().rows_len() && app.shown().row_at(app.cursor as int).line == line
}

proof fn lemma_placed(app: AppModel, line: int)
    requires
        app.sections_valid(),
        showing(app.shown(), line) is Some,
    ensures
        app.placed(line) matches Some(done) && stands_on(done, line) && same_lists(done, app),
{
    reveal(AppModel::with_cursor);
    reveal(AppModel::with_follow);
    let done = app.placed(line)->0;
    super::views::lemma_same_sections(app, done, app.selected);
    let r = showing(app.shown(), line)->0;
    match app.shown() {
        ViewContents::Plain { .. } => {
            assert(app.shown() == ViewContents::Plain {
                start: app.section_lines().0,
                end: app.section_lines().1,
            }) by {
                lemma_plain_lines(app);
            }
        },
        ViewContents::Modeled { rows, .. } => {
            lemma_found_is_row(rows, line, 0);
            lemma_shown_rows(app, r);
        },
    }
}

/// A plain view shows the lines of the section.
proof fn lemma_plain_lines(app: AppModel)
    requires
        app.shown() is Plain,
    ensures
        app.shown() == (ViewContents::Plain {
            start: app.section_lines().0,
            end: app.section_lines().1,
        }),
{
}

proof fn lemma_found_is_row(rows: Seq<ViewRow>, line: int, i: int)
    requires
        0 <= i,
    ensures
        any_row_from(rows, line, i) matches Some(at) ==> i <= at < rows.len() && rows[at].line
            == line,
    decreases rows.len() - i,
{
    if i < rows.len() && rows[i].line != line {
        lemma_found_is_row(rows, line, i + 1);
    }
}

proof fn lemma_revealed(
    folded: Set<FoldKey>,
    active: usize,
    comp: usize,
    c: CompilationModel,
    parsed: ParsedModel,
    line: int,
    n: int,
    k: int,
)
    requires
        0 <= k < n <= c.phases.len() <= usize::MAX,
        c.phases[k].start <= line < c.phases[k].end,
    ensures
        ({
            let infos = parsed.phases[k].infos;
            match header_before(infos, lines_up_to(infos, line - c.phases[k].start)) {
                Some((_, block)) => !super::jumps::revealed(
                    folded,
                    active,
                    comp,
                    c,
                    parsed,
                    line,
                    n,
                ).contains((active, comp, k as usize, block)),
                None => true,
            }
        }),
    decreases n,
{
    if k < n - 1 {
        lemma_revealed(folded, active, comp, c, parsed, line, n - 1, k);
    }
}

/// A state in which nothing hides the line shows it.
proof fn lemma_nothing_hides(app: AppModel, before: AppModel, line: int)
    requires
        app.sections_valid(),
        same_lists(app, before),
        app.lens is None,
        app.show_annotations,
        app.folded == before.line_unfolded(line).folded,
        before.shown() is Modeled,
        app.section_lines().0 <= line < app.section_lines().1,
    ensures
        showing(app.shown(), line) is Some,
{
    reveal(AppModel::with_folded);
    lemma_same_lists(app, before);
    let (comp, only) = compiled(app)->0;
    let c = app.compilations()[comp];
    assert(phases_tile(c));
    if let Some(p) = only {
        lemma_ends(c, p as int);
    }
    let (first, end) = app.section_lines();
    let rules = app.rules(comp, first, end);
    law_phases_mirror_the_index(app.source().buffer, c);
    assert(before.shown() == before.section_view(comp, only));
    assert(app.shown() == app.section_view(comp, only));
    let parsed = parsed_compilation(app.source().buffer, c);
    assert forall|k: int|
        0 <= k < c.phases.len() && (#[trigger] c.phases[k]).start <= line < c.phases[k].end implies {
        let infos = rules.parsed.phases[k].infos;
        match header_before(infos, lines_up_to(infos, line - c.phases[k].start)) {
            Some((_, block)) => !rules.folded.contains(
                (rules.source, rules.comp, k as usize, block),
            ),
            None => true,
        }
    } by {
        lemma_revealed(
            before.folded,
            before.active,
            comp as usize,
            c,
            parsed,
            line,
            c.phases.len() as int,
            k,
        );
    }
    law_an_unhidden_line_has_a_row(c, rules, line);
    let rows = modeled_rows(c, rules);
    let r = choose|r: int| 0 <= r < rows.len() && (#[trigger] rows[r]).line == line;
    lemma_found(rows, line, r, 0);
}

/// A jump to a line of the section lands on it, whatever hides the line: a
/// folded block, a lens or the collapsing of annotations gives way. The
/// selection stays.
pub proof fn law_a_jump_lands_on_its_line(app: AppModel, line: int)
    requires
        app.sections_valid(),
        app.section_lines().0 <= line < app.section_lines().1,
    ensures
        stands_on(app.gone_to(line), line),
        app.gone_to(line).selected == app.selected,
        app.gone_to(line).timeline == app.timeline,
        app.gone_to(line).section_lines() == app.section_lines(),
        app.gone_to(line).sections_valid(),
{
    reveal(AppModel::gone_to);
    reveal(AppModel::with_folded);
    reveal(AppModel::with_lens);
    reveal(AppModel::with_show_annotations);
    reveal(AppModel::say);
    let unfolded = app.line_unfolded(line);
    let plain = unfolded.with_lens(None).say("lens cleared by jump"@);
    lemma_same_lists(app, unfolded);
    lemma_same_lists(app, plain);
    lemma_same_lists(app, unfolded.with_show_annotations(true));
    lemma_same_lists(app, plain.with_show_annotations(true));
    if app.shown() is Plain {
        lemma_plain_lines(app);
    } else {
        if showing(app.shown(), line) is None && showing(unfolded.shown(), line) is None {
            if unfolded.lens is Some {
                lemma_nothing_hides(plain.with_show_annotations(true), app, line);
            } else {
                lemma_nothing_hides(unfolded.with_show_annotations(true), app, line);
            }
        }
    }
    if showing(app.shown(), line) is Some {
        lemma_placed(app, line);
    } else if showing(unfolded.shown(), line) is Some {
        lemma_placed(unfolded, line);
    } else if unfolded.lens is Some {
        if showing(plain.shown(), line) is Some {
            lemma_placed(plain, line);
        } else {
            lemma_placed(plain.with_show_annotations(true), line);
        }
    } else {
        lemma_placed(unfolded.with_show_annotations(true), line);
    }
    assert(same_lists(app, app.gone_to(line)));
    lemma_same_lists(app, app.gone_to(line));
}

// ---------------------------------------------------------------------------
// The history of jumps
// ---------------------------------------------------------------------------

impl AppModel {
    /// A noted place still exists: its list has the row, and the section of
    /// the row has the line.
    pub open spec fn place_exists(self, jump: Jump) -> bool {
        let there = AppModel { timeline: jump.timeline, selected: jump.selected, ..self };
        &&& jump.selected <= less_one(there.rows().len() as int)
        &&& there.sections_valid()
        &&& there.section_lines().0 <= jump.line < there.section_lines().1
    }
}

/// The state in front of the jump to the line of a noted place.
spec fn listed_at(app: AppModel, jump: Jump) -> AppModel {
    (if jump.timeline != app.timeline {
        app.with_timeline_selected(app.selected).with_timeline(jump.timeline)
    } else {
        app
    }).with_selected(jump.selected)
}

proof fn lemma_listed(app: AppModel, jump: Jump)
    requires
        app.place_exists(jump),
    ensures
        app.jump_restored(jump) == listed_at(app, jump).gone_to(jump.line as int).with_follow(
            false,
        ).with_cycle(None),
        same_lists(
            AppModel { timeline: jump.timeline, selected: jump.selected, ..app },
            listed_at(app, jump),
        ),
        listed_at(app, jump).jumps == app.jumps,
        listed_at(app, jump).jump_at == app.jump_at,
        listed_at(app, jump).diff == app.diff,
{
    reveal(AppModel::with_timeline_selected);
    reveal(AppModel::with_timeline);
    reveal(AppModel::with_selected);
    let there = AppModel { timeline: jump.timeline, selected: jump.selected, ..app };
    let listed = if jump.timeline != app.timeline {
        app.with_timeline_selected(app.selected).with_timeline(jump.timeline)
    } else {
        app
    };
    assert(listed.sidebar() == there.sidebar());
    assert(listed.rows() == there.rows());
}

proof fn lemma_settled(gone: AppModel)
    ensures
        ({
            let done = gone.with_follow(false).with_cycle(None);
            &&& same_lists(gone, done)
            &&& done.here() == gone.here()
            &&& done.jumps == gone.jumps
            &&& done.jump_at == gone.jump_at
            &&& done.diff == gone.diff
        }),
{
    reveal(AppModel::with_follow);
    reveal(AppModel::with_cycle);
    let done = gone.with_follow(false).with_cycle(None);
    super::views::lemma_same_sections(gone, done, done.selected);
}

proof fn lemma_restored(app: AppModel, jump: Jump)
    requires
        app.place_exists(jump),
    ensures
        app.jump_restored(jump).here() == jump,
        app.jump_restored(jump).jumps == app.jumps,
        app.jump_restored(jump).jump_at == app.jump_at,
        app.jump_restored(jump).diff == app.diff,
        same_lists(
            AppModel { timeline: jump.timeline, selected: jump.selected, ..app },
            app.jump_restored(jump),
        ),
{
    lemma_listed(app, jump);
    let there = AppModel { timeline: jump.timeline, selected: jump.selected, ..app };
    let placed = listed_at(app, jump);
    lemma_same_lists(there, placed);
    law_a_jump_lands_on_its_line(placed, jump.line as int);
    lemma_gone_keeps(placed, jump.line as int);
    lemma_settled(placed.gone_to(jump.line as int));
}

/// A jump to a line keeps the lists and the history.
proof fn lemma_gone_keeps(app: AppModel, line: int)
    ensures
        same_lists(app, app.gone_to(line)),
        app.gone_to(line).jumps == app.jumps,
        app.gone_to(line).jump_at == app.jump_at,
        app.gone_to(line).diff == app.diff,
{
    reveal(AppModel::gone_to);
    reveal(AppModel::with_folded);
    reveal(AppModel::with_lens);
    reveal(AppModel::with_show_annotations);
    reveal(AppModel::say);
    reveal(AppModel::with_cursor);
    reveal(AppModel::with_follow);
}

proof fn lemma_place_stays(a: AppModel, b: AppModel, jump: Jump)
    requires
        a.place_exists(jump),
        same_lists(
            AppModel { timeline: b.timeline, selected: b.selected, ..a },
            b,
        ),
    ensures
        b.place_exists(jump),
{
    lemma_same_lists(
        AppModel { timeline: jump.timeline, selected: jump.selected, ..a },
        AppModel { timeline: jump.timeline, selected: jump.selected, ..b },
    );
}

/// Going back returns to the place that was noted before: the same list, the
/// same row of it and the same line.
pub proof fn law_going_back_restores_the_place(app: AppModel)
    requires
        !app.diff,
        0 < app.jump_at <= app.jumps.len(),
        app.place_exists(app.jumps[app.jump_at - 1]),
    ensures
        app.history_stepped(false).here() == app.jumps[app.jump_at - 1],
        app.history_stepped(false).jump_at == app.jump_at - 1,
{
    reveal(AppModel::history_stepped);
    reveal(AppModel::with_jumps);
    reveal(AppModel::with_jump_at);
    let noted = app.newest_noted();
    let at = (app.jump_at - 1) as usize;
    let jump = app.jumps[at as int];
    assert(noted.jumps[at as int] == jump);
    lemma_place_stays(app, noted.with_jump_at(at), jump);
    lemma_restored(noted.with_jump_at(at), jump);
}

/// A jump to a line, and what may be said of it, lands on the line and keeps
/// the place that it was made at.
pub(crate) proof fn lemma_jump_keeps(app: AppModel, line: int, done: AppModel)
    requires
        app.sections_valid(),
        app.selected <= less_one(app.rows().len() as int),
        app.cursor < app.shown().rows_len(),
        app.jump_at <= app.jumps.len(),
        app.jumps.len() < usize::MAX,
        app.section_lines().0 <= line < app.section_lines().1,
        ({
            let gone = app.history_pushed().gone_to(line);
            done == AppModel { cycle: done.cycle, status: done.status, ..gone }
        }),
    ensures
        stands_on(done, line),
        done.jump_at == app.jump_at + 1,
        done.jump_at == done.jumps.len(),
        done.jumps[app.jump_at as int] == app.here(),
        done.place_exists(app.here()),
        done.diff == app.diff,
{
    reveal(AppModel::with_jumps);
    reveal(AppModel::with_jump_at);
    let pushed = app.history_pushed();
    lemma_same_lists(app, pushed);
    law_a_jump_lands_on_its_line(pushed, line);
    let gone = pushed.gone_to(line);
    lemma_gone_keeps(pushed, line);
    super::views::lemma_same_sections(gone, done, done.selected);
    lemma_here_exists(app);
    lemma_place_stays(app, done, app.here());
}

/// The place that the viewport is at exists.
pub(crate) proof fn lemma_here_exists(app: AppModel)
    requires
        app.sections_valid(),
        app.selected <= less_one(app.rows().len() as int),
        app.cursor < app.shown().rows_len(),
    ensures
        app.place_exists(app.here()),
{
    lemma_shown_rows(app, app.cursor as int);
    let there = AppModel { timeline: app.here().timeline, selected: app.here().selected, ..app };
    assert(there == app);
}

/// Going back after a jump to a line returns to where the jump was made, and
/// going forward again returns to where it landed.
pub proof fn law_going_back_undoes_a_jump(app: AppModel, line: int)
    requires
        !app.diff,
        app.sections_valid(),
        app.selected <= less_one(app.rows().len() as int),
        app.cursor < app.shown().rows_len(),
        app.jump_at <= app.jumps.len(),
        app.jumps.len() < usize::MAX,
        app.section_lines().0 <= line < app.section_lines().1,
    ensures
        ({
            let landed = app.history_pushed().gone_to(line);
            let back = landed.history_stepped(false);
            &&& stands_on(landed, line)
            &&& back.here() == app.here()
            &&& back.history_stepped(true).here() == landed.here()
        }),
{
    reveal(AppModel::history_stepped);
    reveal(AppModel::with_jumps);
    reveal(AppModel::with_jump_at);
    let pushed = app.history_pushed();
    lemma_same_lists(app, pushed);
    super::views::lemma_same_sections(app, pushed, app.selected);
    law_a_jump_lands_on_its_line(pushed, line);
    let landed = pushed.gone_to(line);
    lemma_gone_keeps(pushed, line);
    lemma_here_exists(app);
    lemma_place_stays(app, landed, app.here());
    law_going_back_restores_the_place(landed);
    lemma_same_lists(app, landed);
    lemma_here_exists(landed);
    let noted = landed.newest_noted();
    let n = landed.jumps.len() as int;
    assert(noted.jumps[n] == landed.here());
    let at = (n - 1) as usize;
    let stepped = noted.with_jump_at(at);
    lemma_place_stays(landed, stepped, app.here());
    lemma_place_stays(landed, stepped, landed.here());
    lemma_restored(stepped, app.here());
    let back = stepped.jump_restored(app.here());
    assert(back == landed.history_stepped(false));
    let forth = back.with_jump_at(n as usize);
    lemma_place_stays(stepped, forth, landed.here());
    lemma_restored(forth, landed.here());
}

} // verus!
