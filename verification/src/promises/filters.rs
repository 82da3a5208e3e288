//! Which lines a lens leaves in view.

use vstd::prelude::*;

#[allow(unused_imports)]
use crate::model::{BlockId, LineModel, PhaseSectionModel};
#[allow(unused_imports)]
use crate::view::{
    info_at, lens_keeps, phase_line_rows, phase_rows, text_row, Lens, RowKind, RowRules, RowState,
    ViewRow,
};

verus! {

/// Line `i` of a phase stays in view: it lies in the section that is shown, and it
/// is a banner, the header of a block, or a line that the lens is for.
pub open spec fn stays(
    rules: RowRules,
    lens: Lens,
    section: PhaseSectionModel,
    infos: Seq<LineModel>,
    i: int,
) -> bool {
    let line = section.start + i;
    &&& rules.first <= line < rules.end
    &&& {
        ||| i < infos.len() && infos[i] is Banner
        ||| i < infos.len() && infos[i] is BlockHeader
        ||| lens_keeps(lens, info_at(infos, i), rules.parsed, rules.buffer.line_text(line))
    }
}

/// `rows[from..]` show, in order and each as text, the lines among the first `n`
/// of phase `p` that stay, and nothing else.
pub open spec fn shows(
    rows: Seq<ViewRow>,
    from: int,
    rules: RowRules,
    lens: Lens,
    section: PhaseSectionModel,
    infos: Seq<LineModel>,
    p: usize,
    n: int,
) -> bool {
    &&& from <= rows.len()
    &&& forall|k: int|
        from <= k < rows.len() ==> {
            let row = #[trigger] rows[k];
            &&& row.kind == RowKind::Text
            &&& row.info matches Some((q, i)) && q == p && i < n && row.line == section.start + i
                && stays(rules, lens, section, infos, i as int)
        }
    &&& forall|a: int, b: int|
        from <= a < b < rows.len() ==> (#[trigger] rows[a]).line < (#[trigger] rows[b]).line
    &&& forall|i: int|
        0 <= i < n && #[trigger] stays(rules, lens, section, infos, i) ==> exists|k: int|
            from <= k < rows.len() && (#[trigger] rows[k]).line == section.start + i
}

proof fn lemma_one_line(
    st: RowState,
    from: int,
    rules: RowRules,
    lens: Lens,
    section: PhaseSectionModel,
    infos: Seq<LineModel>,
    p: usize,
    n: int,
)
    requires
        rules.lens == Some(lens),
        forall|b: BlockId| !#[trigger] rules.folded.contains((rules.source, rules.comp, p, b)),
        st.pending.len() == 0,
        st.fold is None,
        0 <= n,
        0 <= section.start,
        section.start + n < usize::MAX,
        0 <= from,
        shows(st.rows, from, rules, lens, section, infos, p, n),
    ensures
        ({
            let out = phase_line_rows(
                st,
                rules,
                section.kind is Graph,
                p,
                n as usize,
                (section.start + n) as usize,
                info_at(infos, n),
            );
            &&& out.pending.len() == 0
            &&& out.fold is None
            &&& shows(out.rows, from, rules, lens, section, infos, p, n + 1)
            &&& out.rows.len() >= st.rows.len()
            &&& forall|k: int| 0 <= k < st.rows.len() ==> out.rows[k] == st.rows[k]
        }),
{
    reveal(phase_line_rows);
    let line = (section.start + n) as usize;
    let info = info_at(infos, n);
    let out = phase_line_rows(st, rules, section.kind is Graph, p, n as usize, line, info);
    if let Some(LineModel::BlockHeader { block }) = info {
        assert(!rules.folded.contains((rules.source, rules.comp, p, block)));
    }
    if stays(rules, lens, section, infos, n) {
        assert(out.rows == st.rows.push(text_row(line, Some((p, n as usize)))));
        let last = st.rows.len() as int;
        assert(out.rows[last].line == section.start + n);
        assert forall|i: int|
            0 <= i < n + 1 && #[trigger] stays(rules, lens, section, infos, i) implies exists|k: int|
            from <= k < out.rows.len() && (#[trigger] out.rows[k]).line == section.start + i by {
            if i < n {
                let k = choose|k: int|
                    from <= k < st.rows.len() && (#[trigger] st.rows[k]).line == section.start + i;
                assert(out.rows[k] == st.rows[k]);
            } else {
                assert(out.rows[last].line == section.start + i);
            }
        }
        assert forall|k: int| from <= k < st.rows.len() implies #[trigger] out.rows[k]
            == st.rows[k] by {}
    } else {
        assert(out.rows == st.rows);
    }
}

/// Under a lens, a phase shows its banner, its block headers and the lines that
/// the lens is for, in order, and nothing else. What was shown before stays.
pub proof fn law_a_lens_leaves_what_it_is_for(
    st: RowState,
    rules: RowRules,
    lens: Lens,
    section: PhaseSectionModel,
    infos: Seq<LineModel>,
    p: usize,
    n: int,
)
    requires
        rules.lens == Some(lens),
        forall|b: BlockId| !#[trigger] rules.folded.contains((rules.source, rules.comp, p, b)),
        st.pending.len() == 0,
        st.fold is None,
        0 <= n,
        0 <= section.start,
        section.start + n <= usize::MAX,
    ensures
        ({
            let out = phase_rows(st, rules, section, infos, p, n);
            &&& out.pending.len() == 0
            &&& out.fold is None
            &&& shows(out.rows, st.rows.len() as int, rules, lens, section, infos, p, n)
            &&& forall|k: int| 0 <= k < st.rows.len() ==> out.rows[k] == st.rows[k]
        }),
    decreases n,
{
    if n > 0 {
        law_a_lens_leaves_what_it_is_for(st, rules, lens, section, infos, p, n - 1);
        lemma_one_line(
            phase_rows(st, rules, section, infos, p, n - 1),
            st.rows.len() as int,
            rules,
            lens,
            section,
            infos,
            p,
            n - 1,
        );
    }
}

/// Line `i` of a phase lies in the section that is shown.
pub open spec fn in_view(rules: RowRules, section: PhaseSectionModel, i: int) -> bool {
    rules.first <= section.start + i < rules.end
}

proof fn lemma_hidden(
    st: RowState,
    rules: RowRules,
    section: PhaseSectionModel,
    infos: Seq<LineModel>,
    p: usize,
    h: int,
    m: int,
    block: BlockId,
)
    requires
        0 <= h,
        0 <= m,
        h + m < infos.len(),
        0 <= section.start,
        section.start + h + m < usize::MAX,
        section.kind is Graph,
        infos[h] == (LineModel::BlockHeader { block }),
        rules.folded.contains((rules.source, rules.comp, p, block)),
        forall|i: int| h < i <= h + m ==> !((#[trigger] infos[i]) is BlockHeader),
        forall|i: int| h <= i <= h + m ==> #[trigger] in_view(rules, section, i),
    ensures
        ({
            let before = phase_rows(st, rules, section, infos, p, h).flushed(
                rules.show_annotations,
            ).unfolded();
            let out = phase_rows(st, rules, section, infos, p, h + m + 1);
            &&& out.rows == before.rows
            &&& out.pending == before.pending
            &&& out.fold == Some(
                ViewRow {
                    line: (section.start + h) as usize,
                    info: Some((p, h as usize)),
                    kind: RowKind::BlockFold { block, hidden: m as usize },
                },
            )
        }),
    decreases m,
{
    reveal(phase_line_rows);
    assert(in_view(rules, section, h));
    if m > 0 {
        lemma_hidden(st, rules, section, infos, p, h, m - 1, block);
        assert(!(infos[h + m] is BlockHeader));
        assert(in_view(rules, section, h + m));
    }
}

/// A block that is folded is one row: it stands for the header, and it counts the
/// lines of the block behind it.
pub proof fn law_a_folded_block_is_one_row(
    st: RowState,
    rules: RowRules,
    section: PhaseSectionModel,
    infos: Seq<LineModel>,
    p: usize,
    h: int,
    m: int,
    block: BlockId,
)
    requires
        0 <= h,
        0 <= m,
        h + m < infos.len(),
        0 <= section.start,
        section.start + h + m < usize::MAX,
        section.kind is Graph,
        infos[h] == (LineModel::BlockHeader { block }),
        rules.folded.contains((rules.source, rules.comp, p, block)),
        forall|i: int| h < i <= h + m ==> !((#[trigger] infos[i]) is BlockHeader),
        forall|i: int| h <= i <= h + m ==> #[trigger] in_view(rules, section, i),
    ensures
        phase_rows(st, rules, section, infos, p, h + m + 1).unfolded().rows == phase_rows(
            st,
            rules,
            section,
            infos,
            p,
            h,
        ).flushed(rules.show_annotations).unfolded().rows.push(
            ViewRow {
                line: (section.start + h) as usize,
                info: Some((p, h as usize)),
                kind: RowKind::BlockFold { block, hidden: m as usize },
            },
        ),
{
    lemma_hidden(st, rules, section, infos, p, h, m, block);
}

proof fn lemma_notes(
    st: RowState,
    rules: RowRules,
    section: PhaseSectionModel,
    infos: Seq<LineModel>,
    p: usize,
    a: int,
    k: int,
)
    requires
        rules.lens is None,
        0 <= a,
        0 <= k,
        a + k <= infos.len(),
        0 <= section.start,
        section.start + a + k < usize::MAX,
        phase_rows(st, rules, section, infos, p, a).pending.len() == 0,
        phase_rows(st, rules, section, infos, p, a).fold is None,
        forall|i: int| a <= i < a + k ==> (#[trigger] infos[i]) is Annotation,
        forall|i: int| a <= i < a + k ==> #[trigger] in_view(rules, section, i),
    ensures
        ({
            let before = phase_rows(st, rules, section, infos, p, a);
            let out = phase_rows(st, rules, section, infos, p, a + k);
            &&& out.rows == before.rows
            &&& out.fold is None
            &&& out.pending == Seq::new(
                k as nat,
                |j: int| ((section.start + a + j) as usize, Some((p, (a + j) as usize))),
            )
        }),
    decreases k,
{
    reveal(phase_line_rows);
    let want = Seq::new(
        k as nat,
        |j: int| ((section.start + a + j) as usize, Some((p, (a + j) as usize))),
    );
    let out = phase_rows(st, rules, section, infos, p, a + k);
    if k > 0 {
        lemma_notes(st, rules, section, infos, p, a, k - 1);
        assert(infos[a + k - 1] is Annotation);
        assert(in_view(rules, section, a + k - 1));
        assert(out.pending =~= want);
    } else {
        assert(out.pending =~= want);
    }
}

/// A run of notes is one row where notes are folded, and it counts them; where
/// they are shown, each is a row of its own.
pub proof fn law_a_run_of_notes_is_one_row(
    st: RowState,
    rules: RowRules,
    section: PhaseSectionModel,
    infos: Seq<LineModel>,
    p: usize,
    a: int,
    k: int,
)
    requires
        rules.lens is None,
        0 <= a,
        0 < k,
        a + k <= infos.len(),
        0 <= section.start,
        section.start + a + k < usize::MAX,
        phase_rows(st, rules, section, infos, p, a).pending.len() == 0,
        phase_rows(st, rules, section, infos, p, a).fold is None,
        forall|i: int| a <= i < a + k ==> (#[trigger] infos[i]) is Annotation,
        forall|i: int| a <= i < a + k ==> #[trigger] in_view(rules, section, i),
    ensures
        ({
            let before = phase_rows(st, rules, section, infos, p, a).rows;
            let out = phase_rows(st, rules, section, infos, p, a + k);
            &&& out.flushed(false).rows == before.push(
                ViewRow {
                    line: (section.start + a) as usize,
                    info: Some((p, a as usize)),
                    kind: RowKind::AnnotationFold { count: k as usize },
                },
            )
            &&& out.flushed(true).rows == before + Seq::new(
                k as nat,
                |j: int|
                    ViewRow {
                        line: (section.start + a + j) as usize,
                        info: Some((p, (a + j) as usize)),
                        kind: RowKind::Text,
                    },
            )
        }),
{
    lemma_notes(st, rules, section, infos, p, a, k);
    let before = phase_rows(st, rules, section, infos, p, a).rows;
    let out = phase_rows(st, rules, section, infos, p, a + k);
    assert(out.pending.len() == k);
    assert(out.flushed(true).rows =~= before + Seq::new(
        k as nat,
        |j: int|
            ViewRow {
                line: (section.start + a + j) as usize,
                info: Some((p, (a + j) as usize)),
                kind: RowKind::Text,
            },
    ));
}

} // verus!
