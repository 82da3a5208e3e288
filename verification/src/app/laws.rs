//! What the operations promise together.

use vstd::prelude::*;

#[allow(unused_imports)]
use super::compare::{counterpart, graph_named, last_graph};
#[allow(unused_imports)]
use super::growth::{buffer_after, found_again, row_of, same_row, source_after};
#[allow(unused_imports)]
use super::jumps::{next_row, row_matched, search_view};
#[allow(unused_imports)]
use super::moves::{all_folded, fold_all, less_one, unfold_all};
#[allow(unused_imports)]
use super::timeline::{bound_comp, correlation, first_behind, is_of, latest_before};
#[allow(unused_imports)]
use super::{Addr, AppModel, DualSide, Pane, Row, SourceModel, SplitDir};
#[allow(unused_imports)]
use crate::event::{SourceChange, SourceEventModel};
#[allow(unused_imports)]
use crate::model::{BlockId, CompilationModel, PhaseSectionModel, TierModel};
#[allow(unused_imports)]
use crate::partition::{law_a_fresh_index_is_sound, law_sections_partition_the_lines, sound};
#[allow(unused_imports)]
use crate::phases::{
    law_a_fresh_index_is_whole, law_phases_partition_their_compilation, whole,
};
#[allow(unused_imports)]
use crate::source::{LogModel, LogSource};
#[allow(unused_imports)]
use crate::view::{FoldKey, ViewContents};

verus! {

// ---------------------------------------------------------------------------
// Splits and comparisons
// ---------------------------------------------------------------------------

/// The key that opens a split closes it again, and the viewport is where it
/// was.
pub proof fn law_the_same_key_closes_a_split(app: AppModel, dir: SplitDir)
    requires
        app.split != Some(dir),
    ensures
        app.split_toggled(dir).split == Some(dir),
        app.split_toggled(dir).split_toggled(dir).split is None,
        app.split_toggled(dir).split_toggled(dir).view_state() == app.view_state(),
{
    reveal(AppModel::split_toggled);
    reveal(AppModel::with_split);
    reveal(AppModel::with_other_view);
    reveal(AppModel::with_diff);
    reveal(AppModel::with_active_pane);
    reveal(AppModel::with_viewport2_rect);
    reveal(AppModel::with_focus);
    reveal(AppModel::with_source_pane);
    reveal(AppModel::say);
}

/// Switching to the other viewport and back leaves both where they were.
pub proof fn law_switching_panes_twice_changes_nothing(app: AppModel)
    requires
        app.split is Some,
        app.active_pane <= 1,
        !app.diff,
        app.source_pane is None,
    ensures
        ({
            let other = app.other_focused();
            &&& other.view_state() == app.other_view
            &&& other.other_view == app.view_state()
            &&& other.active_pane != app.active_pane
            &&& other.other_focused().view_state() == app.view_state()
            &&& other.other_focused().other_view == app.other_view
            &&& other.other_focused().active_pane == app.active_pane
        }),
{
    reveal(AppModel::with_other_view);
    reveal(AppModel::with_selected);
    reveal(AppModel::with_cursor);
    reveal(AppModel::with_top);
    reveal(AppModel::with_scroll_x);
    reveal(AppModel::with_active_pane);
    reveal(AppModel::with_cycle);
    reveal(AppModel::with_focus);
}

/// Either key for comparisons leaves a comparison.
pub proof fn law_either_key_leaves_a_comparison(app: AppModel)
    requires
        app.diff,
    ensures
        !app.diff_toggled().diff,
        app.diff_toggled().dual is None,
        app.dual_toggled() == app.diff_toggled(),
{
    reveal(AppModel::diff_toggled);
    reveal(AppModel::dual_toggled);
    reveal(AppModel::with_diff);
    reveal(AppModel::with_dual);
    reveal(AppModel::say);
}

proof fn lemma_counterpart(comps: Seq<CompilationModel>, section: CompilationModel, n: int)
    requires
        0 <= n <= comps.len(),
    ensures
        counterpart(comps, section, n) matches Some(c) ==> 0 <= c < n && comps[c].name
            == section.name && comps[c].tier == section.tier && !comps[c].filtered_out,
    decreases n,
{
    if n > 0 {
        lemma_counterpart(comps, section, n - 1);
    }
}

proof fn lemma_last_graph(phases: Seq<PhaseSectionModel>, n: int)
    requires
        0 <= n <= phases.len(),
    ensures
        last_graph(phases, n) matches Some(p) ==> 0 <= p < n && phases[p].kind is Graph,
    decreases n,
{
    if n > 0 {
        lemma_last_graph(phases, n - 1);
    }
}

proof fn lemma_graph_named(phases: Seq<PhaseSectionModel>, name: Seq<char>, i: int)
    requires
        0 <= i,
    ensures
        graph_named(phases, name, i) matches Some(p) ==> i <= p < phases.len()
            && phases[p].kind is Graph
            && phases[p].name == name,
    decreases phases.len() - i,
{
    if i < phases.len() {
        lemma_graph_named(phases, name, i + 1);
    }
}

/// A comparison of two runs has the active run on the right, and on the left
/// a compilation with the same name and tier. The phase that was picked stands
/// beside the one of its name; otherwise each side shows its last graph phase.
pub proof fn law_two_runs_are_matched_by_name_and_tier(
    app: AppModel,
    comp: int,
    picked: Option<int>,
    other: usize,
)
    requires
        app.dual is None,
        0 <= comp <= usize::MAX,
        app.compilations()[comp].phases.len() <= usize::MAX,
        picked matches Some(p) ==> 0 <= p < app.compilations()[comp].phases.len()
            && app.compilations()[comp].phases[p].kind is Graph,
        app.sources[other as int].index.compilations.len() <= usize::MAX,
        forall|i: int|
            0 <= i < app.sources[other as int].index.compilations.len() ==> (
            #[trigger] app.sources[other as int].index.compilations[i]).phases.len() <= usize::MAX,
    ensures
        app.dual_with(comp, picked, other).dual matches Some((left, right)) ==> {
            let own = app.compilations()[comp];
            let found = app.sources[other as int].index.compilations[left.comp as int];
            &&& right.source == app.active
            &&& right.comp == comp
            &&& own.phases[right.phase as int].kind is Graph
            &&& left.source == other
            &&& found.name == own.name
            &&& found.tier == own.tier
            &&& found.phases[left.phase as int].kind is Graph
            &&& {
                ||| picked == Some(right.phase as int) && found.phases[left.phase as int].name
                    == own.phases[right.phase as int].name
                ||| last_graph(own.phases, own.phases.len() as int) == Some(right.phase as int)
                    && last_graph(found.phases, found.phases.len() as int) == Some(
                    left.phase as int,
                )
            }
        },
{
    reveal(AppModel::with_source_pane);
    reveal(AppModel::with_split);
    reveal(AppModel::with_diff);
    reveal(AppModel::with_dual);
    reveal(AppModel::with_cursor);
    reveal(AppModel::with_top);
    reveal(AppModel::say);
    let section = app.compilations()[comp];
    let comps = app.sources[other as int].index.compilations;
    lemma_counterpart(comps, section, comps.len() as int);
    if let Some(c) = counterpart(comps, section, comps.len() as int) {
        if let Some(p) = picked {
            lemma_graph_named(comps[c].phases, section.phases[p].name, 0);
        }
        lemma_last_graph(comps[c].phases, comps[c].phases.len() as int);
        lemma_last_graph(section.phases, section.phases.len() as int);
    }
}

// ---------------------------------------------------------------------------
// Folding
// ---------------------------------------------------------------------------

/// Folding a block and unfolding it leaves the folds as they were.
pub proof fn law_a_fold_is_undone(app: AppModel, comp: int, p: usize, h: int, block: BlockId)
    ensures
        app.block_set(comp, p, h, block).block_set(comp, p, h, block).folded == app.folded,
{
    reveal(AppModel::with_folded);
    reveal(AppModel::with_cursor);
    reveal(AppModel::say);
    let key = (app.active, comp as usize, p, block);
    let once = app.block_set(comp, p, h, block);
    assert(once.active == app.active);
    if app.folded.contains(key) {
        assert(app.folded.remove(key).insert(key) =~= app.folded);
    } else {
        assert(app.folded.insert(key).remove(key) =~= app.folded);
    }
}

proof fn lemma_fold_all(folded: Set<FoldKey>, keys: Seq<FoldKey>, n: int, key: FoldKey)
    requires
        0 <= n <= keys.len(),
    ensures
        fold_all(folded, keys, n).contains(key) <==> folded.contains(key) || keys.take(
            n,
        ).contains(key),
        unfold_all(folded, keys, n).contains(key) <==> folded.contains(key) && !keys.take(
            n,
        ).contains(key),
    decreases n,
{
    if n > 0 {
        lemma_fold_all(folded, keys, n - 1, key);
        let before = keys.take(n - 1);
        let now = keys.take(n);
        if before.contains(key) {
            let k = choose|k: int| 0 <= k < before.len() && before[k] == key;
            assert(now[k] == key);
        }
        if now.contains(key) && keys[n - 1] != key {
            let k = choose|k: int| 0 <= k < now.len() && now[k] == key;
            assert(before[k] == key);
        }
        if keys[n - 1] == key {
            assert(now[n - 1] == key);
        }
    }
}

/// Folding all blocks folds every block in view and no other; the same key
/// then unfolds exactly those.
pub proof fn law_folding_all_is_undone(folded: Set<FoldKey>, keys: Seq<FoldKey>)
    ensures
        ({
            let n = keys.len() as int;
            let after = fold_all(folded, keys, n);
            &&& all_folded(after, keys, n)
            &&& forall|key: FoldKey| #[trigger]
                after.contains(key) <==> folded.contains(key) || keys.contains(key)
            &&& forall|key: FoldKey| #[trigger]
                unfold_all(after, keys, n).contains(key) <==> folded.contains(key)
                    && !keys.contains(key)
        }),
{
    let n = keys.len() as int;
    let after = fold_all(folded, keys, n);
    assert(keys.take(n) =~= keys);
    assert forall|key: FoldKey| #[trigger]
        after.contains(key) <==> folded.contains(key) || keys.contains(key) by {
        lemma_fold_all(folded, keys, n, key);
    }
    assert forall|key: FoldKey| #[trigger]
        unfold_all(after, keys, n).contains(key) <==> folded.contains(key) && !keys.contains(key) by {
        lemma_fold_all(after, keys, n, key);
        assert(after.contains(key) <==> folded.contains(key) || keys.contains(key));
    }
    assert forall|k: int| 0 <= k < n implies after.contains(#[trigger] keys[k]) by {
        assert(keys.contains(keys[k]));
    }
}

// ---------------------------------------------------------------------------
// Search
// ---------------------------------------------------------------------------

/// The row that is `k` steps behind `at`, around the end.
pub open spec fn rows_on(at: int, forward: bool, n: int, k: int) -> int
    decreases k,
{
    if k <= 0 {
        at
    } else {
        rows_on(next_row(at, forward, n), forward, n, k - 1)
    }
}

proof fn lemma_searched(
    vm: ViewContents,
    buffer: LogModel,
    pattern: Seq<char>,
    at: int,
    forward: bool,
    left: int,
)
    requires
        vm.rows_len() > 0,
    ensures
        search_view(vm, buffer, pattern, at, forward, left) matches Some(r) ==> 0 <= r
            < vm.rows_len() && row_matched(vm, buffer, pattern, r),
        search_view(vm, buffer, pattern, at, forward, left) is None ==> forall|k: int|
            0 < k <= left ==> !row_matched(
                vm,
                buffer,
                pattern,
                #[trigger] rows_on(at, forward, vm.rows_len(), k),
            ),
    decreases left,
{
    if left > 0 {
        let n = vm.rows_len();
        let next = next_row(at, forward, n);
        lemma_searched(vm, buffer, pattern, next, forward, left - 1);
        if search_view(vm, buffer, pattern, at, forward, left) is None {
            assert forall|k: int| 0 < k <= left implies !row_matched(
                vm,
                buffer,
                pattern,
                #[trigger] rows_on(at, forward, n, k),
            ) by {
                if k == 1 {
                    reveal_with_fuel(rows_on, 2);
                } else {
                    assert(rows_on(at, forward, n, k) == rows_on(next, forward, n, k - 1));
                }
            }
        }
    }
}

proof fn lemma_round(at: int, forward: bool, n: int, k: int)
    requires
        0 <= at < n,
        0 < k <= n,
    ensures
        rows_on(at, forward, n, k) == if forward {
            if at + k < n {
                at + k
            } else {
                at + k - n
            }
        } else {
            if at - k >= 0 {
                at - k
            } else {
                at - k + n
            }
        },
    decreases k,
{
    let next = next_row(at, forward, n);
    if k == 1 {
        reveal_with_fuel(rows_on, 2);
    } else {
        lemma_round(next, forward, n, k - 1);
    }
}

/// A search finds a row that matches, and none only where no row matches.
pub proof fn law_a_search_misses_nothing(
    vm: ViewContents,
    buffer: LogModel,
    pattern: Seq<char>,
    at: int,
    forward: bool,
)
    requires
        0 <= at < vm.rows_len(),
    ensures
        match search_view(vm, buffer, pattern, at, forward, vm.rows_len()) {
            Some(r) => 0 <= r < vm.rows_len() && row_matched(vm, buffer, pattern, r),
            None => forall|r: int|
                0 <= r < vm.rows_len() ==> !#[trigger] row_matched(vm, buffer, pattern, r),
        },
{
    let n = vm.rows_len();
    lemma_searched(vm, buffer, pattern, at, forward, n);
    if search_view(vm, buffer, pattern, at, forward, n) is None {
        assert forall|r: int| 0 <= r < n implies !#[trigger] row_matched(vm, buffer, pattern, r) by {
            let k = if forward {
                if r > at {
                    r - at
                } else {
                    r - at + n
                }
            } else {
                if r < at {
                    at - r
                } else {
                    at - r + n
                }
            };
            lemma_round(at, forward, n, k);
            assert(rows_on(at, forward, n, k) == r);
        }
    }
}

// ---------------------------------------------------------------------------
// Moving and growing
// ---------------------------------------------------------------------------

/// However far the cursor of the viewport is moved, it stays on a row.
pub proof fn law_moving_stays_on_a_row(app: AppModel, delta: int)
    requires
        app.focus == Pane::Viewport,
        0 < app.viewport_rows() <= usize::MAX,
    ensures
        app.moved_by(delta).cursor < app.viewport_rows(),
        app.moved_by(delta).selected == app.selected,
{
    reveal(AppModel::moved_by);
    reveal(AppModel::with_cursor);
    reveal(AppModel::with_follow);
    reveal(AppModel::with_cycle);
    reveal(AppModel::say);
}

proof fn lemma_found_again(rows: Seq<Row>, row: Row, i: int, k: int)
    requires
        0 <= i <= k < rows.len(),
        same_row(rows[k], row),
    ensures
        found_again(rows, row, i) matches Some(at) && i <= at <= k && same_row(rows[at], row),
    decreases k - i,
{
    if !same_row(rows[i], row) {
        lemma_found_again(rows, row, i + 1, k);
    }
}

/// While a trace grows, the selection stays on what was selected, wherever
/// its row went.
pub proof fn law_a_selection_survives_growth(app: AppModel, event: SourceEventModel, row: Row, k: int)
    requires
        event.source == app.active,
        app.active < app.sources.len(),
        row_of(app.rows(), app.selected) == Some(row),
        !(app.follow && !app.grouped && !app.timeline),
        ({
            let rows = app.source_changed(event).rows();
            0 <= k < rows.len() <= usize::MAX && same_row(rows[k], row)
        }),
    ensures
        ({
            let after = app.source_handled(event);
            after.selected < after.rows().len() && same_row(
                after.rows()[after.selected as int],
                row,
            )
        }),
{
    reveal(AppModel::with_sources);
    reveal(AppModel::say);
    reveal(AppModel::with_selected);
    reveal(AppModel::with_timeline_selected);
    reveal(AppModel::with_other_view);
    let changed = app.source_changed(event);
    let after = app.source_handled(event);
    lemma_found_again(changed.rows(), row, 0, k);
    assert(after.sidebar() == changed.sidebar());
}

/// The sections of a source partition the lines that were indexed, and the
/// phases of each compilation partition its lines.
pub open spec fn sections_in_order(source: SourceModel) -> bool {
    sound(source.index, source.index.next_line) && whole(source.index)
}

/// Whatever arrives, the sections of a source stay in order.
pub proof fn law_growth_keeps_the_sections_in_order(source: SourceModel, change: SourceChange)
    requires
        sections_in_order(source),
        source.index.next_line <= buffer_after(source.buffer, change).starts.len(),
    ensures
        sections_in_order(source_after(source, change)),
{
    let buffer = buffer_after(source.buffer, change);
    law_sections_partition_the_lines(source.index, buffer, change is Eof);
    law_phases_partition_their_compilation(source.index, buffer, change is Eof);
}

/// At the start they are in order.
pub proof fn law_a_fresh_source_is_in_order(source: LogSource, filter: Option<Seq<char>>)
    ensures
        sections_in_order(super::fresh_source(source, filter)),
{
    law_a_fresh_index_is_sound(filter);
    law_a_fresh_index_is_whole(filter);
}

// ---------------------------------------------------------------------------
// Events
// ---------------------------------------------------------------------------

proof fn lemma_reset_keeps_lists(app: AppModel)
    ensures
        app.view_reset().sidebar() == app.sidebar(),
        app.view_reset().timeline == app.timeline,
        app.view_reset().selected == app.selected,
        app.view_reset().timeline_selected == app.timeline_selected,
        app.view_reset().split == app.split,
{
    reveal(AppModel::view_reset);
    reveal(AppModel::with_cursor);
    reveal(AppModel::with_top);
    reveal(AppModel::with_scroll_x);
    reveal(AppModel::with_follow);
    reveal(AppModel::with_cycle);
}

proof fn lemma_list_swapped(app: AppModel)
    ensures
        ({
            let after = app.timeline_toggled();
            &&& after.timeline == !app.timeline
            &&& after.timeline_selected == app.selected
            &&& !after.timeline_deopts_only
            &&& !app.timeline_deopts_only ==> after.sidebar() == app.sidebar()
            &&& app.timeline_selected <= less_one(after.rows().len() as int) ==> after.selected
                == app.timeline_selected
        }),
{
    reveal(AppModel::timeline_toggled);
    reveal(AppModel::with_sidebar_visible);
    reveal(AppModel::with_timeline);
    reveal(AppModel::with_selected);
    reveal(AppModel::with_timeline_selected);
    reveal(AppModel::with_timeline_deopts_only);
    reveal(AppModel::with_sidebar_scroll);
    reveal(AppModel::with_focus);
    reveal(AppModel::with_diff);
    reveal(AppModel::with_other_view);
    reveal(AppModel::say);
    let swapped = app.with_sidebar_visible(true).with_timeline(!app.timeline).with_selected(
        app.timeline_selected,
    ).with_timeline_selected(app.selected).with_timeline_deopts_only(false).with_sidebar_scroll(
        0,
    ).with_focus(Pane::Sidebar);
    let parked = if app.split is Some {
        swapped.with_diff(false).with_other_view(super::view_at(app.timeline_selected))
    } else {
        swapped
    };
    let n = parked.rows().len() as int;
    let selected = if app.timeline_selected < less_one(n) {
        app.timeline_selected as int
    } else {
        less_one(n)
    };
    let placed = parked.with_selected(selected as usize);
    lemma_reset_keeps_lists(placed);
    let after = app.timeline_toggled();
    assert(after.sidebar() == placed.sidebar());
    assert(placed.sidebar() == parked.sidebar());
}

/// Showing the timeline and then the list again returns to the row that was
/// selected: each list keeps its own.
pub proof fn law_each_list_keeps_its_selection(app: AppModel)
    requires
        !app.timeline_deopts_only,
        app.selected <= less_one(app.rows().len() as int),
    ensures
        app.timeline_toggled().timeline == !app.timeline,
        app.timeline_toggled().timeline_toggled().timeline == app.timeline,
        app.timeline_toggled().timeline_toggled().selected == app.selected,
{
    lemma_list_swapped(app);
    lemma_list_swapped(app.timeline_toggled());
}

proof fn lemma_latest(
    comps: Seq<CompilationModel>,
    sfi: Addr,
    tier: TierModel,
    line: int,
    n: int,
)
    requires
        0 <= n <= comps.len(),
    ensures
        match latest_before(comps, sfi, tier, line, n) {
            Some(c) => 0 <= c < n && is_of(comps[c], sfi, tier) && !comps[c].filtered_out
                && comps[c].start < line && forall|k: int|
                c < k < n && is_of(#[trigger] comps[k], sfi, tier) && !comps[k].filtered_out
                    ==> comps[k].start >= line,
            None => forall|k: int|
                0 <= k < n && is_of(#[trigger] comps[k], sfi, tier) && !comps[k].filtered_out
                    ==> comps[k].start >= line,
        },
    decreases n,
{
    if n > 0 {
        lemma_latest(comps, sfi, tier, line, n - 1);
    }
}

proof fn lemma_first(comps: Seq<CompilationModel>, sfi: Addr, tier: TierModel, line: int, i: int)
    requires
        0 <= i,
    ensures
        match first_behind(comps, sfi, tier, line, i) {
            Some(c) => i <= c < comps.len() && is_of(comps[c], sfi, tier) && !comps[c].filtered_out
                && comps[c].start >= line,
            None => forall|k: int|
                i <= k < comps.len() && is_of(#[trigger] comps[k], sfi, tier)
                    && !comps[k].filtered_out ==> comps[k].start < line,
        },
    decreases comps.len() - i,
{
    if i < comps.len() {
        lemma_first(comps, sfi, tier, line, i + 1);
    }
}

/// An event leads only to a compilation of its own function and tier that is
/// not left out. A deoptimisation leads to the latest one that started before
/// it, and to none only where there is none.
pub proof fn law_events_are_never_guessed(app: AppModel, ev: int)
    requires
        0 <= ev < app.source().index.events.len(),
        correlation(app.source().index.events[ev].1) is Some,
    ensures
        ({
            let (line, event) = app.source().index.events[ev];
            let (sfi, tier, _, bind) = correlation(event)->0;
            let comps = app.compilations();
            let found = bound_comp(comps, sfi, tier, line, bind);
            &&& found matches Some(c) ==> 0 <= c < comps.len() && is_of(comps[c], sfi, tier)
                && !comps[c].filtered_out
            &&& event is DeoptBegin ==> match found {
                Some(c) => comps[c].start < line && forall|k: int|
                    c < k < comps.len() && is_of(#[trigger] comps[k], sfi, tier)
                        && !comps[k].filtered_out ==> comps[k].start >= line,
                None => forall|k: int|
                    0 <= k < comps.len() && is_of(#[trigger] comps[k], sfi, tier)
                        && !comps[k].filtered_out ==> comps[k].start >= line,
            }
            &&& !(event is DeoptBegin) && found is None ==> forall|k: int|
                0 <= k < comps.len() && is_of(#[trigger] comps[k], sfi, tier)
                    ==> comps[k].filtered_out
        }),
{
    let (line, event) = app.source().index.events[ev];
    let (sfi, tier, _, _) = correlation(event)->0;
    let comps = app.compilations();
    lemma_latest(comps, sfi, tier, line, comps.len() as int);
    lemma_first(comps, sfi, tier, line, 0);
}

} // verus!
