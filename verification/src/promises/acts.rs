//! What keys and the mouse do.

use vstd::prelude::*;

#[allow(unused_imports)]
use crate::app::jumps::{next_row, pair_matched, row_matched, search_diff, search_view};
#[allow(unused_imports)]
use crate::app::{AppModel, Pane, PaneModel, PaneRect, SourceModel};
#[allow(unused_imports)]
use crate::config::Action;
#[allow(unused_imports)]
use crate::diff::DiffView;
#[allow(unused_imports)]
use crate::event::{Event, InputEvent};
#[allow(unused_imports)]
use crate::keys::{KeyEvent, KeyEventKind, MouseButton, MouseEvent, MouseEventKind};
#[allow(unused_imports)]
use crate::source::LogModel;
#[allow(unused_imports)]
use crate::view::ViewContents;

verus! {

/// `at + by`, but at least zero and at most `last`.
pub open spec fn within(at: int, by: int, last: int) -> int {
    if at + by < 0 {
        0
    } else if at + by > last {
        last
    } else {
        at + by
    }
}

/// The larger of two numbers.
pub open spec fn larger(a: int, b: int) -> int {
    if a < b {
        b
    } else {
        a
    }
}

proof fn lemma_moved(app: AppModel, by: int)
    requires
        app.focus == Pane::Viewport,
        0 < app.viewport_rows() <= usize::MAX,
    ensures
        ({
            let last = app.viewport_rows() - 1;
            let after = app.moved_by(by);
            &&& after.cursor == within(app.cursor as int, by, last)
            &&& after.follow == (app.follow && after.cursor == last)
            &&& after.selected == app.selected
            &&& after.focus == app.focus
            &&& after.source_pane == app.source_pane
        }),
{
    reveal(AppModel::moved_by);
    reveal(AppModel::with_cursor);
    reveal(AppModel::with_follow);
    reveal(AppModel::with_cycle);
    reveal(AppModel::say);
}

/// In the viewport, the keys that move take the cursor one row, half a page or a
/// page on, and to the first and the last row; it never leaves the rows. A page
/// keeps two rows in sight. A stream is followed only from the last row on.
pub proof fn law_the_cursor_moves(app: AppModel)
    requires
        app.focus == Pane::Viewport,
        0 < app.viewport_rows() <= usize::MAX,
    ensures
        ({
            let last = app.viewport_rows() - 1;
            let at = app.cursor as int;
            let page = larger(app.viewport_height - 2, 1);
            let half = larger(page / 2, 1);
            &&& app.acted(Action::Down).cursor == within(at, 1, last)
            &&& app.acted(Action::Up).cursor == within(at, -1, last)
            &&& app.acted(Action::PageDown).cursor == within(at, page, last)
            &&& app.acted(Action::PageUp).cursor == within(at, -page, last)
            &&& app.acted(Action::HalfPageDown).cursor == within(at, half, last)
            &&& app.acted(Action::HalfPageUp).cursor == within(at, -half, last)
            &&& app.acted(Action::Top).cursor == 0
            &&& app.acted(Action::Bottom).cursor == last
            &&& app.acted(Action::Down).follow == (app.follow && app.acted(Action::Down).cursor
                == last)
            &&& app.acted(Action::Up).follow == (app.follow && app.acted(Action::Up).cursor == last)
            &&& !app.acted(Action::Top).follow
        }),
{
    lemma_moved(app, 1);
    lemma_moved(app, -1);
    lemma_moved(app, app.page());
    lemma_moved(app, -app.page());
    lemma_moved(app, app.half_page());
    lemma_moved(app, -app.half_page());
    reveal(AppModel::at_top);
    reveal(AppModel::at_bottom);
    reveal(AppModel::with_cursor);
    reveal(AppModel::with_follow);
    reveal(AppModel::with_cycle);
    reveal(AppModel::say);
}

proof fn lemma_reset(app: AppModel)
    ensures
        app.view_reset().selected == app.selected,
        app.view_reset().sidebar_scroll == app.sidebar_scroll,
        app.view_reset().top == 0,
        app.view_reset().scroll_x == 0,
        !app.view_reset().follow,
        app.view_reset().focus == app.focus,
        app.view_reset().active == app.active,
        !app.timeline ==> app.view_reset().cursor == 0,
{
    reveal(AppModel::view_reset);
    reveal(AppModel::with_cursor);
    reveal(AppModel::with_top);
    reveal(AppModel::with_scroll_x);
    reveal(AppModel::with_follow);
    reveal(AppModel::with_cycle);
}

proof fn lemma_selected(app: AppModel, by: int)
    requires
        app.focus == Pane::Sidebar,
        0 < app.rows().len() <= usize::MAX,
    ensures
        ({
            let after = app.moved_by(by);
            &&& after.selected == within(app.selected as int, by, app.rows().len() - 1)
            &&& after.top == 0
            &&& after.scroll_x == 0
            &&& !app.timeline ==> after.cursor == 0
            &&& !after.follow
        }),
{
    reveal(AppModel::moved_by);
    reveal(AppModel::with_selected);
    let n = app.rows().len() as int;
    lemma_reset(
        app.with_selected(crate::app::moves::clamped(app.selected as int, by, n) as usize),
    );
}

/// In the sidebar they take the selection, in the same way; a page keeps one row
/// in sight. The viewport then shows the section from its start.
pub proof fn law_the_selection_moves(app: AppModel)
    requires
        app.focus == Pane::Sidebar,
        0 < app.rows().len() <= usize::MAX,
    ensures
        ({
            let last = app.rows().len() - 1;
            let at = app.selected as int;
            let page = larger(app.sidebar_height - 1, 1);
            let half = larger(page / 2, 1);
            &&& app.acted(Action::Down).selected == within(at, 1, last)
            &&& app.acted(Action::Up).selected == within(at, -1, last)
            &&& app.acted(Action::PageDown).selected == within(at, page, last)
            &&& app.acted(Action::PageUp).selected == within(at, -page, last)
            &&& app.acted(Action::HalfPageDown).selected == within(at, half, last)
            &&& app.acted(Action::HalfPageUp).selected == within(at, -half, last)
            &&& app.acted(Action::Top).selected == 0
            &&& app.acted(Action::Bottom).selected == last
            &&& app.acted(Action::Down).top == 0
            &&& app.acted(Action::Up).top == 0
            &&& !app.timeline ==> app.acted(Action::Down).cursor == 0
            &&& !app.timeline ==> app.acted(Action::Up).cursor == 0
        }),
{
    lemma_selected(app, 1);
    lemma_selected(app, -1);
    lemma_selected(app, app.page());
    lemma_selected(app, -app.page());
    lemma_selected(app, app.half_page());
    lemma_selected(app, -app.half_page());
    reveal(AppModel::at_top);
    reveal(AppModel::at_bottom);
    reveal(AppModel::with_selected);
    lemma_reset(app.with_selected(0));
    lemma_reset(
        app.with_selected(crate::app::moves::less_one(app.rows().len() as int) as usize),
    );
}

/// In the pane with the source they take its own cursor.
pub proof fn law_the_source_cursor_moves(app: AppModel, pane: PaneModel)
    requires
        app.focus == Pane::Source,
        app.source_pane == Some(pane),
        0 < pane.lines.len() <= usize::MAX,
    ensures
        ({
            let last = pane.lines.len() - 1;
            let at = pane.cursor as int;
            &&& app.acted(Action::Down).source_pane matches Some(p) && p.cursor == within(
                at,
                1,
                last,
            ) && p.lines == pane.lines
            &&& app.acted(Action::Up).source_pane matches Some(p) && p.cursor == within(at, -1, last)
            &&& app.acted(Action::Top).source_pane matches Some(p) && p.cursor == 0
            &&& app.acted(Action::Bottom).source_pane matches Some(p) && p.cursor == last
            &&& app.acted(Action::Down).cursor == app.cursor
            &&& app.acted(Action::Down).selected == app.selected
        }),
{
    reveal(AppModel::moved_by);
    reveal(AppModel::at_top);
    reveal(AppModel::at_bottom);
    reveal(AppModel::with_source_pane);
}

/// Each key that switches something switches that, and the same key switches it
/// back.
pub proof fn law_a_switch_is_switched_back(app: AppModel)
    ensures
        app.acted(Action::ToggleGrouping).grouped == !app.grouped,
        app.acted(Action::ToggleWrap).wrap == !app.wrap,
        app.acted(Action::ToggleAnnotations).show_annotations == !app.show_annotations,
        app.acted(Action::ToggleSidebar).sidebar_visible == !app.sidebar_visible,
        app.acted(Action::ToggleFollow).follow == !app.follow,
        app.acted(Action::ToggleSidebar).focus != Pane::Sidebar || app.acted(
            Action::ToggleSidebar,
        ).sidebar_visible,
        app.acted(Action::ToggleWrap).grouped == app.grouped,
        app.acted(Action::ToggleWrap).show_annotations == app.show_annotations,
        app.acted(Action::ToggleAnnotations).wrap == app.wrap,
        app.acted(Action::ToggleGrouping).wrap == app.wrap,
        app.acted(Action::ToggleGrouping).selected == 0,
        !app.follow && 0 < app.with_follow(true).viewport_rows() <= usize::MAX ==> app.acted(
            Action::ToggleFollow,
        ).cursor == app.with_follow(true).viewport_rows() - 1,
{
    reveal(AppModel::with_grouped);
    reveal(AppModel::with_selected);
    reveal(AppModel::with_sidebar_scroll);
    reveal(AppModel::with_follow);
    reveal(AppModel::with_wrap);
    reveal(AppModel::with_scroll_x);
    reveal(AppModel::with_show_annotations);
    reveal(AppModel::with_sidebar_visible);
    reveal(AppModel::with_focus);
    reveal(AppModel::with_cursor);
    reveal(AppModel::say);
}

/// Going back leaves the source for the viewport, the viewport for the sidebar
/// and the sidebar for good.
pub proof fn law_going_back_leaves_pane_by_pane(app: AppModel)
    ensures
        app.focus == Pane::Source ==> app.acted(Action::Back).focus == Pane::Viewport
            && app.acted(Action::Back).quit == app.quit,
        app.focus == Pane::Viewport ==> app.acted(Action::Back).focus == Pane::Sidebar
            && app.acted(Action::Back).quit == app.quit,
        app.focus == Pane::Sidebar ==> app.acted(Action::Back).quit,
        app.acted(Action::Quit).quit,
        app.acted(Action::FocusSidebar).focus == Pane::Sidebar,
        app.acted(Action::FocusSidebar).sidebar_visible,
{
    reveal(AppModel::with_focus);
    reveal(AppModel::with_quit);
    reveal(AppModel::with_sidebar_visible);
}

/// The sources are shown in turn, each from its start.
pub proof fn law_the_sources_take_turns(app: AppModel)
    requires
        app.active < app.sources.len() <= usize::MAX,
    ensures
        app.sources.len() > 1 ==> {
            let after = app.acted(Action::NextSource);
            &&& after.active == (if app.active + 1 < app.sources.len() {
                app.active + 1
            } else {
                0
            })
            &&& after.selected == 0
            &&& after.top == 0
        },
        app.sources.len() == 1 ==> app.acted(Action::NextSource) == app,
{
    reveal(AppModel::with_active);
    reveal(AppModel::with_selected);
    reveal(AppModel::with_sidebar_scroll);
    let n = app.sources.len() as int;
    let next = ((app.active + 1) % n) as usize;
    if app.active + 1 < n {
        assert((app.active + 1) % n == app.active + 1) by (nonlinear_arith)
            requires
                0 <= app.active + 1 < n,
        ;
    } else {
        assert((app.active + 1) % n == 0) by (nonlinear_arith)
            requires
                app.active + 1 == n,
                n > 0,
        ;
    }
    lemma_reset(app.with_active(next).with_selected(0).with_sidebar_scroll(0));
}

/// Scrolling to the right and back returns to the same column.
pub proof fn law_scrolling_back_returns(app: AppModel)
    requires
        app.scroll_x + 8 <= usize::MAX,
    ensures
        app.acted(Action::ScrollRight).scroll_x == app.scroll_x + 8,
        app.acted(Action::ScrollRight).acted(Action::ScrollLeft).scroll_x == app.scroll_x,
        app.scroll_x < 8 ==> app.acted(Action::ScrollLeft).scroll_x == 0,
{
    reveal(AppModel::with_scroll_x);
}

/// The release of a key does nothing. Any key closes the help and does nothing
/// else. Where no more input can come the program ends.
pub proof fn law_some_keys_do_nothing_else(app: AppModel, key: KeyEvent)
    ensures
        key.kind == KeyEventKind::Release ==> app.handled(Event::Input(InputEvent::Key(key)))
            == app,
        key.kind != KeyEventKind::Release && app.input is None && app.help ==> ({
            let after = app.handled(Event::Input(InputEvent::Key(key)));
            !after.help && after.with_help(true) == app
        }),
        app.handled(Event::InputClosed).quit,
{
    reveal(AppModel::with_help);
    reveal(AppModel::with_quit);
    if app.help {
        assert(app.with_help(false).with_help(true) =~= app);
    }
}

/// A place lies in a rectangle.
pub open spec fn inside(rect: PaneRect, x: u16, y: u16) -> bool {
    &&& rect.x <= x
    &&& x - rect.x < rect.width
    &&& rect.y <= y
    &&& y - rect.y < rect.height
}

/// A click on a row of the sidebar selects that row, or the last one where the
/// click is behind it.
pub proof fn law_a_click_selects_the_row_under_it(app: AppModel, mouse: MouseEvent)
    requires
        !app.help,
        app.input is None,
        app.sidebar_visible,
        mouse.kind == MouseEventKind::Down(MouseButton::Left),
        inside(app.sidebar_rect, mouse.column, mouse.row),
        0 < app.rows().len() <= usize::MAX,
    ensures
        ({
            let after = app.mouse_handled(mouse);
            let wanted = app.sidebar_scroll + (mouse.row - app.sidebar_rect.y);
            &&& after.focus == Pane::Sidebar
            &&& wanted < app.rows().len() ==> after.selected == wanted
            &&& wanted >= app.rows().len() ==> after.selected == app.rows().len() - 1
        }),
{
    reveal(AppModel::with_focus);
    reveal(AppModel::with_selected);
    let focused = app.with_focus(Pane::Sidebar);
    assert(focused.sidebar() == app.sidebar());
    assert(focused.rows() == app.rows());
    let at = crate::app::actions::row_below(
        app.sidebar_scroll,
        mouse.row - app.sidebar_rect.y,
        app.rows().len() as int,
    );
    lemma_reset(focused.with_selected(at));
}

/// A click into the only viewport puts the cursor on the row under it, or on the
/// last one.
pub proof fn law_a_click_puts_the_cursor_under_it(app: AppModel, mouse: MouseEvent)
    requires
        !app.help,
        app.input is None,
        app.split is None,
        mouse.kind == MouseEventKind::Down(MouseButton::Left),
        !inside(app.sidebar_rect, mouse.column, mouse.row),
        inside(app.viewport_rect, mouse.column, mouse.row),
        0 < app.with_focus(Pane::Viewport).viewport_rows() <= usize::MAX,
    ensures
        ({
            let after = app.mouse_handled(mouse);
            let n = app.with_focus(Pane::Viewport).viewport_rows();
            let wanted = app.top + (mouse.row - app.viewport_rect.y);
            &&& after.focus == Pane::Viewport
            &&& wanted < n ==> after.cursor == wanted
            &&& wanted >= n ==> after.cursor == n - 1
        }),
{
    reveal(AppModel::with_focus);
    reveal(AppModel::with_cursor);
    reveal(AppModel::with_follow);
    reveal(AppModel::with_cycle);
    reveal(AppModel::say);
}

/// The wheel moves the pane under it by three rows, and gives it the focus.
pub proof fn law_the_wheel_moves_the_pane_under_it(app: AppModel, mouse: MouseEvent)
    requires
        !app.help,
        app.input is None,
        app.split is None,
        !inside(app.sidebar_rect, mouse.column, mouse.row),
        inside(app.viewport_rect, mouse.column, mouse.row),
        mouse.kind == MouseEventKind::ScrollUp || mouse.kind == MouseEventKind::ScrollDown,
        0 < app.with_focus(Pane::Viewport).viewport_rows() <= usize::MAX,
    ensures
        ({
            let after = app.mouse_handled(mouse);
            let last = app.with_focus(Pane::Viewport).viewport_rows() - 1;
            &&& after.focus == Pane::Viewport
            &&& mouse.kind == MouseEventKind::ScrollDown ==> after.cursor == within(
                app.cursor as int,
                3,
                last,
            )
            &&& mouse.kind == MouseEventKind::ScrollUp ==> after.cursor == within(
                app.cursor as int,
                -3,
                last,
            )
        }),
{
    reveal(AppModel::with_focus);
    let focused = app.with_focus(Pane::Viewport);
    lemma_moved(focused, 3);
    lemma_moved(focused, -3);
}

/// While something is typed the mouse does nothing, and a click only closes the
/// help.
pub proof fn law_the_mouse_is_kept_out(app: AppModel, mouse: MouseEvent)
    ensures
        app.input is Some && !app.help ==> app.mouse_handled(mouse) == app,
        app.help ==> app.mouse_handled(mouse) == app.with_help(false),
{
}

// ---------------------------------------------------------------------------
// Searches
// ---------------------------------------------------------------------------

/// How many rows lie between `at` and `r` when the rows are walked in one
/// direction, round the end.
pub open spec fn walk(at: int, r: int, forward: bool, n: int) -> int {
    if forward {
        if r > at {
            r - at
        } else {
            r - at + n
        }
    } else {
        if r < at {
            at - r
        } else {
            at - r + n
        }
    }
}

proof fn lemma_walk(at: int, r: int, forward: bool, n: int)
    requires
        0 <= at < n,
        0 <= r < n,
    ensures
        ({
            let next = next_row(at, forward, n);
            &&& 0 <= next < n
            &&& walk(at, next, forward, n) == 1
            &&& r == next || walk(next, r, forward, n) == walk(at, r, forward, n) - 1
            &&& 1 <= walk(at, r, forward, n) <= n
        }),
{
}

proof fn lemma_nearest(
    vm: ViewContents,
    buffer: LogModel,
    pattern: Seq<char>,
    at: int,
    forward: bool,
    left: int,
)
    requires
        0 <= at < vm.rows_len(),
        0 <= left <= vm.rows_len(),
    ensures
        match search_view(vm, buffer, pattern, at, forward, left) {
            Some(r) => 0 <= r < vm.rows_len() && row_matched(vm, buffer, pattern, r) && walk(
                at,
                r,
                forward,
                vm.rows_len(),
            ) <= left && forall|q: int|
                0 <= q < vm.rows_len() && #[trigger] row_matched(vm, buffer, pattern, q) ==> walk(
                    at,
                    r,
                    forward,
                    vm.rows_len(),
                ) <= walk(at, q, forward, vm.rows_len()),
            None => forall|q: int|
                0 <= q < vm.rows_len() && #[trigger] row_matched(vm, buffer, pattern, q) ==> walk(
                    at,
                    q,
                    forward,
                    vm.rows_len(),
                ) > left,
        },
    decreases left,
{
    let n = vm.rows_len();
    if left > 0 {
        let next = next_row(at, forward, n);
        lemma_walk(at, at, forward, n);
        if row_matched(vm, buffer, pattern, next) {
            assert forall|q: int|
                0 <= q < n && #[trigger] row_matched(vm, buffer, pattern, q) implies 1 <= walk(
                at,
                q,
                forward,
                n,
            ) by {
                lemma_walk(at, q, forward, n);
            }
        } else {
            lemma_nearest(vm, buffer, pattern, next, forward, left - 1);
            let found = search_view(vm, buffer, pattern, next, forward, left - 1);
            assert forall|q: int|
                0 <= q < n && #[trigger] row_matched(vm, buffer, pattern, q) implies walk(
                at,
                q,
                forward,
                n,
            ) == walk(next, q, forward, n) + 1 by {
                lemma_walk(at, q, forward, n);
            }
            if found is Some {
                lemma_walk(at, found->0, forward, n);
            }
        }
    } else {
        assert forall|q: int|
            0 <= q < n && #[trigger] row_matched(vm, buffer, pattern, q) implies walk(
            at,
            q,
            forward,
            n,
        ) > 0 by {
            lemma_walk(at, q, forward, n);
        }
    }
}

/// A search goes to the nearest row that matches, in its direction and round the
/// end; the row that it starts from comes last. It finds nothing only where no
/// row matches.
pub proof fn law_a_search_goes_to_the_nearest_match(
    vm: ViewContents,
    buffer: LogModel,
    pattern: Seq<char>,
    at: int,
    forward: bool,
    q: int,
)
    requires
        0 <= at < vm.rows_len(),
        0 <= q < vm.rows_len(),
        row_matched(vm, buffer, pattern, q),
    ensures
        search_view(vm, buffer, pattern, at, forward, vm.rows_len()) matches Some(r) && 0 <= r
            < vm.rows_len() && row_matched(vm, buffer, pattern, r) && walk(
            at,
            r,
            forward,
            vm.rows_len(),
        ) <= walk(at, q, forward, vm.rows_len()),
{
    lemma_nearest(vm, buffer, pattern, at, forward, vm.rows_len());
    lemma_walk(at, q, forward, vm.rows_len());
}

proof fn lemma_nearest_pair(
    sources: Seq<SourceModel>,
    view: DiffView,
    pattern: Seq<char>,
    at: int,
    forward: bool,
    left: int,
)
    requires
        0 <= at < view.rows.len(),
        0 <= left <= view.rows.len(),
    ensures
        match search_diff(sources, view, pattern, at, forward, left) {
            Some(r) => 0 <= r < view.rows.len() && pair_matched(sources, view, pattern, r) && walk(
                at,
                r,
                forward,
                view.rows.len() as int,
            ) <= left && forall|q: int|
                0 <= q < view.rows.len() && #[trigger] pair_matched(sources, view, pattern, q)
                    ==> walk(at, r, forward, view.rows.len() as int) <= walk(
                    at,
                    q,
                    forward,
                    view.rows.len() as int,
                ),
            None => forall|q: int|
                0 <= q < view.rows.len() && #[trigger] pair_matched(sources, view, pattern, q)
                    ==> walk(at, q, forward, view.rows.len() as int) > left,
        },
    decreases left,
{
    let n = view.rows.len() as int;
    if left > 0 {
        let next = next_row(at, forward, n);
        lemma_walk(at, at, forward, n);
        if pair_matched(sources, view, pattern, next) {
            assert forall|q: int|
                0 <= q < n && #[trigger] pair_matched(sources, view, pattern, q) implies 1 <= walk(
                at,
                q,
                forward,
                n,
            ) by {
                lemma_walk(at, q, forward, n);
            }
        } else {
            lemma_nearest_pair(sources, view, pattern, next, forward, left - 1);
            let found = search_diff(sources, view, pattern, next, forward, left - 1);
            assert forall|q: int|
                0 <= q < n && #[trigger] pair_matched(sources, view, pattern, q) implies walk(
                at,
                q,
                forward,
                n,
            ) == walk(next, q, forward, n) + 1 by {
                lemma_walk(at, q, forward, n);
            }
            if found is Some {
                lemma_walk(at, found->0, forward, n);
            }
        }
    } else {
        assert forall|q: int|
            0 <= q < n && #[trigger] pair_matched(sources, view, pattern, q) implies walk(
            at,
            q,
            forward,
            n,
        ) > 0 by {
            lemma_walk(at, q, forward, n);
        }
    }
}

/// In a comparison a search goes to the nearest pair of which either half
/// matches.
pub proof fn law_a_search_in_a_comparison_goes_to_the_nearest_match(
    sources: Seq<SourceModel>,
    view: DiffView,
    pattern: Seq<char>,
    at: int,
    forward: bool,
    q: int,
)
    requires
        0 <= at < view.rows.len(),
        0 <= q < view.rows.len(),
        pair_matched(sources, view, pattern, q),
    ensures
        search_diff(sources, view, pattern, at, forward, view.rows.len() as int) matches Some(r)
            && 0 <= r < view.rows.len() && pair_matched(sources, view, pattern, r) && walk(
            at,
            r,
            forward,
            view.rows.len() as int,
        ) <= walk(at, q, forward, view.rows.len() as int),
{
    lemma_nearest_pair(sources, view, pattern, at, forward, view.rows.len() as int);
    lemma_walk(at, q, forward, view.rows.len() as int);
}

} // verus!
