//! Where things stand on the screen, and the rows of the viewports.

use vstd::prelude::*;
#[allow(unused_imports)]
use vstd::string::*;

use super::bars::push_spaces;
#[allow(unused_imports)]
use super::bars::spaces;
use super::links::{find_links, RowLinks};
#[allow(unused_imports)]
use super::links::{links_of, opt_links, LinksModel};
use super::paint::{paint_line, paint_linked, Class, DefUse};
#[allow(unused_imports)]
use super::paint::{opt_defuse, opt_search, painted, painted_linked, piece_models, pieces};
use crate::app::jumps::push_counted;
#[allow(unused_imports)]
use crate::app::moves::less_one;
use crate::app::output::diff_gutter;
#[allow(unused_imports)]
use crate::app::output::{gutter, pair_node};
use crate::app::views::{info_at_row, node_at};
#[allow(unused_imports)]
use crate::app::views::{info_shown, node_shown};
#[allow(unused_imports)]
use crate::app::{no_rect, AppModel, PaneModel, SourceModel};
use crate::app::{App, Pane, PaneRect, ViewState};
use crate::diff::canon::chars_of;
use crate::diff::{DiffModel, DiffRow, DiffSide};
#[allow(unused_imports)]
use crate::diff::{side::SideModel, DiffView};
use crate::model::{IRNode, NodeId, NodeRef};
#[allow(unused_imports)]
use crate::model::{LineModel, NodeModel};
use crate::pattern::Pattern;
use crate::source::LogBuffer;
#[allow(unused_imports)]
use crate::source::LogModel;
use crate::text;
#[allow(unused_imports)]
use crate::text::decimal;
#[allow(unused_imports)]
use crate::view::ViewContents;
use crate::view::{RowKind, ViewModel, ViewRow};

verus! {

// ---------------------------------------------------------------------------
// Layout
// ---------------------------------------------------------------------------

/// The width of the sidebar: a third of the screen, within bounds.
pub open spec fn sidebar_part(width: u16) -> u16 {
    if width / 3 < 24 {
        24
    } else if width / 3 > 44 {
        44
    } else {
        width / 3
    }
}

/// The width of the sidebar.
pub fn sidebar_width(width: u16) -> (n: u16)
    ensures
        n == sidebar_part(width),
{
    let third: u16 = width / 3;
    if third < 24 {
        24
    } else if third > 44 {
        44
    } else {
        third
    }
}

/// Where the panes of a frame stand.
#[derive(Debug, Clone, Copy, PartialEq, Eq)]
pub struct FrameAreas {
    pub sidebar: PaneRect,
    pub first: PaneRect,
    /// The second viewport, where there are two.
    pub second: Option<PaneRect>,
    /// The pane with the source, where it is open.
    pub source: Option<PaneRect>,
}

/// The first row on the screen, so that row `at` of a list is on it.
pub open spec fn scrolled_to(at: usize, scroll: usize, height: int) -> usize {
    let up = if at < scroll {
        at
    } else {
        scroll
    };
    if height <= 0 {
        scroll
    } else if at >= up + height {
        (at + 1 - height) as usize
    } else {
        up
    }
}

/// A list is scrolled no further than it takes to see the row: the row that
/// it is scrolled to is on the screen.
pub proof fn law_the_row_is_on_the_screen(at: usize, scroll: usize, height: int)
    requires
        height > 0,
    ensures
        scrolled_to(at, scroll, height) <= at < scrolled_to(at, scroll, height) + height,
        scroll <= at < scroll + height ==> scrolled_to(at, scroll, height) == scroll,
{
}

fn scroll_to(at: usize, scroll: usize, height: usize) -> (top: usize)
    ensures
        top == scrolled_to(at, scroll, height as int),
{
    if height == 0 {
        return scroll;
    }
    let up: usize = if at < scroll {
        at
    } else {
        scroll
    };
    if at - up >= height {
        at - height + 1
    } else {
        up
    }
}

/// The place of a viewport within the `len` rows that there are, with the
/// cursor on the screen.
pub open spec fn within(state: ViewState, len: int, height: int) -> ViewState {
    let cursor = (if state.cursor < less_one(len) {
        state.cursor as int
    } else {
        less_one(len)
    }) as usize;
    let top = if state.top >= len {
        0
    } else {
        state.top
    };
    ViewState {
        cursor,
        top: if height > 0 {
            scrolled_to(cursor, top, height)
        } else if cursor < top {
            cursor
        } else {
            top
        },
        ..state
    }
}

/// The cursor of a viewport with rows is one of them, and on the screen.
pub proof fn law_the_cursor_is_on_the_screen(state: ViewState, len: int, height: int)
    requires
        len > 0,
        height > 0,
    ensures
        within(state, len, height).cursor < len,
        within(state, len, height).top <= within(state, len, height).cursor,
        within(state, len, height).cursor < within(state, len, height).top + height,
{
}

/// The first entry of a list on a screen of `height`, with the selected one in
/// view.
pub open spec fn list_top(selected: int, height: int) -> int {
    if selected > less_one(height) {
        selected - less_one(height)
    } else {
        0
    }
}

/// The selected entry of a list is on the screen.
pub proof fn law_the_selected_entry_is_on_the_screen(selected: int, height: int)
    requires
        0 <= selected,
        height > 0,
    ensures
        0 <= list_top(selected, height) <= selected < list_top(selected, height) + height,
{
}

/// The first entry of a list that is on the screen.
pub fn first_entry(selected: usize, height: usize) -> (first: usize)
    ensures
        first == list_top(selected as int, height as int),
{
    let before: usize = if height > 0 {
        height - 1
    } else {
        0
    };
    if selected > before {
        selected - before
    } else {
        0
    }
}

/// The first of `len` lines on a screen of `height` with line `at` in the
/// middle of it, as far as there are lines.
pub open spec fn centred_on(at: int, len: int, height: int) -> int {
    let top = at - height / 2;
    let last = len - height;
    if top > last {
        if last > 0 {
            last
        } else {
            0
        }
    } else if top > 0 {
        top
    } else {
        0
    }
}

/// A line that is centred is on the screen.
pub proof fn law_a_centred_line_is_on_the_screen(at: int, len: int, height: int)
    requires
        0 <= at < len,
        height > 0,
    ensures
        0 <= centred_on(at, len, height) <= at < centred_on(at, len, height) + height,
{
}

/// Where a list starts on the screen so that a line is in the middle.
pub fn centred(at: usize, len: usize, height: usize) -> (top: usize)
    requires
        at < len,
    ensures
        top == centred_on(at as int, len as int, height as int),
{
    let half: usize = height / 2;
    let top: usize = if at > half {
        at - half
    } else {
        0
    };
    let last: usize = if len > height {
        len - height
    } else {
        0
    };
    if top > last {
        last
    } else {
        top
    }
}

/// Brings a viewport within its rows.
pub fn clamp_view(state: ViewState, len: usize, height: usize) -> (out: ViewState)
    ensures
        out == within(state, len as int, height as int),
{
    let last: usize = if len > 0 {
        len - 1
    } else {
        0
    };
    let cursor: usize = if state.cursor < last {
        state.cursor
    } else {
        last
    };
    let top: usize = if state.top >= len {
        0
    } else {
        state.top
    };
    let at: usize = if height > 0 {
        scroll_to(cursor, top, height)
    } else if cursor < top {
        cursor
    } else {
        top
    };
    ViewState { selected: state.selected, cursor, top: at, scroll_x: state.scroll_x }
}

/// The scrollbar of a list: how far down its thumb begins, and how long it is.
/// A list that fits has none.
pub open spec fn thumb_place(scroll: usize, total: usize, height: u16) -> Option<(int, int)> {
    if total <= height || height == 0 {
        None
    } else {
        let len = if height * height / (total as int) > 1 {
            height * height / (total as int)
        } else {
            1
        };
        let room = total - height;
        let at = if scroll < room {
            scroll as int
        } else {
            room
        };
        Some(((height - len) * at / room, len))
    }
}

proof fn lemma_thumb(h: int, total: int, len: int, at: int, room: int)
    requires
        0 < h < total,
        h <= u16::MAX,
        len == (if h * h / total > 1 {
            h * h / total
        } else {
            1
        }),
        room == total - h,
        0 <= at <= room,
    ensures
        0 <= h * h <= u16::MAX * u16::MAX,
        1 <= len <= h,
        0 <= (h - len) * at <= h * room,
        0 <= (h - len) * at / room <= h - len,
{
    assert(0 <= h * h <= u16::MAX * u16::MAX) by (nonlinear_arith)
        requires
            0 < h <= u16::MAX,
    ;
    assert(h * h / total <= h) by (nonlinear_arith)
        requires
            0 < h < total,
    ;
    assert(0 <= (h - len) * at <= h * room) by (nonlinear_arith)
        requires
            1 <= len <= h,
            0 <= at <= room,
    ;
    assert(0 <= (h - len) * at / room <= h - len) by (nonlinear_arith)
        requires
            1 <= len <= h,
            0 <= at <= room,
            room > 0,
    ;
}

/// The scrollbar of a list.
pub fn scrollbar(scroll: usize, total: usize, height: u16) -> (thumb: Option<(u16, u16)>)
    ensures
        match thumb {
            Some((top, len)) => thumb_place(scroll, total, height) == Some((top as int, len as int)),
            None => thumb_place(scroll, total, height) is None,
        },
{
    if total <= height as usize || height == 0 {
        return None;
    }
    let ghost h = height as int;
    let ghost room_ = total - h;
    let ghost len_ = if h * h / (total as int) > 1 {
        h * h / (total as int)
    } else {
        1
    };
    let ghost at_ = if scroll < room_ {
        scroll as int
    } else {
        room_
    };
    proof {
        lemma_thumb(h, total as int, len_, at_, room_);
        assert(h * room_ <= u16::MAX * u64::MAX) by (nonlinear_arith)
            requires
                0 < h <= u16::MAX,
                0 < room_ <= u64::MAX,
        ;
    }
    let share: u64 = height as u64 * height as u64 / total as u64;
    let len: u64 = if share > 1 {
        share
    } else {
        1
    };
    let room: usize = total - height as usize;
    let at: usize = if scroll < room {
        scroll
    } else {
        room
    };
    let top: u128 = (height as u64 - len) as u128 * at as u128 / room as u128;
    Some((top as u16, len as u16))
}

/// Where the help stands: in the middle, not larger than the screen.
pub open spec fn help_place(screen: PaneRect, bindings: int) -> PaneRect {
    let wanted = (bindings + 1) / 2 + 6;
    let most = if screen.height >= 2 {
        screen.height - 2
    } else {
        0
    };
    let height = if wanted < most {
        wanted
    } else {
        most
    };
    let room = if screen.width >= 4 {
        screen.width - 4
    } else {
        0
    };
    let width = if 96 < room {
        96
    } else {
        room
    };
    PaneRect {
        x: (screen.x + (screen.width - width) / 2) as u16,
        y: (screen.y + (screen.height - height) / 2) as u16,
        width: width as u16,
        height: height as u16,
    }
}

/// Where the help stands.
pub fn help_area(screen: &PaneRect, bindings: usize) -> (area: PaneRect)
    requires
        screen.x + screen.width <= u16::MAX,
        screen.y + screen.height <= u16::MAX,
    ensures
        area == help_place(*screen, bindings as int),
{
    let half: usize = bindings / 2 + bindings % 2;
    let most: u16 = if screen.height >= 2 {
        screen.height - 2
    } else {
        0
    };
    let height: u16 = if half < 65536 && half + 6 < most as usize {
        half as u16 + 6
    } else {
        most
    };
    let room: u16 = if screen.width >= 4 {
        screen.width - 4
    } else {
        0
    };
    let width: u16 = if 96 < room {
        96
    } else {
        room
    };
    PaneRect {
        x: screen.x + (screen.width - width) / 2,
        y: screen.y + (screen.height - height) / 2,
        width,
        height,
    }
}

/// How many digits a number has.
pub fn digits(n: usize) -> (width: usize)
    ensures
        width == decimal(n as int).len(),
{
    let s = text::decimal_text(n);
    chars_of(s.as_str()).len()
}

// ---------------------------------------------------------------------------
// A frame begins
// ---------------------------------------------------------------------------

impl AppModel {
    /// The panes stand where they do in this frame. A comparison that lost a
    /// side is over, and a stream that is followed shows its end.
    pub open spec fn frame_begun(self, areas: FrameAreas) -> AppModel {
        let driven = if self.active_pane == 1 {
            match areas.second {
                Some(a) => a,
                None => areas.first,
            }
        } else {
            areas.first
        };
        let height = if self.split is Some {
            less_one(driven.height as int)
        } else {
            driven.height as int
        };
        let placed = self.with_sidebar_height(areas.sidebar.height as usize).with_sidebar_rect(
            areas.sidebar,
        ).with_viewport_rect(areas.first).with_viewport2_rect(
            match areas.second {
                Some(a) => a,
                None => no_rect(),
            },
        ).with_source_rect(
            match areas.source {
                Some(a) => a,
                None => no_rect(),
            },
        ).with_viewport_height(height as usize);
        let noted = placed.diff_noted();
        let checked = if placed.diff && placed.diff_shown() is None {
            noted.with_diff(false)
        } else {
            noted
        };
        if checked.follow && !checked.diff {
            checked.with_cursor(less_one(checked.shown().rows_len()) as usize)
        } else {
            checked
        }
    }

    /// The sidebar is scrolled so that the selection is on the screen.
    pub open spec fn sidebar_scrolled(self, height: usize) -> AppModel {
        self.with_sidebar_scroll(
            scrolled_to(self.selected, self.sidebar_scroll, height as int),
        )
    }
}

impl App {
    /// Takes where the panes of a frame stand.
    pub fn begin_frame(&mut self, areas: FrameAreas)
        requires
            old(self).wf(),
        ensures
            final(self).wf(),
            final(self)@ == old(self)@.frame_begun(areas),
    {
        proof {
            self.lemma_fields();
        }
        let driven: PaneRect = if self.active_pane == 1 {
            match areas.second {
                Some(a) => a,
                None => areas.first,
            }
        } else {
            areas.first
        };
        let height: usize = if self.split.is_some() {
            if driven.height > 0 {
                driven.height as usize - 1
            } else {
                0
            }
        } else {
            driven.height as usize
        };
        self.set_sidebar_height(areas.sidebar.height as usize);
        self.set_sidebar_rect(areas.sidebar);
        self.set_viewport_rect(areas.first);
        self.set_viewport2_rect(
            match areas.second {
                Some(a) => a,
                None => PaneRect::default(),
            },
        );
        self.set_source_rect(
            match areas.source {
                Some(a) => a,
                None => PaneRect::default(),
            },
        );
        self.set_viewport_height(height);
        proof {
            self.lemma_fields();
        }
        let diff: bool = self.diff;
        let lost: bool = self.diff_model().is_none();
        if diff && lost {
            self.set_diff(false);
        }
        proof {
            self.lemma_fields();
        }
        if self.follow && !self.diff {
            let vm = self.view_model();
            let n: usize = vm.len();
            self.set_cursor(
                if n > 0 {
                    n - 1
                } else {
                    0
                },
            );
        }
    }

    /// Scrolls the sidebar so that the selection is on the screen.
    pub fn scroll_sidebar(&mut self, height: usize)
        requires
            old(self).wf(),
        ensures
            final(self).wf(),
            final(self)@ == old(self)@.sidebar_scrolled(height),
    {
        proof {
            self.lemma_fields();
        }
        let top: usize = scroll_to(self.selected, self.sidebar_scroll, height);
        self.set_sidebar_scroll(top);
    }
}

// ---------------------------------------------------------------------------
// The rows of a viewport
// ---------------------------------------------------------------------------

/// A row of a viewport.
#[derive(Debug)]
pub struct PaintedRow {
    /// The mark of a comparison.
    pub mark: &'static str,
    /// The number of the line.
    pub number: String,
    pub parts: Vec<(Class, String)>,
}

/// The view of a `PaintedRow`.
pub struct PaintedModel {
    pub mark: Seq<char>,
    pub number: Seq<char>,
    pub parts: Seq<(Class, Seq<char>)>,
}

impl View for PaintedRow {
    type V = PaintedModel;

    open spec fn view(&self) -> PaintedModel {
        PaintedModel {
            mark: self.mark@,
            number: self.number@,
            parts: piece_models(self.parts@),
        }
    }
}

/// The views of rows.
pub open spec fn painted_models(list: Seq<PaintedRow>) -> Seq<PaintedModel> {
    list.map_values(|r: PaintedRow| r@)
}

/// A line number in its column.
pub open spec fn number_text(line: usize, width: int) -> Seq<char> {
    spaces(width - decimal(line + 1).len()) + decimal(line + 1) + " "@
}

/// The inputs of a node.
pub open spec fn input_ids(inputs: Seq<NodeRef>) -> Seq<NodeId> {
    inputs.map_values(|r: NodeRef| r.node)
}

/// What is painted for a cursor node.
pub open spec fn defuse_of(node: Option<NodeModel>) -> Option<(NodeId, Seq<NodeId>)> {
    match node {
        Some(n) => Some((n.id, input_ids(n.inputs))),
        None => None,
    }
}

/// The parts of a display row.
pub open spec fn row_parts(
    vm: ViewContents,
    at: int,
    buffer: LogModel,
    cursor: Option<(NodeId, Seq<NodeId>)>,
    links: Option<LinksModel>,
    search: Option<Seq<char>>,
    skip: usize,
) -> Seq<(Class, Seq<char>)> {
    let row = vm.row_at(at);
    match row.kind {
        RowKind::BlockFold { block, hidden } => seq![
            (
                Class::BlockHeader,
                "[+] b"@ + decimal(block as int) + " — "@ + decimal(hidden as int)
                    + " lines hidden"@,
            ),
        ],
        RowKind::AnnotationFold { count } => seq![
            (
                Class::Annotation,
                "[+] "@ + decimal(count as int) + " trace line"@ + (if count == 1 {
                    ""@
                } else {
                    "s"@
                }) + " (t to show)"@,
            ),
        ],
        RowKind::Text => {
            let line = buffer.line_chars(row.line as int);
            let info = match info_shown(vm, at) {
                Some((_, _, l)) => Some(l),
                None => None,
            };
            let parsed = match vm {
                ViewContents::Modeled { parsed, .. } => Some(parsed),
                ViewContents::Plain { .. } => None,
            };
            let paint = match links {
                Some(l) => painted_linked(line, info, parsed, l, search),
                None => painted(line, info, parsed, cursor, search),
            };
            pieces(line, paint, skip as int, line.len() as int)
        },
    }
}

/// The links of the row under the cursor of a view.
pub open spec fn cursor_links(vm: ViewContents, at: int) -> Option<LinksModel> {
    links_of(
        match info_shown(vm, at) {
            Some((_, _, l)) => Some(l),
            None => None,
        },
    )
}

/// How wide the column of line numbers of a view is.
pub open spec fn number_width(vm: ViewContents) -> int {
    let n = vm.rows_len();
    let last = if n > 0 {
        vm.row_at(n - 1).line
    } else {
        0
    };
    decimal(last + 1).len() as int
}

impl AppModel {
    /// The rows of a viewport that are on the screen.
    pub open spec fn viewport_parts(
        self,
        vm: ViewContents,
        state: ViewState,
        height: int,
        active: bool,
    ) -> Seq<PaintedModel> {
        let n = vm.rows_len();
        let end = if state.top + height < n {
            state.top + height
        } else {
            n
        };
        let cursor = if active {
            defuse_of(node_shown(vm, state.cursor as int))
        } else {
            None
        };
        let links = if active {
            cursor_links(vm, state.cursor as int)
        } else {
            None
        };
        Seq::new(
            (if state.top < end {
                end - state.top
            } else {
                0
            }) as nat,
            |k: int|
                PaintedModel {
                    mark: ""@,
                    number: number_text(vm.row_at(state.top + k).line, number_width(vm)),
                    parts: row_parts(
                        vm,
                        state.top + k,
                        self.source().buffer,
                        cursor,
                        links,
                        self.search,
                        state.scroll_x,
                    ),
                },
        )
    }

    /// The title of a viewport, where there are two.
    pub open spec fn pane_title(self, selected: usize, active: bool) -> Seq<char> {
        " "@ + self.title_for(selected) + (if active {
            " ●"@
        } else {
            ""@
        }) + " "@
    }
}

fn digits_of_number(line: usize) -> (width: usize)
    ensures
        width == decimal(line + 1).len(),
{
    let mut s = String::new();
    push_counted(&mut s, line);
    assert(s@ =~= decimal(line + 1));
    chars_of(s.as_str()).len()
}

fn write_number(line: usize, width: usize) -> (out: String)
    ensures
        out@ == number_text(line, width as int),
{
    let n: usize = digits_of_number(line);
    let mut out = String::new();
    if width > n {
        push_spaces(&mut out, width - n);
        assert(out@ =~= spaces(width - n));
    } else {
        assert(out@ =~= spaces(width - n));
    }
    push_counted(&mut out, line);
    out.append(" ");
    out
}

fn find_defuse(node: Option<&IRNode>) -> (defuse: Option<DefUse>)
    ensures
        match defuse {
            Some(d) => node matches Some(n) && defuse_of(Some(n@)) == Some((d.node, d.inputs@)),
            None => node is None,
        },
{
    match node {
        Some(n) => {
            let mut inputs: Vec<NodeId> = Vec::new();
            let mut k: usize = 0;
            assert(inputs@ =~= input_ids(n.inputs@).take(0));
            while k < n.inputs.len()
                invariant
                    k <= n.inputs@.len(),
                    inputs@ == input_ids(n.inputs@).take(k as int),
                decreases n.inputs.len() - k,
            {
                inputs.push(n.inputs[k].node);
                assert(inputs@ =~= input_ids(n.inputs@).take(k + 1));
                k += 1;
            }
            assert(inputs@ =~= input_ids(n@.inputs));
            Some(DefUse { node: n.id, inputs })
        },
        None => None,
    }
}

fn search_of(app: &App) -> (search: Option<&Pattern>)
    ensures
        opt_search(search) == app@.search,
{
    proof {
        app.lemma_fields();
    }
    match &app.search {
        Some(p) => Some(p),
        None => None,
    }
}

fn one_part(class: Class, s: String) -> (parts: Vec<(Class, String)>)
    ensures
        piece_models(parts@) == seq![(class, s@)],
{
    let mut parts: Vec<(Class, String)> = Vec::new();
    parts.push((class, s));
    assert(piece_models(parts@) =~= seq![(class, s@)]);
    parts
}

fn paint_row(
    app: &App,
    vm: &ViewModel,
    at: usize,
    row: &ViewRow,
    defuse: Option<&DefUse>,
    links: Option<&RowLinks>,
    skip: usize,
) -> (parts: Vec<(Class, String)>)
    requires
        app.wf(),
        at < vm@.rows_len(),
        *row == vm@.row_at(at as int),
    ensures
        piece_models(parts@) == row_parts(
            vm@,
            at as int,
            app@.source().buffer,
            opt_defuse(defuse),
            opt_links(links),
            app@.search,
            skip,
        ),
{
    proof {
        app.lemma_fields();
    }
    match row.kind {
        RowKind::BlockFold { block, hidden } => {
            let mut out = text::owned("[+] b");
            text::push_decimal(&mut out, block as usize);
            out.append(" — ");
            text::push_decimal(&mut out, hidden);
            out.append(" lines hidden");
            one_part(Class::BlockHeader, out)
        },
        RowKind::AnnotationFold { count } => {
            let mut out = text::owned("[+] ");
            text::push_decimal(&mut out, count);
            out.append(" trace line");
            out.append(
                if count == 1 {
                    ""
                } else {
                    "s"
                },
            );
            out.append(" (t to show)");
            one_part(Class::Annotation, out)
        },
        RowKind::Text => {
            let line = app.active_source().buffer.line_text(row.line);
            let info = match info_at_row(vm, at) {
                Some((_, _, l)) => Some(l),
                None => None,
            };
            let parsed = match vm {
                ViewModel::Modeled { parsed, .. } => Some(&**parsed),
                ViewModel::Plain { .. } => None,
            };
            match links {
                Some(l) => paint_linked(line.as_str(), info, parsed, l, search_of(app), skip),
                None => paint_line(line.as_str(), info, parsed, defuse, search_of(app), skip),
            }
        },
    }
}

fn find_cursor_links(vm: &ViewModel, at: usize) -> (links: Option<RowLinks>)
    ensures
        match links {
            Some(l) => cursor_links(vm@, at as int) == Some(l@),
            None => cursor_links(vm@, at as int) is None,
        },
{
    let info = match info_at_row(vm, at) {
        Some((_, _, l)) => Some(l),
        None => None,
    };
    find_links(info)
}

/// The rows of a viewport that are on the screen.
pub fn viewport_rows(
    app: &App,
    vm: &ViewModel,
    state: &ViewState,
    height: usize,
    active: bool,
) -> (rows: Vec<PaintedRow>)
    requires
        app.wf(),
    ensures
        painted_models(rows@) == app@.viewport_parts(vm@, *state, height as int, active),
{
    let ghost wanted = app@.viewport_parts(vm@, *state, height as int, active);
    let n: usize = vm.len();
    let last: usize = match vm.line_at(
        if n > 0 {
            n - 1
        } else {
            0
        },
    ) {
        Some(line) => line,
        None => 0,
    };
    let width: usize = digits_of_number(last);
    let found: Option<DefUse> = if active {
        find_defuse(node_at(vm, state.cursor))
    } else {
        None
    };
    let defuse: Option<&DefUse> = match &found {
        Some(d) => Some(d),
        None => None,
    };
    let near: Option<RowLinks> = if active {
        find_cursor_links(vm, state.cursor)
    } else {
        None
    };
    let links: Option<&RowLinks> = match &near {
        Some(l) => Some(l),
        None => None,
    };
    let end: usize = if state.top < n && n - state.top > height {
        state.top + height
    } else {
        n
    };
    let mut rows: Vec<PaintedRow> = Vec::new();
    let mut at: usize = state.top;
    assert(painted_models(rows@) =~= wanted.take(0));
    while at < end
        invariant
            app.wf(),
            n == vm@.rows_len(),
            end <= n,
            state.top <= at,
            at <= end || at == state.top,
            end == (if state.top + height < n {
                state.top + height
            } else {
                n as int
            }) || (state.top >= n && end == n),
            width == number_width(vm@),
            opt_defuse(defuse) == (if active {
                defuse_of(node_shown(vm@, state.cursor as int))
            } else {
                None
            }),
            opt_links(links) == (if active {
                cursor_links(vm@, state.cursor as int)
            } else {
                None
            }),
            wanted == app@.viewport_parts(vm@, *state, height as int, active),
            painted_models(rows@) == wanted.take(at - state.top),
        decreases end - at,
    {
        let ghost before = rows@;
        if let Some(row) = vm.row(at) {
            let painted = PaintedRow {
                mark: "",
                number: write_number(row.line, width),
                parts: paint_row(app, vm, at, &row, defuse, links, state.scroll_x),
            };
            rows.push(painted);
        }
        assert(painted_models(rows@) =~= painted_models(before).push(wanted[at - state.top]));
        assert(painted_models(rows@) =~= wanted.take(at + 1 - state.top));
        at += 1;
    }
    assert(painted_models(rows@) =~= wanted);
    rows
}

/// The title of a viewport.
pub fn pane_title(app: &App, selected: usize, active: bool) -> (title: String)
    requires
        app.wf(),
    ensures
        title@ == app@.pane_title(selected, active),
{
    let mut out = text::owned(" ");
    out.append(app.view_title_for(selected).as_str());
    out.append(
        if active {
            " ●"
        } else {
            ""
        },
    );
    out.append(" ");
    out
}

// ---------------------------------------------------------------------------
// The rows of a comparison
// ---------------------------------------------------------------------------

/// Dots where one side has no row.
pub open spec fn dots(n: int) -> Seq<char> {
    Seq::new(
        (if n > 0 {
            n
        } else {
            0
        }) as nat,
        |i: int| '·',
    )
}

/// The class of a row of one side.
pub open spec fn side_info(side: SideModel, row: ViewRow) -> Option<LineModel> {
    match row.info {
        Some((p, i)) => if p < side.parsed.phases.len() && i
            < side.parsed.phases[p as int].infos.len() {
            Some(side.parsed.phases[p as int].infos[i as int])
        } else {
            None
        },
        None => None,
    }
}

/// The buffer that the rows of a side come from; an empty one where there is
/// none.
pub open spec fn side_buffer(sources: Seq<SourceModel>, side: SideModel) -> LogModel {
    sources[side.source].buffer
}

impl AppModel {
    /// One half of an aligned row.
    pub open spec fn half_parts(
        self,
        side: SideModel,
        row: DiffRow,
        half: Option<usize>,
        cursor: Option<(NodeId, Seq<NodeId>)>,
        width: int,
    ) -> PaintedModel {
        let buffer = side_buffer(self.sources, side);
        match half {
            Some(k) => if k < side.rows.len() {
                let line = buffer.line_chars(side.rows[k as int].line as int);
                PaintedModel {
                    mark: gutter(row.status),
                    number: number_text(
                        side.rows[k as int].line,
                        decimal(
                            if buffer.starts.len() > 1 {
                                buffer.starts.len() as int
                            } else {
                                1
                            },
                        ).len() as int,
                    ),
                    parts: pieces(
                        line,
                        painted(
                            line,
                            side_info(side, side.rows[k as int]),
                            Some(side.parsed),
                            cursor,
                            self.search,
                        ),
                        self.scroll_x as int,
                        line.len() as int,
                    ),
                }
            } else {
                blank_half(row, width)
            },
            None => blank_half(row, width),
        }
    }

    /// The rows of one side of a comparison that are on the screen.
    pub open spec fn diff_side_parts(
        self,
        view: DiffView,
        pane: usize,
        height: int,
        width: int,
    ) -> Seq<PaintedModel> {
        let n = view.rows.len() as int;
        let end = if self.top + height < n {
            self.top + height
        } else {
            n
        };
        let side = if pane == 0 {
            view.left
        } else {
            view.right
        };
        let cursor = defuse_of(pair_node(view, self.cursor as int, pane));
        Seq::new(
            (if self.top < end {
                end - self.top
            } else {
                0
            }) as nat,
            |k: int|
                self.half_parts(
                    side,
                    view.rows[self.top + k],
                    if pane == 0 {
                        view.rows[self.top + k].left
                    } else {
                        view.rows[self.top + k].right
                    },
                    cursor,
                    width,
                ),
        )
    }

    /// The cursor of a comparison is one of its rows and on the screen of both
    /// sides.
    pub open spec fn diff_clamped(self, len: int, height: int) -> AppModel {
        self.with_view(within(self.view_state(), len, height))
    }

    /// The cursor of a viewport is one of its rows and on the screen.
    pub open spec fn viewport_clamped(self, active: bool, len: int, height: int) -> AppModel {
        if active {
            self.with_view(within(self.view_state(), len, height))
        } else {
            self.with_other_view(within(self.other_view, len, height))
        }
    }

    /// The line that the source pane marks: its cursor where it has the focus,
    /// otherwise the line that the row under the cursor comes from.
    pub open spec fn source_mark(self) -> Option<int> {
        match self.source_pane {
            Some(pane) => if self.focus == Pane::Source {
                Some(pane.cursor as int)
            } else {
                self.aligned_line()
            },
            None => None,
        }
    }

    /// The cursor of the source pane is one of its lines and on the screen.
    /// Without the focus, the line that the row under the cursor comes from is
    /// in the middle.
    pub open spec fn source_clamped(self, height: int) -> AppModel {
        match self.source_pane {
            Some(pane) => {
                let len = pane.lines.len() as int;
                let state = within(pane_place(pane), len, height);
                self.with_source_pane(
                    Some(
                        PaneModel {
                            cursor: state.cursor,
                            top: match self.aligned_line() {
                                Some(line) => if self.focus != Pane::Source && line < len {
                                    centred_on(line, len, height) as usize
                                } else {
                                    state.top
                                },
                                None => state.top,
                            },
                            ..pane
                        },
                    ),
                )
            },
            None => self,
        }
    }
}

/// Where the source pane is.
pub open spec fn pane_place(pane: PaneModel) -> ViewState {
    ViewState { selected: 0, cursor: pane.cursor, top: pane.top, scroll_x: 0 }
}

/// Half of an aligned row that one side does not have.
pub open spec fn blank_half(row: DiffRow, width: int) -> PaintedModel {
    PaintedModel {
        mark: gutter(row.status),
        number: ""@,
        parts: seq![(Class::Dim, dots(width))],
    }
}

fn write_dots(n: usize) -> (out: String)
    ensures
        out@ == dots(n as int),
{
    let mut out = String::new();
    let mut k: usize = 0;
    assert(out@ =~= dots(0));
    while k < n
        invariant
            k <= n,
            out@ == dots(k as int),
        decreases n - k,
    {
        out.push('·');
        assert(out@ =~= dots(k + 1));
        k += 1;
    }
    out
}

fn paint_half(
    app: &App,
    buffer: &LogBuffer,
    side: &DiffSide,
    row: DiffRow,
    half: Option<usize>,
    defuse: Option<&DefUse>,
    width: usize,
) -> (painted: PaintedRow)
    requires
        app.wf(),
        buffer.wf(),
        buffer@ == side_buffer(app@.sources, side@),
    ensures
        painted@ == app@.half_parts(side@, row, half, opt_defuse(defuse), width as int),
{
    proof {
        app.lemma_fields();
    }
    if let Some(k) = half {
        if k < side.rows.len() {
            let r: ViewRow = side.rows[k];
            let line = buffer.line_text(r.line);
            let info = match r.info {
                Some((p, i)) => {
                    assert((*side.parsed)@.phases.len() == side.parsed.phases@.len());
                    if p < side.parsed.phases.len() {
                        assert((*side.parsed)@.phases[p as int] == side.parsed.phases@[p as int]@);
                        let infos = &side.parsed.phases[p].infos;
                        if i < infos.len() {
                            assert((*side.parsed)@.phases[p as int].infos[i as int]
                                == infos@[i as int]@);
                            Some(&infos[i])
                        } else {
                            None
                        }
                    } else {
                        None
                    }
                },
                None => None,
            };
            let count: usize = buffer.line_count();
            let digits: usize = digits(
                if count > 1 {
                    count
                } else {
                    1
                },
            );
            return PaintedRow {
                mark: diff_gutter(&row.status),
                number: write_number(r.line, digits),
                parts: paint_line(
                    line.as_str(),
                    info,
                    Some(&*side.parsed),
                    defuse,
                    search_of(app),
                    app.scroll_x,
                ),
            };
        }
    }
    PaintedRow {
        mark: diff_gutter(&row.status),
        number: text::owned(""),
        parts: one_part(Class::Dim, write_dots(width)),
    }
}

/// The rows of one side of a comparison that are on the screen.
pub fn diff_rows(app: &App, model: &DiffModel, pane: usize, height: usize, width: usize) -> (rows:
    Vec<PaintedRow>)
    requires
        app.wf(),
        (if pane == 0 {
            model@.left
        } else {
            model@.right
        }).source < app@.sources.len(),
    ensures
        painted_models(rows@) == app@.diff_side_parts(
            model@,
            pane,
            height as int,
            width as int,
        ),
{
    proof {
        app.lemma_fields();
    }
    let ghost wanted = app@.diff_side_parts(model@, pane, height as int, width as int);
    let side = if pane == 0 {
        &model.left
    } else {
        &model.right
    };
    let buffer = &app.source_at(side.source).buffer;
    let found = find_defuse(app.diff_cursor_node(model, pane));
    let defuse: Option<&DefUse> = match &found {
        Some(d) => Some(d),
        None => None,
    };
    let n: usize = model.rows.len();
    let top: usize = app.top;
    let end: usize = if top < n && n - top > height {
        top + height
    } else {
        n
    };
    let mut rows: Vec<PaintedRow> = Vec::new();
    let mut at: usize = top;
    assert(painted_models(rows@) =~= wanted.take(0));
    while at < end
        invariant
            app.wf(),
            buffer.wf(),
            top == app@.top,
            n == model.rows@.len(),
            end <= n,
            top <= at,
            at <= end || at == top,
            end == (if top + height < n {
                top + height
            } else {
                n as int
            }) || (top >= n && end == n),
            side@ == (if pane == 0 {
                model@.left
            } else {
                model@.right
            }),
            buffer@ == side_buffer(app@.sources, side@),
            opt_defuse(defuse) == defuse_of(
                pair_node(model@, app@.cursor as int, pane),
            ),
            wanted == app@.diff_side_parts(model@, pane, height as int, width as int),
            painted_models(rows@) == wanted.take(at - top),
        decreases end - at,
    {
        let ghost before = rows@;
        let row: DiffRow = model.rows[at];
        let half: Option<usize> = if pane == 0 {
            row.left
        } else {
            row.right
        };
        rows.push(paint_half(app, buffer, side, row, half, defuse, width));
        assert(painted_models(rows@) =~= painted_models(before).push(wanted[at - top]));
        assert(painted_models(rows@) =~= wanted.take(at + 1 - top));
        at += 1;
    }
    assert(painted_models(rows@) =~= wanted);
    rows
}

impl App {
    /// Brings the cursor of a comparison within its rows.
    pub fn clamp_diff(&mut self, len: usize, height: usize)
        requires
            old(self).wf(),
        ensures
            final(self).wf(),
            final(self)@ == old(self)@.diff_clamped(len as int, height as int),
    {
        let state = clamp_view(self.view_state(), len, height);
        self.set_view_state(state);
    }

    /// Brings the cursor of the active or of the other viewport within its
    /// rows, and says where that viewport is now.
    pub fn clamp_viewport(&mut self, active: bool, len: usize, height: usize) -> (state: ViewState)
        requires
            old(self).wf(),
        ensures
            final(self).wf(),
            final(self)@ == old(self)@.viewport_clamped(active, len as int, height as int),
            state == within(
                if active {
                    old(self)@.view_state()
                } else {
                    old(self)@.other_view
                },
                len as int,
                height as int,
            ),
    {
        proof {
            self.lemma_fields();
        }
        if active {
            let state = clamp_view(self.view_state(), len, height);
            self.set_view_state(state);
            state
        } else {
            let state = clamp_view(self.other_view, len, height);
            self.set_other_view(state);
            state
        }
    }

    /// The line that the source pane marks.
    pub fn source_mark(&mut self) -> (line: Option<usize>)
        requires
            old(self).wf(),
        ensures
            final(self).wf(),
            final(self)@ == old(self)@,
            text::pos(line) == old(self)@.source_mark(),
    {
        proof {
            self.lemma_fields();
        }
        match &self.source_pane {
            Some(pane) => {
                if self.focus == Pane::Source {
                    return Some(pane.cursor);
                }
            },
            None => {
                return None;
            },
        }
        self.aligned_line()
    }

    /// Brings the cursor of the source pane within its lines, and what it
    /// follows to the middle of it.
    pub fn clamp_source(&mut self, height: usize)
        requires
            old(self).wf(),
        ensures
            final(self).wf(),
            final(self)@ == old(self)@.source_clamped(height as int),
    {
        let ghost before = self@;
        let aligned = self.aligned_line();
        proof {
            self.lemma_fields();
        }
        let focused: bool = self.focus == Pane::Source;
        let (len, state): (usize, ViewState) = match &self.source_pane {
            Some(pane) => {
                assert(pane@.lines.len() == pane.lines@.len());
                let state = ViewState {
                    selected: 0,
                    cursor: pane.cursor,
                    top: pane.top,
                    scroll_x: 0,
                };
                (pane.lines.len(), clamp_view(state, pane.lines.len(), height))
            },
            None => {
                return;
            },
        };
        let top: usize = match aligned {
            Some(line) => if !focused && line < len {
                centred(line, len, height)
            } else {
                state.top
            },
            None => state.top,
        };
        self.set_pane_place(top, state.cursor);
    }
}

} // verus!
