//! What keys and the mouse do.

use vstd::prelude::*;
#[allow(unused_imports)]
use vstd::string::*;

#[allow(unused_imports)]
use super::moves::less_one;
#[allow(unused_imports)]
use super::{rect_contains, AppModel, InputModel, PaneModel};
use super::{App, Pane, Prompt, SplitDir};
use crate::config::Action;
#[allow(unused_imports)]
use crate::config::{bound, chord_texts, event_chord};
use crate::event::{Event, InputEvent};
use crate::keys::{KeyEvent, KeyEventKind, MouseButton, MouseEvent, MouseEventKind};
use crate::text;

verus! {

impl AppModel {
    /// One step back: out of the pane that has the focus, and in the end out
    /// of the program.
    pub open spec fn backed_out(self) -> AppModel {
        match self.focus {
            Pane::Source => self.with_focus(Pane::Viewport),
            Pane::Viewport => self.with_focus(Pane::Sidebar),
            Pane::Sidebar => self.with_quit(true),
        }
    }

    /// The focus goes to the right.
    pub open spec fn focused_right(self) -> AppModel {
        if self.focus == Pane::Viewport && self.source_pane is Some {
            self.with_focus(Pane::Source).source_synced()
        } else {
            self.with_focus(Pane::Viewport)
        }
    }

    /// The next source is shown.
    pub open spec fn next_source(self) -> AppModel {
        if self.sources.len() > 1 {
            self.with_active(((self.active + 1) % (self.sources.len() as int)) as usize)
                .with_selected(0).with_sidebar_scroll(0).view_reset()
        } else {
            self
        }
    }

    /// The row is chosen.
    pub open spec fn chosen(self) -> AppModel {
        match self.focus {
            Pane::Viewport => self.at_target(),
            Pane::Source => self.source_entered(),
            Pane::Sidebar => self.row_toggled(),
        }
    }

    /// The sidebar groups by function, or does not any more. A stream is not
    /// followed any more.
    pub open spec fn grouping_toggled(self) -> AppModel {
        self.with_grouped(!self.grouped).with_selected(0).with_sidebar_scroll(0).with_follow(
            false,
        ).say(
            "sidebar: "@ + (if !self.grouped {
                "grouped by function"@
            } else {
                "chronological"@
            }),
        )
    }

    /// Long lines are wrapped, or not any more.
    pub open spec fn wrap_toggled(self) -> AppModel {
        self.with_wrap(!self.wrap).with_scroll_x(0).say(
            "wrap "@ + (if !self.wrap {
                "on"@
            } else {
                "off"@
            }),
        )
    }

    /// The stream is followed, or not any more.
    pub open spec fn follow_toggled(self) -> AppModel {
        if self.follow {
            self.with_follow(false).say("follow off"@)
        } else {
            let on = self.with_follow(true);
            on.diff_noted().with_cursor(less_one(on.viewport_rows()) as usize).say("follow on"@)
        }
    }

    /// Annotations are shown, or not any more.
    pub open spec fn annotations_toggled(self) -> AppModel {
        self.with_show_annotations(!self.show_annotations).say(
            "annotations "@ + (if !self.show_annotations {
                "inline"@
            } else {
                "folded"@
            }),
        )
    }

    /// The input line is open.
    pub open spec fn asked(self, prompt: Prompt, buffer: Seq<char>) -> AppModel {
        self.with_input(Some(InputModel { prompt, buffer }))
    }

    /// The other pane has the focus.
    pub open spec fn other_focused(self) -> AppModel {
        if self.source_pane is Some {
            if self.focus == Pane::Source {
                self.with_focus(Pane::Viewport)
            } else {
                self.with_focus(Pane::Source).source_synced()
            }
        } else if self.split is Some {
            self.pane_activated(
                if self.active_pane == 0 {
                    1
                } else {
                    0
                },
            ).with_focus(Pane::Viewport)
        } else {
            self.say("no split — v or s opens one"@)
        }
    }

    /// What brings a hidden sidebar back.
    pub open spec fn sidebar_hint(self) -> Seq<char> {
        let list = chord_texts(self.keys, Action::ToggleSidebar, self.keys.len() as int);
        if list.len() > 0 {
            list[0]
        } else {
            "toggle-sidebar"@
        }
    }

    /// The sidebar is shown, or hidden.
    pub open spec fn sidebar_toggled(self) -> AppModel {
        if !self.sidebar_visible {
            self.with_sidebar_visible(true).say("sidebar shown"@)
        } else {
            let hidden = self.with_sidebar_visible(false);
            (if self.focus == Pane::Sidebar {
                hidden.with_focus(Pane::Viewport)
            } else {
                hidden
            }).say("sidebar hidden ("@ + self.sidebar_hint() + " or h shows it)"@)
        }
    }

    /// What an action does.
    pub open spec fn acted(self, action: Action) -> AppModel {
        match action {
            Action::Quit => self.with_quit(true),
            Action::Back => self.backed_out(),
            Action::Help => self.with_help(true),
            Action::FocusSidebar => self.with_sidebar_visible(true).with_focus(Pane::Sidebar),
            Action::FocusViewport => self.focused_right(),
            Action::NextSource => self.next_source(),
            Action::Select => self.chosen(),
            Action::ToggleGrouping => self.grouping_toggled(),
            Action::ToggleWrap => self.wrap_toggled(),
            Action::ToggleFollow => self.follow_toggled(),
            Action::ScrollLeft => self.with_scroll_x(
                (if self.scroll_x >= 8 {
                    self.scroll_x - 8
                } else {
                    0
                }) as usize,
            ),
            Action::ScrollRight => self.with_scroll_x(
                (if self.scroll_x + 8 <= usize::MAX {
                    self.scroll_x + 8
                } else {
                    usize::MAX as int
                }) as usize,
            ),
            Action::Up => self.moved_by(-1),
            Action::Down => self.moved_by(1),
            Action::HalfPageDown => self.moved_by(self.half_page()),
            Action::HalfPageUp => self.moved_by(-self.half_page()),
            Action::PageDown => self.moved_by(self.page()),
            Action::PageUp => self.moved_by(-self.page()),
            Action::Top => self.at_top(),
            Action::Bottom => self.at_bottom(),
            Action::FoldBlock => self.block_toggled(),
            Action::ToggleAnnotations => self.annotations_toggled(),
            Action::Search => self.asked(Prompt::Search, Seq::empty()),
            Action::Filter => self.asked(
                Prompt::Filter,
                match self.sidebar_filter {
                    Some(p) => p,
                    None => Seq::empty(),
                },
            ),
            Action::SearchNext => self.searched(true),
            Action::SearchPrev => self.searched(false),
            Action::JumpToInput => self.at_input(),
            Action::CycleConsumers => self.at_consumer(),
            Action::JumpBack => self.history_stepped(false),
            Action::JumpForward => self.history_stepped(true),
            Action::Yank => self.line_yanked(),
            Action::YankSection => self.section_yanked(),
            Action::Export => self.asked(Prompt::Export, Seq::empty()),
            Action::CommandPalette => self.asked(Prompt::Command, Seq::empty()),
            Action::ToggleTimeline => self.timeline_toggled(),
            Action::SplitVertical => self.split_toggled(SplitDir::Vertical),
            Action::SplitHorizontal => self.split_toggled(SplitDir::Horizontal),
            Action::OtherPane => self.other_focused(),
            Action::Diff => self.diff_toggled(),
            Action::FoldAllBlocks => self.blocks_toggled(),
            Action::PrevBlock => self.block_stepped(false),
            Action::NextBlock => self.block_stepped(true),
            Action::ToggleSidebar => self.sidebar_toggled(),
            Action::ToggleSourcePane => self.source_pane_toggled(),
            Action::InliningPanel => self.panel_toggled(),
            Action::DualDiff => self.dual_toggled(),
        }
    }

    /// What a key does. The release of a key does nothing; the input line,
    /// the help and the panel come before the bindings.
    pub open spec fn key_handled(self, key: KeyEvent) -> AppModel {
        let action = bound(self.keys, event_chord(key), 0);
        if key.kind == KeyEventKind::Release {
            self
        } else if self.input is Some {
            self.input_key(key)
        } else if self.help {
            self.with_help(false)
        } else {
            match self.inline_panel {
                Some(at) => self.panel_key(at, action),
                None => match action {
                    Some(a) => self.acted(a),
                    None => self,
                },
            }
        }
    }
}

impl App {
    fn back_out(&mut self)
        requires
            old(self).wf(),
        ensures
            final(self).wf(),
            final(self)@ == old(self)@.backed_out(),
    {
        proof {
            self.lemma_fields();
        }
        match self.focus {
            Pane::Source => {
                self.set_focus(Pane::Viewport);
            },
            Pane::Viewport => {
                self.set_focus(Pane::Sidebar);
            },
            Pane::Sidebar => {
                self.set_quit(true);
            },
        }
    }

    fn focus_right(&mut self)
        requires
            old(self).wf(),
        ensures
            final(self).wf(),
            final(self)@ == old(self)@.focused_right(),
    {
        proof {
            self.lemma_fields();
        }
        if self.focus == Pane::Viewport && self.source_pane.is_some() {
            self.set_focus(Pane::Source);
            self.sync_source_cursor();
        } else {
            self.set_focus(Pane::Viewport);
        }
    }

    fn show_next_source(&mut self)
        requires
            old(self).wf(),
        ensures
            final(self).wf(),
            final(self)@ == old(self)@.next_source(),
    {
        proof {
            self.lemma_fields();
            self.lemma_wf();
        }
        let n: usize = self.source_count();
        if n > 1 {
            let next: usize = if self.active + 1 < n {
                self.active + 1
            } else {
                0
            };
            proof {
                let a = self@.active as int;
                if a + 1 < n {
                    assert((a + 1) % (n as int) == a + 1) by (nonlinear_arith)
                        requires
                            0 <= a,
                            a + 1 < n,
                    ;
                } else {
                    assert((a + 1) % (n as int) == 0) by (nonlinear_arith)
                        requires
                            a + 1 == n,
                            n > 1,
                    ;
                }
            }
            self.set_active(next);
            self.set_selected(0);
            self.set_sidebar_scroll(0);
            self.reset_view();
        }
    }

    fn select(&mut self)
        requires
            old(self).wf(),
        ensures
            final(self).wf(),
            final(self)@ == old(self)@.chosen(),
    {
        proof {
            self.lemma_fields();
        }
        match self.focus {
            Pane::Viewport => {
                self.follow_targets();
            },
            Pane::Source => {
                self.source_enter();
            },
            Pane::Sidebar => {
                self.toggle_expand();
            },
        }
    }

    fn toggle_grouping(&mut self)
        requires
            old(self).wf(),
        ensures
            final(self).wf(),
            final(self)@ == old(self)@.grouping_toggled(),
    {
        proof {
            self.lemma_fields();
        }
        let grouped: bool = !self.grouped;
        self.set_grouped(grouped);
        self.set_selected(0);
        self.set_sidebar_scroll(0);
        self.set_follow(false);
        let mut message = text::owned("sidebar: ");
        message.append(
            if grouped {
                "grouped by function"
            } else {
                "chronological"
            },
        );
        self.say_text(message);
    }

    fn toggle_wrap(&mut self)
        requires
            old(self).wf(),
        ensures
            final(self).wf(),
            final(self)@ == old(self)@.wrap_toggled(),
    {
        proof {
            self.lemma_fields();
        }
        let wrap: bool = !self.wrap;
        self.set_wrap(wrap);
        self.set_scroll_x(0);
        let mut message = text::owned("wrap ");
        message.append(
            if wrap {
                "on"
            } else {
                "off"
            },
        );
        self.say_text(message);
    }

    fn toggle_follow(&mut self)
        requires
            old(self).wf(),
        ensures
            final(self).wf(),
            final(self)@ == old(self)@.follow_toggled(),
    {
        proof {
            self.lemma_fields();
        }
        if self.follow {
            self.set_follow(false);
            self.say("follow off");
        } else {
            self.set_follow(true);
            let n: usize = self.viewport_len();
            let last: usize = if n > 0 {
                n - 1
            } else {
                0
            };
            self.set_cursor(last);
            self.say("follow on");
        }
    }

    fn toggle_annotations(&mut self)
        requires
            old(self).wf(),
        ensures
            final(self).wf(),
            final(self)@ == old(self)@.annotations_toggled(),
    {
        proof {
            self.lemma_fields();
        }
        let show: bool = !self.show_annotations;
        self.set_show_annotations(show);
        let mut message = text::owned("annotations ");
        message.append(
            if show {
                "inline"
            } else {
                "folded"
            },
        );
        self.say_text(message);
    }

    fn ask_for_filter(&mut self)
        requires
            old(self).wf(),
        ensures
            final(self).wf(),
            final(self)@ == old(self)@.asked(
                Prompt::Filter,
                match old(self)@.sidebar_filter {
                    Some(p) => p,
                    None => Seq::empty(),
                },
            ),
    {
        proof {
            self.lemma_fields();
        }
        let buffer: String = match &self.sidebar_filter {
            Some(p) => text::owned(p.as_str()),
            None => String::new(),
        };
        self.ask(Prompt::Filter, buffer);
    }

    fn focus_other(&mut self)
        requires
            old(self).wf(),
        ensures
            final(self).wf(),
            final(self)@ == old(self)@.other_focused(),
    {
        proof {
            self.lemma_fields();
        }
        if self.source_pane.is_some() {
            if self.focus == Pane::Source {
                self.set_focus(Pane::Viewport);
            } else {
                self.set_focus(Pane::Source);
                self.sync_source_cursor();
            }
        } else if self.split.is_some() {
            let pane: usize = if self.active_pane == 0 {
                1
            } else {
                0
            };
            self.activate_pane(pane);
            self.set_focus(Pane::Viewport);
        } else {
            self.say("no split — v or s opens one");
        }
    }

    /// Shows or hides the sidebar.
    fn toggle_sidebar(&mut self)
        requires
            old(self).wf(),
        ensures
            final(self).wf(),
            final(self)@ == old(self)@.sidebar_toggled(),
    {
        proof {
            self.lemma_fields();
        }
        if !self.sidebar_visible {
            self.set_sidebar_visible(true);
            self.say("sidebar shown");
            return ;
        }
        let mut message = text::owned("sidebar hidden (");
        match self.keys.chord_hint(Action::ToggleSidebar) {
            Some(hint) => {
                message.append(hint.as_str());
            },
            None => {
                message.append("toggle-sidebar");
            },
        }
        message.append(" or h shows it)");
        let left: bool = self.focus == Pane::Sidebar;
        self.set_sidebar_visible(false);
        if left {
            self.set_focus(Pane::Viewport);
        }
        self.say_text(message);
    }

    fn scroll_sideways(&mut self, right: bool)
        requires
            old(self).wf(),
        ensures
            final(self).wf(),
            final(self)@ == old(self)@.acted(
                if right {
                    Action::ScrollRight
                } else {
                    Action::ScrollLeft
                },
            ),
    {
        proof {
            self.lemma_fields();
        }
        let at: usize = self.scroll_x;
        let next: usize = if right {
            if at <= usize::MAX - 8 {
                at + 8
            } else {
                usize::MAX
            }
        } else if at >= 8 {
            at - 8
        } else {
            0
        };
        self.set_scroll_x(next);
    }

    /// Carries out an action.
    fn act(&mut self, action: Action)
        requires
            old(self).wf(),
        ensures
            final(self).wf(),
            final(self)@ == old(self)@.acted(action),
    {
        match action {
            Action::Quit => self.set_quit(true),
            Action::Back => self.back_out(),
            Action::Help => self.set_help(true),
            Action::FocusSidebar => {
                self.set_sidebar_visible(true);
                self.set_focus(Pane::Sidebar);
            },
            Action::FocusViewport => self.focus_right(),
            Action::NextSource => self.show_next_source(),
            Action::Select => self.select(),
            Action::ToggleGrouping => self.toggle_grouping(),
            Action::ToggleWrap => self.toggle_wrap(),
            Action::ToggleFollow => self.toggle_follow(),
            Action::ScrollLeft => self.scroll_sideways(false),
            Action::ScrollRight => self.scroll_sideways(true),
            Action::Up => self.move_by(-1),
            Action::Down => self.move_by(1),
            Action::HalfPageDown => {
                let n: i128 = self.half_page();
                self.move_by(n);
            },
            Action::HalfPageUp => {
                let n: i128 = self.half_page();
                self.move_by(-n);
            },
            Action::PageDown => {
                let n: i128 = self.page();
                self.move_by(n);
            },
            Action::PageUp => {
                let n: i128 = self.page();
                self.move_by(-n);
            },
            Action::Top => self.jump_top(),
            Action::Bottom => self.jump_bottom(),
            Action::FoldBlock => self.fold_block(),
            Action::ToggleAnnotations => self.toggle_annotations(),
            Action::Search => self.ask(Prompt::Search, String::new()),
            Action::Filter => self.ask_for_filter(),
            Action::SearchNext => self.search_step(true),
            Action::SearchPrev => self.search_step(false),
            Action::JumpToInput => self.jump_to_input(),
            Action::CycleConsumers => self.cycle_consumers(),
            Action::JumpBack => self.history_step(false),
            Action::JumpForward => self.history_step(true),
            Action::Yank => self.yank_line(),
            Action::YankSection => self.yank_section(),
            Action::Export => self.ask(Prompt::Export, String::new()),
            Action::CommandPalette => self.ask(Prompt::Command, String::new()),
            Action::ToggleTimeline => self.toggle_timeline(),
            Action::SplitVertical => self.toggle_split(SplitDir::Vertical),
            Action::SplitHorizontal => self.toggle_split(SplitDir::Horizontal),
            Action::OtherPane => self.focus_other(),
            Action::Diff => self.toggle_diff(),
            Action::FoldAllBlocks => self.fold_all_blocks(),
            Action::PrevBlock => self.step_block(false),
            Action::NextBlock => self.step_block(true),
            Action::ToggleSidebar => self.toggle_sidebar(),
            Action::ToggleSourcePane => self.toggle_source_pane(),
            Action::InliningPanel => self.toggle_inline_panel(),
            Action::DualDiff => self.dual_diff_run(),
        }
    }

    /// Handles a key.
    pub fn handle_key(&mut self, key: &KeyEvent)
        requires
            old(self).wf(),
        ensures
            final(self).wf(),
            final(self)@ == old(self)@.key_handled(*key),
    {
        proof {
            self.lemma_fields();
        }
        if key.kind == KeyEventKind::Release {
            return ;
        }
        if self.input.is_some() {
            self.handle_input_key(key);
            return ;
        }
        if self.help {
            self.set_help(false);
            return ;
        }
        let action: Option<Action> = self.keys.lookup(key);
        match self.inline_panel {
            Some(at) => {
                self.handle_panel_key(at, action);
            },
            None => {
                if let Some(a) = action {
                    self.act(a);
                }
            },
        }
    }
}

// ---------------------------------------------------------------------------
// The mouse
// ---------------------------------------------------------------------------

/// A place `offset` rows below `top`, not behind the last of `n` rows.
pub open spec fn row_below(top: usize, offset: int, n: int) -> usize {
    (if top + offset < n - 1 {
        top + offset
    } else {
        n - 1
    }) as usize
}

fn find_row_below(top: usize, offset: u16, n: usize) -> (row: usize)
    requires
        n > 0,
    ensures
        row == row_below(top, offset as int, n as int),
        row < n,
{
    let wanted: u128 = top as u128 + offset as u128;
    if wanted < (n - 1) as u128 {
        wanted as usize
    } else {
        n - 1
    }
}

/// One less, where there is less.
pub open spec fn below_title(offset: int) -> int {
    if offset > 0 {
        offset - 1
    } else {
        0
    }
}

impl AppModel {
    /// The pane at a place of the screen, with which viewport it is.
    pub open spec fn pane_at(self, x: u16, y: u16) -> Option<(Pane, usize)> {
        if rect_contains(self.sidebar_rect, x, y) {
            Some((Pane::Sidebar, 0usize))
        } else if rect_contains(self.viewport_rect, x, y) {
            Some((Pane::Viewport, 0usize))
        } else if self.source_pane is Some && rect_contains(self.source_rect, x, y) {
            Some((Pane::Source, 0usize))
        } else if rect_contains(self.viewport2_rect, x, y) {
            Some((Pane::Viewport, 1usize))
        } else {
            None
        }
    }

    /// The wheel was turned over a pane.
    pub open spec fn wheeled(self, pane: Pane, viewport: usize, up: bool) -> AppModel {
        if pane == Pane::Sidebar && !self.sidebar_visible {
            self
        } else {
            let focused = self.with_focus(pane);
            (if pane == Pane::Viewport {
                focused.pane_activated(viewport)
            } else {
                focused
            }).moved_by(
                if up {
                    -3
                } else {
                    3
                },
            )
        }
    }

    /// The sidebar was clicked. A click on what is left of a hidden one brings
    /// it back.
    pub open spec fn sidebar_clicked(self, y: u16) -> AppModel {
        if !self.sidebar_visible {
            self.with_sidebar_visible(true).with_focus(Pane::Sidebar)
        } else {
            let focused = self.with_focus(Pane::Sidebar);
            let n = focused.rows().len() as int;
            let at = row_below(self.sidebar_scroll, y - self.sidebar_rect.y, n);
            if n == 0 || at == self.selected {
                focused
            } else {
                focused.with_selected(at).view_reset()
            }
        }
    }

    /// The pane with the source was clicked. Its first row is a title.
    pub open spec fn source_clicked(self, y: u16) -> AppModel {
        let focused = self.with_focus(Pane::Source);
        match self.source_pane {
            Some(pane) => if pane.lines.len() > 0 {
                focused.with_source_pane(
                    Some(
                        PaneModel {
                            cursor: row_below(
                                pane.top,
                                below_title(y - self.source_rect.y),
                                pane.lines.len() as int,
                            ),
                            ..pane
                        },
                    ),
                )
            } else {
                focused
            },
            None => focused,
        }
    }

    /// A viewport was clicked. Where there are two, their first row is a
    /// title.
    pub open spec fn viewport_clicked(self, viewport: usize, y: u16) -> AppModel {
        let rect = if viewport == 0 {
            self.viewport_rect
        } else {
            self.viewport2_rect
        };
        let at = self.with_focus(Pane::Viewport).pane_activated(viewport);
        let offset = if self.split is Some {
            below_title(y - rect.y)
        } else {
            y - rect.y
        };
        let n = at.viewport_rows();
        let noted = at.diff_noted();
        if n == 0 {
            noted
        } else {
            let row = row_below(at.top, offset, n);
            noted.with_cursor(row).with_follow(at.follow && row + 1 == n).with_cycle(None)
        }
    }

    /// What the mouse does. A click closes the help, and the input line keeps
    /// the mouse out.
    pub open spec fn mouse_handled(self, mouse: MouseEvent) -> AppModel {
        if self.help {
            self.with_help(false)
        } else if self.input is Some {
            self
        } else {
            match (self.pane_at(mouse.column, mouse.row), mouse.kind) {
                (Some((pane, viewport)), MouseEventKind::ScrollUp) => self.wheeled(
                    pane,
                    viewport,
                    true,
                ),
                (Some((pane, viewport)), MouseEventKind::ScrollDown) => self.wheeled(
                    pane,
                    viewport,
                    false,
                ),
                (Some((pane, viewport)), MouseEventKind::Down(MouseButton::Left)) => match pane {
                    Pane::Sidebar => self.sidebar_clicked(mouse.row),
                    Pane::Source => self.source_clicked(mouse.row),
                    Pane::Viewport => self.viewport_clicked(viewport, mouse.row),
                },
                _ => self,
            }
        }
    }

    /// What an event does.
    pub open spec fn handled(self, event: Event) -> AppModel {
        match event {
            Event::Input(InputEvent::Key(key)) => self.key_handled(key),
            Event::Input(InputEvent::Mouse(mouse)) => self.mouse_handled(mouse),
            Event::Input(InputEvent::Other) => self,
            Event::Source(e) => self.source_handled(e@),
            Event::InputClosed => self.with_quit(true),
        }
    }
}

impl App {
    fn find_pane_at(&self, x: u16, y: u16) -> (pane: Option<(Pane, usize)>)
        ensures
            pane == self@.pane_at(x, y),
    {
        proof {
            self.lemma_fields();
        }
        if self.sidebar_rect.contains(x, y) {
            Some((Pane::Sidebar, 0))
        } else if self.viewport_rect.contains(x, y) {
            Some((Pane::Viewport, 0))
        } else if self.source_pane.is_some() && self.source_rect.contains(x, y) {
            Some((Pane::Source, 0))
        } else if self.viewport2_rect.contains(x, y) {
            Some((Pane::Viewport, 1))
        } else {
            None
        }
    }

    fn wheel(&mut self, pane: Pane, viewport: usize, up: bool)
        requires
            old(self).wf(),
        ensures
            final(self).wf(),
            final(self)@ == old(self)@.wheeled(pane, viewport, up),
    {
        proof {
            self.lemma_fields();
        }
        if pane == Pane::Sidebar && !self.sidebar_visible {
            return ;
        }
        self.set_focus(pane);
        if pane == Pane::Viewport {
            self.activate_pane(viewport);
        }
        self.move_by(
            if up {
                -3
            } else {
                3
            },
        );
    }

    fn click_sidebar(&mut self, y: u16)
        requires
            old(self).wf(),
            old(self)@.sidebar_rect.y <= y,
        ensures
            final(self).wf(),
            final(self)@ == old(self)@.sidebar_clicked(y),
    {
        proof {
            self.lemma_fields();
        }
        if !self.sidebar_visible {
            self.set_sidebar_visible(true);
            self.set_focus(Pane::Sidebar);
            return ;
        }
        let offset: u16 = y - self.sidebar_rect.y;
        let scroll: usize = self.sidebar_scroll;
        let selected: usize = self.selected;
        self.set_focus(Pane::Sidebar);
        let n: usize = self.rows().len();
        if n == 0 {
            return ;
        }
        let at: usize = find_row_below(scroll, offset, n);
        if at != selected {
            self.set_selected(at);
            self.reset_view();
        }
    }

    fn click_source(&mut self, y: u16)
        requires
            old(self).wf(),
            old(self)@.source_rect.y <= y,
        ensures
            final(self).wf(),
            final(self)@ == old(self)@.source_clicked(y),
    {
        proof {
            self.lemma_fields();
        }
        let offset: u16 = y - self.source_rect.y;
        let below: u16 = if offset > 0 {
            offset - 1
        } else {
            0
        };
        let cursor: Option<usize> = match &self.source_pane {
            Some(pane) => {
                assert(pane@.lines.len() == pane.lines@.len());
                if pane.lines.len() > 0 {
                    Some(find_row_below(pane.top, below, pane.lines.len()))
                } else {
                    None
                }
            },
            None => None,
        };
        self.set_focus(Pane::Source);
        proof {
            reveal(AppModel::with_focus);
        }
        if let Some(at) = cursor {
            self.set_pane_cursor(at);
        }
    }

    fn click_viewport(&mut self, viewport: usize, y: u16)
        requires
            old(self).wf(),
            (if viewport == 0 {
                old(self)@.viewport_rect
            } else {
                old(self)@.viewport2_rect
            }).y <= y,
        ensures
            final(self).wf(),
            final(self)@ == old(self)@.viewport_clicked(viewport, y),
    {
        proof {
            self.lemma_fields();
        }
        let origin: u16 = if viewport == 0 {
            self.viewport_rect.y
        } else {
            self.viewport2_rect.y
        };
        let titled: bool = self.split.is_some();
        let offset: u16 = if titled && y - origin > 0 {
            y - origin - 1
        } else {
            y - origin
        };
        self.set_focus(Pane::Viewport);
        self.activate_pane(viewport);
        proof {
            self.lemma_fields();
        }
        let top: usize = self.top;
        let follow: bool = self.follow;
        let n: usize = self.viewport_len();
        if n == 0 {
            return ;
        }
        let row: usize = find_row_below(top, offset, n);
        self.set_cursor(row);
        self.set_follow(follow && row + 1 == n);
        self.set_cycle(None);
    }

    /// Handles the mouse.
    pub fn handle_mouse(&mut self, mouse: &MouseEvent)
        requires
            old(self).wf(),
        ensures
            final(self).wf(),
            final(self)@ == old(self)@.mouse_handled(*mouse),
    {
        proof {
            self.lemma_fields();
        }
        if self.help {
            self.set_help(false);
            return ;
        }
        if self.input.is_some() {
            return ;
        }
        let (pane, viewport): (Pane, usize) = match self.find_pane_at(mouse.column, mouse.row) {
            Some(p) => p,
            None => {
                return ;
            },
        };
        match mouse.kind {
            MouseEventKind::ScrollUp => {
                self.wheel(pane, viewport, true);
            },
            MouseEventKind::ScrollDown => {
                self.wheel(pane, viewport, false);
            },
            MouseEventKind::Down(MouseButton::Left) => {
                match pane {
                    Pane::Sidebar => {
                        self.click_sidebar(mouse.row);
                    },
                    Pane::Source => {
                        self.click_source(mouse.row);
                    },
                    Pane::Viewport => {
                        self.click_viewport(viewport, mouse.row);
                    },
                }
            },
            _ => {},
        }
    }

    /// Handles an event.
    pub fn handle(&mut self, event: Event)
        requires
            old(self).wf(),
        ensures
            final(self).wf(),
            final(self)@ == old(self)@.handled(event),
    {
        match event {
            Event::Input(InputEvent::Key(key)) => {
                self.handle_key(&key);
            },
            Event::Input(InputEvent::Mouse(mouse)) => {
                self.handle_mouse(&mouse);
            },
            Event::Input(InputEvent::Other) => {},
            Event::Source(e) => {
                self.handle_source(e);
            },
            Event::InputClosed => {
                self.set_quit(true);
            },
        }
    }
}

} // verus!
