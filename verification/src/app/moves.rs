//! Moving, folding, searching and going back.

use vstd::prelude::*;
#[allow(unused_imports)]
use vstd::string::*;

#[allow(unused_imports)]
use super::views::{info_shown, showing};
use super::views::{info_at_row, row_showing};
#[allow(unused_imports)]
use super::{AppModel, PaneModel};
use super::{App, Pane, Row};
use crate::model::{BlockId, LineInfo};
#[allow(unused_imports)]
use crate::model::{line_models, LineModel};
#[allow(unused_imports)]
use crate::parse::compilation::law_phases_mirror_the_index;
use crate::text;
#[allow(unused_imports)]
use crate::text::decimal;
use crate::view::{FoldKey, RowKind, ViewModel, ViewRow};
#[allow(unused_imports)]
use crate::view::ViewContents;

verus! {

// ---------------------------------------------------------------------------
// Moving
// ---------------------------------------------------------------------------

/// `at` moved by `delta` within `n` places.
pub open spec fn clamped(at: int, delta: int, n: int) -> int {
    if at + delta < 0 {
        0
    } else if at + delta >= n {
        n - 1
    } else {
        at + delta
    }
}

fn clamp_move(at: usize, delta: i128, n: usize) -> (out: usize)
    requires
        n > 0,
        -0x1_0000_0000_0000_0000 <= delta <= 0x1_0000_0000_0000_0000,
    ensures
        out == clamped(at as int, delta as int, n as int),
        out < n,
{
    let target: i128 = at as i128 + delta;
    if target < 0 {
        0
    } else if target >= n as i128 {
        n - 1
    } else {
        target as usize
    }
}

/// One less, but not below zero.
pub open spec fn less_one(n: int) -> int {
    if n > 0 {
        n - 1
    } else {
        0
    }
}

impl AppModel {
    /// The cursor stands on the line of the event that is selected.
    pub open spec fn event_synced(self) -> AppModel {
        if !self.timeline {
            self
        } else {
            match self.row_at(self.selected as int) {
                Some(Row::Event(i)) => match showing(
                    self.shown(),
                    self.source().index.events[i as int].0,
                ) {
                    Some(r) => self.with_cursor(r as usize),
                    None => self,
                },
                _ => self,
            }
        }
    }

    /// The selection moved: the viewport starts at the top of the section.
    #[verifier::opaque]
    pub open spec fn view_reset(self) -> AppModel {
        self.with_cursor(0).with_top(0).with_scroll_x(0).with_follow(false).with_cycle(
            None,
        ).event_synced()
    }

    /// How far a page reaches.
    pub open spec fn page(self) -> int {
        let (height, kept) = if self.focus == Pane::Sidebar {
            (self.sidebar_height as int, 1int)
        } else {
            (self.viewport_height as int, 2int)
        };
        if height - kept > 1 {
            height - kept
        } else {
            1
        }
    }

    /// How far half a page reaches.
    pub open spec fn half_page(self) -> int {
        if self.page() / 2 > 1 {
            self.page() / 2
        } else {
            1
        }
    }

    /// The pane that has the focus is moved by `delta` rows.
    #[verifier::opaque]
    pub open spec fn moved_by(self, delta: int) -> AppModel {
        match self.focus {
            Pane::Sidebar => {
                let n = self.rows().len() as int;
                if n == 0 {
                    self
                } else {
                    self.with_selected(
                        clamped(self.selected as int, delta, n) as usize,
                    ).view_reset()
                }
            },
            Pane::Viewport => {
                let n = self.viewport_rows();
                if n == 0 {
                    self.diff_noted()
                } else {
                    let at = clamped(self.cursor as int, delta, n);
                    self.diff_noted().with_cursor(at as usize).with_follow(
                        self.follow && at + 1 == n,
                    ).with_cycle(None)
                }
            },
            Pane::Source => match self.source_pane {
                Some(pane) => if pane.lines.len() == 0 {
                    self
                } else {
                    self.with_source_pane(
                        Some(
                            PaneModel {
                                cursor: clamped(
                                    pane.cursor as int,
                                    delta,
                                    pane.lines.len() as int,
                                ) as usize,
                                ..pane
                            },
                        ),
                    )
                },
                None => self,
            },
        }
    }

    /// The pane that has the focus goes to its start.
    #[verifier::opaque]
    pub open spec fn at_top(self) -> AppModel {
        match self.focus {
            Pane::Sidebar => self.with_selected(0).view_reset(),
            Pane::Viewport => self.with_cursor(0).with_follow(false).with_cycle(None),
            Pane::Source => match self.source_pane {
                Some(pane) => self.with_source_pane(Some(PaneModel { cursor: 0, ..pane })),
                None => self,
            },
        }
    }

    /// The pane that has the focus goes to its end.
    #[verifier::opaque]
    pub open spec fn at_bottom(self) -> AppModel {
        match self.focus {
            Pane::Sidebar => self.with_selected(
                less_one(self.rows().len() as int) as usize,
            ).view_reset(),
            Pane::Viewport => self.diff_noted().with_cursor(
                less_one(self.viewport_rows()) as usize,
            ).with_cycle(None),
            Pane::Source => match self.source_pane {
                Some(pane) => self.with_source_pane(
                    Some(
                        PaneModel { cursor: less_one(pane.lines.len() as int) as usize, ..pane },
                    ),
                ),
                None => self,
            },
        }
    }
}

impl App {
    fn sync_event_cursor(&mut self)
        requires
            old(self).wf(),
        ensures
            final(self).wf(),
            final(self)@ == old(self)@.event_synced(),
    {
        proof {
            self.lemma_fields();
        }
        if !self.timeline {
            return ;
        }
        if let Some(Row::Event(i)) = self.row_at(self.selected) {
            let line: usize = self.active_source().index.event(i).line;
            let vm = self.view_model();
            if let Some(row) = row_showing(&vm, line) {
                self.set_cursor(row);
            }
        }
    }

    /// Starts the viewport at the top of the section.
    pub(crate) fn reset_view(&mut self)
        requires
            old(self).wf(),
        ensures
            final(self).wf(),
            final(self)@ == old(self)@.view_reset(),
    {
        reveal(AppModel::view_reset);
        self.set_cursor(0);
        self.set_top(0);
        self.set_scroll_x(0);
        self.set_follow(false);
        self.set_cycle(None);
        self.sync_event_cursor();
    }

    pub(crate) fn page(&self) -> (n: i128)
        ensures
            n == self@.page(),
            1 <= n <= 0x1_0000_0000_0000_0000,
    {
        proof {
            self.lemma_fields();
        }
        let rest: i128 = if self.focus == Pane::Sidebar {
            self.sidebar_height as i128 - 1
        } else {
            self.viewport_height as i128 - 2
        };
        if rest > 1 {
            rest
        } else {
            1
        }
    }

    pub(crate) fn half_page(&self) -> (n: i128)
        ensures
            n == self@.half_page(),
            1 <= n <= 0x1_0000_0000_0000_0000,
    {
        let half: i128 = self.page() / 2;
        if half > 1 {
            half
        } else {
            1
        }
    }

    /// Moves the pane that has the focus.
    pub(crate) fn move_by(&mut self, delta: i128)
        requires
            old(self).wf(),
            -0x1_0000_0000_0000_0000 <= delta <= 0x1_0000_0000_0000_0000,
        ensures
            final(self).wf(),
            final(self)@ == old(self)@.moved_by(delta as int),
    {
        reveal(AppModel::moved_by);
        proof {
            self.lemma_fields();
        }
        match self.focus {
            Pane::Sidebar => {
                let n: usize = self.rows().len();
                if n == 0 {
                    return ;
                }
                let target: usize = clamp_move(self.selected, delta, n);
                self.set_selected(target);
                self.reset_view();
            },
            Pane::Viewport => {
                let cursor: usize = self.cursor;
                let follow: bool = self.follow;
                let n: usize = self.viewport_len();
                if n == 0 {
                    return ;
                }
                let target: usize = clamp_move(cursor, delta, n);
                self.set_cursor(target);
                self.set_follow(follow && target == n - 1);
                self.set_cycle(None);
            },
            Pane::Source => {
                if let Some(pane) = &self.source_pane {
                    assert(pane@.lines.len() == pane.lines@.len());
                    let n: usize = pane.lines.len();
                    if n == 0 {
                        return ;
                    }
                    let target: usize = clamp_move(pane.cursor, delta, n);
                    self.set_pane_cursor(target);
                }
            },
        }
    }

    /// Goes to the start of the pane that has the focus.
    pub(crate) fn jump_top(&mut self)
        requires
            old(self).wf(),
        ensures
            final(self).wf(),
            final(self)@ == old(self)@.at_top(),
    {
        reveal(AppModel::at_top);
        proof {
            self.lemma_fields();
        }
        match self.focus {
            Pane::Sidebar => {
                self.set_selected(0);
                self.reset_view();
            },
            Pane::Viewport => {
                self.set_cursor(0);
                self.set_follow(false);
                self.set_cycle(None);
            },
            Pane::Source => {
                self.set_pane_cursor(0);
            },
        }
    }

    /// Goes to the end of the pane that has the focus.
    pub(crate) fn jump_bottom(&mut self)
        requires
            old(self).wf(),
        ensures
            final(self).wf(),
            final(self)@ == old(self)@.at_bottom(),
    {
        reveal(AppModel::at_bottom);
        proof {
            self.lemma_fields();
        }
        match self.focus {
            Pane::Sidebar => {
                let n: usize = self.rows().len();
                self.set_selected(
                    if n > 0 {
                        n - 1
                    } else {
                        0
                    },
                );
                self.reset_view();
            },
            Pane::Viewport => {
                let n: usize = self.viewport_len();
                self.set_cursor(
                    if n > 0 {
                        n - 1
                    } else {
                        0
                    },
                );
                self.set_cycle(None);
            },
            Pane::Source => {
                if let Some(pane) = &self.source_pane {
                    assert(pane@.lines.len() == pane.lines@.len());
                    let n: usize = pane.lines.len();
                    self.set_pane_cursor(
                        if n > 0 {
                            n - 1
                        } else {
                            0
                        },
                    );
                }
            },
        }
    }
}

// ---------------------------------------------------------------------------
// Folding
// ---------------------------------------------------------------------------

/// The last block header among the first `n` lines of a phase.
pub open spec fn header_before(infos: Seq<LineModel>, n: int) -> Option<(int, BlockId)>
    decreases n,
{
    if n <= 0 {
        None
    } else if let LineModel::BlockHeader { block } = infos[n - 1] {
        Some((n - 1, block))
    } else {
        header_before(infos, n - 1)
    }
}

/// How many lines of a phase lie at or before line `i` of it.
pub open spec fn lines_up_to(infos: Seq<LineModel>, i: int) -> int {
    if i + 1 < infos.len() {
        i + 1
    } else {
        infos.len() as int
    }
}

pub(crate) fn find_header(infos: &Vec<LineInfo>, i: usize) -> (header: Option<(usize, BlockId)>)
    ensures
        ({
            let all = line_models(infos@);
            match header {
                Some((h, b)) => header_before(all, lines_up_to(all, i as int)) == Some(
                    (h as int, b),
                ) && h <= i && h < infos@.len(),
                None => header_before(all, lines_up_to(all, i as int)) is None,
            }
        }),
{
    let ghost all = line_models(infos@);
    let mut n: usize = if i < infos.len() {
        i + 1
    } else {
        infos.len()
    };
    let ghost first = n as int;
    assert(first == lines_up_to(all, i as int));
    while n > 0
        invariant
            n <= first <= infos@.len(),
            first <= i + 1,
            first == lines_up_to(all, i as int),
            all == line_models(infos@),
            header_before(all, first) == header_before(all, n as int),
        decreases n,
    {
        assert(all[n - 1] == infos@[n - 1]@);
        if let LineInfo::BlockHeader { block } = &infos[n - 1] {
            return Some((n - 1, *block));
        }
        n -= 1;
    }
    None
}

/// The block whose header or fold marker a row is, with its phase.
pub open spec fn row_block(vm: ViewContents, at: int) -> Option<(usize, BlockId)> {
    match vm {
        ViewContents::Plain { .. } => None,
        ViewContents::Modeled { rows, .. } => match rows[at].kind {
            RowKind::BlockFold { block, .. } => match rows[at].info {
                Some((p, _)) => Some((p, block)),
                None => None,
            },
            RowKind::Text => match info_shown(vm, at) {
                Some((p, _, LineModel::BlockHeader { block })) => Some((p, block)),
                _ => None,
            },
            _ => None,
        },
    }
}

/// The blocks with a header or a fold marker among the first `n` rows.
pub open spec fn blocks_shown(vm: ViewContents, active: usize, comp: usize, n: int) -> Seq<FoldKey>
    decreases n,
{
    if n <= 0 {
        Seq::empty()
    } else {
        let before = blocks_shown(vm, active, comp, n - 1);
        match row_block(vm, n - 1) {
            Some((p, block)) => if before.contains((active, comp, p, block)) {
                before
            } else {
                before.push((active, comp, p, block))
            },
            None => before,
        }
    }
}

/// All of the first `n` blocks are folded.
pub open spec fn all_folded(folded: Set<FoldKey>, keys: Seq<FoldKey>, n: int) -> bool {
    forall|k: int| 0 <= k < n ==> folded.contains(#[trigger] keys[k])
}

/// The folded blocks with the first `n` of `keys`.
pub open spec fn fold_all(folded: Set<FoldKey>, keys: Seq<FoldKey>, n: int) -> Set<FoldKey>
    decreases n,
{
    if n <= 0 {
        folded
    } else {
        fold_all(folded, keys, n - 1).insert(keys[n - 1])
    }
}

/// The folded blocks without the first `n` of `keys`.
pub open spec fn unfold_all(folded: Set<FoldKey>, keys: Seq<FoldKey>, n: int) -> Set<FoldKey>
    decreases n,
{
    if n <= 0 {
        folded
    } else {
        unfold_all(folded, keys, n - 1).remove(keys[n - 1])
    }
}

/// How many rows from the first on show lines up to `line`.
pub open spec fn rows_up_to(vm: ViewContents, line: int, i: int) -> int
    decreases vm.rows_len() - i,
{
    if 0 <= i < vm.rows_len() && vm.row_at(i).line <= line {
        rows_up_to(vm, line, i + 1)
    } else {
        i
    }
}

/// The row that shows a line, or else the nearest one in front of it.
pub open spec fn nearest_row(vm: ViewContents, line: int) -> int {
    match showing(vm, line) {
        Some(r) => r,
        None => less_one(rows_up_to(vm, line, 0)),
    }
}

impl AppModel {
    /// The block around the cursor is folded or unfolded.
    #[verifier::opaque]
    pub open spec fn block_toggled(self) -> AppModel {
        if self.diff {
            self.say("folding is off in diff view (d to leave)"@)
        } else {
            let vm = self.shown();
            match vm {
                ViewContents::Plain { .. } => self,
                ViewContents::Modeled { rows, parsed, comp } => if self.cursor >= rows.len() {
                    self
                } else {
                    match rows[self.cursor as int].info {
                        None => self,
                        Some((p, i)) => if p >= parsed.phases.len() {
                            self
                        } else {
                            let infos = parsed.phases[p as int].infos;
                            match header_before(infos, lines_up_to(infos, i as int)) {
                                None => self.say("no block here"@),
                                Some((h, block)) => self.block_set(comp, p, h, block),
                            }
                        },
                    }
                },
            }
        }
    }

    /// A block is folded or unfolded, and the cursor goes to its header.
    pub open spec fn block_set(self, comp: int, p: usize, h: int, block: BlockId) -> AppModel {
        let key = (self.active, comp as usize, p, block);
        let was = self.folded.contains(key);
        let after = self.with_folded(
            if was {
                self.folded.remove(key)
            } else {
                self.folded.insert(key)
            },
        );
        let line = self.compilations()[comp].phases[p as int].start + h;
        let placed = match showing(after.shown(), line) {
            Some(r) => after.with_cursor(r as usize),
            None => after,
        };
        placed.say(
            "b"@ + decimal(block as int) + (if was {
                " unfolded"@
            } else {
                " folded"@
            }),
        )
    }

    /// All blocks in view are folded or, where they all are, unfolded.
    #[verifier::opaque]
    pub open spec fn blocks_toggled(self) -> AppModel {
        if self.diff {
            self.say("folding is off in diff view (d to leave)"@)
        } else {
            let vm = self.shown();
            match vm {
                ViewContents::Plain { .. } => self.say("no blocks here (raw view)"@),
                ViewContents::Modeled { comp, .. } => {
                    let keys = blocks_shown(vm, self.active, comp as usize, vm.rows_len());
                    if keys.len() == 0 {
                        self.say("no blocks in this view"@)
                    } else {
                        self.blocks_set(vm, keys)
                    }
                },
            }
        }
    }

    /// Blocks are folded or, where they all are, unfolded; the cursor stays
    /// near its line.
    pub open spec fn blocks_set(self, vm: ViewContents, keys: Seq<FoldKey>) -> AppModel {
        let n = keys.len() as int;
        let after = if all_folded(self.folded, keys, n) {
            self.with_folded(unfold_all(self.folded, keys, n)).say(
                decimal(n) + " blocks unfolded"@,
            )
        } else {
            self.with_folded(fold_all(self.folded, keys, n)).say(
                decimal(n) + " blocks folded (z unfolds)"@,
            )
        };
        let now = after.shown();
        let at = if self.cursor < vm.rows_len() {
            nearest_row(now, vm.row_at(self.cursor as int).line as int)
        } else {
            self.cursor as int
        };
        let within = if at < less_one(now.rows_len()) {
            at
        } else {
            less_one(now.rows_len())
        };
        after.with_cursor(within as usize).with_cycle(None)
    }
}

fn list_blocks(vm: &ViewModel, active: usize, comp: usize) -> (keys: Vec<FoldKey>)
    requires
        vm@ is Modeled,
    ensures
        keys@ == blocks_shown(vm@, active, comp, vm@.rows_len()),
{
    let n: usize = vm.len();
    let mut keys: Vec<FoldKey> = Vec::new();
    let mut at: usize = 0;
    while at < n
        invariant
            vm@ is Modeled,
            n == vm@.rows_len(),
            at <= n,
            keys@ == blocks_shown(vm@, active, comp, at as int),
        decreases n - at,
    {
        let found: Option<(usize, BlockId)> = match vm.row(at) {
            Some(row) => match row.kind {
                RowKind::BlockFold { block, .. } => match row.info {
                    Some((p, _)) => Some((p, block)),
                    None => None,
                },
                RowKind::Text => match info_at_row(vm, at) {
                    Some((p, _, LineInfo::BlockHeader { block })) => Some((p, *block)),
                    _ => None,
                },
                _ => None,
            },
            None => None,
        };
        assert(found == row_block(vm@, at as int));
        if let Some((p, block)) = found {
            if !has_key(&keys, (active, comp, p, block)) {
                keys.push((active, comp, p, block));
            }
        }
        at += 1;
    }
    keys
}

fn has_key(keys: &Vec<FoldKey>, key: FoldKey) -> (yes: bool)
    ensures
        yes == keys@.contains(key),
{
    let mut k: usize = 0;
    while k < keys.len()
        invariant
            k <= keys@.len(),
            forall|m: int| 0 <= m < k ==> keys@[m] != key,
        decreases keys.len() - k,
    {
        let it: FoldKey = keys[k];
        if it.0 == key.0 && it.1 == key.1 && it.2 == key.2 && it.3 == key.3 {
            assert(keys@[k as int] == key);
            return true;
        }
        k += 1;
    }
    false
}

fn find_nearest(vm: &ViewModel, line: usize) -> (row: usize)
    ensures
        row == nearest_row(vm@, line as int),
{
    if let Some(row) = row_showing(vm, line) {
        return row;
    }
    let n: usize = vm.len();
    let mut i: usize = 0;
    let mut open: bool = true;
    while open && i < n
        invariant
            n == vm@.rows_len(),
            i <= n,
            rows_up_to(vm@, line as int, 0) == rows_up_to(vm@, line as int, i as int),
            !open ==> i < n && vm@.row_at(i as int).line > line,
        decreases n - i + (if open {
            1int
        } else {
            0
        }),
    {
        match vm.line_at(i) {
            Some(l) => {
                if l <= line {
                    i += 1;
                } else {
                    open = false;
                }
            },
            None => {
                assert(false);
                open = false;
            },
        }
    }
    if i > 0 {
        i - 1
    } else {
        0
    }
}

impl App {
    fn set_block(&mut self, comp: usize, p: usize, h: usize, block: BlockId)
        requires
            old(self).wf(),
            comp < old(self)@.compilations().len(),
            p < old(self)@.compilations()[comp as int].phases.len(),
        ensures
            final(self).wf(),
            final(self)@ == old(self)@.block_set(comp as int, p, h as int, block),
    {
        proof {
            self.lemma_fields();
        }
        let key: FoldKey = (self.active, comp, p, block);
        let was: bool = self.is_folded(&key);
        let section = self.active_source().index.compilation(comp);
        assert(section@.phases[p as int] == section.phases@[p as int]@);
        let start: usize = section.phases[p].lines.start;
        if was {
            self.unfold(&key);
        } else {
            self.fold(key);
        }
        let vm = self.view_model();
        if h <= usize::MAX - start {
            if let Some(row) = row_showing(&vm, start + h) {
                self.set_cursor(row);
            }
        } else {
            proof {
                lemma_no_such_line(vm, start + h);
            }
        }
        let mut message = text::owned("b");
        text::push_decimal(&mut message, block as usize);
        message.append(
            if was {
                " unfolded"
            } else {
                " folded"
            },
        );
        self.say_text(message);
    }

    /// Folds or unfolds the block around the cursor.
    pub(crate) fn fold_block(&mut self)
        requires
            old(self).wf(),
        ensures
            final(self).wf(),
            final(self)@ == old(self)@.block_toggled(),
    {
        reveal(AppModel::block_toggled);
        proof {
            self.lemma_fields();
            self.lemma_wf();
        }
        if self.diff {
            self.say("folding is off in diff view (d to leave)");
            return ;
        }
        let cursor: usize = self.cursor;
        let comp: usize = match self.current_comp() {
            Some(comp) => comp,
            None => {
                return ;
            },
        };
        let vm = self.view_model();
        if let ViewModel::Modeled { rows, parsed, .. } = &vm {
            if cursor >= rows.len() {
                return ;
            }
            if let Some((p, i)) = rows[cursor].info {
                assert((**parsed)@.phases.len() == parsed.phases@.len());
                if p < parsed.phases.len() {
                    assert((**parsed)@.phases[p as int] == parsed.phases@[p as int]@);
                    proof {
                        law_phases_mirror_the_index(
                            self@.source().buffer,
                            self@.compilations()[comp as int],
                        );
                    }
                    match find_header(&parsed.phases[p].infos, i) {
                        Some((h, block)) => {
                            self.set_block(comp, p, h, block);
                        },
                        None => {
                            self.say("no block here");
                        },
                    }
                }
            }
        }
    }

    fn fold_keys(&mut self, keys: &Vec<FoldKey>)
        requires
            old(self).wf(),
        ensures
            final(self).wf(),
            final(self)@ == old(self)@.with_folded(
                fold_all(old(self)@.folded, keys@, keys@.len() as int),
            ),
    {
        reveal(AppModel::with_folded);
        let mut k: usize = 0;
        while k < keys.len()
            invariant
                self.wf(),
                k <= keys@.len(),
                self@ == old(self)@.with_folded(fold_all(old(self)@.folded, keys@, k as int)),
            decreases keys.len() - k,
        {
            reveal(AppModel::with_folded);
            self.fold(keys[k]);
            k += 1;
        }
    }

    fn unfold_keys(&mut self, keys: &Vec<FoldKey>)
        requires
            old(self).wf(),
        ensures
            final(self).wf(),
            final(self)@ == old(self)@.with_folded(
                unfold_all(old(self)@.folded, keys@, keys@.len() as int),
            ),
    {
        reveal(AppModel::with_folded);
        let mut k: usize = 0;
        while k < keys.len()
            invariant
                self.wf(),
                k <= keys@.len(),
                self@ == old(self)@.with_folded(unfold_all(old(self)@.folded, keys@, k as int)),
            decreases keys.len() - k,
        {
            reveal(AppModel::with_folded);
            self.unfold(&keys[k]);
            k += 1;
        }
    }

    fn keys_all_folded(&self, keys: &Vec<FoldKey>) -> (yes: bool)
        ensures
            yes == all_folded(self@.folded, keys@, keys@.len() as int),
    {
        let mut k: usize = 0;
        while k < keys.len()
            invariant
                k <= keys@.len(),
                all_folded(self@.folded, keys@, k as int),
            decreases keys.len() - k,
        {
            if !self.is_folded(&keys[k]) {
                return false;
            }
            k += 1;
        }
        true
    }

    /// Folds all blocks in view or, where they all are folded, unfolds them.
    pub(crate) fn fold_all_blocks(&mut self)
        requires
            old(self).wf(),
        ensures
            final(self).wf(),
            final(self)@ == old(self)@.blocks_toggled(),
    {
        reveal(AppModel::blocks_toggled);
        proof {
            self.lemma_fields();
        }
        if self.diff {
            self.say("folding is off in diff view (d to leave)");
            return ;
        }
        let active: usize = self.active;
        let cursor: usize = self.cursor;
        let vm = self.view_model();
        let comp: usize = match &vm {
            ViewModel::Modeled { comp, .. } => *comp,
            ViewModel::Plain { .. } => {
                self.say("no blocks here (raw view)");
                return ;
            },
        };
        let keys = list_blocks(&vm, active, comp);
        let n: usize = keys.len();
        if n == 0 {
            self.say("no blocks in this view");
            return ;
        }
        let mut message = text::decimal_text(n);
        if self.keys_all_folded(&keys) {
            self.unfold_keys(&keys);
            message.append(" blocks unfolded");
        } else {
            self.fold_keys(&keys);
            message.append(" blocks folded (z unfolds)");
        }
        self.say_text(message);
        let now = self.view_model();
        let at: usize = match vm.line_at(cursor) {
            Some(line) => find_nearest(&now, line),
            None => cursor,
        };
        let rows: usize = now.len();
        let last: usize = if rows > 0 {
            rows - 1
        } else {
            0
        };
        self.set_cursor(
            if at < last {
                at
            } else {
                last
            },
        );
        self.set_cycle(None);
    }
}

/// No row shows a line past the largest number.
proof fn lemma_no_such_line(vm: ViewModel, line: int)
    requires
        line > usize::MAX,
    ensures
        showing(vm@, line) is None,
{
    match vm {
        ViewModel::Plain { .. } => {},
        ViewModel::Modeled { rows, .. } => {
            lemma_no_such_row(rows@, line, 0);
        },
    }
}

proof fn lemma_no_such_row(rows: Seq<ViewRow>, line: int, i: int)
    requires
        line > usize::MAX,
    ensures
        super::views::any_row_from(rows, line, i) is None,
    decreases rows.len() - i,
{
    if 0 <= i < rows.len() {
        lemma_no_such_row(rows, line, i + 1);
    }
}

} // verus!
