//! Splits, and the comparison of two phases.

use std::sync::Arc;
use vstd::prelude::*;
#[allow(unused_imports)]
use vstd::string::*;

#[allow(unused_imports)]
use super::rows::row_exists;
#[allow(unused_imports)]
use super::{compared, diff_faithful, side_exists, side_section, side_title, view_at, AppModel};
use super::{App, DiffKey, DualSide, Pane, PaneRect, Row, SplitDir, ViewState};
#[allow(unused_imports)]
use crate::diff::{summary_text, DiffView};
use crate::diff::{diff_phases, DiffModel, SideInput};
use crate::model::{CompilationSection, PhaseKind};
#[allow(unused_imports)]
use crate::model::{shown_name, tier_label, CompilationModel, PhaseSectionModel};
use crate::parse::cache::share;
use crate::text;
use crate::view::MODEL_LIMIT;
#[allow(unused_imports)]
use crate::view::{span_len, ViewContents};

verus! {

// ---------------------------------------------------------------------------
// Phases
// ---------------------------------------------------------------------------

/// The first graph phase at or after `i`.
pub open spec fn first_graph(phases: Seq<PhaseSectionModel>, i: int) -> Option<int>
    decreases phases.len() - i,
{
    if i < 0 || i >= phases.len() {
        None
    } else if phases[i].kind is Graph {
        Some(i)
    } else {
        first_graph(phases, i + 1)
    }
}

/// The last graph phase among the first `n`.
pub open spec fn last_graph(phases: Seq<PhaseSectionModel>, n: int) -> Option<int>
    decreases n,
{
    if n <= 0 {
        None
    } else if phases[n - 1].kind is Graph {
        Some(n - 1)
    } else {
        last_graph(phases, n - 1)
    }
}

/// The first graph phase with a name, at or after `i`.
pub open spec fn graph_named(phases: Seq<PhaseSectionModel>, name: Seq<char>, i: int) -> Option<int>
    decreases phases.len() - i,
{
    if i < 0 || i >= phases.len() {
        None
    } else if phases[i].kind is Graph && phases[i].name == name {
        Some(i)
    } else {
        graph_named(phases, name, i + 1)
    }
}

/// The phases of a function that are compared across two runs: the one picked
/// and the one of the same name in the other run, or else the last graph phase
/// of each.
pub open spec fn dual_phases(
    own: Seq<PhaseSectionModel>,
    picked: Option<int>,
    theirs: Seq<PhaseSectionModel>,
) -> (Option<int>, Option<int>) {
    let named = match picked {
        Some(p) => graph_named(theirs, own[p].name, 0),
        None => None,
    };
    if named is Some {
        (picked, named)
    } else {
        (last_graph(own, own.len() as int), last_graph(theirs, theirs.len() as int))
    }
}

fn is_graph(section: &CompilationSection, p: usize) -> (yes: bool)
    requires
        p < section.phases@.len(),
    ensures
        yes == (section@.phases[p as int].kind is Graph),
{
    assert(section@.phases[p as int] == section.phases@[p as int]@);
    match &section.phases[p].kind {
        PhaseKind::Graph { .. } => true,
        _ => false,
    }
}

fn find_first_graph(section: &CompilationSection) -> (at: Option<usize>)
    ensures
        text::pos(at) == first_graph(section@.phases, 0),
        at matches Some(p) ==> p < section@.phases.len(),
{
    let mut i: usize = 0;
    while i < section.phases.len()
        invariant
            i <= section.phases@.len(),
            first_graph(section@.phases, 0) == first_graph(section@.phases, i as int),
        decreases section.phases.len() - i,
    {
        if is_graph(section, i) {
            return Some(i);
        }
        i += 1;
    }
    None
}

fn find_last_graph(section: &CompilationSection, n: usize) -> (at: Option<usize>)
    requires
        n <= section.phases@.len(),
    ensures
        text::pos(at) == last_graph(section@.phases, n as int),
        at matches Some(p) ==> p < n,
{
    let mut i: usize = n;
    while i > 0
        invariant
            i <= n <= section.phases@.len(),
            last_graph(section@.phases, n as int) == last_graph(section@.phases, i as int),
        decreases i,
    {
        if is_graph(section, i - 1) {
            return Some(i - 1);
        }
        i -= 1;
    }
    None
}

fn find_graph_named(section: &CompilationSection, name: &String) -> (at: Option<usize>)
    ensures
        text::pos(at) == graph_named(section@.phases, name@, 0),
        at matches Some(p) ==> p < section@.phases.len(),
{
    let mut i: usize = 0;
    while i < section.phases.len()
        invariant
            i <= section.phases@.len(),
            graph_named(section@.phases, name@, 0) == graph_named(
                section@.phases,
                name@,
                i as int,
            ),
        decreases section.phases.len() - i,
    {
        assert(section@.phases[i as int] == section.phases@[i as int]@);
        if is_graph(section, i) && section.phases[i].name == *name {
            return Some(i);
        }
        i += 1;
    }
    None
}

fn find_dual(
    own: &CompilationSection,
    picked: Option<usize>,
    theirs: &CompilationSection,
) -> (pair: (Option<usize>, Option<usize>))
    requires
        picked matches Some(p) ==> p < own@.phases.len(),
    ensures
        (text::pos(pair.0), text::pos(pair.1)) == dual_phases(
            own@.phases,
            text::pos(picked),
            theirs@.phases,
        ),
        pair.0 matches Some(p) ==> p < own@.phases.len(),
        pair.1 matches Some(p) ==> p < theirs@.phases.len(),
{
    if let Some(p) = picked {
        assert(own@.phases[p as int] == own.phases@[p as int]@);
        let named = find_graph_named(theirs, &own.phases[p].name);
        if named.is_some() {
            return (picked, named);
        }
    }
    (find_last_graph(own, own.phases.len()), find_last_graph(theirs, theirs.phases.len()))
}

/// The first place of a row at or after `i`.
pub open spec fn row_place(rows: Seq<Row>, row: Row, i: int) -> Option<int>
    decreases rows.len() - i,
{
    if i < 0 || i >= rows.len() {
        None
    } else if rows[i] == row {
        Some(i)
    } else {
        row_place(rows, row, i + 1)
    }
}

/// The first place of a row.
pub(crate) fn find_place(rows: &Vec<Row>, row: Row) -> (at: Option<usize>)
    ensures
        text::pos(at) == row_place(rows@, row, 0),
        at matches Some(k) ==> k < rows@.len(),
{
    let mut i: usize = 0;
    while i < rows.len()
        invariant
            i <= rows@.len(),
            row_place(rows@, row, 0) == row_place(rows@, row, i as int),
        decreases rows.len() - i,
    {
        if rows[i] == row {
            return Some(i);
        }
        i += 1;
    }
    None
}

// ---------------------------------------------------------------------------
// What the operations do
// ---------------------------------------------------------------------------

/// A compilation is too large to be modeled.
pub open spec fn oversized(section: CompilationModel) -> bool {
    span_len(section.start, section.end) > MODEL_LIMIT
}

/// The compilation among the first `n` that is taken for the same function
/// in another run: the same name and tier, and if possible the same ordinal,
/// else the latest.
pub open spec fn counterpart(
    comps: Seq<CompilationModel>,
    section: CompilationModel,
    n: int,
) -> Option<int>
    decreases n,
{
    if n <= 0 {
        None
    } else {
        let before = counterpart(comps, section, n - 1);
        let c = comps[n - 1];
        if c.name != section.name || c.tier != section.tier || c.filtered_out {
            before
        } else {
            match before {
                None => Some(n - 1),
                Some(b) => {
                    let same = c.ordinal == section.ordinal;
                    let best_same = comps[b].ordinal == section.ordinal;
                    if (same && !best_same) || (same == best_same && c.ordinal
                        >= comps[b].ordinal) {
                        Some(n - 1)
                    } else {
                        Some(b)
                    }
                },
            }
        }
    }
}

impl AppModel {
    /// Where the viewport is that the keys drive.
    pub open spec fn view_state(self) -> ViewState {
        ViewState {
            selected: self.selected,
            cursor: self.cursor,
            top: self.top,
            scroll_x: self.scroll_x,
        }
    }

    /// With the viewport elsewhere.
    pub open spec fn with_view(self, v: ViewState) -> AppModel {
        self.with_selected(v.selected).with_cursor(v.cursor).with_top(v.top).with_scroll_x(
            v.scroll_x,
        )
    }

    /// Where one of the two viewports is.
    pub open spec fn pane_state(self, pane: usize) -> ViewState {
        if pane == self.active_pane {
            self.view_state()
        } else {
            self.other_view
        }
    }

    /// The keys drive viewport `pane`. In a comparison both viewports share
    /// one place.
    pub open spec fn pane_activated(self, pane: usize) -> AppModel {
        if self.split is None || pane == self.active_pane {
            self
        } else {
            let swapped = self.with_other_view(self.view_state()).with_view(self.other_view);
            let placed = if self.diff {
                swapped.with_cursor(self.cursor).with_top(self.top).with_scroll_x(self.scroll_x)
            } else {
                swapped
            };
            placed.with_active_pane(pane).with_cycle(None)
        }
    }

    /// The graph phase that a row of the sidebar stands for.
    pub open spec fn pane_phase(self, selected: usize) -> Option<(usize, usize)> {
        match self.row_at(selected as int) {
            Some(Row::Phase { comp, phase }) => if self.compilations()[comp as int].phases[
            phase as int].kind is Graph {
                Some((comp, phase))
            } else {
                None
            },
            _ => None,
        }
    }

    /// The pair that is compared.
    pub open spec fn diff_pair(self) -> Option<DiffKey> {
        match self.dual {
            Some((left, right)) => Some(DiffKey { left, right, titled: true }),
            None => match (
                self.pane_phase(self.pane_state(0).selected),
                self.pane_phase(self.pane_state(1).selected),
            ) {
                (Some((lc, lp)), Some((rc, rp))) => Some(
                    DiffKey {
                        left: DualSide { source: self.active, comp: lc, phase: lp },
                        right: DualSide { source: self.active, comp: rc, phase: rp },
                        titled: false,
                    },
                ),
                _ => None,
            },
        }
    }

    /// The pair that is compared, where it exists.
    pub open spec fn diff_key(self) -> Option<DiffKey> {
        if !self.diff {
            None
        } else {
            match self.diff_pair() {
                Some(key) => if side_exists(self.sources, key.left) && side_exists(
                    self.sources,
                    key.right,
                ) {
                    Some(key)
                } else {
                    None
                },
                None => None,
            }
        }
    }

    /// A side of the pair is too large.
    pub open spec fn diff_too_large(self) -> bool {
        self.diff_key() matches Some(key) && (oversized(side_section(self.sources, key.left))
            || oversized(side_section(self.sources, key.right)))
    }

    /// The comparison that is shown.
    pub open spec fn diff_shown(self) -> Option<DiffView> {
        match self.diff_key() {
            Some(key) => if self.diff_too_large() {
                None
            } else {
                Some(compared(self.sources, key))
            },
            None => None,
        }
    }

    /// The state once the comparison was asked for: that it is too large is
    /// said.
    pub open spec fn diff_noted(self) -> AppModel {
        if self.diff_too_large() {
            self.say("section too large to diff"@)
        } else {
            self
        }
    }

    /// How many rows the cursor ranges over.
    pub open spec fn viewport_rows(self) -> int {
        match self.diff_shown() {
            Some(view) => view.rows.len() as int,
            None => self.shown().rows_len(),
        }
    }

    /// The source pane is closed.
    pub open spec fn without_source_pane(self) -> AppModel {
        if self.source_pane is Some && self.focus == Pane::Source {
            self.with_focus(Pane::Viewport).with_source_pane(None)
        } else {
            self.with_source_pane(None)
        }
    }

    /// A split is opened, turned or, by the same key again, closed.
    #[verifier::opaque]
    pub open spec fn split_toggled(self, dir: SplitDir) -> AppModel {
        let closed = self.without_source_pane();
        match self.split {
            None => {
                let opened = closed.with_split(Some(dir));
                opened.with_other_view(opened.view_state()).say(
                    (if dir == SplitDir::Vertical {
                        "vertical"@
                    } else {
                        "horizontal"@
                    }) + " split — Ctrl+W switches panes, d diffs two graph phases"@,
                )
            },
            Some(d) => if d == dir {
                closed.with_split(None).with_diff(false).with_active_pane(0).with_viewport2_rect(
                    super::no_rect(),
                ).say("split closed"@)
            } else {
                closed.with_split(Some(dir)).say("split direction switched"@)
            },
        }
    }

    /// The pair that a row of the sidebar offers for comparison: on a phase
    /// the graph phase before it and itself, on a compilation its first and
    /// last graph phase; or what to say instead.
    pub open spec fn offered_pair(self, row: Option<Row>) -> Result<
        (int, int, int),
        Seq<char>,
    > {
        match row {
            Some(Row::Phase { comp, phase }) => {
                let phases = self.compilations()[comp as int].phases;
                if !(phases[phase as int].kind is Graph) {
                    Err("diff needs a graph phase (this is a dump section)"@)
                } else {
                    match last_graph(phases, phase as int) {
                        Some(p) => Ok((comp as int, p, phase as int)),
                        None => Err("no earlier graph phase to diff against"@),
                    }
                }
            },
            Some(Row::Compilation(comp)) => self.whole_pair(comp as int),
            Some(Row::Function { name_comp, .. }) => self.whole_pair(name_comp as int),
            _ => Err("diff works on compilations and their graph phases"@),
        }
    }

    /// The first and the last graph phase of a compilation.
    pub open spec fn whole_pair(self, comp: int) -> Result<(int, int, int), Seq<char>> {
        let phases = self.compilations()[comp].phases;
        match (first_graph(phases, 0), last_graph(phases, phases.len() as int)) {
            (Some(a), Some(b)) => if a == b {
                Err("only one graph phase — nothing to diff against"@)
            } else {
                Ok((comp, a, b))
            },
            _ => Err("no graph phases in this compilation"@),
        }
    }

    /// A compilation is expanded, and so is its function where compilations
    /// are grouped.
    pub open spec fn comp_opened(self, comp: int) -> AppModel {
        let opened = self.with_expanded(self.expanded.insert((self.active, comp as u64)));
        if self.grouped {
            opened.with_expanded_groups(
                opened.expanded_groups.insert(
                    (opened.active, self.compilations()[comp].sfi.0),
                ),
            )
        } else {
            opened
        }
    }

    /// A split with the pair that the selection offers, and whether there is
    /// one.
    pub open spec fn auto_split(self) -> (AppModel, bool) {
        let row = self.row_at(self.selected as int);
        match self.offered_pair(row) {
            Err(message) => (self.say(message), false),
            Ok((comp, left, right)) => {
                let opened = if row matches Some(Row::Phase { .. }) {
                    self
                } else {
                    self.comp_opened(comp)
                };
                let rows = opened.rows();
                let l = row_place(
                    rows,
                    Row::Phase { comp: comp as usize, phase: left as usize },
                    0,
                );
                let r = row_place(
                    rows,
                    Row::Phase { comp: comp as usize, phase: right as usize },
                    0,
                );
                match (l, r) {
                    (Some(l), Some(r)) => (
                        opened.with_split(Some(SplitDir::Vertical)).with_other_view(
                            view_at(l as usize),
                        ).with_selected(r as usize).with_active_pane(1),
                        true,
                    ),
                    _ => (opened.say("could not locate the phase rows"@), false),
                }
            },
        }
    }

    /// The comparison is switched off.
    pub open spec fn diff_off(self) -> AppModel {
        self.with_diff(false).with_dual(None).say("diff off"@)
    }

    /// The comparison is switched on where both viewports show graph phases.
    pub open spec fn diff_on(self) -> AppModel {
        if self.pane_phase(self.pane_state(0).selected) is None || self.pane_phase(
            self.pane_state(1).selected,
        ) is None {
            self.say(
                "diff needs a graph phase selected in each pane (Enter expands a compilation)"@,
            )
        } else {
            let on = self.with_diff(true).with_cursor(0).with_top(0).with_cycle(None).with_follow(
                false,
            ).with_focus(Pane::Viewport);
            match on.diff_shown() {
                Some(view) => on.diff_noted().say("diff: "@ + summary_text(view.summary)),
                None => on.diff_noted(),
            }
        }
    }

    /// The comparison is switched on or off.
    #[verifier::opaque]
    pub open spec fn diff_toggled(self) -> AppModel {
        if self.diff {
            self.diff_off()
        } else if self.split is None {
            let (split, found) = self.auto_split();
            if found {
                split.diff_on()
            } else {
                split
            }
        } else {
            self.diff_on()
        }
    }

    /// The compilation that the viewport shows as rows.
    pub open spec fn current_comp(self) -> Option<int> {
        match self.shown() {
            ViewContents::Modeled { comp, .. } => Some(comp),
            ViewContents::Plain { .. } => None,
        }
    }

    /// The graph phase of a compilation that is selected, if one is.
    pub open spec fn picked_phase(self, comp: int) -> Option<int> {
        match self.pane_phase(self.selected) {
            Some((c, p)) => if c == comp {
                Some(p as int)
            } else {
                None
            },
            None => None,
        }
    }

    /// The function in view is compared with the other run, or the
    /// comparison is switched off.
    #[verifier::opaque]
    pub open spec fn dual_toggled(self) -> AppModel {
        let other = ((self.active + 1) % self.sources.len() as int) as usize;
        if self.diff {
            self.diff_off()
        } else if self.sources.len() < 2 {
            self.say("dual-run diff needs two sources (garage a.log b.log)"@)
        } else {
            match self.current_comp() {
                None => self.say("dual-run diff needs a compilation in view"@),
                Some(comp) => {
                    let phases = self.compilations()[comp].phases;
                    if last_graph(phases, phases.len() as int) is None {
                        self.say("no graph phase to diff in this compilation"@)
                    } else {
                        self.dual_with(comp, self.picked_phase(comp), other)
                    }
                },
            }
        }
    }

    /// A compilation is compared with its counterpart in the run `other`.
    pub open spec fn dual_with(self, comp: int, picked: Option<int>, other: usize) -> AppModel {
        let section = self.compilations()[comp];
        let run = self.sources[other as int];
        let comps = run.index.compilations;
        match counterpart(comps, section, comps.len() as int) {
            None => self.say(
                run.label + " has no "@ + shown_name(section.name) + " "@ + tier_label(section.tier)
                    + " compilation"@,
            ),
            Some(c) => {
                match dual_phases(section.phases, picked, comps[c].phases) {
                    (Some(phase), Some(p)) => self.with_source_pane(None).with_split(
                        Some(SplitDir::Vertical),
                    ).with_diff(true).with_dual(
                        Some(
                            (
                                DualSide { source: other, comp: c as usize, phase: p as usize },
                                DualSide {
                                    source: self.active,
                                    comp: comp as usize,
                                    phase: phase as usize,
                                },
                            ),
                        ),
                    ).with_cursor(0).with_top(0).say(
                        "dual-run diff: "@ + run.label + " ⇄ "@ + self.source().label
                            + " — d closes"@,
                    ),
                    _ => self.say(
                        run.label + "'s "@ + shown_name(comps[c].name)
                            + " has no graph phase to diff"@,
                    ),
                }
            },
        }
    }
}

// ---------------------------------------------------------------------------
// The operations
// ---------------------------------------------------------------------------

fn is_oversized(section: &CompilationSection) -> (yes: bool)
    ensures
        yes == oversized(section@),
{
    section.lines.start < section.lines.end && section.lines.end - section.lines.start > MODEL_LIMIT
}

impl App {
    /// Where the viewport is that the keys drive.
    pub fn view_state(&self) -> (v: ViewState)
        ensures
            v == self@.view_state(),
    {
        proof {
            self.lemma_fields();
        }
        ViewState {
            selected: self.selected,
            cursor: self.cursor,
            top: self.top,
            scroll_x: self.scroll_x,
        }
    }

    /// Puts the viewport elsewhere.
    pub fn set_view_state(&mut self, v: ViewState)
        requires
            old(self).wf(),
        ensures
            final(self).wf(),
            final(self)@ == old(self)@.with_view(v),
    {
        self.set_selected(v.selected);
        self.set_cursor(v.cursor);
        self.set_top(v.top);
        self.set_scroll_x(v.scroll_x);
    }

    /// Where one of the two viewports is.
    pub fn pane_state(&self, pane: usize) -> (v: ViewState)
        ensures
            v == self@.pane_state(pane),
    {
        proof {
            self.lemma_fields();
        }
        if pane == self.active_pane {
            self.view_state()
        } else {
            self.other_view
        }
    }

    /// Lets the keys drive viewport `pane`.
    pub fn activate_pane(&mut self, pane: usize)
        requires
            old(self).wf(),
        ensures
            final(self).wf(),
            final(self)@ == old(self)@.pane_activated(pane),
    {
        proof {
            self.lemma_fields();
        }
        if self.split.is_none() || pane == self.active_pane {
            return ;
        }
        let diff: bool = self.diff;
        let current: ViewState = self.view_state();
        let parked: ViewState = self.other_view;
        self.set_other_view(current);
        self.set_view_state(parked);
        if diff {
            self.set_cursor(current.cursor);
            self.set_top(current.top);
            self.set_scroll_x(current.scroll_x);
        }
        self.set_active_pane(pane);
        self.set_cycle(None);
    }

    /// Closes the source pane.
    pub(crate) fn close_source_pane(&mut self)
        requires
            old(self).wf(),
        ensures
            final(self).wf(),
            final(self)@ == old(self)@.without_source_pane(),
    {
        proof {
            self.lemma_fields();
        }
        if self.source_pane.is_some() && self.focus == Pane::Source {
            self.set_focus(Pane::Viewport);
        }
        self.set_source_pane(None);
    }

    /// Opens a split, turns it or, by the same key again, closes it.
    pub(crate) fn toggle_split(&mut self, dir: SplitDir)
        requires
            old(self).wf(),
        ensures
            final(self).wf(),
            final(self)@ == old(self)@.split_toggled(dir),
    {
        reveal(AppModel::split_toggled);
        proof {
            self.lemma_fields();
        }
        let split = self.split;
        self.close_source_pane();
        match split {
            None => {
                self.set_split(Some(dir));
                let here = self.view_state();
                self.set_other_view(here);
                let mut message = if dir == SplitDir::Vertical {
                    text::owned("vertical")
                } else {
                    text::owned("horizontal")
                };
                message.append(" split — Ctrl+W switches panes, d diffs two graph phases");
                self.say_text(message);
            },
            Some(d) => {
                if d == dir {
                    self.set_split(None);
                    self.set_diff(false);
                    self.set_active_pane(0);
                    self.set_viewport2_rect(PaneRect::default());
                    self.say("split closed");
                } else {
                    self.set_split(Some(dir));
                    self.say("split direction switched");
                }
            },
        }
    }

    /// The graph phase that a row of the sidebar stands for.
    pub(crate) fn pane_phase(&self, selected: usize) -> (phase: Option<(usize, usize)>)
        requires
            self.wf(),
        ensures
            phase == self@.pane_phase(selected),
            phase matches Some((c, p)) ==> side_exists(
                self@.sources,
                (DualSide { source: self@.active, comp: c, phase: p }),
            ),
    {
        proof {
            self.lemma_wf();
        }
        match self.row_at(selected) {
            Some(Row::Phase { comp, phase }) => {
                let section = self.active_source().index.compilation(comp);
                if is_graph(section, phase) {
                    Some((comp, phase))
                } else {
                    None
                }
            },
            _ => None,
        }
    }

    fn side_is_there(&self, side: DualSide) -> (yes: bool)
        requires
            self.wf(),
        ensures
            yes == side_exists(self@.sources, side),
    {
        if side.source >= self.source_count() {
            return false;
        }
        let index = &self.source_at(side.source).index;
        side.comp < index.compilation_count() && side.phase < index.compilation(
            side.comp,
        ).phases.len()
    }

    fn diff_key(&self) -> (key: Option<DiffKey>)
        requires
            self.wf(),
        ensures
            key == self@.diff_key(),
    {
        proof {
            self.lemma_fields();
        }
        if !self.diff {
            return None;
        }
        let key: DiffKey = match self.dual {
            Some((left, right)) => DiffKey { left, right, titled: true },
            None => {
                let l = self.pane_phase(self.pane_state(0).selected);
                let r = self.pane_phase(self.pane_state(1).selected);
                match (l, r) {
                    (Some((lc, lp)), Some((rc, rp))) => DiffKey {
                        left: DualSide { source: self.active, comp: lc, phase: lp },
                        right: DualSide { source: self.active, comp: rc, phase: rp },
                        titled: false,
                    },
                    _ => {
                        return None;
                    },
                }
            },
        };
        if self.side_is_there(key.left) && self.side_is_there(key.right) {
            Some(key)
        } else {
            None
        }
    }

    fn title_of(&self, side: DualSide) -> (title: String)
        requires
            self.wf(),
            side_exists(self@.sources, side),
        ensures
            title@ == side_title(self@.sources, side),
    {
        let source = self.source_at(side.source);
        let section = source.index.compilation(side.comp);
        assert(section@.phases[side.phase as int] == section.phases@[side.phase as int]@);
        let mut title = source.label.clone();
        title.append(" · ");
        title.append(section.display_name());
        title.append(" · ");
        title.append(section.phases[side.phase].name.as_str());
        title
    }

    fn compare(&mut self, key: DiffKey) -> (model: DiffModel)
        requires
            old(self).wf(),
            side_exists(old(self)@.sources, key.left),
            side_exists(old(self)@.sources, key.right),
        ensures
            final(self).wf(),
            final(self)@ == old(self)@,
            model@ == compared(old(self)@.sources, key),
    {
        let left_parsed = self.parse(key.left.source, key.left.comp);
        let right_parsed = self.parse(key.right.source, key.right.comp);
        let l = self.source_at(key.left.source);
        let r = self.source_at(key.right.source);
        let left = SideInput {
            buffer: &l.buffer,
            parsed: &left_parsed,
            section: l.index.compilation(key.left.comp),
            phase: key.left.phase,
            comp_id: (key.left.source, key.left.comp),
        };
        let right = SideInput {
            buffer: &r.buffer,
            parsed: &right_parsed,
            section: r.index.compilation(key.right.comp),
            phase: key.right.phase,
            comp_id: (key.right.source, key.right.comp),
        };
        let mut model = diff_phases(&left, &right);
        if key.titled {
            model.titles = Some((self.title_of(key.left), self.title_of(key.right)));
        }
        reveal(compared);
        model
    }

    fn kept_diff(&self, key: DiffKey) -> (model: Option<Arc<DiffModel>>)
        requires
            self.wf(),
        ensures
            model matches Some(m) ==> (*m)@ == compared(self@.sources, key),
    {
        reveal(App::wf);
        reveal(App::model);
        reveal(diff_faithful);
        if let Some((kept, model)) = &self.diff_cache {
            if *kept == key {
                return Some(share(model));
            }
        }
        None
    }

    fn keep_diff(&mut self, key: DiffKey, model: &Arc<DiffModel>)
        requires
            old(self).wf(),
            (**model)@ == compared(old(self)@.sources, key),
        ensures
            final(self).wf(),
            final(self)@ == old(self)@,
    {
        reveal(App::wf);
        reveal(App::model);
        reveal(diff_faithful);
        self.diff_cache = Some((key, share(model)));
    }

    /// The comparison that is shown. It is kept until one of its sides
    /// changes.
    pub fn diff_model(&mut self) -> (model: Option<Arc<DiffModel>>)
        requires
            old(self).wf(),
        ensures
            final(self).wf(),
            final(self)@ == old(self)@.diff_noted(),
            match model {
                Some(m) => old(self)@.diff_shown() == Some((*m)@),
                None => old(self)@.diff_shown() is None,
            },
    {
        let key: DiffKey = match self.diff_key() {
            Some(key) => key,
            None => {
                return None;
            },
        };
        if is_oversized(self.source_at(key.left.source).index.compilation(key.left.comp))
            || is_oversized(self.source_at(key.right.source).index.compilation(key.right.comp)) {
            self.say("section too large to diff");
            return None;
        }
        if let Some(model) = self.kept_diff(key) {
            return Some(model);
        }
        let model = Arc::new(self.compare(key));
        self.keep_diff(key, &model);
        Some(model)
    }

    /// How many rows the cursor ranges over.
    pub(crate) fn viewport_len(&mut self) -> (n: usize)
        requires
            old(self).wf(),
        ensures
            final(self).wf(),
            final(self)@ == old(self)@.diff_noted(),
            n == old(self)@.viewport_rows(),
    {
        if let Some(model) = self.diff_model() {
            return model.rows.len();
        }
        proof {
            reveal(AppModel::say);
            super::views::lemma_same_sections(old(self)@, self@, self@.selected);
        }
        let vm = self.view_model();
        vm.len()
    }

    fn offered_pair(&self, row: Option<Row>) -> (pair: Result<(usize, usize, usize), &'static str>)
        requires
            self.wf(),
            row matches Some(r) ==> row_exists(self@.source(), r),
        ensures
            match pair {
                Ok((c, l, r)) => self@.offered_pair(row) == Ok::<(int, int, int), Seq<char>>(
                    (c as int, l as int, r as int),
                ) && c < self@.compilations().len(),
                Err(e) => self@.offered_pair(row) == Err::<(int, int, int), Seq<char>>(e@),
            },
    {
        match row {
            Some(Row::Phase { comp, phase }) => {
                let section = self.active_source().index.compilation(comp);
                if !is_graph(section, phase) {
                    return Err("diff needs a graph phase (this is a dump section)");
                }
                match find_last_graph(section, phase) {
                    Some(p) => Ok((comp, p, phase)),
                    None => Err("no earlier graph phase to diff against"),
                }
            },
            Some(Row::Compilation(comp)) => self.whole_pair(comp),
            Some(Row::Function { name_comp, .. }) => self.whole_pair(name_comp),
            _ => Err("diff works on compilations and their graph phases"),
        }
    }

    fn whole_pair(&self, comp: usize) -> (pair: Result<(usize, usize, usize), &'static str>)
        requires
            self.wf(),
            comp < self@.compilations().len(),
        ensures
            match pair {
                Ok((c, l, r)) => self@.whole_pair(comp as int) == Ok::<
                    (int, int, int),
                    Seq<char>,
                >((c as int, l as int, r as int)) && c < self@.compilations().len(),
                Err(e) => self@.whole_pair(comp as int) == Err::<(int, int, int), Seq<char>>(e@),
            },
    {
        let section = self.active_source().index.compilation(comp);
        let first = find_first_graph(section);
        let last = find_last_graph(section, section.phases.len());
        match (first, last) {
            (Some(a), Some(b)) => if a == b {
                Err("only one graph phase — nothing to diff against")
            } else {
                Ok((comp, a, b))
            },
            _ => Err("no graph phases in this compilation"),
        }
    }

    fn open_comp(&mut self, comp: usize)
        requires
            old(self).wf(),
            comp < old(self)@.compilations().len(),
        ensures
            final(self).wf(),
            final(self)@ == old(self)@.comp_opened(comp as int),
    {
        proof {
            self.lemma_fields();
        }
        let sfi: u64 = self.active_source().index.compilation(comp).key.sfi.0;
        let grouped: bool = self.grouped;
        self.expand_comp(comp);
        if grouped {
            self.expand_group(sfi);
        }
    }

    fn auto_split_for_diff(&mut self) -> (found: bool)
        requires
            old(self).wf(),
        ensures
            final(self).wf(),
            (final(self)@, found) == old(self)@.auto_split(),
    {
        proof {
            self.lemma_fields();
        }
        let row = self.row_at(self.selected);
        let (comp, left, right) = match self.offered_pair(row) {
            Ok(pair) => pair,
            Err(message) => {
                self.say(message);
                return false;
            },
        };
        match row {
            Some(Row::Phase { .. }) => {},
            _ => {
                self.open_comp(comp);
            },
        }
        let rows = self.rows();
        let l = find_place(&rows, Row::Phase { comp, phase: left });
        let r = find_place(&rows, Row::Phase { comp, phase: right });
        match (l, r) {
            (Some(l), Some(r)) => {
                self.set_split(Some(SplitDir::Vertical));
                self.set_other_view(ViewState { selected: l, cursor: 0, top: 0, scroll_x: 0 });
                self.set_selected(r);
                self.set_active_pane(1);
                true
            },
            _ => {
                self.say("could not locate the phase rows");
                false
            },
        }
    }

    fn start_diff(&mut self)
        requires
            old(self).wf(),
        ensures
            final(self).wf(),
            final(self)@ == old(self)@.diff_on(),
    {
        let left = self.pane_phase(self.pane_state(0).selected);
        let right = self.pane_phase(self.pane_state(1).selected);
        if left.is_none() || right.is_none() {
            self.say(
                "diff needs a graph phase selected in each pane (Enter expands a compilation)",
            );
            return ;
        }
        self.set_diff(true);
        self.set_cursor(0);
        self.set_top(0);
        self.set_cycle(None);
        self.set_follow(false);
        self.set_focus(Pane::Viewport);
        if let Some(model) = self.diff_model() {
            let mut message = text::owned("diff: ");
            message.append(model.summary.describe().as_str());
            self.say_text(message);
        }
    }

    fn stop_diff(&mut self)
        requires
            old(self).wf(),
        ensures
            final(self).wf(),
            final(self)@ == old(self)@.diff_off(),
    {
        self.set_diff(false);
        self.set_dual(None);
        self.say("diff off");
    }

    /// Switches the comparison on or off.
    pub(crate) fn toggle_diff(&mut self)
        requires
            old(self).wf(),
        ensures
            final(self).wf(),
            final(self)@ == old(self)@.diff_toggled(),
    {
        reveal(AppModel::diff_toggled);
        proof {
            self.lemma_fields();
        }
        if self.diff {
            self.stop_diff();
            return ;
        }
        if self.split.is_none() && !self.auto_split_for_diff() {
            return ;
        }
        self.start_diff();
    }

    /// The compilation that the viewport shows as rows.
    pub(crate) fn current_comp(&mut self) -> (comp: Option<usize>)
        requires
            old(self).wf(),
        ensures
            final(self).wf(),
            final(self)@ == old(self)@,
            text::pos(comp) == old(self)@.current_comp(),
            comp matches Some(c) ==> c < old(self)@.compilations().len(),
    {
        proof {
            self.lemma_fields();
        }
        let row = self.row_at(self.selected);
        let vm = self.view_model();
        proof {
            if let Some(r) = row {
                assert(row_exists(self@.source(), r));
            }
        }
        match vm {
            crate::view::ViewModel::Modeled { comp, .. } => Some(comp),
            crate::view::ViewModel::Plain { .. } => None,
        }
    }

    fn find_counterpart(&self, section: &CompilationSection, other: usize) -> (at: Option<usize>)
        requires
            self.wf(),
            other < self@.sources.len(),
        ensures
            ({
                let comps = self@.sources[other as int].index.compilations;
                &&& text::pos(at) == counterpart(comps, section@, comps.len() as int)
                &&& at matches Some(c) ==> c < comps.len()
            }),
    {
        let index = &self.source_at(other).index;
        let ghost comps = index@.compilations;
        let count: usize = index.compilation_count();
        let mut best: Option<usize> = None;
        let mut n: usize = 0;
        while n < count
            invariant
                n <= count,
                count == comps.len(),
                comps == index@.compilations,
                best matches Some(b) ==> b < n,
                text::pos(best) == counterpart(comps, section@, n as int),
            decreases count - n,
        {
            let c = index.compilation(n);
            if c.name == section.name && c.key.tier.same(&section.key.tier) && !c.filtered_out {
                best = match best {
                    None => Some(n),
                    Some(b) => {
                        let kept = index.compilation(b);
                        let same: bool = c.key.ordinal == section.key.ordinal;
                        let best_same: bool = kept.key.ordinal == section.key.ordinal;
                        if (same && !best_same) || (same == best_same && c.key.ordinal
                            >= kept.key.ordinal) {
                            Some(n)
                        } else {
                            Some(b)
                        }
                    },
                };
            }
            n += 1;
        }
        best
    }

    fn picked_phase(&self, comp: usize) -> (phase: Option<usize>)
        requires
            self.wf(),
            comp < self@.compilations().len(),
        ensures
            text::pos(phase) == self@.picked_phase(comp as int),
            phase matches Some(p) ==> p < self@.compilations()[comp as int].phases.len(),
    {
        proof {
            self.lemma_fields();
        }
        match self.pane_phase(self.selected) {
            Some((c, p)) => if c == comp {
                Some(p)
            } else {
                None
            },
            None => None,
        }
    }

    fn diff_with_run(&mut self, comp: usize, picked: Option<usize>, other: usize)
        requires
            old(self).wf(),
            comp < old(self)@.compilations().len(),
            picked matches Some(p) ==> p < old(self)@.compilations()[comp as int].phases.len(),
            other < old(self)@.sources.len(),
        ensures
            final(self).wf(),
            final(self)@ == old(self)@.dual_with(comp as int, text::pos(picked), other),
    {
        proof {
            self.lemma_fields();
        }
        let active: usize = self.active;
        let section = self.active_source().index.compilation(comp);
        let run = self.source_at(other);
        let other_comp: usize = match self.find_counterpart(section, other) {
            Some(c) => c,
            None => {
                let mut message = run.label.clone();
                message.append(" has no ");
                message.append(section.display_name());
                message.append(" ");
                message.append(section.key.tier.label());
                message.append(" compilation");
                self.say_text(message);
                return ;
            },
        };
        let other_section = run.index.compilation(other_comp);
        let (phase, other_phase): (usize, usize) = match find_dual(section, picked, other_section) {
            (Some(p), Some(q)) => (p, q),
            _ => {
                let mut message = run.label.clone();
                message.append("'s ");
                message.append(other_section.display_name());
                message.append(" has no graph phase to diff");
                self.say_text(message);
                return ;
            },
        };
        let mut message = text::owned("dual-run diff: ");
        message.append(run.label.as_str());
        message.append(" ⇄ ");
        message.append(self.active_source().label.as_str());
        message.append(" — d closes");
        let left = DualSide { source: other, comp: other_comp, phase: other_phase };
        let right = DualSide { source: active, comp, phase };
        self.set_source_pane(None);
        self.set_split(Some(SplitDir::Vertical));
        self.set_diff(true);
        self.set_dual(Some((left, right)));
        self.set_cursor(0);
        self.set_top(0);
        self.say_text(message);
    }

    /// Compares the function in view with the other run, or switches the
    /// comparison off.
    pub(crate) fn dual_diff_run(&mut self)
        requires
            old(self).wf(),
        ensures
            final(self).wf(),
            final(self)@ == old(self)@.dual_toggled(),
    {
        reveal(AppModel::dual_toggled);
        proof {
            self.lemma_fields();
            self.lemma_wf();
        }
        if self.diff {
            self.stop_diff();
            return ;
        }
        let count: usize = self.source_count();
        if count < 2 {
            self.say("dual-run diff needs two sources (garage a.log b.log)");
            return ;
        }
        let active: usize = self.active;
        let other: usize = if active + 1 < count {
            active + 1
        } else {
            0
        };
        proof {
            let n = count as int;
            if active + 1 < n {
                assert((active + 1) % n == active + 1) by (nonlinear_arith)
                    requires
                        0 <= active + 1 < n,
                ;
            } else {
                assert(n % n == 0) by (nonlinear_arith)
                    requires
                        n > 0,
                ;
            }
        }
        let comp: usize = match self.current_comp() {
            Some(comp) => comp,
            None => {
                self.say("dual-run diff needs a compilation in view");
                return ;
            },
        };
        let section = self.active_source().index.compilation(comp);
        if find_last_graph(section, section.phases.len()).is_none() {
            self.say("no graph phase to diff in this compilation");
            return ;
        }
        let picked = self.picked_phase(comp);
        self.diff_with_run(comp, picked, other);
    }
}

} // verus!
