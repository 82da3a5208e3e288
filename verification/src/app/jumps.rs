//! Search, jumps to a line and the history of jumps.

use vstd::prelude::*;
#[allow(unused_imports)]
use vstd::string::*;

use super::moves::find_header;
#[allow(unused_imports)]
use super::moves::{header_before, less_one, lines_up_to};
use super::views::row_showing;
#[allow(unused_imports)]
use super::views::showing;
#[allow(unused_imports)]
use super::{AppModel, SourceModel};
use super::{App, Jump, Pane};
use crate::diff::{DiffModel, DiffSide};
#[allow(unused_imports)]
use crate::diff::{side::SideModel, DiffView};
#[allow(unused_imports)]
use crate::model::{CompilationModel, ParsedModel};
#[allow(unused_imports)]
use crate::parse::compilation::law_phases_mirror_the_index;
use crate::pattern::Pattern;
#[allow(unused_imports)]
use crate::pattern::regex_found;
use crate::source::LogBuffer;
#[allow(unused_imports)]
use crate::source::LogModel;
use crate::text;
#[allow(unused_imports)]
use crate::text::decimal;
use crate::view::{FoldKey, ViewModel};
#[allow(unused_imports)]
use crate::view::ViewContents;

verus! {

// ---------------------------------------------------------------------------
// Search
// ---------------------------------------------------------------------------

/// The row after `at` in one direction, around the end.
pub open spec fn next_row(at: int, forward: bool, n: int) -> int {
    let next = if forward {
        at + 1
    } else {
        at - 1
    };
    if next < 0 {
        n - 1
    } else if next >= n {
        0
    } else {
        next
    }
}

fn step_row(at: usize, forward: bool, n: usize) -> (next: usize)
    requires
        n > 0,
    ensures
        next == next_row(at as int, forward, n as int),
        next < n,
{
    if forward {
        if at < n - 1 {
            at + 1
        } else {
            0
        }
    } else if at == 0 {
        n - 1
    } else if at - 1 >= n {
        0
    } else {
        at - 1
    }
}

/// A pattern matches a line.
pub open spec fn line_matched(buffer: LogModel, line: int, pattern: Seq<char>) -> bool {
    regex_found(pattern, buffer.line_chars(line))
}

fn line_matches(buffer: &LogBuffer, line: usize, pattern: &Pattern) -> (yes: bool)
    requires
        buffer.wf(),
    ensures
        yes == line_matched(buffer@, line as int, pattern@),
{
    let chars = buffer.line_text(line);
    pattern.is_match(chars.as_str())
}

/// A row of a view matches.
pub open spec fn row_matched(
    vm: ViewContents,
    buffer: LogModel,
    pattern: Seq<char>,
    at: int,
) -> bool {
    line_matched(buffer, vm.row_at(at).line as int, pattern)
}

/// The next of `left` rows after `at` that matches.
pub open spec fn search_view(
    vm: ViewContents,
    buffer: LogModel,
    pattern: Seq<char>,
    at: int,
    forward: bool,
    left: int,
) -> Option<int>
    decreases left,
{
    if left <= 0 {
        None
    } else {
        let next = next_row(at, forward, vm.rows_len());
        if row_matched(vm, buffer, pattern, next) {
            Some(next)
        } else {
            search_view(vm, buffer, pattern, next, forward, left - 1)
        }
    }
}

/// One half of an aligned row matches, in the source that it comes from.
pub open spec fn half_matched(
    sources: Seq<SourceModel>,
    side: SideModel,
    at: Option<usize>,
    pattern: Seq<char>,
) -> bool {
    at matches Some(k) && k < side.rows.len() && side.source < sources.len() && line_matched(
        sources[side.source].buffer,
        side.rows[k as int].line as int,
        pattern,
    )
}

/// An aligned row matches on either side.
pub open spec fn pair_matched(
    sources: Seq<SourceModel>,
    view: DiffView,
    pattern: Seq<char>,
    at: int,
) -> bool {
    half_matched(sources, view.left, view.rows[at].left, pattern) || half_matched(
        sources,
        view.right,
        view.rows[at].right,
        pattern,
    )
}

/// The next of `left` aligned rows after `at` that matches.
pub open spec fn search_diff(
    sources: Seq<SourceModel>,
    view: DiffView,
    pattern: Seq<char>,
    at: int,
    forward: bool,
    left: int,
) -> Option<int>
    decreases left,
{
    if left <= 0 {
        None
    } else {
        let next = next_row(at, forward, view.rows.len() as int);
        if pair_matched(sources, view, pattern, next) {
            Some(next)
        } else {
            search_diff(sources, view, pattern, next, forward, left - 1)
        }
    }
}

impl AppModel {
    /// The cursor goes to the next row that matches the search, around the
    /// end.
    #[verifier::opaque]
    pub open spec fn searched(self, forward: bool) -> AppModel {
        match self.search {
            None => self.say("no search — press /"@),
            Some(pattern) => {
                let focused = self.with_focus(Pane::Viewport);
                let noted = focused.diff_noted();
                match focused.diff_shown() {
                    Some(view) => {
                        let n = view.rows.len() as int;
                        if n == 0 {
                            noted
                        } else {
                            match search_diff(
                                noted.sources,
                                view,
                                pattern,
                                noted.cursor as int,
                                forward,
                                n,
                            ) {
                                Some(at) => noted.with_cursor(at as usize).with_cycle(None).say(
                                    "match at diff row "@ + decimal(at + 1),
                                ),
                                None => noted.say("no match for "@ + pattern),
                            }
                        }
                    },
                    None => {
                        let vm = noted.shown();
                        let n = vm.rows_len();
                        let buffer = noted.source().buffer;
                        if n == 0 {
                            noted
                        } else {
                            match search_view(
                                vm,
                                buffer,
                                pattern,
                                noted.cursor as int,
                                forward,
                                n,
                            ) {
                                Some(at) => noted.with_cursor(at as usize).with_follow(
                                    false,
                                ).with_cycle(None).say(
                                    "match at L"@ + decimal(vm.row_at(at).line + 1),
                                ),
                                None => noted.say("no match for "@ + pattern),
                            }
                        }
                    },
                }
            },
        }
    }
}

/// Appends `n + 1` in decimal.
pub(crate) fn push_counted(out: &mut String, n: usize)
    ensures
        final(out)@ == old(out)@ + decimal(n + 1),
{
    if n < usize::MAX {
        text::push_decimal(out, n + 1);
    } else {
        let big: u128 = n as u128 + 1;
        push_big(out, big);
    }
}

pub(crate) fn push_big(out: &mut String, n: u128)
    ensures
        final(out)@ == old(out)@ + decimal(n as int),
    decreases n,
{
    if n < 10 {
        let small: u64 = n as u64;
        text::push_number(out, small, 10);
    } else {
        push_big(out, n / 10);
        let ghost mid = out@;
        text::push_number(out, (n % 10) as u64, 10);
        proof {
            let d = (n % 10) as nat;
            assert(text::written(d, 10) == seq![text::digit_char(d as int)]);
            assert(out@ =~= old(out)@ + decimal((n / 10) as int).push(text::digit_char(d as int)));
        }
    }
}

impl App {
    fn half_hits(&self, side: &DiffSide, at: Option<usize>, pattern: &Pattern) -> (yes: bool)
        requires
            self.wf(),
        ensures
            yes == half_matched(self@.sources, side@, at, pattern@),
    {
        match at {
            Some(k) => if k < side.rows.len() && side.source < self.source_count() {
                line_matches(
                    &self.source_at(side.source).buffer,
                    side.rows[k].line,
                    pattern,
                )
            } else {
                false
            },
            None => false,
        }
    }

    fn find_in_diff(
        &self,
        model: &DiffModel,
        pattern: &Pattern,
        from: usize,
        forward: bool,
    ) -> (at: Option<usize>)
        requires
            self.wf(),
            model.rows@.len() > 0,
        ensures
            text::pos(at) == search_diff(
                self@.sources,
                model@,
                pattern@,
                from as int,
                forward,
                model.rows@.len() as int,
            ),
    {
        let n: usize = model.rows.len();
        let mut at: usize = from;
        let mut left: usize = n;
        while left > 0
            invariant
                self.wf(),
                n == model.rows@.len(),
                n > 0,
                left <= n,
                search_diff(self@.sources, model@, pattern@, from as int, forward, n as int)
                    == search_diff(
                    self@.sources,
                    model@,
                    pattern@,
                    at as int,
                    forward,
                    left as int,
                ),
            decreases left,
        {
            at = step_row(at, forward, n);
            let row = model.rows[at];
            if self.half_hits(&model.left, row.left, pattern) || self.half_hits(
                &model.right,
                row.right,
                pattern,
            ) {
                return Some(at);
            }
            left -= 1;
        }
        None
    }

    fn find_in_view(
        &self,
        vm: &ViewModel,
        pattern: &Pattern,
        from: usize,
        forward: bool,
    ) -> (at: Option<usize>)
        requires
            self.wf(),
            vm@.rows_len() > 0,
        ensures
            text::pos(at) == search_view(
                vm@,
                self@.source().buffer,
                pattern@,
                from as int,
                forward,
                vm@.rows_len(),
            ),
            at matches Some(k) ==> k < vm@.rows_len(),
    {
        let buffer = &self.active_source().buffer;
        let n: usize = vm.len();
        let mut at: usize = from;
        let mut left: usize = n;
        while left > 0
            invariant
                self.wf(),
                buffer.wf(),
                buffer@ == self@.source().buffer,
                n == vm@.rows_len(),
                n > 0,
                left <= n,
                search_view(vm@, buffer@, pattern@, from as int, forward, n as int) == search_view(
                    vm@,
                    buffer@,
                    pattern@,
                    at as int,
                    forward,
                    left as int,
                ),
            decreases left,
        {
            at = step_row(at, forward, n);
            if let Some(line) = vm.line_at(at) {
                if line_matches(buffer, line, pattern) {
                    return Some(at);
                }
            }
            left -= 1;
        }
        None
    }

    fn search_in_diff(&mut self, model: &DiffModel, pattern: &Pattern, forward: bool)
        requires
            old(self).wf(),
            model.rows@.len() > 0,
        ensures
            final(self).wf(),
            final(self)@ == match search_diff(
                old(self)@.sources,
                model@,
                pattern@,
                old(self)@.cursor as int,
                forward,
                model.rows@.len() as int,
            ) {
                Some(at) => old(self)@.with_cursor(at as usize).with_cycle(None).say(
                    "match at diff row "@ + decimal(at + 1),
                ),
                None => old(self)@.say("no match for "@ + pattern@),
            },
    {
        proof {
            self.lemma_fields();
        }
        match self.find_in_diff(model, pattern, self.cursor, forward) {
            Some(at) => {
                self.set_cursor(at);
                self.set_cycle(None);
                let mut message = text::owned("match at diff row ");
                push_counted(&mut message, at);
                self.say_text(message);
            },
            None => {
                let mut message = text::owned("no match for ");
                message.append(pattern.as_str());
                self.say_text(message);
            },
        }
    }

    fn search_in_view(&mut self, pattern: &Pattern, forward: bool)
        requires
            old(self).wf(),
        ensures
            final(self).wf(),
            final(self)@ == ({
                let vm = old(self)@.shown();
                if vm.rows_len() == 0 {
                    old(self)@
                } else {
                    match search_view(
                        vm,
                        old(self)@.source().buffer,
                        pattern@,
                        old(self)@.cursor as int,
                        forward,
                        vm.rows_len(),
                    ) {
                        Some(at) => old(self)@.with_cursor(at as usize).with_follow(
                            false,
                        ).with_cycle(None).say(
                            "match at L"@ + decimal(vm.row_at(at).line + 1),
                        ),
                        None => old(self)@.say("no match for "@ + pattern@),
                    }
                }
            }),
    {
        let vm = self.view_model();
        if vm.len() == 0 {
            return ;
        }
        proof {
            self.lemma_fields();
        }
        match self.find_in_view(&vm, pattern, self.cursor, forward) {
            Some(at) => {
                self.set_cursor(at);
                self.set_follow(false);
                self.set_cycle(None);
                let mut message = text::owned("match at L");
                if let Some(line) = vm.line_at(at) {
                    push_counted(&mut message, line);
                }
                self.say_text(message);
            },
            None => {
                let mut message = text::owned("no match for ");
                message.append(pattern.as_str());
                self.say_text(message);
            },
        }
    }

    /// Moves the cursor to the next row that matches the search, around the
    /// end.
    pub(crate) fn search_step(&mut self, forward: bool)
        requires
            old(self).wf(),
        ensures
            final(self).wf(),
            final(self)@ == old(self)@.searched(forward),
    {
        reveal(AppModel::searched);
        proof {
            self.lemma_fields();
        }
        let pattern: Pattern = match &self.search {
            Some(p) => p.duplicate(),
            None => {
                self.say("no search — press /");
                return ;
            },
        };
        self.set_focus(Pane::Viewport);
        match self.diff_model() {
            Some(model) => {
                if model.rows.len() > 0 {
                    self.search_in_diff(&*model, &pattern, forward);
                }
            },
            None => {
                self.search_in_view(&pattern, forward);
            },
        }
    }
}

// ---------------------------------------------------------------------------
// Jumps to a line
// ---------------------------------------------------------------------------

/// The folded blocks without those of the first `n` phases that hide a line.
pub open spec fn revealed(
    folded: Set<FoldKey>,
    active: usize,
    comp: usize,
    section: CompilationModel,
    parsed: ParsedModel,
    line: int,
    n: int,
) -> Set<FoldKey>
    decreases n,
{
    if n <= 0 {
        folded
    } else {
        let before = revealed(folded, active, comp, section, parsed, line, n - 1);
        let phase = section.phases[n - 1];
        let infos = parsed.phases[n - 1].infos;
        if phase.start <= line < phase.end {
            match header_before(infos, lines_up_to(infos, line - phase.start)) {
                Some((_, block)) => before.remove((active, comp, (n - 1) as usize, block)),
                None => before,
            }
        } else {
            before
        }
    }
}

impl AppModel {
    /// The cursor goes to the row that shows a line, where one does.
    pub open spec fn placed(self, line: int) -> Option<AppModel> {
        match showing(self.shown(), line) {
            Some(r) => Some(self.with_cursor(r as usize).with_follow(false)),
            None => None,
        }
    }

    /// The blocks that hide a line are unfolded.
    pub open spec fn line_unfolded(self, line: int) -> AppModel {
        match self.shown() {
            ViewContents::Plain { .. } => self,
            ViewContents::Modeled { parsed, comp, .. } => {
                let section = self.compilations()[comp];
                self.with_folded(
                    revealed(
                        self.folded,
                        self.active,
                        comp as usize,
                        section,
                        parsed,
                        line,
                        section.phases.len() as int,
                    ),
                )
            },
        }
    }

    /// The cursor goes to a line, and whatever hides the line is undone:
    /// first the fold of its block, then the lens, then the collapsing of
    /// annotations.
    #[verifier::opaque]
    pub open spec fn gone_to(self, line: int) -> AppModel {
        match self.placed(line) {
            Some(done) => done,
            None => {
                let unfolded = self.line_unfolded(line);
                match unfolded.placed(line) {
                    Some(done) => done,
                    None => if unfolded.lens is Some {
                        let plain = unfolded.with_lens(None).say("lens cleared by jump"@);
                        match plain.placed(line) {
                            Some(done) => done,
                            None => plain.annotated(line),
                        }
                    } else {
                        unfolded.annotated(line)
                    },
                }
            },
        }
    }

    /// Annotations are shown, and the cursor goes to a line.
    pub open spec fn annotated(self, line: int) -> AppModel {
        let shown = self.with_show_annotations(true);
        match shown.placed(line) {
            Some(done) => done,
            None => shown,
        }
    }

    /// The place that the viewport is at.
    pub open spec fn here(self) -> Jump {
        Jump {
            timeline: self.timeline,
            selected: self.selected,
            line: if self.cursor < self.shown().rows_len() {
                self.shown().row_at(self.cursor as int).line
            } else {
                0
            },
        }
    }

    /// The place is noted.
    pub open spec fn history_pushed(self) -> AppModel {
        self.jump_pushed(self.here())
    }

    /// The place that is left is noted, where it is the newest.
    pub open spec fn newest_noted(self) -> AppModel {
        if self.jump_at == self.jumps.len() {
            self.with_jumps(self.jumps.push(self.here()))
        } else {
            self
        }
    }

    /// The viewport goes to a noted place. The list that is left keeps its
    /// selection.
    pub open spec fn jump_restored(self, jump: Jump) -> AppModel {
        let listed = if jump.timeline != self.timeline {
            self.with_timeline_selected(self.selected).with_timeline(jump.timeline)
        } else {
            self
        };
        let last = less_one(listed.rows().len() as int);
        listed.with_selected(
            (if jump.selected < last {
                jump.selected as int
            } else {
                last
            }) as usize,
        ).gone_to(jump.line as int).with_follow(false).with_cycle(None)
    }

    /// The viewport goes back or forward in the history.
    #[verifier::opaque]
    pub open spec fn history_stepped(self, forward: bool) -> AppModel {
        if self.diff {
            self.say("jump history is off in diff view (d to leave)"@)
        } else if !forward {
            if self.jump_at == 0 {
                self.say("at oldest jump"@)
            } else {
                let noted = self.newest_noted();
                let at = (self.jump_at - 1) as usize;
                noted.with_jump_at(at).jump_restored(noted.jumps[at as int])
            }
        } else if self.jump_at + 1 >= self.jumps.len() {
            self.say("at newest jump"@)
        } else {
            let at = (self.jump_at + 1) as usize;
            self.with_jump_at(at).jump_restored(self.jumps[at as int])
        }
    }
}

impl App {
    fn place_on(&mut self, line: usize) -> (done: bool)
        requires
            old(self).wf(),
        ensures
            final(self).wf(),
            match old(self)@.placed(line as int) {
                Some(state) => done && final(self)@ == state,
                None => !done && final(self)@ == old(self)@,
            },
    {
        let vm = self.view_model();
        match row_showing(&vm, line) {
            Some(row) => {
                self.set_cursor(row);
                self.set_follow(false);
                true
            },
            None => false,
        }
    }

    fn unfold_line(&mut self, line: usize)
        requires
            old(self).wf(),
        ensures
            final(self).wf(),
            final(self)@ == old(self)@.line_unfolded(line as int),
    {
        proof {
            self.lemma_fields();
            self.lemma_wf();
        }
        let active: usize = self.active;
        let comp: usize = match self.current_comp() {
            Some(comp) => comp,
            None => {
                return ;
            },
        };
        let parsed = self.parse(active, comp);
        let ghost section = self@.compilations()[comp as int];
        let ghost model = (*parsed)@;
        proof {
            self.lemma_wf();
            law_phases_mirror_the_index(self@.source().buffer, section);
        }
        let count: usize = self.active_source().index.compilation(comp).phases.len();
        let mut n: usize = 0;
        proof {
            reveal(AppModel::with_folded);
        }
        while n < count
            invariant
                self.wf(),
                n <= count,
                count == section.phases.len(),
                count == parsed.phases@.len(),
                model == (*parsed)@,
                comp < self@.compilations().len(),
                self@.compilations()[comp as int] == section,
                active == old(self)@.active,
                self@ == old(self)@.with_folded(
                    revealed(
                        old(self)@.folded,
                        active,
                        comp,
                        section,
                        model,
                        line as int,
                        n as int,
                    ),
                ),
            decreases count - n,
        {
            proof {
                reveal(AppModel::with_folded);
            }
            let found = self.active_source().index.compilation(comp);
            assert(found@.phases[n as int] == found.phases@[n as int]@);
            let lines = &found.phases[n].lines;
            if lines.start <= line && line < lines.end {
                assert(model.phases[n as int] == parsed.phases@[n as int]@);
                if let Some((_, block)) = find_header(&parsed.phases[n].infos, line - lines.start) {
                    self.unfold(&(active, comp, n, block));
                }
            }
            n += 1;
        }
    }

    /// Moves the cursor to a line and undoes whatever hides it.
    pub fn goto_line(&mut self, line: usize)
        requires
            old(self).wf(),
        ensures
            final(self).wf(),
            final(self)@ == old(self)@.gone_to(line as int),
    {
        reveal(AppModel::gone_to);
        if self.place_on(line) {
            return ;
        }
        self.unfold_line(line);
        if self.place_on(line) {
            return ;
        }
        proof {
            self.lemma_fields();
        }
        if self.lens.is_some() {
            self.set_lens(None);
            self.say("lens cleared by jump");
            if self.place_on(line) {
                return ;
            }
        }
        self.set_show_annotations(true);
        let _ = self.place_on(line);
    }

    fn history_position(&mut self) -> (jump: Jump)
        requires
            old(self).wf(),
        ensures
            final(self).wf(),
            final(self)@ == old(self)@,
            jump == old(self)@.here(),
    {
        let vm = self.view_model();
        proof {
            self.lemma_fields();
        }
        let line: usize = match vm.line_at(self.cursor) {
            Some(line) => line,
            None => 0,
        };
        Jump { timeline: self.timeline, selected: self.selected, line }
    }

    /// Notes the place that the viewport is at.
    pub(crate) fn push_history(&mut self)
        requires
            old(self).wf(),
        ensures
            final(self).wf(),
            final(self)@ == old(self)@.history_pushed(),
    {
        let here = self.history_position();
        self.push_jump(here);
    }

    fn restore_jump(&mut self, jump: Jump)
        requires
            old(self).wf(),
        ensures
            final(self).wf(),
            final(self)@ == old(self)@.jump_restored(jump),
    {
        proof {
            self.lemma_fields();
        }
        if jump.timeline != self.timeline {
            let selected: usize = self.selected;
            self.set_timeline_selected(selected);
            self.set_timeline(jump.timeline);
        }
        let n: usize = self.rows().len();
        let last: usize = if n > 0 {
            n - 1
        } else {
            0
        };
        self.set_selected(
            if jump.selected < last {
                jump.selected
            } else {
                last
            },
        );
        self.goto_line(jump.line);
        self.set_follow(false);
        self.set_cycle(None);
    }

    /// Goes back or forward in the history.
    pub(crate) fn history_step(&mut self, forward: bool)
        requires
            old(self).wf(),
        ensures
            final(self).wf(),
            final(self)@ == old(self)@.history_stepped(forward),
    {
        reveal(AppModel::history_stepped);
        proof {
            self.lemma_fields();
            self.lemma_wf();
        }
        if self.diff {
            self.say("jump history is off in diff view (d to leave)");
            return ;
        }
        let at: usize = self.jump_at;
        if !forward {
            if at == 0 {
                self.say("at oldest jump");
                return ;
            }
            if at == self.jumps.len() {
                let here = self.history_position();
                self.add_jump(here);
            }
            proof {
                reveal(AppModel::with_jumps);
                self.lemma_fields();
            }
            let jump: Jump = self.jumps[at - 1];
            self.set_jump_at(at - 1);
            self.restore_jump(jump);
        } else {
            if at >= self.jumps.len() || at + 1 >= self.jumps.len() {
                self.say("at newest jump");
                return ;
            }
            let jump: Jump = self.jumps[at + 1];
            self.set_jump_at(at + 1);
            self.restore_jump(jump);
        }
    }
}

} // verus!
