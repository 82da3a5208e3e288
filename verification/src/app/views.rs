//! What the viewport shows.

use std::ops::Range;
use std::sync::Arc;
use vstd::prelude::*;
#[allow(unused_imports)]
use vstd::string::*;

use super::{App, Row};
#[allow(unused_imports)]
use super::{source_models, AppModel, SourceModel};
use crate::model::{EventKind, IRNode, LineInfo, ParsedCompilation};
#[allow(unused_imports)]
use crate::model::{CompilationModel, LineModel, NodeModel, SCHEDULE_ONLY};
use crate::parse::cache::ParseCache;
#[allow(unused_imports)]
use crate::parse::compilation::parsed_compilation;
use crate::view::{model_rows, ViewModel, ViewRow, MODEL_LIMIT};
#[allow(unused_imports)]
use crate::view::{modeled_rows, span_len, RowRules, ViewContents};

verus! {

/// The line after `line`.
pub open spec fn line_after(line: int) -> int {
    if line < usize::MAX {
        line + 1
    } else {
        line
    }
}

fn next_line(line: usize) -> (next: usize)
    ensures
        next == line_after(line as int),
{
    if line < usize::MAX {
        line + 1
    } else {
        line
    }
}

/// The last of the first `n` starts that is not behind `line`.
pub open spec fn last_start(starts: Seq<int>, line: int, n: int) -> Option<int>
    decreases n,
{
    if n <= 0 {
        None
    } else if starts[n - 1] <= line {
        Some(n - 1)
    } else {
        last_start(starts, line, n - 1)
    }
}

/// The first place at or after `i` where a bailout ends.
pub open spec fn bailout_end(source: SourceModel, i: int) -> Option<int>
    decreases source.index.events.len() - i,
{
    if i < 0 || i >= source.index.events.len() {
        None
    } else if source.index.events[i].1 is DeoptEnd {
        Some(source.index.events[i].0)
    } else {
        bailout_end(source, i + 1)
    }
}

impl AppModel {
    /// The raw section, or else the compilation, that a line lies in.
    pub open spec fn enclosing(self, line: int) -> Option<(int, int)> {
        let raw = self.source().index.raw;
        let comps = self.compilations();
        let r = last_start(raw.map_values(|s: crate::model::RawModel| s.start), line, raw.len() as int);
        let c = last_start(
            comps.map_values(|s: CompilationModel| s.start),
            line,
            comps.len() as int,
        );
        if r is Some && line < raw[r->0].end {
            Some((raw[r->0].start, raw[r->0].end))
        } else if c is Some && line < comps[c->0].end {
            Some((comps[c->0].start, comps[c->0].end))
        } else {
            None
        }
    }

    /// What is shown for an event: for a deoptimisation the whole bailout
    /// block, for anything else the section around it. A line that no section
    /// holds yet counts as the start of one that reaches as far as the index.
    pub open spec fn event_range(self, ev: int) -> (int, int) {
        let source = self.source();
        let (line, kind) = source.index.events[ev];
        let section = match self.enclosing(line) {
            Some(s) => s,
            None => (
                line,
                if source.index.next_line > line_after(line) {
                    source.index.next_line
                } else {
                    line_after(line)
                },
            ),
        };
        if kind is DeoptBegin {
            let found = match bailout_end(source, ev + 1) {
                Some(l) => line_after(l),
                None => section.1,
            };
            let end = if found < section.1 {
                found
            } else {
                section.1
            };
            (
                line,
                if end > line_after(line) {
                    end
                } else {
                    line_after(line)
                },
            )
        } else {
            section
        }
    }

    /// What decides the rows of a compilation.
    pub open spec fn rules(self, comp: int, first: int, end: int) -> RowRules {
        let section = self.compilations()[comp];
        RowRules {
            first,
            end,
            source: self.active,
            comp: comp as usize,
            folded: self.folded,
            show_annotations: self.show_annotations,
            lens: self.lens,
            parsed: parsed_compilation(self.source().buffer, section),
            buffer: self.source().buffer,
        }
    }

    /// What is shown for a compilation or one of its phases. A compilation
    /// that is too large shows its lines as they are.
    pub open spec fn section_view(self, comp: int, only: Option<usize>) -> ViewContents {
        let section = self.compilations()[comp];
        let (first, end) = match only {
            Some(p) => (section.phases[p as int].start, section.phases[p as int].end),
            None => (section.start, section.end),
        };
        if span_len(section.start, section.end) > MODEL_LIMIT {
            ViewContents::Plain { start: first, end }
        } else {
            let rules = self.rules(comp, first, end);
            ViewContents::Modeled {
                rows: modeled_rows(section, rules),
                parsed: rules.parsed,
                comp,
            }
        }
    }

    /// What is shown for a row of the sidebar.
    pub open spec fn row_view(self, row: Option<Row>) -> ViewContents {
        match row {
            Some(Row::Compilation(i)) => self.section_view(i as int, None),
            Some(Row::Phase { comp, phase }) => self.section_view(comp as int, Some(phase)),
            Some(Row::Function { name_comp, .. }) => self.section_view(name_comp as int, None),
            Some(Row::Raw(i)) => ViewContents::Plain {
                start: self.source().index.raw[i as int].start,
                end: self.source().index.raw[i as int].end,
            },
            Some(Row::Event(i)) => {
                let (start, end) = self.event_range(i as int);
                ViewContents::Plain { start, end }
            },
            None => ViewContents::Plain {
                start: 0,
                end: self.source().buffer.starts.len() as int,
            },
        }
    }

    /// What is shown for the row `selected` of the sidebar.
    pub open spec fn view_for(self, selected: usize) -> ViewContents {
        self.row_view(self.row_at(selected as int))
    }

    /// What the viewport shows.
    pub open spec fn shown(self) -> ViewContents {
        self.view_for(self.selected)
    }
}

/// Two states agree on everything that the viewport shows, apart from where
/// it is.
pub open spec fn same_sections(a: AppModel, b: AppModel) -> bool {
    &&& a.sources == b.sources
    &&& a.active == b.active
    &&& a.grouped == b.grouped
    &&& a.expanded == b.expanded
    &&& a.expanded_groups == b.expanded_groups
    &&& a.sidebar_filter == b.sidebar_filter
    &&& a.timeline == b.timeline
    &&& a.timeline_deopts_only == b.timeline_deopts_only
    &&& a.folded == b.folded
    &&& a.show_annotations == b.show_annotations
    &&& a.lens == b.lens
}

/// What is shown for a row depends only on what decides it.
pub proof fn lemma_same_sections(a: AppModel, b: AppModel, selected: usize)
    requires
        same_sections(a, b),
    ensures
        a.rows() == b.rows(),
        a.view_for(selected) == b.view_for(selected),
{
    assert(a.sidebar() == b.sidebar());
    let row = a.row_at(selected as int);
    assert(row == b.row_at(selected as int));
    match row {
        Some(Row::Compilation(i)) => {
            lemma_same_section(a, b, i as int, None);
        },
        Some(Row::Phase { comp, phase }) => {
            lemma_same_section(a, b, comp as int, Some(phase));
        },
        Some(Row::Function { name_comp, .. }) => {
            lemma_same_section(a, b, name_comp as int, None);
        },
        Some(Row::Raw(_)) => {},
        Some(Row::Event(i)) => {
            assert(a.enclosing(a.source().index.events[i as int].0) == b.enclosing(
                b.source().index.events[i as int].0,
            ));
            assert(a.event_range(i as int) == b.event_range(i as int));
        },
        None => {},
    }
}

proof fn lemma_same_section(a: AppModel, b: AppModel, comp: int, only: Option<usize>)
    requires
        same_sections(a, b),
    ensures
        a.section_view(comp, only) == b.section_view(comp, only),
{
    let section = a.compilations()[comp];
    let (first, end) = match only {
        Some(p) => (section.phases[p as int].start, section.phases[p as int].end),
        None => (section.start, section.end),
    };
    assert(a.rules(comp, first, end) == b.rules(comp, first, end));
}

/// The classification of row `at` of a view, with its phase and place.
pub open spec fn info_shown(vm: ViewContents, at: int) -> Option<(usize, usize, LineModel)> {
    match vm {
        ViewContents::Plain { .. } => None,
        ViewContents::Modeled { rows, parsed, .. } => if 0 <= at < rows.len() {
            match rows[at].info {
                Some((p, i)) => if p < parsed.phases.len() && i
                    < parsed.phases[p as int].infos.len() {
                    Some((p, i, parsed.phases[p as int].infos[i as int]))
                } else {
                    None
                },
                None => None,
            }
        } else {
            None
        },
    }
}

/// The node that row `at` of a view defines.
pub open spec fn node_shown(vm: ViewContents, at: int) -> Option<NodeModel> {
    match info_shown(vm, at) {
        Some((_, _, LineModel::Node(node))) => if node.id != SCHEDULE_ONLY {
            Some(node)
        } else {
            None
        },
        _ => None,
    }
}

/// The classification of a row, with its phase and place.
pub(crate) fn info_at_row<'a>(vm: &'a ViewModel, at: usize) -> (info: Option<
    (usize, usize, &'a LineInfo),
>)
    ensures
        match info {
            Some((p, i, l)) => info_shown(vm@, at as int) == Some((p, i, l@)),
            None => info_shown(vm@, at as int) is None,
        },
{
    match vm {
        ViewModel::Plain { .. } => None,
        ViewModel::Modeled { rows, parsed, .. } => {
            if at >= rows.len() {
                return None;
            }
            match rows[at].info {
                Some((p, i)) => {
                    assert((**parsed)@.phases.len() == parsed.phases@.len());
                    if p < parsed.phases.len() {
                        assert((**parsed)@.phases[p as int] == parsed.phases@[p as int]@);
                        let infos = &parsed.phases[p].infos;
                        if i < infos.len() {
                            Some((p, i, &infos[i]))
                        } else {
                            None
                        }
                    } else {
                        None
                    }
                },
                None => None,
            }
        },
    }
}

/// The node that a display row defines.
pub fn node_at<'a>(vm: &'a ViewModel, at: usize) -> (node: Option<&'a IRNode>)
    ensures
        match node {
            Some(n) => node_shown(vm@, at as int) == Some(n@),
            None => node_shown(vm@, at as int) is None,
        },
{
    match info_at_row(vm, at) {
        Some((_, _, LineInfo::Node(node))) => if node.id != SCHEDULE_ONLY {
            Some(node)
        } else {
            None
        },
        _ => None,
    }
}

/// The first row that shows a line, of whatever kind.
pub open spec fn any_row_from(rows: Seq<ViewRow>, line: int, i: int) -> Option<int>
    decreases rows.len() - i,
{
    if i < 0 || i >= rows.len() {
        None
    } else if rows[i].line == line {
        Some(i)
    } else {
        any_row_from(rows, line, i + 1)
    }
}

/// The display row that shows a line, fold markers counted in.
pub open spec fn showing(vm: ViewContents, line: int) -> Option<int> {
    match vm {
        ViewContents::Plain { start, end } => if start <= line < end {
            Some(line - start)
        } else {
            None
        },
        ViewContents::Modeled { rows, .. } => any_row_from(rows, line, 0),
    }
}

/// The display row that shows a line, fold markers counted in.
pub(crate) fn row_showing(vm: &ViewModel, line: usize) -> (row: Option<usize>)
    ensures
        crate::text::pos(row) == showing(vm@, line as int),
{
    match vm {
        ViewModel::Plain { range } => if range.start <= line && line < range.end {
            Some(line - range.start)
        } else {
            None
        },
        ViewModel::Modeled { rows, .. } => find_row(rows, line),
    }
}

fn find_row(rows: &Vec<ViewRow>, line: usize) -> (row: Option<usize>)
    ensures
        crate::text::pos(row) == any_row_from(rows@, line as int, 0),
{
    let mut k: usize = 0;
    while k < rows.len()
        invariant
            k <= rows.len(),
            any_row_from(rows@, line as int, 0) == any_row_from(rows@, line as int, k as int),
        decreases rows.len() - k,
    {
        if rows[k].line == line {
            return Some(k);
        }
        k += 1;
    }
    None
}

impl App {
    /// The parse of a compilation.
    pub(crate) fn parse(&mut self, src: usize, comp: usize) -> (parsed: Arc<ParsedCompilation>)
        requires
            old(self).wf(),
            src < old(self)@.sources.len(),
            comp < old(self)@.sources[src as int].index.compilations.len(),
        ensures
            final(self).wf(),
            final(self)@ == old(self)@,
            (*parsed)@ == parsed_compilation(
                old(self)@.sources[src as int].buffer,
                old(self)@.sources[src as int].index.compilations[comp as int],
            ),
    {
        reveal(App::wf);
        reveal(App::model);
        let ghost before = self.sources@;
        assert(self@.sources[src as int] == self.sources@[src as int]@);
        let mut parses = ParseCache::new();
        std::mem::swap(&mut self.sources[src].parses, &mut parses);
        let ghost kept = parses@;
        let source = &self.sources[src];
        let section = source.index.compilation(comp);
        let parsed = parses.get_or_parse(&source.buffer, section, comp);
        self.sources[src].parses = parses;
        proof {
            assert(source_models(self.sources@) =~= source_models(before));
            assert forall|k: int| 0 <= k < self.sources@.len() implies (
            #[trigger] self.sources@[k]).wf() by {
                assert(before[k].wf());
            }
        }
        parsed
    }

    fn raw_around(&self, line: usize) -> (range: Option<(usize, usize)>)
        requires
            self.wf(),
        ensures
            ({
                let raw = self@.source().index.raw;
                let r = last_start(
                    raw.map_values(|s: crate::model::RawModel| s.start),
                    line as int,
                    raw.len() as int,
                );
                match range {
                    Some((a, b)) => r is Some && line < raw[r->0].end && a == raw[r->0].start && b
                        == raw[r->0].end,
                    None => !(r is Some && line < raw[r->0].end),
                }
            }),
    {
        let index = &self.active_source().index;
        let ghost raw = self@.source().index.raw;
        let ghost starts = raw.map_values(|s: crate::model::RawModel| s.start);
        let mut n: usize = index.raw_count();
        while n > 0
            invariant
                index@ == self@.source().index,
                raw == index@.raw,
                n <= raw.len(),
                starts == raw.map_values(|s: crate::model::RawModel| s.start),
                last_start(starts, line as int, raw.len() as int) == last_start(
                    starts,
                    line as int,
                    n as int,
                ),
            decreases n,
        {
            let section = index.raw_section(n - 1);
            if section.lines.start <= line {
                return if line < section.lines.end {
                    Some((section.lines.start, section.lines.end))
                } else {
                    None
                };
            }
            n -= 1;
        }
        None
    }

    fn comp_around(&self, line: usize) -> (range: Option<(usize, usize)>)
        requires
            self.wf(),
        ensures
            ({
                let comps = self@.compilations();
                let c = last_start(
                    comps.map_values(|s: CompilationModel| s.start),
                    line as int,
                    comps.len() as int,
                );
                match range {
                    Some((a, b)) => c is Some && line < comps[c->0].end && a == comps[c->0].start
                        && b == comps[c->0].end,
                    None => !(c is Some && line < comps[c->0].end),
                }
            }),
    {
        let index = &self.active_source().index;
        let ghost comps = self@.compilations();
        let ghost starts = comps.map_values(|s: CompilationModel| s.start);
        let mut n: usize = index.compilation_count();
        while n > 0
            invariant
                index@ == self@.source().index,
                comps == index@.compilations,
                n <= comps.len(),
                starts == comps.map_values(|s: CompilationModel| s.start),
                last_start(starts, line as int, comps.len() as int) == last_start(
                    starts,
                    line as int,
                    n as int,
                ),
            decreases n,
        {
            let section = index.compilation(n - 1);
            if section.lines.start <= line {
                return if line < section.lines.end {
                    Some((section.lines.start, section.lines.end))
                } else {
                    None
                };
            }
            n -= 1;
        }
        None
    }

    /// The raw section, or else the compilation, that a line lies in.
    fn enclosing_section_range(&self, line: usize) -> (range: Option<(usize, usize)>)
        requires
            self.wf(),
        ensures
            match range {
                Some((a, b)) => self@.enclosing(line as int) == Some((a as int, b as int)),
                None => self@.enclosing(line as int) is None,
            },
    {
        match self.raw_around(line) {
            Some(r) => Some(r),
            None => self.comp_around(line),
        }
    }

    /// What is shown for an event.
    fn event_view_range(&self, ev: usize) -> (range: Range<usize>)
        requires
            self.wf(),
            ev < self@.source().index.events.len(),
        ensures
            (range.start as int, range.end as int) == self@.event_range(ev as int),
    {
        let index = &self.active_source().index;
        let event = index.event(ev);
        let line: usize = event.line;
        let next: usize = next_line(line);
        let indexed: usize = index.lines_indexed();
        let section: (usize, usize) = match self.enclosing_section_range(line) {
            Some(s) => s,
            None => (
                line,
                if indexed > next {
                    indexed
                } else {
                    next
                },
            ),
        };
        let deopt: bool = match &event.kind {
            EventKind::DeoptBegin { .. } => true,
            _ => false,
        };
        if !deopt {
            return Range { start: section.0, end: section.1 };
        }
        let n: usize = index.event_count();
        let mut found: usize = section.1;
        let mut i: usize = ev + 1;
        let ghost source = self@.source();
        let mut open: bool = true;
        while open && i < n
            invariant
                index@ == source.index,
                n == source.index.events.len(),
                ev < i <= n,
                open ==> bailout_end(source, ev + 1) == bailout_end(source, i as int) && found
                    == section.1,
                !open ==> (bailout_end(source, ev + 1) matches Some(l) && found == line_after(l)),
            decreases n - i,
        {
            if let EventKind::DeoptEnd { .. } = &index.event(i).kind {
                found = next_line(index.event(i).line);
                open = false;
            }
            i += 1;
        }
        let end: usize = if found < section.1 {
            found
        } else {
            section.1
        };
        Range {
            start: line,
            end: if end > next {
                end
            } else {
                next
            },
        }
    }

    fn section_model(&mut self, comp: usize, only: Option<usize>) -> (vm: ViewModel)
        requires
            old(self).wf(),
            comp < old(self)@.compilations().len(),
            only matches Some(p) ==> p < old(self)@.compilations()[comp as int].phases.len(),
        ensures
            final(self).wf(),
            final(self)@ == old(self)@,
            vm@ == old(self)@.section_view(comp as int, only),
    {
        let section = self.active_source().index.compilation(comp);
        let size: usize = if section.lines.start < section.lines.end {
            section.lines.end - section.lines.start
        } else {
            0
        };
        let range: Range<usize> = match only {
            Some(p) => {
                assert(section@.phases[p as int] == section.phases@[p as int]@);
                Range { start: section.phases[p].lines.start, end: section.phases[p].lines.end }
            },
            None => Range { start: section.lines.start, end: section.lines.end },
        };
        if size > MODEL_LIMIT {
            return ViewModel::Plain { range };
        }
        proof {
            self.lemma_fields();
            self.lemma_wf();
        }
        let active: usize = self.active;
        let parsed = self.parse(active, comp);
        proof {
            self.lemma_fields();
        }
        let source = self.active_source();
        let rows = model_rows(
            &*parsed,
            source.index.compilation(comp),
            &range,
            active,
            comp,
            self.folded(),
            self.show_annotations,
            &source.buffer,
            self.lens,
        );
        ViewModel::Modeled { rows, parsed, comp }
    }

    /// What the viewport shows for a row of the sidebar.
    pub fn view_model_for(&mut self, selected: usize) -> (vm: ViewModel)
        requires
            old(self).wf(),
        ensures
            final(self).wf(),
            final(self)@ == old(self)@,
            vm@ == old(self)@.view_for(selected),
    {
        match self.row_at(selected) {
            Some(Row::Compilation(i)) => self.section_model(i, None),
            Some(Row::Phase { comp, phase }) => self.section_model(comp, Some(phase)),
            Some(Row::Function { name_comp, .. }) => self.section_model(name_comp, None),
            Some(Row::Raw(i)) => {
                let lines = &self.active_source().index.raw_section(i).lines;
                ViewModel::Plain { range: Range { start: lines.start, end: lines.end } }
            },
            Some(Row::Event(i)) => ViewModel::Plain { range: self.event_view_range(i) },
            None => ViewModel::Plain {
                range: Range { start: 0, end: self.active_source().buffer.line_count() },
            },
        }
    }

    /// What the viewport shows.
    pub fn view_model(&mut self) -> (vm: ViewModel)
        requires
            old(self).wf(),
        ensures
            final(self).wf(),
            final(self)@ == old(self)@,
            vm@ == old(self)@.shown(),
    {
        proof {
            self.lemma_fields();
        }
        let selected: usize = self.selected;
        self.view_model_for(selected)
    }

    /// The node on the cursor row.
    pub fn cursor_node<'a>(&self, vm: &'a ViewModel) -> (node: Option<&'a IRNode>)
        ensures
            match node {
                Some(n) => node_shown(vm@, self@.cursor as int) == Some(n@),
                None => node_shown(vm@, self@.cursor as int) is None,
            },
    {
        proof {
            self.lemma_fields();
        }
        node_at(vm, self.cursor)
    }
}

} // verus!
