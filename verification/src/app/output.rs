//! What leaves the program: titles, copies and exports.

use vstd::prelude::*;
#[allow(unused_imports)]
use vstd::string::*;

use super::jumps::push_counted;
#[allow(unused_imports)]
use super::timeline::event_text;
use super::timeline::event_summary;
#[allow(unused_imports)]
use super::views::lemma_same_sections;
#[allow(unused_imports)]
use super::{AppModel, RequestModel, SourceModel};
use super::{App, CopyKind, Request, Row};
#[allow(unused_imports)]
use crate::clipboard::{copy_refusal, exported};
use crate::clipboard::{export_text, max_copy, refuse_copy, MAX_COPY};
use crate::diff::{DiffModel, DiffRow, DiffSide, RowStatus};
#[allow(unused_imports)]
use crate::diff::{side::SideModel, DiffView};
use crate::model::{CompilationSection, IRNode, LineInfo, SCHEDULE_ONLY};
#[allow(unused_imports)]
use crate::model::{shown_name, texts, tier_label, CompilationModel, LineModel, NodeModel};
use crate::source::LogBuffer;
#[allow(unused_imports)]
use crate::source::{span_size, LogModel};
use crate::text;
#[allow(unused_imports)]
use crate::text::decimal;
use crate::view::{RowKind, ViewModel, ViewRow};
#[allow(unused_imports)]
use crate::view::ViewContents;

verus! {

// ---------------------------------------------------------------------------
// Titles
// ---------------------------------------------------------------------------

/// The title of a compilation.
pub open spec fn comp_title(c: CompilationModel) -> Seq<char> {
    shown_name(c.name) + " · "@ + tier_label(c.tier) + " #"@ + decimal(c.ordinal as int)
}

fn push_comp_title(out: &mut String, c: &CompilationSection)
    ensures
        final(out)@ == old(out)@ + comp_title(c@),
{
    let ghost before = out@;
    out.append(c.display_name());
    out.append(" · ");
    out.append(c.key.tier.label());
    out.append(" #");
    text::push_decimal(out, c.key.ordinal as usize);
    assert(out@ =~= before + comp_title(c@));
}

impl AppModel {
    /// What is shown for a row of the sidebar, in words.
    pub open spec fn row_title(self, row: Option<Row>) -> Seq<char> {
        match row {
            Some(Row::Compilation(i)) => comp_title(self.compilations()[i as int]),
            Some(Row::Function { name_comp, .. }) => comp_title(
                self.compilations()[name_comp as int],
            ),
            Some(Row::Phase { comp, phase }) => {
                let c = self.compilations()[comp as int];
                comp_title(c) + " · "@ + c.phases[phase as int].name
            },
            Some(Row::Raw(i)) => "raw · "@ + self.source().index.raw[i as int].label,
            Some(Row::Event(i)) => "event #"@ + decimal(i + 1) + " · "@ + event_text(
                self.source().index.events[i as int].1,
            ),
            None => self.source().label,
        }
    }

    /// The title of the row `selected` of the sidebar.
    pub open spec fn title_for(self, selected: usize) -> Seq<char> {
        self.row_title(self.row_at(selected as int))
    }
}

impl App {
    /// What is shown for a row of the sidebar, in words.
    pub fn view_title_for(&self, selected: usize) -> (title: String)
        requires
            self.wf(),
        ensures
            title@ == self@.title_for(selected),
    {
        let source = self.active_source();
        let mut out = String::new();
        let ghost none = out@;
        match self.row_at(selected) {
            Some(Row::Compilation(i)) => {
                push_comp_title(&mut out, source.index.compilation(i));
                assert(out@ =~= comp_title(self@.compilations()[i as int]));
            },
            Some(Row::Function { name_comp, .. }) => {
                push_comp_title(&mut out, source.index.compilation(name_comp));
                assert(out@ =~= comp_title(self@.compilations()[name_comp as int]));
            },
            Some(Row::Phase { comp, phase }) => {
                let c = source.index.compilation(comp);
                push_comp_title(&mut out, c);
                assert(out@ =~= comp_title(c@));
                assert(c@.phases[phase as int] == c.phases@[phase as int]@);
                out.append(" · ");
                out.append(c.phases[phase].name.as_str());
            },
            Some(Row::Raw(i)) => {
                out = text::owned("raw · ");
                out.append(source.index.raw_section(i).label.as_str());
            },
            Some(Row::Event(i)) => {
                out = text::owned("event #");
                push_counted(&mut out, i);
                out.append(" · ");
                out.append(event_summary(&source.index.event(i).kind).as_str());
            },
            None => {
                out = text::owned(source.label.as_str());
            },
        }
        out
    }

    /// What the viewport shows, in words.
    pub fn view_title(&self) -> (title: String)
        requires
            self.wf(),
        ensures
            title@ == self@.title_for(self@.selected),
    {
        proof {
            self.lemma_fields();
        }
        self.view_title_for(self.selected)
    }
}

// ---------------------------------------------------------------------------
// The rows as text
// ---------------------------------------------------------------------------

/// The mark of an aligned row.
pub open spec fn gutter(status: RowStatus) -> Seq<char> {
    match status {
        RowStatus::Same => "  "@,
        RowStatus::Added => "+ "@,
        RowStatus::Deleted => "− "@,
        RowStatus::Changed { .. } => "~ "@,
        RowStatus::Replaced { .. } => "→ "@,
        RowStatus::Moved { .. } => "≈ "@,
    }
}

/// The mark of an aligned row.
pub fn diff_gutter(status: &RowStatus) -> (mark: &'static str)
    ensures
        mark@ == gutter(*status),
{
    match status {
        RowStatus::Same => "  ",
        RowStatus::Added => "+ ",
        RowStatus::Deleted => "− ",
        RowStatus::Changed { .. } => "~ ",
        RowStatus::Replaced { .. } => "→ ",
        RowStatus::Moved { .. } => "≈ ",
    }
}

/// A display row as text. A fold reads as its marker.
pub open spec fn row_text(buffer: LogModel, row: ViewRow) -> Seq<char> {
    match row.kind {
        RowKind::Text => buffer.line_chars(row.line as int),
        RowKind::BlockFold { block, hidden } => "[+] b"@ + decimal(block as int) + " — "@
            + decimal(hidden as int) + " lines hidden"@,
        RowKind::AnnotationFold { count } => "[+] "@ + decimal(count as int) + " trace lines"@,
    }
}

fn text_of_row(buffer: &LogBuffer, row: &ViewRow) -> (out: String)
    requires
        buffer.wf(),
    ensures
        out@ == row_text(buffer@, *row),
{
    match row.kind {
        RowKind::Text => buffer.line_text(row.line),
        RowKind::BlockFold { block, hidden } => {
            let mut out = text::owned("[+] b");
            text::push_decimal(&mut out, block as usize);
            out.append(" — ");
            text::push_decimal(&mut out, hidden);
            out.append(" lines hidden");
            out
        },
        RowKind::AnnotationFold { count } => {
            let mut out = text::owned("[+] ");
            text::push_decimal(&mut out, count);
            out.append(" trace lines");
            out
        },
    }
}

/// The rows of a view as text.
pub open spec fn view_texts(vm: ViewContents, buffer: LogModel) -> Seq<Seq<char>> {
    Seq::new(vm.rows_len() as nat, |r: int| row_text(buffer, vm.row_at(r)))
}

/// One half of an aligned row, in the source that it comes from.
pub open spec fn half_text(
    sources: Seq<SourceModel>,
    side: SideModel,
    at: Option<usize>,
) -> Option<Seq<char>> {
    match at {
        Some(k) => if k < side.rows.len() && side.source < sources.len() {
            Some(sources[side.source].buffer.line_chars(side.rows[k as int].line as int))
        } else {
            None
        },
        None => None,
    }
}

/// An aligned row as text: its mark and the line on the right, or else the
/// one on the left.
pub open spec fn pair_text(sources: Seq<SourceModel>, view: DiffView, row: DiffRow) -> Seq<char> {
    gutter(row.status) + " "@ + match half_text(sources, view.right, row.right) {
        Some(s) => s,
        None => match half_text(sources, view.left, row.left) {
            Some(s) => s,
            None => Seq::empty(),
        },
    }
}

/// The aligned rows as text.
pub open spec fn diff_texts(sources: Seq<SourceModel>, view: DiffView) -> Seq<Seq<char>> {
    Seq::new(view.rows.len(), |r: int| pair_text(sources, view, view.rows[r]))
}

/// Lines with a line feed between them.
pub open spec fn joined(lines: Seq<Seq<char>>, n: int) -> Seq<char>
    decreases n,
{
    if n <= 0 {
        Seq::empty()
    } else if n == 1 {
        lines[0]
    } else {
        joined(lines, n - 1) + seq!['\n'] + lines[n - 1]
    }
}

fn join_lines(lines: &Vec<String>) -> (out: String)
    ensures
        out@ == joined(texts(lines@), lines@.len() as int),
{
    let ghost all = texts(lines@);
    let mut out: String = String::new();
    let mut n: usize = 0;
    assert(out@ =~= joined(all, 0));
    while n < lines.len()
        invariant
            n <= lines@.len(),
            all == texts(lines@),
            out@ == joined(all, n as int),
        decreases lines.len() - n,
    {
        assert(all[n as int] == lines@[n as int]@);
        if n > 0 {
            out.push('\n');
        }
        out.append(lines[n].as_str());
        assert(out@ =~= joined(all, n + 1));
        n += 1;
    }
    out
}

impl AppModel {
    /// The rows on the screen as text. A comparison reads as its aligned rows.
    pub open spec fn visible_texts(self) -> Seq<Seq<char>> {
        match self.diff_shown() {
            Some(view) => diff_texts(self.sources, view),
            None => view_texts(self.shown(), self.source().buffer),
        }
    }

    /// A copy is asked for, or refused.
    pub open spec fn copy_asked(self, kind: CopyKind, s: Seq<char>) -> AppModel {
        match copy_refusal(s) {
            Some(why) => self.say(why),
            None => self.with_request(Some(RequestModel::Copy { kind, text: s })),
        }
    }

    /// The row under the cursor is copied. Of an aligned row it is the half
    /// of the viewport that the keys drive.
    #[verifier::opaque]
    pub open spec fn line_yanked(self) -> AppModel {
        if self.diff {
            let noted = self.diff_noted();
            match self.diff_shown() {
                Some(view) => if self.cursor < view.rows.len() {
                    let row = view.rows[self.cursor as int];
                    let half = if self.active_pane == 0 {
                        half_text(self.sources, view.left, row.left)
                    } else {
                        half_text(self.sources, view.right, row.right)
                    };
                    match half {
                        Some(s) => noted.copy_asked(CopyKind::Line, s),
                        None => noted,
                    }
                } else {
                    noted
                },
                None => noted,
            }
        } else if self.cursor < self.shown().rows_len() {
            self.copy_asked(
                CopyKind::Line,
                self.source().buffer.line_chars(
                    self.shown().row_at(self.cursor as int).line as int,
                ),
            )
        } else {
            self
        }
    }

    /// The size of the plain section in view, where there is one.
    pub open spec fn plain_size(self) -> Option<int> {
        match self.shown() {
            ViewContents::Plain { start, end } => if self.diff {
                None
            } else {
                Some(span_size(self.source().buffer, start, end))
            },
            ViewContents::Modeled { .. } => None,
        }
    }

    /// The rows on the screen are copied. A plain section that is too large
    /// is refused before its text is put together.
    #[verifier::opaque]
    pub open spec fn section_yanked(self) -> AppModel {
        let whole = self.diff_noted().copy_asked(
            CopyKind::Section,
            joined(self.visible_texts(), self.visible_texts().len() as int),
        );
        match self.plain_size() {
            Some(bytes) => if bytes > MAX_COPY {
                self.say(
                    "section is "@ + decimal(bytes / 1024)
                        + " KB; this clipboard route tops out at "@ + decimal(
                        (MAX_COPY / 1024) as int,
                    ) + " KB — use export instead"@,
                )
            } else {
                whole
            },
            None => whole,
        }
    }

    /// The rows on the screen are exported.
    #[verifier::opaque]
    pub open spec fn export_asked(self, path: Seq<char>) -> AppModel {
        let lines = self.visible_texts();
        self.diff_noted().with_request(
            Some(
                RequestModel::Export {
                    path,
                    text: exported(self.title_for(self.selected), lines),
                    lines: lines.len() as usize,
                },
            ),
        )
    }
}

fn list_view(vm: &ViewModel, buffer: &LogBuffer) -> (lines: Vec<String>)
    requires
        buffer.wf(),
    ensures
        texts(lines@) == view_texts(vm@, buffer@),
{
    let ghost all = view_texts(vm@, buffer@);
    let n: usize = vm.len();
    let mut lines: Vec<String> = Vec::new();
    let mut r: usize = 0;
    assert(texts(lines@) =~= all.take(0));
    while r < n
        invariant
            buffer.wf(),
            r <= n,
            n == vm@.rows_len(),
            all == view_texts(vm@, buffer@),
            texts(lines@) == all.take(r as int),
        decreases n - r,
    {
        let ghost before = lines@;
        if let Some(row) = vm.row(r) {
            lines.push(text_of_row(buffer, &row));
        }
        assert(texts(lines@) =~= texts(before).push(all[r as int]));
        assert(texts(lines@) =~= all.take(r + 1));
        r += 1;
    }
    assert(texts(lines@) =~= all);
    lines
}

/// The node of one half of an aligned row.
pub open spec fn pair_node(view: DiffView, at: int, pane: usize) -> Option<NodeModel> {
    if !(0 <= at < view.rows.len()) {
        None
    } else {
        let (side, half) = if pane == 0 {
            (view.left, view.rows[at].left)
        } else {
            (view.right, view.rows[at].right)
        };
        match half {
            Some(k) => if k < side.rows.len() {
                match side.rows[k as int].info {
                    Some((p, i)) => if p < side.parsed.phases.len() && i
                        < side.parsed.phases[p as int].infos.len() {
                        match side.parsed.phases[p as int].infos[i as int] {
                            LineModel::Node(node) => if node.id != SCHEDULE_ONLY {
                                Some(node)
                            } else {
                                None
                            },
                            _ => None,
                        }
                    } else {
                        None
                    },
                    None => None,
                }
            } else {
                None
            },
            None => None,
        }
    }
}

fn node_of_half<'a>(side: &'a DiffSide, half: Option<usize>) -> (node: Option<&'a IRNode>)
    ensures
        match node {
            Some(n) => half matches Some(k) && k < side@.rows.len() && (
            side@.rows[k as int].info matches Some((p, i)) && p < side@.parsed.phases.len() && i
                < side@.parsed.phases[p as int].infos.len()
                && side@.parsed.phases[p as int].infos[i as int] == LineModel::Node(n@) && n.id
                != SCHEDULE_ONLY),
            None => !(half matches Some(k) && k < side@.rows.len() && (
            side@.rows[k as int].info matches Some((p, i)) && p < side@.parsed.phases.len() && i
                < side@.parsed.phases[p as int].infos.len() && (
            side@.parsed.phases[p as int].infos[i as int] matches LineModel::Node(n) && n.id
                != SCHEDULE_ONLY))),
        },
{
    let k: usize = match half {
        Some(k) => k,
        None => {
            return None;
        },
    };
    if k >= side.rows.len() {
        return None;
    }
    match side.rows[k].info {
        Some((p, i)) => {
            assert((*side.parsed)@.phases.len() == side.parsed.phases@.len());
            if p < side.parsed.phases.len() {
                assert((*side.parsed)@.phases[p as int] == side.parsed.phases@[p as int]@);
                let infos = &side.parsed.phases[p].infos;
                if i < infos.len() {
                    match &infos[i] {
                        LineInfo::Node(node) => if node.id != SCHEDULE_ONLY {
                            Some(node)
                        } else {
                            None
                        },
                        _ => None,
                    }
                } else {
                    None
                }
            } else {
                None
            }
        },
        None => None,
    }
}

impl App {
    /// The node under the cursor on one side of a comparison.
    pub fn diff_cursor_node<'a>(&self, model: &'a DiffModel, pane: usize) -> (node: Option<
        &'a IRNode,
    >)
        ensures
            match node {
                Some(n) => pair_node(model@, self@.cursor as int, pane) == Some(n@),
                None => pair_node(model@, self@.cursor as int, pane) is None,
            },
    {
        proof {
            self.lemma_fields();
        }
        if self.cursor >= model.rows.len() {
            return None;
        }
        let row: DiffRow = model.rows[self.cursor];
        if pane == 0 {
            node_of_half(&model.left, row.left)
        } else {
            node_of_half(&model.right, row.right)
        }
    }

    fn text_of_half(&self, side: &DiffSide, at: Option<usize>) -> (line: Option<String>)
        requires
            self.wf(),
        ensures
            match line {
                Some(s) => half_text(self@.sources, side@, at) == Some(s@),
                None => half_text(self@.sources, side@, at) is None,
            },
    {
        match at {
            Some(k) => if k < side.rows.len() && side.source < self.source_count() {
                Some(self.source_at(side.source).buffer.line_text(side.rows[k].line))
            } else {
                None
            },
            None => None,
        }
    }

    fn text_of_pair(&self, model: &DiffModel, row: DiffRow) -> (line: String)
        requires
            self.wf(),
        ensures
            line@ == pair_text(self@.sources, model@, row),
    {
        let mut out = text::owned(diff_gutter(&row.status));
        out.append(" ");
        let ghost head = out@;
        match self.text_of_half(&model.right, row.right) {
            Some(s) => {
                out.append(s.as_str());
            },
            None => {
                match self.text_of_half(&model.left, row.left) {
                    Some(s) => {
                        out.append(s.as_str());
                    },
                    None => {
                        assert(head + Seq::<char>::empty() =~= head);
                    },
                }
            },
        }
        out
    }

    fn list_diff(&self, model: &DiffModel) -> (lines: Vec<String>)
        requires
            self.wf(),
        ensures
            texts(lines@) == diff_texts(self@.sources, model@),
    {
        let ghost all = diff_texts(self@.sources, model@);
        let mut lines: Vec<String> = Vec::new();
        let mut r: usize = 0;
        assert(texts(lines@) =~= all.take(0));
        while r < model.rows.len()
            invariant
                self.wf(),
                r <= model.rows@.len(),
                all == diff_texts(self@.sources, model@),
                texts(lines@) == all.take(r as int),
            decreases model.rows.len() - r,
        {
            let ghost before = lines@;
            lines.push(self.text_of_pair(model, model.rows[r]));
            assert(texts(lines@) =~= texts(before).push(all[r as int]));
            assert(texts(lines@) =~= all.take(r + 1));
            r += 1;
        }
        assert(texts(lines@) =~= all);
        lines
    }

    /// The rows on the screen as text.
    fn visible_view_text(&mut self) -> (lines: Vec<String>)
        requires
            old(self).wf(),
        ensures
            final(self).wf(),
            final(self)@ == old(self)@.diff_noted(),
            texts(lines@) == old(self)@.visible_texts(),
    {
        let model = self.diff_model();
        proof {
            reveal(AppModel::say);
        }
        if let Some(model) = model {
            return self.list_diff(&*model);
        }
        proof {
            lemma_same_sections(old(self)@, self@, self@.selected);
        }
        let vm = self.view_model();
        list_view(&vm, &self.active_source().buffer)
    }

    fn ask_to_copy(&mut self, kind: CopyKind, s: String)
        requires
            old(self).wf(),
        ensures
            final(self).wf(),
            final(self)@ == old(self)@.copy_asked(kind, s@),
    {
        match refuse_copy(s.as_str()) {
            Some(why) => {
                self.say_text(why);
            },
            None => {
                self.set_request(Some(Request::Copy { kind, text: s }));
            },
        }
    }

    fn yank_half(&mut self)
        requires
            old(self).wf(),
            old(self)@.diff,
        ensures
            final(self).wf(),
            final(self)@ == old(self)@.line_yanked(),
    {
        reveal(AppModel::line_yanked);
        proof {
            self.lemma_fields();
        }
        let cursor: usize = self.cursor;
        let left: bool = self.active_pane == 0;
        let model = self.diff_model();
        proof {
            reveal(AppModel::say);
        }
        if let Some(model) = model {
            if cursor < model.rows.len() {
                let row: DiffRow = model.rows[cursor];
                let half: Option<String> = if left {
                    self.text_of_half(&model.left, row.left)
                } else {
                    self.text_of_half(&model.right, row.right)
                };
                if let Some(s) = half {
                    self.ask_to_copy(CopyKind::Line, s);
                }
            }
        }
    }

    /// Asks to copy the row under the cursor.
    pub(crate) fn yank_line(&mut self)
        requires
            old(self).wf(),
        ensures
            final(self).wf(),
            final(self)@ == old(self)@.line_yanked(),
    {
        reveal(AppModel::line_yanked);
        proof {
            self.lemma_fields();
        }
        if self.diff {
            self.yank_half();
            return ;
        }
        let cursor: usize = self.cursor;
        let vm = self.view_model();
        if let Some(line) = vm.line_at(cursor) {
            let s = self.active_source().buffer.line_text(line);
            self.ask_to_copy(CopyKind::Line, s);
        }
    }

    fn find_plain_size(&mut self) -> (size: Option<usize>)
        requires
            old(self).wf(),
        ensures
            final(self).wf(),
            final(self)@ == old(self)@,
            text::pos(size) == old(self)@.plain_size(),
    {
        proof {
            self.lemma_fields();
        }
        let diff: bool = self.diff;
        let vm = self.view_model();
        match vm {
            ViewModel::Plain { range } => if diff {
                None
            } else {
                Some(self.active_source().buffer.span_bytes(range))
            },
            ViewModel::Modeled { .. } => None,
        }
    }

    /// Asks to copy the rows on the screen.
    pub(crate) fn yank_section(&mut self)
        requires
            old(self).wf(),
        ensures
            final(self).wf(),
            final(self)@ == old(self)@.section_yanked(),
    {
        reveal(AppModel::section_yanked);
        if let Some(bytes) = self.find_plain_size() {
            let cap: usize = max_copy();
            if bytes > cap {
                let mut message = text::owned("section is ");
                text::push_decimal(&mut message, bytes / 1024);
                message.append(" KB; this clipboard route tops out at ");
                text::push_decimal(&mut message, cap / 1024);
                message.append(" KB — use export instead");
                self.say_text(message);
                return ;
            }
        }
        let lines = self.visible_view_text();
        let s = join_lines(&lines);
        assert(texts(lines@).len() == lines@.len());
        self.ask_to_copy(CopyKind::Section, s);
    }

    /// Asks to export the rows on the screen.
    pub(crate) fn export_to(&mut self, path: String)
        requires
            old(self).wf(),
        ensures
            final(self).wf(),
            final(self)@ == old(self)@.export_asked(path@),
    {
        reveal(AppModel::export_asked);
        let title = self.view_title();
        let lines = self.visible_view_text();
        assert(texts(lines@).len() == lines.len());
        let out = export_text(title.as_str(), &lines);
        self.set_request(Some(Request::Export { path, text: out, lines: lines.len() }));
    }
}

// ---------------------------------------------------------------------------
// Answers
// ---------------------------------------------------------------------------

/// How a text was copied.
#[derive(Debug, Clone, Copy, PartialEq, Eq, Structural)]
pub enum Route {
    Clipboard,
    Terminal,
}

/// The way that a text is copied: over a remote connection through the
/// terminal, which alone reaches the clipboard of the user; otherwise to the
/// clipboard, or through the terminal where the clipboard fails.
pub fn copy_route(remote: bool, clipboard_failed: bool) -> (route: Route)
    ensures
        route == (if remote || clipboard_failed {
            Route::Terminal
        } else {
            Route::Clipboard
        }),
{
    if remote || clipboard_failed {
        Route::Terminal
    } else {
        Route::Clipboard
    }
}

/// What is copied, in words.
pub open spec fn copy_name(kind: CopyKind) -> Seq<char> {
    match kind {
        CopyKind::Line => "line "@,
        CopyKind::Section => "section "@,
    }
}

/// What is said of a copy.
pub open spec fn copy_message(
    kind: CopyKind,
    outcome: Result<Route, Seq<char>>,
) -> Seq<char> {
    match outcome {
        Ok(Route::Clipboard) => copy_name(kind) + "copied"@,
        Ok(Route::Terminal) => copy_name(kind) + "copied (OSC 52)"@,
        Err(e) => e,
    }
}

/// What is said of an export.
pub open spec fn export_message(
    path: Seq<char>,
    lines: usize,
    failed: Option<Seq<char>>,
) -> Seq<char> {
    match failed {
        Some(e) => e,
        None => "exported "@ + decimal(lines as int) + " lines to "@ + path,
    }
}

/// The view of how a copy went.
pub open spec fn outcome_model(outcome: Result<Route, String>) -> Result<Route, Seq<char>> {
    match outcome {
        Ok(r) => Ok(r),
        Err(e) => Err(e@),
    }
}

impl App {
    /// Takes what the program asks for.
    pub fn take_request(&mut self) -> (request: Option<Request>)
        requires
            old(self).wf(),
        ensures
            final(self).wf(),
            final(self)@ == old(self)@.with_request(None),
            super::request_model(request) == old(self)@.request,
    {
        proof {
            self.lemma_fields();
            reveal(AppModel::with_request);
        }
        let mut request: Option<Request> = None;
        self.swap_request(&mut request);
        request
    }

    /// Takes how a copy went.
    pub fn copied(&mut self, kind: CopyKind, outcome: Result<Route, String>)
        requires
            old(self).wf(),
        ensures
            final(self).wf(),
            final(self)@ == old(self)@.say(copy_message(kind, outcome_model(outcome))),
    {
        let name: &'static str = match kind {
            CopyKind::Line => "line ",
            CopyKind::Section => "section ",
        };
        match outcome {
            Ok(route) => {
                let mut message = text::owned(name);
                message.append(
                    match route {
                        Route::Clipboard => "copied",
                        Route::Terminal => "copied (OSC 52)",
                    },
                );
                self.say_text(message);
            },
            Err(e) => {
                self.say_text(e);
            },
        }
    }

    /// Takes how an export went.
    pub fn exported(&mut self, path: &str, lines: usize, failed: Option<String>)
        requires
            old(self).wf(),
        ensures
            final(self).wf(),
            final(self)@ == old(self)@.say(
                export_message(path@, lines, crate::model::opt_text(failed)),
            ),
    {
        match failed {
            Some(e) => {
                self.say_text(e);
            },
            None => {
                let mut message = text::owned("exported ");
                text::push_decimal(&mut message, lines);
                message.append(" lines to ");
                message.append(path);
                self.say_text(message);
            },
        }
    }
}

} // verus!
