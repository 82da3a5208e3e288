//! The state of the program and what each event does to it.
//!
//! There are two panes, the sidebar and the viewport, and a focus: movement
//! acts on the pane that has it. The one mode is the input line, which takes
//! every key until Enter or Esc.
//!
//! The cursor of the viewport is a display row, not a line, because folded
//! blocks and collapsed annotations make the rows no range of lines.
//!
//! What the program asks of the world outside, such as to copy a text, it
//! leaves as a `Request`, and the answer comes back through a method.

pub mod actions;
pub mod align;
pub mod commands;
pub mod compare;
pub mod growth;
pub mod input;
pub mod jumps;
pub mod laws;
pub mod links;
pub mod moves;
pub mod nav;
pub mod output;
pub mod panel;
pub mod reach;
pub mod refs;
pub mod rows;
pub mod scripts;
pub mod timeline;
pub mod views;

use std::sync::Arc;
use vstd::prelude::*;
#[allow(unused_imports)]
use vstd::string::*;

#[allow(unused_imports)]
use crate::config::{Action, Chord};
use crate::config::Keymap;
use crate::diff::DiffModel;
#[allow(unused_imports)]
use crate::diff::{sides_aligned, side, DiffView};
use crate::index::TraceIndex;
#[allow(unused_imports)]
use crate::index::{fresh_index, IndexModel};
use crate::model::{Addr, BlockId, NodeId};
#[allow(unused_imports)]
use crate::model::{shown_name, texts, CompilationModel, ParsedModel};
use crate::parse::cache::ParseCache;
#[allow(unused_imports)]
use crate::parse::compilation::parsed_compilation;
use crate::pattern::Pattern;
#[allow(unused_imports)]
use crate::pattern::opt_pattern;
use crate::source::{LogBuffer, LogSource};
#[allow(unused_imports)]
use crate::source::{source_label, LogModel};
use crate::text;
use crate::view::{FoldSet, Lens};
#[allow(unused_imports)]
use crate::view::FoldKey;

verus! {

// ---------------------------------------------------------------------------
// Sources
// ---------------------------------------------------------------------------

/// How far a source has been read.
#[derive(Debug, PartialEq, Eq)]
pub enum SourceState {
    Loading,
    Complete,
    Failed(String),
}

/// The view of a `SourceState`.
pub enum StateModel {
    Loading,
    Complete,
    Failed(Seq<char>),
}

impl View for SourceState {
    type V = StateModel;

    open spec fn view(&self) -> StateModel {
        match self {
            SourceState::Loading => StateModel::Loading,
            SourceState::Complete => StateModel::Complete,
            SourceState::Failed(e) => StateModel::Failed(e@),
        }
    }
}

/// A trace, its index and the parses that are kept.
pub struct Source {
    pub label: String,
    pub buffer: LogBuffer,
    pub state: SourceState,
    pub index: TraceIndex,
    pub parses: ParseCache,
}

/// The view of a `Source`. The parses that are kept do not show.
#[verifier::ext_equal]
pub struct SourceModel {
    pub label: Seq<char>,
    pub buffer: LogModel,
    pub state: StateModel,
    pub index: IndexModel,
}

impl View for Source {
    type V = SourceModel;

    open spec fn view(&self) -> SourceModel {
        SourceModel {
            label: self.label@,
            buffer: self.buffer@,
            state: self.state@,
            index: self.index@,
        }
    }
}

/// Every kept parse that can be served is the parse of the compilation as it
/// stands.
pub open spec fn faithful(
    cache: Map<usize, (int, ParsedModel)>,
    buffer: LogModel,
    compilations: Seq<CompilationModel>,
) -> bool {
    forall|k: usize|
        #[trigger] cache.dom().contains(k) && k < compilations.len() && cache[k].0
            == compilations[k as int].end ==> cache[k].1 == parsed_compilation(
            buffer,
            compilations[k as int],
        )
}

impl Source {
    /// The parts are in order, and kept parses are not stale.
    pub open spec fn wf(&self) -> bool {
        &&& self.buffer.wf()
        &&& self.index.wf()
        &&& faithful(self.parses@, self.buffer@, self.index@.compilations)
    }
}

/// The views of sources.
pub open spec fn source_models(list: Seq<Source>) -> Seq<SourceModel> {
    list.map_values(|s: Source| s@)
}

// ---------------------------------------------------------------------------
// The parts of the state
// ---------------------------------------------------------------------------

/// A pane.
#[derive(Debug, Clone, Copy, PartialEq, Eq, Structural)]
pub enum Pane {
    Sidebar,
    Viewport,
    /// The pane with the JavaScript source.
    Source,
}

/// Where a pane stands on the screen.
#[derive(Debug, Clone, Copy, PartialEq, Eq, Structural)]
pub struct PaneRect {
    pub x: u16,
    pub y: u16,
    pub width: u16,
    pub height: u16,
}

/// A pane that is not on the screen.
pub open spec fn no_rect() -> PaneRect {
    PaneRect { x: 0, y: 0, width: 0, height: 0 }
}

impl Default for PaneRect {
    fn default() -> (rect: PaneRect)
        ensures
            rect == no_rect(),
    {
        PaneRect { x: 0, y: 0, width: 0, height: 0 }
    }
}

/// A place lies in a rectangle.
pub open spec fn rect_contains(rect: PaneRect, x: u16, y: u16) -> bool {
    rect.x <= x < rect.x + rect.width && rect.y <= y < rect.y + rect.height
}

impl PaneRect {
    /// Does a place lie in the rectangle?
    pub fn contains(&self, x: u16, y: u16) -> (yes: bool)
        ensures
            yes == rect_contains(*self, x, y),
    {
        x >= self.x && (x as u32) < self.x as u32 + self.width as u32 && y >= self.y && (y as u32)
            < self.y as u32 + self.height as u32
    }
}

/// One row of the sidebar.
#[derive(Debug, Clone, Copy, PartialEq, Eq, Structural)]
pub enum Row {
    /// The compilations of one function, when they are grouped.
    Function { sfi: Addr, name_comp: usize, count: usize },
    Compilation(usize),
    Phase { comp: usize, phase: usize },
    Raw(usize),
    Event(usize),
}

/// What the input line asks for.
#[derive(Debug, Clone, Copy, PartialEq, Eq, Structural)]
pub enum Prompt {
    Search,
    Filter,
    /// The name of the file to export to.
    Export,
    Command,
}

/// The input line.
#[derive(Debug)]
pub struct InputLine {
    pub prompt: Prompt,
    pub buffer: String,
}

/// The view of an `InputLine`.
#[verifier::ext_equal]
pub struct InputModel {
    pub prompt: Prompt,
    pub buffer: Seq<char>,
}

impl View for InputLine {
    type V = InputModel;

    open spec fn view(&self) -> InputModel {
        InputModel { prompt: self.prompt, buffer: self.buffer@ }
    }
}

/// What a cycle of jumps started from.
#[derive(Debug, Clone, Copy, PartialEq, Eq, Structural)]
pub enum Anchor {
    Node(NodeId),
    /// A bytecode offset.
    Offset(u32),
    /// A feedback slot.
    Slot(u32),
    /// An entry of the constant pool.
    Pool(u32),
    Block(BlockId),
    /// A row without an id of its own, by its line.
    Line(usize),
    /// A row of disassembly, by its offset.
    Insn(u32),
}

/// Which jumps a cycle goes through.
#[derive(Debug, Clone, Copy, PartialEq, Eq, Structural)]
pub enum Leg {
    Input,
    Reference,
    Target,
    Consumer,
    Predecessor,
    AlignedRow,
}

/// The jumps that the same key goes through one by one. They stay those of
/// the row that the first jump left.
#[derive(Debug)]
pub struct Cycle {
    pub anchor: Anchor,
    pub what: Leg,
    /// The lines that the jumps land on.
    pub targets: Vec<usize>,
    pub at: usize,
}

/// The view of a `Cycle`.
#[verifier::ext_equal]
pub struct CycleModel {
    pub anchor: Anchor,
    pub what: Leg,
    pub targets: Seq<usize>,
    pub at: usize,
}

impl View for Cycle {
    type V = CycleModel;

    open spec fn view(&self) -> CycleModel {
        CycleModel { anchor: self.anchor, what: self.what, targets: self.targets@, at: self.at }
    }
}

/// A place to go back to. The selection means something only in the list that
/// it was made in.
#[derive(Debug, Clone, Copy, PartialEq, Eq, Structural)]
pub struct Jump {
    pub timeline: bool,
    pub selected: usize,
    pub line: usize,
}

/// How the viewport is split.
#[derive(Debug, Clone, Copy, PartialEq, Eq, Structural)]
pub enum SplitDir {
    /// Side by side.
    Vertical,
    /// One above the other.
    Horizontal,
}

/// Where one viewport is.
#[derive(Debug, Clone, Copy, PartialEq, Eq, Structural)]
pub struct ViewState {
    pub selected: usize,
    pub cursor: usize,
    pub top: usize,
    pub scroll_x: usize,
}

/// The viewport at the top of a section.
pub open spec fn view_at(selected: usize) -> ViewState {
    ViewState { selected, cursor: 0, top: 0, scroll_x: 0 }
}

impl Default for ViewState {
    fn default() -> (state: ViewState)
        ensures
            state == view_at(0),
    {
        ViewState { selected: 0, cursor: 0, top: 0, scroll_x: 0 }
    }
}

/// Where a row comes from in the script.
#[derive(Debug, Clone, Copy, PartialEq, Eq, Structural)]
pub enum SrcRef {
    /// A character offset.
    Char(u32),
    /// The line on which the function is defined.
    FnLine(u32),
}

/// The pane with the JavaScript source.
#[derive(Debug)]
pub struct SourcePane {
    pub title: String,
    pub lines: Vec<String>,
    /// The script line of the first line, counted from zero.
    pub base_line: u32,
    /// The character offset in the script of each line.
    pub line_starts: Vec<u32>,
    /// Character offsets can be placed.
    pub chars_usable: bool,
    pub top: usize,
    pub cursor: usize,
    /// The source and the compilation that the pane was made for.
    pub key: (usize, usize),
}

/// The view of a `SourcePane`.
#[verifier::ext_equal]
pub struct PaneModel {
    pub title: Seq<char>,
    pub lines: Seq<Seq<char>>,
    pub base_line: u32,
    pub line_starts: Seq<u32>,
    pub chars_usable: bool,
    pub top: usize,
    pub cursor: usize,
    pub key: (usize, usize),
}

impl View for SourcePane {
    type V = PaneModel;

    open spec fn view(&self) -> PaneModel {
        PaneModel {
            title: self.title@,
            lines: texts(self.lines@),
            base_line: self.base_line,
            line_starts: self.line_starts@,
            chars_usable: self.chars_usable,
            top: self.top,
            cursor: self.cursor,
            key: self.key,
        }
    }
}

/// A text that is copied.
#[derive(Debug, Clone, Copy, PartialEq, Eq, Structural)]
pub enum CopyKind {
    Line,
    Section,
}

/// What the program asks for.
#[derive(Debug)]
pub enum Request {
    /// To copy a text.
    Copy { kind: CopyKind, text: String },
    /// To write a text with `lines` exported lines to a file.
    Export { path: String, text: String, lines: usize },
    /// To read the script of a compilation. The name of the trace says where
    /// to look.
    Script { script: String, trace: String, comp: usize },
}

/// The view of a `Request`.
pub enum RequestModel {
    Copy { kind: CopyKind, text: Seq<char> },
    Export { path: Seq<char>, text: Seq<char>, lines: usize },
    Script { script: Seq<char>, trace: Seq<char>, comp: usize },
}

impl View for Request {
    type V = RequestModel;

    open spec fn view(&self) -> RequestModel {
        match self {
            Request::Copy { kind, text } => RequestModel::Copy { kind: *kind, text: text@ },
            Request::Export { path, text, lines } => RequestModel::Export {
                path: path@,
                text: text@,
                lines: *lines,
            },
            Request::Script { script, trace, comp } => RequestModel::Script {
                script: script@,
                trace: trace@,
                comp: *comp,
            },
        }
    }
}

/// One side of a comparison: source, compilation and phase.
#[derive(Debug, Clone, Copy, PartialEq, Eq, Structural)]
pub struct DualSide {
    pub source: usize,
    pub comp: usize,
    pub phase: usize,
}

/// Pairs, of which each is in the set or not.
pub struct PairSet {
    pairs: Vec<(usize, u64)>,
}

impl View for PairSet {
    type V = Set<(usize, u64)>;

    closed spec fn view(&self) -> Set<(usize, u64)> {
        self.pairs@.to_set()
    }
}

impl PairSet {
    /// The empty set.
    pub fn new() -> (set: PairSet)
        ensures
            set@ == Set::<(usize, u64)>::empty(),
    {
        let set = PairSet { pairs: Vec::new() };
        assert(set@ =~= Set::<(usize, u64)>::empty());
        set
    }

    /// Is a pair in the set?
    pub fn contains(&self, a: usize, b: u64) -> (yes: bool)
        ensures
            yes == self@.contains((a, b)),
    {
        let mut k: usize = 0;
        while k < self.pairs.len()
            invariant
                k <= self.pairs@.len(),
                forall|m: int| 0 <= m < k ==> self.pairs@[m] != (a, b),
            decreases self.pairs.len() - k,
        {
            if self.pairs[k].0 == a && self.pairs[k].1 == b {
                assert(self.pairs@[k as int] == (a, b));
                return true;
            }
            k += 1;
        }
        false
    }

    /// Puts a pair into the set.
    pub fn insert(&mut self, a: usize, b: u64)
        ensures
            final(self)@ == old(self)@.insert((a, b)),
    {
        if !self.contains(a, b) {
            let ghost before = self.pairs@;
            self.pairs.push((a, b));
            proof {
                assert forall|p: (usize, u64)|
                    self@.contains(p) <==> #[trigger] old(self)@.insert((a, b)).contains(p) by {
                    if before.contains(p) {
                        let i = choose|i: int| 0 <= i < before.len() && before[i] == p;
                        assert(self.pairs@[i] == p);
                    }
                    if p == (a, b) {
                        assert(self.pairs@[before.len() as int] == p);
                    }
                    if self.pairs@.contains(p) {
                        let i = choose|i: int| 0 <= i < self.pairs@.len() && self.pairs@[i] == p;
                        if i < before.len() {
                            assert(before[i] == p);
                        }
                    }
                }
            }
        }
        assert(self@ =~= old(self)@.insert((a, b)));
    }

    /// Takes a pair out of the set.
    pub fn remove(&mut self, a: usize, b: u64)
        ensures
            final(self)@ == old(self)@.remove((a, b)),
    {
        let mut kept: Vec<(usize, u64)> = Vec::new();
        let mut k: usize = 0;
        while k < self.pairs.len()
            invariant
                k <= self.pairs@.len(),
                self.pairs@ == old(self).pairs@,
                forall|x: (usize, u64)|
                    #[trigger] kept@.contains(x) <==> x != (a, b) && exists|i: int|
                        0 <= i < k && self.pairs@[i] == x,
            decreases self.pairs@.len() - k,
        {
            let ghost before = kept@;
            let it: (usize, u64) = self.pairs[k];
            if it.0 != a || it.1 != b {
                kept.push(it);
            }
            proof {
                assert forall|x: (usize, u64)|
                    #[trigger] kept@.contains(x) <==> x != (a, b) && exists|i: int|
                        0 <= i < k + 1 && self.pairs@[i] == x by {
                    if kept@.contains(x) {
                        let j = choose|j: int| 0 <= j < kept@.len() && kept@[j] == x;
                        if j < before.len() {
                            assert(before[j] == x);
                            assert(before.contains(x));
                        } else {
                            assert(self.pairs@[k as int] == x);
                        }
                    }
                    if x != (a, b) && exists|i: int| 0 <= i < k + 1 && self.pairs@[i] == x {
                        let i = choose|i: int| 0 <= i < k + 1 && self.pairs@[i] == x;
                        if i < k {
                            assert(before.contains(x));
                            let j = choose|j: int| 0 <= j < before.len() && before[j] == x;
                            assert(kept@[j] == x);
                        } else {
                            assert(kept@[before.len() as int] == x);
                        }
                    }
                }
            }
            k += 1;
        }
        self.pairs = kept;
        assert(self@ =~= old(self)@.remove((a, b)));
    }
}

// ---------------------------------------------------------------------------
// The state
// ---------------------------------------------------------------------------

/// What a kept comparison was made for.
#[derive(Debug, Clone, Copy, PartialEq, Eq, Structural)]
pub struct DiffKey {
    pub left: DualSide,
    pub right: DualSide,
    /// The columns are titled.
    pub titled: bool,
}

/// The state of the program.
pub struct App {
    pub sources: Vec<Source>,
    pub active: usize,
    pub focus: Pane,
    /// The sidebar groups compilations by function.
    pub grouped: bool,
    pub selected: usize,
    pub sidebar_scroll: usize,
    /// Compilations whose phases are listed, by source.
    pub(crate) expanded: PairSet,
    /// Functions whose compilations are listed, by source.
    pub(crate) expanded_groups: PairSet,
    /// A display row of the viewport.
    pub cursor: usize,
    /// The first display row that is on the screen.
    pub top: usize,
    pub scroll_x: usize,
    pub wrap: bool,
    /// The viewport stays at the end of the stream.
    pub follow: bool,
    pub help: bool,
    pub quit: bool,
    pub status: String,
    pub viewport_height: usize,
    pub sidebar_height: usize,
    pub keys: Keymap,
    pub(crate) folded_blocks: FoldSet,
    pub show_annotations: bool,
    pub search: Option<Pattern>,
    pub sidebar_filter: Option<Pattern>,
    pub input: Option<InputLine>,
    pub(crate) jumps: Vec<Jump>,
    pub(crate) jump_at: usize,
    pub(crate) cycle: Option<Cycle>,
    /// The sidebar lists events.
    pub timeline: bool,
    /// The selection of the list that the sidebar does not show.
    pub(crate) timeline_selected: usize,
    pub timeline_deopts_only: bool,
    pub lens: Option<Lens>,
    pub split: Option<SplitDir>,
    /// Where the viewport is that the keys do not drive.
    pub other_view: ViewState,
    /// The viewport that the keys drive: 0 is left or above.
    pub active_pane: usize,
    /// The two viewports show a comparison.
    pub diff: bool,
    pub(crate) diff_cache: Option<(DiffKey, Arc<DiffModel>)>,
    /// The pair that is compared, where the viewports do not say.
    pub(crate) dual: Option<(DualSide, DualSide)>,
    pub sidebar_visible: bool,
    /// The selected entry of the inlining panel, where it is open.
    pub inline_panel: Option<usize>,
    pub source_pane: Option<SourcePane>,
    pub sidebar_rect: PaneRect,
    pub viewport_rect: PaneRect,
    pub viewport2_rect: PaneRect,
    pub source_rect: PaneRect,
    /// What the program asks for.
    pub request: Option<Request>,
}

/// The view of an `App`. What is kept to save work does not show.
pub struct AppModel {
    pub sources: Seq<SourceModel>,
    pub active: usize,
    pub focus: Pane,
    pub grouped: bool,
    pub selected: usize,
    pub sidebar_scroll: usize,
    pub expanded: Set<(usize, u64)>,
    pub expanded_groups: Set<(usize, u64)>,
    pub cursor: usize,
    pub top: usize,
    pub scroll_x: usize,
    pub wrap: bool,
    pub follow: bool,
    pub help: bool,
    pub quit: bool,
    pub status: Seq<char>,
    pub viewport_height: usize,
    pub sidebar_height: usize,
    pub keys: Seq<(Chord, Action)>,
    pub folded: Set<FoldKey>,
    pub show_annotations: bool,
    pub search: Option<Seq<char>>,
    pub sidebar_filter: Option<Seq<char>>,
    pub input: Option<InputModel>,
    pub jumps: Seq<Jump>,
    pub jump_at: usize,
    pub cycle: Option<CycleModel>,
    pub timeline: bool,
    pub timeline_selected: usize,
    pub timeline_deopts_only: bool,
    pub lens: Option<Lens>,
    pub split: Option<SplitDir>,
    pub other_view: ViewState,
    pub active_pane: usize,
    pub diff: bool,
    pub dual: Option<(DualSide, DualSide)>,
    pub sidebar_visible: bool,
    pub inline_panel: Option<usize>,
    pub source_pane: Option<PaneModel>,
    pub sidebar_rect: PaneRect,
    pub viewport_rect: PaneRect,
    pub viewport2_rect: PaneRect,
    pub source_rect: PaneRect,
    pub request: Option<RequestModel>,
}

/// The view of an optional input line.
pub open spec fn input_model(input: Option<InputLine>) -> Option<InputModel> {
    match input {
        Some(i) => Some(i@),
        None => None,
    }
}

/// The view of an optional cycle.
pub open spec fn cycle_model(cycle: Option<Cycle>) -> Option<CycleModel> {
    match cycle {
        Some(c) => Some(c@),
        None => None,
    }
}

/// The view of an optional source pane.
pub open spec fn pane_model(pane: Option<SourcePane>) -> Option<PaneModel> {
    match pane {
        Some(p) => Some(p@),
        None => None,
    }
}

/// The view of an optional request.
pub open spec fn request_model(request: Option<Request>) -> Option<RequestModel> {
    match request {
        Some(r) => Some(r@),
        None => None,
    }
}

impl App {
    /// The state without what is kept to save work.
    #[verifier::opaque]
    pub closed spec fn model(&self) -> AppModel {
        AppModel {
            sources: source_models(self.sources@),
            active: self.active,
            focus: self.focus,
            grouped: self.grouped,
            selected: self.selected,
            sidebar_scroll: self.sidebar_scroll,
            expanded: self.expanded@,
            expanded_groups: self.expanded_groups@,
            cursor: self.cursor,
            top: self.top,
            scroll_x: self.scroll_x,
            wrap: self.wrap,
            follow: self.follow,
            help: self.help,
            quit: self.quit,
            status: self.status@,
            viewport_height: self.viewport_height,
            sidebar_height: self.sidebar_height,
            keys: self.keys@,
            folded: self.folded_blocks@,
            show_annotations: self.show_annotations,
            search: opt_pattern(self.search),
            sidebar_filter: opt_pattern(self.sidebar_filter),
            input: input_model(self.input),
            jumps: self.jumps@,
            jump_at: self.jump_at,
            cycle: cycle_model(self.cycle),
            timeline: self.timeline,
            timeline_selected: self.timeline_selected,
            timeline_deopts_only: self.timeline_deopts_only,
            lens: self.lens,
            split: self.split,
            other_view: self.other_view,
            active_pane: self.active_pane,
            diff: self.diff,
            dual: self.dual,
            sidebar_visible: self.sidebar_visible,
            inline_panel: self.inline_panel,
            source_pane: pane_model(self.source_pane),
            sidebar_rect: self.sidebar_rect,
            viewport_rect: self.viewport_rect,
            viewport2_rect: self.viewport2_rect,
            source_rect: self.source_rect,
            request: request_model(self.request),
        }
    }
}

impl View for App {
    type V = AppModel;

    open spec fn view(&self) -> AppModel {
        self.model()
    }
}

/// A side names a phase that exists.
pub open spec fn side_exists(sources: Seq<SourceModel>, side: DualSide) -> bool {
    &&& side.source < sources.len()
    &&& side.comp < sources[side.source as int].index.compilations.len()
    &&& side.phase < sources[side.source as int].index.compilations[side.comp as int].phases.len()
}

/// The compilation that a side names.
pub open spec fn side_section(sources: Seq<SourceModel>, side: DualSide) -> CompilationModel {
    sources[side.source as int].index.compilations[side.comp as int]
}

/// One side of a comparison.
pub open spec fn compared_side(
    sources: Seq<SourceModel>,
    side: DualSide,
    by_id: bool,
) -> side::SideModel {
    let buffer = sources[side.source as int].buffer;
    let section = side_section(sources, side);
    side::side_at(
        buffer,
        parsed_compilation(buffer, section),
        section,
        side.phase as int,
        (side.source, side.comp),
        by_id,
    )
}

/// The title of a side.
pub open spec fn side_title(sources: Seq<SourceModel>, side: DualSide) -> Seq<char> {
    let section = side_section(sources, side);
    sources[side.source as int].label + " · "@ + shown_name(section.name) + " · "@
        + section.phases[side.phase as int].name
}

/// The comparison of two sides.
#[verifier::opaque]
pub open spec fn compared(sources: Seq<SourceModel>, key: DiffKey) -> DiffView {
    let by_id = key.left.source == key.right.source && key.left.comp == key.right.comp;
    let plain = sides_aligned(
        compared_side(sources, key.left, by_id),
        compared_side(sources, key.right, by_id),
    );
    DiffView {
        titles: if key.titled {
            Some((side_title(sources, key.left), side_title(sources, key.right)))
        } else {
            None
        },
        ..plain
    }
}

/// A comparison that is kept is not stale.
#[verifier::opaque]
pub open spec fn diff_faithful(
    cache: Option<(DiffKey, Arc<DiffModel>)>,
    sources: Seq<SourceModel>,
) -> bool {
    cache matches Some((key, model)) ==> (*model)@ == compared(sources, key)
}

impl App {
    /// The state is in order: there is an active source, every source is in
    /// order, the history is within bounds, and nothing kept is stale.
    #[verifier::opaque]
    pub closed spec fn wf(&self) -> bool {
        &&& self.active < self.sources@.len()
        &&& forall|k: int| 0 <= k < self.sources@.len() ==> (#[trigger] self.sources@[k]).wf()
        &&& self.jump_at <= self.jumps@.len()
        &&& diff_faithful(self.diff_cache, source_models(self.sources@))
    }

    /// What `wf` says of the view.
    pub proof fn lemma_wf(&self)
        requires
            self.wf(),
        ensures
            self@.active < self@.sources.len(),
            self@.jump_at <= self@.jumps.len(),
    {
        reveal(App::wf);
        reveal(App::model);
    }
}

impl AppModel {
    /// The source that is shown.
    pub open spec fn source(self) -> SourceModel {
        self.sources[self.active as int]
    }

    /// The compilations of the source that is shown.
    pub open spec fn compilations(self) -> Seq<CompilationModel> {
        self.source().index.compilations
    }
}

/// A source that nothing was read of.
pub open spec fn fresh_source(source: LogSource, filter: Option<Seq<char>>) -> SourceModel {
    SourceModel {
        label: source_label(source),
        buffer: LogModel { bytes: Seq::empty(), starts: Seq::empty(), mapped: false },
        state: StateModel::Loading,
        index: fresh_index(filter),
    }
}

/// The state at the start.
pub open spec fn fresh_app(
    sources: Seq<LogSource>,
    filter: Option<Seq<char>>,
    keys: Seq<(Chord, Action)>,
) -> AppModel {
    AppModel {
        sources: sources.map_values(|s: LogSource| fresh_source(s, filter)),
        active: 0,
        focus: Pane::Sidebar,
        grouped: false,
        selected: 0,
        sidebar_scroll: 0,
        expanded: Set::empty(),
        expanded_groups: Set::empty(),
        cursor: 0,
        top: 0,
        scroll_x: 0,
        wrap: false,
        follow: sources.len() > 0 && sources[0] is Stdin,
        help: false,
        quit: false,
        status: "? help"@,
        viewport_height: 1,
        sidebar_height: 1,
        keys,
        folded: Set::empty(),
        show_annotations: false,
        search: None,
        sidebar_filter: None,
        input: None,
        jumps: Seq::empty(),
        jump_at: 0,
        cycle: None,
        timeline: false,
        timeline_selected: 0,
        timeline_deopts_only: false,
        lens: None,
        split: None,
        other_view: view_at(0),
        active_pane: 0,
        diff: false,
        dual: None,
        sidebar_visible: true,
        inline_panel: None,
        source_pane: None,
        sidebar_rect: no_rect(),
        viewport_rect: no_rect(),
        viewport2_rect: no_rect(),
        source_rect: no_rect(),
        request: None,
    }
}

fn copy_filter(filter: &Option<Pattern>) -> (out: Option<Pattern>)
    ensures
        opt_pattern(out) == opt_pattern(*filter),
{
    match filter {
        Some(p) => Some(p.duplicate()),
        None => None,
    }
}

impl App {
    /// The state at the start. Only a stream is followed from the start; a
    /// file opens at the top.
    pub fn new(sources: &[LogSource], function_filter: Option<Pattern>, keys: Keymap) -> (app: App)
        requires
            sources@.len() > 0,
        ensures
            app.wf(),
            app@ == fresh_app(sources@, opt_pattern(function_filter), keys@),
    {
        let ghost filter = opt_pattern(function_filter);
        let ghost fresh = sources@.map_values(|s: LogSource| fresh_source(s, filter));
        let mut list: Vec<Source> = Vec::new();
        let mut k: usize = 0;
        while k < sources.len()
            invariant
                k <= sources@.len(),
                list@.len() == k,
                filter == opt_pattern(function_filter),
                fresh == sources@.map_values(|s: LogSource| fresh_source(s, filter)),
                source_models(list@) == fresh.take(k as int),
                forall|m: int| 0 <= m < list@.len() ==> (#[trigger] list@[m]).wf(),
            decreases sources.len() - k,
        {
            let source = Source {
                label: sources[k].label(),
                buffer: LogBuffer::new(),
                state: SourceState::Loading,
                index: TraceIndex::new(copy_filter(&function_filter)),
                parses: ParseCache::new(),
            };
            let ghost seen = source_models(list@);
            let ghost model = source@;
            assert(model =~= fresh[k as int]);
            list.push(source);
            assert(source_models(list@) =~= seen.push(model));
            assert(source_models(list@) =~= fresh.take(k + 1));
            k += 1;
        }
        assert(fresh.take(k as int) =~= fresh);
        let follow: bool = match &sources[0] {
            LogSource::Stdin => true,
            _ => false,
        };
        let app = App {
            sources: list,
            active: 0,
            focus: Pane::Sidebar,
            grouped: false,
            selected: 0,
            sidebar_scroll: 0,
            expanded: PairSet::new(),
            expanded_groups: PairSet::new(),
            cursor: 0,
            top: 0,
            scroll_x: 0,
            wrap: false,
            follow,
            help: false,
            quit: false,
            status: text::owned("? help"),
            viewport_height: 1,
            sidebar_height: 1,
            keys,
            folded_blocks: FoldSet::new(),
            show_annotations: false,
            search: None,
            sidebar_filter: None,
            input: None,
            jumps: Vec::new(),
            jump_at: 0,
            cycle: None,
            timeline: false,
            timeline_selected: 0,
            timeline_deopts_only: false,
            lens: None,
            split: None,
            other_view: ViewState::default(),
            active_pane: 0,
            diff: false,
            diff_cache: None,
            dual: None,
            sidebar_visible: true,
            inline_panel: None,
            source_pane: None,
            sidebar_rect: PaneRect::default(),
            viewport_rect: PaneRect::default(),
            viewport2_rect: PaneRect::default(),
            source_rect: PaneRect::default(),
            request: None,
        };
        reveal(diff_faithful);
        reveal(App::wf);
        reveal(App::model);
        app
    }

    /// The source that is shown.
    pub fn active_source(&self) -> (source: &Source)
        requires
            self.wf(),
        ensures
            source@ == self@.source(),
            source.wf(),
    {
        reveal(App::wf);
        reveal(App::model);
        &self.sources[self.active]
    }

    /// Source `k`.
    pub(crate) fn source_at(&self, k: usize) -> (source: &Source)
        requires
            self.wf(),
            k < self@.sources.len(),
        ensures
            source@ == self@.sources[k as int],
            source.wf(),
    {
        reveal(App::wf);
        reveal(App::model);
        &self.sources[k]
    }

    /// How many sources there are.
    pub(crate) fn source_count(&self) -> (n: usize)
        ensures
            n == self@.sources.len(),
    {
        reveal(App::model);
        self.sources.len()
    }

    /// Are the phases of a compilation listed?
    pub fn compilation_expanded(&self, comp: usize) -> (yes: bool)
        ensures
            yes == self@.expanded.contains((self@.active, comp as u64)),
    {
        reveal(App::model);
        self.expanded.contains(self.active, comp as u64)
    }

    /// Are the compilations of a function listed?
    pub fn group_expanded(&self, sfi: u64) -> (yes: bool)
        ensures
            yes == self@.expanded_groups.contains((self@.active, sfi)),
    {
        reveal(App::model);
        self.expanded_groups.contains(self.active, sfi)
    }
}

/// What one change gives. Each names the one thing that is different.
impl AppModel {
    #[verifier::opaque]
    pub open spec fn with_active(self, v: usize) -> AppModel {
        AppModel { active: v, ..self }
    }

    #[verifier::opaque]
    pub open spec fn with_focus(self, v: Pane) -> AppModel {
        AppModel { focus: v, ..self }
    }

    #[verifier::opaque]
    pub open spec fn with_grouped(self, v: bool) -> AppModel {
        AppModel { grouped: v, ..self }
    }

    #[verifier::opaque]
    pub open spec fn with_selected(self, v: usize) -> AppModel {
        AppModel { selected: v, ..self }
    }

    #[verifier::opaque]
    pub open spec fn with_sidebar_scroll(self, v: usize) -> AppModel {
        AppModel { sidebar_scroll: v, ..self }
    }

    #[verifier::opaque]
    pub open spec fn with_cursor(self, v: usize) -> AppModel {
        AppModel { cursor: v, ..self }
    }

    #[verifier::opaque]
    pub open spec fn with_top(self, v: usize) -> AppModel {
        AppModel { top: v, ..self }
    }

    #[verifier::opaque]
    pub open spec fn with_scroll_x(self, v: usize) -> AppModel {
        AppModel { scroll_x: v, ..self }
    }

    #[verifier::opaque]
    pub open spec fn with_wrap(self, v: bool) -> AppModel {
        AppModel { wrap: v, ..self }
    }

    #[verifier::opaque]
    pub open spec fn with_follow(self, v: bool) -> AppModel {
        AppModel { follow: v, ..self }
    }

    #[verifier::opaque]
    pub open spec fn with_help(self, v: bool) -> AppModel {
        AppModel { help: v, ..self }
    }

    #[verifier::opaque]
    pub open spec fn with_quit(self, v: bool) -> AppModel {
        AppModel { quit: v, ..self }
    }

    #[verifier::opaque]
    pub open spec fn with_show_annotations(self, v: bool) -> AppModel {
        AppModel { show_annotations: v, ..self }
    }

    #[verifier::opaque]
    pub open spec fn with_search(self, v: Option<Seq<char>>) -> AppModel {
        AppModel { search: v, ..self }
    }

    #[verifier::opaque]
    pub open spec fn with_sidebar_filter(self, v: Option<Seq<char>>) -> AppModel {
        AppModel { sidebar_filter: v, ..self }
    }

    #[verifier::opaque]
    pub open spec fn with_input(self, v: Option<InputModel>) -> AppModel {
        AppModel { input: v, ..self }
    }

    #[verifier::opaque]
    pub open spec fn with_cycle(self, v: Option<CycleModel>) -> AppModel {
        AppModel { cycle: v, ..self }
    }

    #[verifier::opaque]
    pub open spec fn with_timeline(self, v: bool) -> AppModel {
        AppModel { timeline: v, ..self }
    }

    #[verifier::opaque]
    pub open spec fn with_timeline_selected(self, v: usize) -> AppModel {
        AppModel { timeline_selected: v, ..self }
    }

    #[verifier::opaque]
    pub open spec fn with_timeline_deopts_only(self, v: bool) -> AppModel {
        AppModel { timeline_deopts_only: v, ..self }
    }

    #[verifier::opaque]
    pub open spec fn with_lens(self, v: Option<Lens>) -> AppModel {
        AppModel { lens: v, ..self }
    }

    #[verifier::opaque]
    pub open spec fn with_split(self, v: Option<SplitDir>) -> AppModel {
        AppModel { split: v, ..self }
    }

    #[verifier::opaque]
    pub open spec fn with_other_view(self, v: ViewState) -> AppModel {
        AppModel { other_view: v, ..self }
    }

    #[verifier::opaque]
    pub open spec fn with_active_pane(self, v: usize) -> AppModel {
        AppModel { active_pane: v, ..self }
    }

    #[verifier::opaque]
    pub open spec fn with_diff(self, v: bool) -> AppModel {
        AppModel { diff: v, ..self }
    }

    #[verifier::opaque]
    pub open spec fn with_dual(self, v: Option<(DualSide, DualSide)>) -> AppModel {
        AppModel { dual: v, ..self }
    }

    #[verifier::opaque]
    pub open spec fn with_sidebar_visible(self, v: bool) -> AppModel {
        AppModel { sidebar_visible: v, ..self }
    }

    #[verifier::opaque]
    pub open spec fn with_inline_panel(self, v: Option<usize>) -> AppModel {
        AppModel { inline_panel: v, ..self }
    }

    #[verifier::opaque]
    pub open spec fn with_source_pane(self, v: Option<PaneModel>) -> AppModel {
        AppModel { source_pane: v, ..self }
    }

    #[verifier::opaque]
    pub open spec fn with_sidebar_height(self, v: usize) -> AppModel {
        AppModel { sidebar_height: v, ..self }
    }

    #[verifier::opaque]
    pub open spec fn with_viewport_height(self, v: usize) -> AppModel {
        AppModel { viewport_height: v, ..self }
    }

    #[verifier::opaque]
    pub open spec fn with_sidebar_rect(self, v: PaneRect) -> AppModel {
        AppModel { sidebar_rect: v, ..self }
    }

    #[verifier::opaque]
    pub open spec fn with_viewport_rect(self, v: PaneRect) -> AppModel {
        AppModel { viewport_rect: v, ..self }
    }

    #[verifier::opaque]
    pub open spec fn with_viewport2_rect(self, v: PaneRect) -> AppModel {
        AppModel { viewport2_rect: v, ..self }
    }

    #[verifier::opaque]
    pub open spec fn with_source_rect(self, v: PaneRect) -> AppModel {
        AppModel { source_rect: v, ..self }
    }

    #[verifier::opaque]
    pub open spec fn with_request(self, v: Option<RequestModel>) -> AppModel {
        AppModel { request: v, ..self }
    }

    #[verifier::opaque]
    pub open spec fn with_expanded(self, v: Set<(usize, u64)>) -> AppModel {
        AppModel { expanded: v, ..self }
    }

    #[verifier::opaque]
    pub open spec fn with_expanded_groups(self, v: Set<(usize, u64)>) -> AppModel {
        AppModel { expanded_groups: v, ..self }
    }

    #[verifier::opaque]
    pub open spec fn with_folded(self, v: Set<FoldKey>) -> AppModel {
        AppModel { folded: v, ..self }
    }

    #[verifier::opaque]
    pub open spec fn with_jumps(self, v: Seq<Jump>) -> AppModel {
        AppModel { jumps: v, ..self }
    }

    #[verifier::opaque]
    pub open spec fn with_jump_at(self, v: usize) -> AppModel {
        AppModel { jump_at: v, ..self }
    }

    #[verifier::opaque]
    pub open spec fn with_sources(self, v: Seq<SourceModel>) -> AppModel {
        AppModel { sources: v, ..self }
    }

    /// With a place to go back to, behind those up to here.
    pub open spec fn jump_pushed(self, jump: Jump) -> AppModel {
        let jumps = self.jumps.take(self.jump_at as int).push(jump);
        self.with_jumps(jumps).with_jump_at(jumps.len() as usize)
    }

    /// With another message.
    #[verifier::opaque]
    pub open spec fn say(self, message: Seq<char>) -> AppModel {
        AppModel { status: message, ..self }
    }
}

/// What one assignment does to the view.
impl App {
    pub(crate) fn set_active(&mut self, v: usize)
        requires
            old(self).wf(),
            v < old(self)@.sources.len(),
        ensures
            final(self).wf(),
            final(self)@ == old(self)@.with_active(v),
    {
        reveal(AppModel::with_active);
        reveal(App::wf);
        reveal(App::model);
        self.active = v;
    }

    pub(crate) fn set_focus(&mut self, v: Pane)
        requires
            old(self).wf(),
        ensures
            final(self).wf(),
            final(self)@ == old(self)@.with_focus(v),
    {
        reveal(AppModel::with_focus);
        reveal(App::wf);
        reveal(App::model);
        self.focus = v;
    }

    pub(crate) fn set_grouped(&mut self, v: bool)
        requires
            old(self).wf(),
        ensures
            final(self).wf(),
            final(self)@ == old(self)@.with_grouped(v),
    {
        reveal(AppModel::with_grouped);
        reveal(App::wf);
        reveal(App::model);
        self.grouped = v;
    }

    pub(crate) fn set_selected(&mut self, v: usize)
        requires
            old(self).wf(),
        ensures
            final(self).wf(),
            final(self)@ == old(self)@.with_selected(v),
    {
        reveal(AppModel::with_selected);
        reveal(App::wf);
        reveal(App::model);
        self.selected = v;
    }

    pub(crate) fn set_sidebar_scroll(&mut self, v: usize)
        requires
            old(self).wf(),
        ensures
            final(self).wf(),
            final(self)@ == old(self)@.with_sidebar_scroll(v),
    {
        reveal(AppModel::with_sidebar_scroll);
        reveal(App::wf);
        reveal(App::model);
        self.sidebar_scroll = v;
    }

    pub(crate) fn set_cursor(&mut self, v: usize)
        requires
            old(self).wf(),
        ensures
            final(self).wf(),
            final(self)@ == old(self)@.with_cursor(v),
    {
        reveal(AppModel::with_cursor);
        reveal(App::wf);
        reveal(App::model);
        self.cursor = v;
    }

    pub(crate) fn set_top(&mut self, v: usize)
        requires
            old(self).wf(),
        ensures
            final(self).wf(),
            final(self)@ == old(self)@.with_top(v),
    {
        reveal(AppModel::with_top);
        reveal(App::wf);
        reveal(App::model);
        self.top = v;
    }

    pub(crate) fn set_scroll_x(&mut self, v: usize)
        requires
            old(self).wf(),
        ensures
            final(self).wf(),
            final(self)@ == old(self)@.with_scroll_x(v),
    {
        reveal(AppModel::with_scroll_x);
        reveal(App::wf);
        reveal(App::model);
        self.scroll_x = v;
    }

    pub(crate) fn set_wrap(&mut self, v: bool)
        requires
            old(self).wf(),
        ensures
            final(self).wf(),
            final(self)@ == old(self)@.with_wrap(v),
    {
        reveal(AppModel::with_wrap);
        reveal(App::wf);
        reveal(App::model);
        self.wrap = v;
    }

    pub(crate) fn set_follow(&mut self, v: bool)
        requires
            old(self).wf(),
        ensures
            final(self).wf(),
            final(self)@ == old(self)@.with_follow(v),
    {
        reveal(AppModel::with_follow);
        reveal(App::wf);
        reveal(App::model);
        self.follow = v;
    }

    pub(crate) fn set_help(&mut self, v: bool)
        requires
            old(self).wf(),
        ensures
            final(self).wf(),
            final(self)@ == old(self)@.with_help(v),
    {
        reveal(AppModel::with_help);
        reveal(App::wf);
        reveal(App::model);
        self.help = v;
    }

    pub(crate) fn set_quit(&mut self, v: bool)
        requires
            old(self).wf(),
        ensures
            final(self).wf(),
            final(self)@ == old(self)@.with_quit(v),
    {
        reveal(AppModel::with_quit);
        reveal(App::wf);
        reveal(App::model);
        self.quit = v;
    }

    pub(crate) fn set_show_annotations(&mut self, v: bool)
        requires
            old(self).wf(),
        ensures
            final(self).wf(),
            final(self)@ == old(self)@.with_show_annotations(v),
    {
        reveal(AppModel::with_show_annotations);
        reveal(App::wf);
        reveal(App::model);
        self.show_annotations = v;
    }

    pub(crate) fn set_search(&mut self, v: Option<Pattern>)
        requires
            old(self).wf(),
        ensures
            final(self).wf(),
            final(self)@ == old(self)@.with_search(opt_pattern(v)),
    {
        reveal(AppModel::with_search);
        reveal(App::wf);
        reveal(App::model);
        self.search = v;
    }

    pub(crate) fn set_sidebar_filter(&mut self, v: Option<Pattern>)
        requires
            old(self).wf(),
        ensures
            final(self).wf(),
            final(self)@ == old(self)@.with_sidebar_filter(opt_pattern(v)),
    {
        reveal(AppModel::with_sidebar_filter);
        reveal(App::wf);
        reveal(App::model);
        self.sidebar_filter = v;
    }

    pub(crate) fn set_input(&mut self, v: Option<InputLine>)
        requires
            old(self).wf(),
        ensures
            final(self).wf(),
            final(self)@ == old(self)@.with_input(input_model(v)),
    {
        reveal(AppModel::with_input);
        reveal(App::wf);
        reveal(App::model);
        self.input = v;
    }

    pub(crate) fn set_cycle(&mut self, v: Option<Cycle>)
        requires
            old(self).wf(),
        ensures
            final(self).wf(),
            final(self)@ == old(self)@.with_cycle(cycle_model(v)),
    {
        reveal(AppModel::with_cycle);
        reveal(App::wf);
        reveal(App::model);
        self.cycle = v;
    }

    pub(crate) fn set_timeline(&mut self, v: bool)
        requires
            old(self).wf(),
        ensures
            final(self).wf(),
            final(self)@ == old(self)@.with_timeline(v),
    {
        reveal(AppModel::with_timeline);
        reveal(App::wf);
        reveal(App::model);
        self.timeline = v;
    }

    pub(crate) fn set_timeline_selected(&mut self, v: usize)
        requires
            old(self).wf(),
        ensures
            final(self).wf(),
            final(self)@ == old(self)@.with_timeline_selected(v),
    {
        reveal(AppModel::with_timeline_selected);
        reveal(App::wf);
        reveal(App::model);
        self.timeline_selected = v;
    }

    pub(crate) fn set_timeline_deopts_only(&mut self, v: bool)
        requires
            old(self).wf(),
        ensures
            final(self).wf(),
            final(self)@ == old(self)@.with_timeline_deopts_only(v),
    {
        reveal(AppModel::with_timeline_deopts_only);
        reveal(App::wf);
        reveal(App::model);
        self.timeline_deopts_only = v;
    }

    pub(crate) fn set_lens(&mut self, v: Option<Lens>)
        requires
            old(self).wf(),
        ensures
            final(self).wf(),
            final(self)@ == old(self)@.with_lens(v),
    {
        reveal(AppModel::with_lens);
        reveal(App::wf);
        reveal(App::model);
        self.lens = v;
    }

    pub(crate) fn set_split(&mut self, v: Option<SplitDir>)
        requires
            old(self).wf(),
        ensures
            final(self).wf(),
            final(self)@ == old(self)@.with_split(v),
    {
        reveal(AppModel::with_split);
        reveal(App::wf);
        reveal(App::model);
        self.split = v;
    }

    pub(crate) fn set_other_view(&mut self, v: ViewState)
        requires
            old(self).wf(),
        ensures
            final(self).wf(),
            final(self)@ == old(self)@.with_other_view(v),
    {
        reveal(AppModel::with_other_view);
        reveal(App::wf);
        reveal(App::model);
        self.other_view = v;
    }

    pub(crate) fn set_active_pane(&mut self, v: usize)
        requires
            old(self).wf(),
        ensures
            final(self).wf(),
            final(self)@ == old(self)@.with_active_pane(v),
    {
        reveal(AppModel::with_active_pane);
        reveal(App::wf);
        reveal(App::model);
        self.active_pane = v;
    }

    pub(crate) fn set_diff(&mut self, v: bool)
        requires
            old(self).wf(),
        ensures
            final(self).wf(),
            final(self)@ == old(self)@.with_diff(v),
    {
        reveal(AppModel::with_diff);
        reveal(App::wf);
        reveal(App::model);
        self.diff = v;
    }

    pub(crate) fn set_dual(&mut self, v: Option<(DualSide, DualSide)>)
        requires
            old(self).wf(),
        ensures
            final(self).wf(),
            final(self)@ == old(self)@.with_dual(v),
    {
        reveal(AppModel::with_dual);
        reveal(App::wf);
        reveal(App::model);
        self.dual = v;
    }

    pub(crate) fn set_sidebar_visible(&mut self, v: bool)
        requires
            old(self).wf(),
        ensures
            final(self).wf(),
            final(self)@ == old(self)@.with_sidebar_visible(v),
    {
        reveal(AppModel::with_sidebar_visible);
        reveal(App::wf);
        reveal(App::model);
        self.sidebar_visible = v;
    }

    pub(crate) fn set_inline_panel(&mut self, v: Option<usize>)
        requires
            old(self).wf(),
        ensures
            final(self).wf(),
            final(self)@ == old(self)@.with_inline_panel(v),
    {
        reveal(AppModel::with_inline_panel);
        reveal(App::wf);
        reveal(App::model);
        self.inline_panel = v;
    }

    pub(crate) fn set_source_pane(&mut self, v: Option<SourcePane>)
        requires
            old(self).wf(),
        ensures
            final(self).wf(),
            final(self)@ == old(self)@.with_source_pane(pane_model(v)),
    {
        reveal(AppModel::with_source_pane);
        reveal(App::wf);
        reveal(App::model);
        self.source_pane = v;
    }

    pub(crate) fn set_sidebar_height(&mut self, v: usize)
        requires
            old(self).wf(),
        ensures
            final(self).wf(),
            final(self)@ == old(self)@.with_sidebar_height(v),
    {
        reveal(AppModel::with_sidebar_height);
        reveal(App::wf);
        reveal(App::model);
        self.sidebar_height = v;
    }

    pub(crate) fn set_viewport_height(&mut self, v: usize)
        requires
            old(self).wf(),
        ensures
            final(self).wf(),
            final(self)@ == old(self)@.with_viewport_height(v),
    {
        reveal(AppModel::with_viewport_height);
        reveal(App::wf);
        reveal(App::model);
        self.viewport_height = v;
    }

    pub(crate) fn set_sidebar_rect(&mut self, v: PaneRect)
        requires
            old(self).wf(),
        ensures
            final(self).wf(),
            final(self)@ == old(self)@.with_sidebar_rect(v),
    {
        reveal(AppModel::with_sidebar_rect);
        reveal(App::wf);
        reveal(App::model);
        self.sidebar_rect = v;
    }

    pub(crate) fn set_viewport_rect(&mut self, v: PaneRect)
        requires
            old(self).wf(),
        ensures
            final(self).wf(),
            final(self)@ == old(self)@.with_viewport_rect(v),
    {
        reveal(AppModel::with_viewport_rect);
        reveal(App::wf);
        reveal(App::model);
        self.viewport_rect = v;
    }

    pub(crate) fn set_viewport2_rect(&mut self, v: PaneRect)
        requires
            old(self).wf(),
        ensures
            final(self).wf(),
            final(self)@ == old(self)@.with_viewport2_rect(v),
    {
        reveal(AppModel::with_viewport2_rect);
        reveal(App::wf);
        reveal(App::model);
        self.viewport2_rect = v;
    }

    pub(crate) fn set_source_rect(&mut self, v: PaneRect)
        requires
            old(self).wf(),
        ensures
            final(self).wf(),
            final(self)@ == old(self)@.with_source_rect(v),
    {
        reveal(AppModel::with_source_rect);
        reveal(App::wf);
        reveal(App::model);
        self.source_rect = v;
    }

    pub(crate) fn set_request(&mut self, v: Option<Request>)
        requires
            old(self).wf(),
        ensures
            final(self).wf(),
            final(self)@ == old(self)@.with_request(request_model(v)),
    {
        reveal(AppModel::with_request);
        reveal(App::wf);
        reveal(App::model);
        self.request = v;
    }
}

impl App {
    /// Says something.
    pub(crate) fn say_text(&mut self, message: String)
        requires
            old(self).wf(),
        ensures
            final(self).wf(),
            final(self)@ == old(self)@.say(message@),
    {
        reveal(AppModel::say);
        reveal(App::wf);
        reveal(App::model);
        self.status = message;
    }

    /// Says something.
    pub(crate) fn say(&mut self, message: &str)
        requires
            old(self).wf(),
        ensures
            final(self).wf(),
            final(self)@ == old(self)@.say(message@),
    {
        self.say_text(text::owned(message));
    }

    pub(crate) fn expand_comp(&mut self, comp: usize)
        requires
            old(self).wf(),
        ensures
            final(self).wf(),
            final(self)@ == old(self)@.with_expanded(
                old(self)@.expanded.insert((old(self)@.active, comp as u64)),
            ),
    {
        reveal(AppModel::with_expanded);
        reveal(App::wf);
        reveal(App::model);
        let active: usize = self.active;
        self.expanded.insert(active, comp as u64);
    }

    pub(crate) fn collapse_comp(&mut self, comp: usize)
        requires
            old(self).wf(),
        ensures
            final(self).wf(),
            final(self)@ == old(self)@.with_expanded(
                old(self)@.expanded.remove((old(self)@.active, comp as u64)),
            ),
    {
        reveal(AppModel::with_expanded);
        reveal(App::wf);
        reveal(App::model);
        let active: usize = self.active;
        self.expanded.remove(active, comp as u64);
    }

    pub(crate) fn expand_group(&mut self, sfi: u64)
        requires
            old(self).wf(),
        ensures
            final(self).wf(),
            final(self)@ == old(self)@.with_expanded_groups(
                old(self)@.expanded_groups.insert((old(self)@.active, sfi)),
            ),
    {
        reveal(AppModel::with_expanded_groups);
        reveal(App::wf);
        reveal(App::model);
        let active: usize = self.active;
        self.expanded_groups.insert(active, sfi);
    }

    pub(crate) fn collapse_group(&mut self, sfi: u64)
        requires
            old(self).wf(),
        ensures
            final(self).wf(),
            final(self)@ == old(self)@.with_expanded_groups(
                old(self)@.expanded_groups.remove((old(self)@.active, sfi)),
            ),
    {
        reveal(AppModel::with_expanded_groups);
        reveal(App::wf);
        reveal(App::model);
        let active: usize = self.active;
        self.expanded_groups.remove(active, sfi);
    }

    pub(crate) fn folded(&self) -> (set: &FoldSet)
        ensures
            set@ == self@.folded,
    {
        reveal(App::model);
        &self.folded_blocks
    }

    pub(crate) fn is_folded(&self, key: &FoldKey) -> (yes: bool)
        ensures
            yes == self@.folded.contains(*key),
    {
        reveal(App::model);
        self.folded_blocks.contains(key)
    }

    pub(crate) fn fold(&mut self, key: FoldKey)
        requires
            old(self).wf(),
        ensures
            final(self).wf(),
            final(self)@ == old(self)@.with_folded(old(self)@.folded.insert(key)),
    {
        reveal(AppModel::with_folded);
        reveal(App::wf);
        reveal(App::model);
        self.folded_blocks.insert(key);
    }

    pub(crate) fn unfold(&mut self, key: &FoldKey)
        requires
            old(self).wf(),
        ensures
            final(self).wf(),
            final(self)@ == old(self)@.with_folded(old(self)@.folded.remove(*key)),
    {
        reveal(AppModel::with_folded);
        reveal(App::wf);
        reveal(App::model);
        self.folded_blocks.remove(key);
    }

    /// Moves the cursor of the source pane.
    pub(crate) fn set_pane_cursor(&mut self, v: usize)
        requires
            old(self).wf(),
        ensures
            final(self).wf(),
            final(self)@ == match old(self)@.source_pane {
                Some(pane) => old(self)@.with_source_pane(
                    Some(PaneModel { cursor: v, ..pane }),
                ),
                None => old(self)@,
            },
    {
        reveal(AppModel::with_source_pane);
        reveal(App::wf);
        reveal(App::model);
        if let Some(mut pane) = self.source_pane.take() {
            pane.cursor = v;
            self.source_pane = Some(pane);
        }
    }

    /// Moves the cursor and the first line of the source pane.
    pub(crate) fn set_pane_place(&mut self, top: usize, cursor: usize)
        requires
            old(self).wf(),
        ensures
            final(self).wf(),
            final(self)@ == match old(self)@.source_pane {
                Some(pane) => old(self)@.with_source_pane(Some(PaneModel { top, cursor, ..pane })),
                None => old(self)@,
            },
    {
        reveal(AppModel::with_source_pane);
        reveal(App::wf);
        reveal(App::model);
        if let Some(mut pane) = self.source_pane.take() {
            pane.top = top;
            pane.cursor = cursor;
            self.source_pane = Some(pane);
        }
    }

    /// Gives what the program asks for in exchange for something else.
    pub(crate) fn swap_request(&mut self, other: &mut Option<Request>)
        requires
            old(self).wf(),
        ensures
            final(self).wf(),
            final(self)@ == old(self)@.with_request(request_model(*old(other))),
            request_model(*final(other)) == old(self)@.request,
    {
        reveal(AppModel::with_request);
        reveal(App::wf);
        reveal(App::model);
        std::mem::swap(&mut self.request, other);
    }

    /// Notes a place to go back to, behind those up to here.
    pub(crate) fn push_jump(&mut self, jump: Jump)
        requires
            old(self).wf(),
        ensures
            final(self).wf(),
            final(self)@ == old(self)@.jump_pushed(jump),
    {
        reveal(AppModel::with_jumps);
        reveal(AppModel::with_jump_at);
        reveal(App::wf);
        reveal(App::model);
        let at: usize = self.jump_at;
        self.jumps.truncate(at);
        assert(self.jumps@ =~= old(self).jumps@.take(at as int));
        self.jumps.push(jump);
        self.jump_at = self.jumps.len();
    }

    /// Notes the newest place.
    pub(crate) fn add_jump(&mut self, jump: Jump)
        requires
            old(self).wf(),
        ensures
            final(self).wf(),
            final(self)@ == old(self)@.with_jumps(old(self)@.jumps.push(jump)),
    {
        reveal(AppModel::with_jumps);
        reveal(App::wf);
        reveal(App::model);
        self.jumps.push(jump);
    }

    pub(crate) fn set_jump_at(&mut self, v: usize)
        requires
            old(self).wf(),
            v <= old(self)@.jumps.len(),
        ensures
            final(self).wf(),
            final(self)@ == old(self)@.with_jump_at(v),
    {
        reveal(AppModel::with_jump_at);
        reveal(App::wf);
        reveal(App::model);
        self.jump_at = v;
    }

    /// What the fields say of the view.
    pub(crate) proof fn lemma_fields(&self)
        ensures
            self@.active == self.active,
            self@.focus == self.focus,
            self@.grouped == self.grouped,
            self@.selected == self.selected,
            self@.sidebar_scroll == self.sidebar_scroll,
            self@.cursor == self.cursor,
            self@.top == self.top,
            self@.scroll_x == self.scroll_x,
            self@.wrap == self.wrap,
            self@.follow == self.follow,
            self@.help == self.help,
            self@.quit == self.quit,
            self@.show_annotations == self.show_annotations,
            self@.search == opt_pattern(self.search),
            self@.sidebar_filter == opt_pattern(self.sidebar_filter),
            self@.input == input_model(self.input),
            self@.cycle == cycle_model(self.cycle),
            self@.timeline == self.timeline,
            self@.timeline_selected == self.timeline_selected,
            self@.timeline_deopts_only == self.timeline_deopts_only,
            self@.lens == self.lens,
            self@.split == self.split,
            self@.other_view == self.other_view,
            self@.active_pane == self.active_pane,
            self@.diff == self.diff,
            self@.dual == self.dual,
            self@.sidebar_visible == self.sidebar_visible,
            self@.inline_panel == self.inline_panel,
            self@.source_pane == pane_model(self.source_pane),
            self@.viewport2_rect == self.viewport2_rect,
            self@.request == request_model(self.request),
            self@.jumps == self.jumps@,
            self@.jump_at == self.jump_at,
            self@.keys == self.keys@,
            self@.viewport_height == self.viewport_height,
            self@.sidebar_height == self.sidebar_height,
            self@.sidebar_rect == self.sidebar_rect,
            self@.viewport_rect == self.viewport_rect,
            self@.source_rect == self.source_rect,
            self@.status == self.status@,
            self@.sources == source_models(self.sources@),
    {
        reveal(App::model);
    }
}

} // verus!
