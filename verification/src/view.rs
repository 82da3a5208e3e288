//! The rows of the viewport.
//!
//! A folded block collapses to one marker row, and a run of annotations
//! collapses to another until it is shown, so the cursor moves over display
//! rows, not over lines. A view is a plain window over lines, or the modeled
//! rows of a parsed compilation.

use std::ops::Range;
use std::sync::Arc;
use vstd::prelude::*;
#[allow(unused_imports)]
use vstd::string::*;

#[allow(unused_imports)]
use crate::model::{
    line_models, parsed_phase_models, phase_models, CompilationModel, LineModel, ParsedModel,
    PhaseSectionModel,
};
use crate::model::{
    BlockId, CompilationSection, IcState, LineInfo, ParsedCompilation, PhaseKind,
};
use crate::source::LogBuffer;
#[allow(unused_imports)]
use crate::source::LogModel;
use crate::text;
#[allow(unused_imports)]
use crate::text::{find_from, occurs_at};

verus! {

/// Larger sections are never modeled row by row.
pub const MODEL_LIMIT: usize = 200_000;

/// What a display row is.
#[derive(Debug, Clone, Copy, PartialEq, Eq, Structural)]
pub enum RowKind {
    Text,
    /// A folded block: its header stands for it.
    BlockFold { block: BlockId, hidden: usize },
    /// A collapsed run of annotations.
    AnnotationFold { count: usize },
}

/// One display row.
#[derive(Debug, Clone, Copy, PartialEq, Eq)]
pub struct ViewRow {
    /// The line that the row shows; for a fold, the first line of it.
    pub line: usize,
    /// Phase and place within the phase, where the row is modeled.
    pub info: Option<(usize, usize)>,
    pub kind: RowKind,
}

/// A view.
pub enum ViewModel {
    /// A window over lines.
    Plain { range: Range<usize> },
    /// Rows of a parsed compilation.
    Modeled { rows: Vec<ViewRow>, parsed: Arc<ParsedCompilation>, comp: usize },
}

/// The view of a `ViewModel`.
#[verifier::ext_equal]
pub enum ViewContents {
    Plain { start: int, end: int },
    Modeled { rows: Seq<ViewRow>, parsed: ParsedModel, comp: int },
}

impl View for ViewModel {
    type V = ViewContents;

    open spec fn view(&self) -> ViewContents {
        match self {
            ViewModel::Plain { range } => ViewContents::Plain {
                start: range.start as int,
                end: range.end as int,
            },
            ViewModel::Modeled { rows, parsed, comp } => ViewContents::Modeled {
                rows: rows@,
                parsed: (**parsed)@,
                comp: *comp as int,
            },
        }
    }
}

/// The first text row at or after `i` that shows `line`.
pub open spec fn text_row_from(rows: Seq<ViewRow>, line: int, i: int) -> Option<int>
    decreases rows.len() - i,
{
    if i < 0 || i >= rows.len() {
        None
    } else if rows[i].line == line && rows[i].kind == RowKind::Text {
        Some(i)
    } else {
        text_row_from(rows, line, i + 1)
    }
}

impl ViewContents {
    /// How many rows there are.
    pub open spec fn rows_len(self) -> int {
        match self {
            ViewContents::Plain { start, end } => if start < end {
                end - start
            } else {
                0
            },
            ViewContents::Modeled { rows, .. } => rows.len() as int,
        }
    }

    /// Row `r`, which must be one of them.
    pub open spec fn row_at(self, r: int) -> ViewRow {
        match self {
            ViewContents::Plain { start, .. } => ViewRow {
                line: (start + r) as usize,
                info: None,
                kind: RowKind::Text,
            },
            ViewContents::Modeled { rows, .. } => rows[r],
        }
    }

    /// The row that shows a line as text.
    pub open spec fn row_showing(self, line: int) -> Option<int> {
        match self {
            ViewContents::Plain { start, end } => if start <= line < end {
                Some(line - start)
            } else {
                None
            },
            ViewContents::Modeled { rows, .. } => text_row_from(rows, line, 0),
        }
    }
}

impl ViewModel {
    /// How many rows there are.
    pub fn len(&self) -> (n: usize)
        ensures
            n == self@.rows_len(),
    {
        match self {
            ViewModel::Plain { range } => if range.start < range.end {
                range.end - range.start
            } else {
                0
            },
            ViewModel::Modeled { rows, .. } => rows.len(),
        }
    }

    /// Are there no rows?
    pub fn is_empty(&self) -> (yes: bool)
        ensures
            yes == (self@.rows_len() == 0),
    {
        self.len() == 0
    }

    /// A display row.
    pub fn row(&self, row: usize) -> (r: Option<ViewRow>)
        ensures
            r is Some <==> row < self@.rows_len(),
            r matches Some(v) ==> v == self@.row_at(row as int),
    {
        match self {
            ViewModel::Plain { range } => if range.start < range.end && row < range.end
                - range.start {
                Some(ViewRow { line: range.start + row, info: None, kind: RowKind::Text })
            } else {
                None
            },
            ViewModel::Modeled { rows, .. } => if row < rows.len() {
                Some(rows[row])
            } else {
                None
            },
        }
    }

    /// The line that a display row shows.
    pub fn line_at(&self, row: usize) -> (line: Option<usize>)
        ensures
            line is Some <==> row < self@.rows_len(),
            line matches Some(l) ==> l == self@.row_at(row as int).line,
    {
        match self.row(row) {
            Some(r) => Some(r.line),
            None => None,
        }
    }

    /// The display row that shows a line, if it is visible.
    pub fn row_of_line(&self, line: usize) -> (row: Option<usize>)
        ensures
            text::pos(row) == self@.row_showing(line as int),
            row matches Some(r) ==> r < self@.rows_len() && self@.row_at(r as int).line == line,
    {
        match self {
            ViewModel::Plain { range } => if range.start <= line && line < range.end {
                Some(line - range.start)
            } else {
                None
            },
            ViewModel::Modeled { rows, .. } => text_row_in(rows, line),
        }
    }

    /// The parse behind the rows, where they are modeled.
    pub fn parsed(&self) -> (parsed: Option<&Arc<ParsedCompilation>>)
        ensures
            match self@ {
                ViewContents::Plain { .. } => parsed is None,
                ViewContents::Modeled { parsed: p, .. } => parsed matches Some(q) && (**q)@ == p,
            },
    {
        match self {
            ViewModel::Plain { .. } => None,
            ViewModel::Modeled { parsed, .. } => Some(parsed),
        }
    }
}

fn text_row_in(rows: &Vec<ViewRow>, line: usize) -> (row: Option<usize>)
    ensures
        text::pos(row) == text_row_from(rows@, line as int, 0),
        row matches Some(r) ==> r < rows@.len() && rows@[r as int].line == line,
{
    let mut k: usize = 0;
    while k < rows.len()
        invariant
            k <= rows.len(),
            text_row_from(rows@, line as int, 0) == text_row_from(rows@, line as int, k as int),
        decreases rows.len() - k,
    {
        if rows[k].line == line && rows[k].kind == RowKind::Text {
            return Some(k);
        }
        k += 1;
    }
    None
}

// ---------------------------------------------------------------------------
// Fold state
// ---------------------------------------------------------------------------

/// Source, compilation, phase and block: fold state survives navigation.
pub type FoldKey = (usize, usize, usize, BlockId);

/// The folded blocks.
pub struct FoldSet {
    keys: Vec<FoldKey>,
}

impl View for FoldSet {
    type V = Set<FoldKey>;

    closed spec fn view(&self) -> Set<FoldKey> {
        self.keys@.to_set()
    }
}

fn same_fold(a: &FoldKey, b: &FoldKey) -> (yes: bool)
    ensures
        yes == (*a == *b),
{
    a.0 == b.0 && a.1 == b.1 && a.2 == b.2 && a.3 == b.3
}

impl FoldSet {
    /// Nothing is folded.
    pub fn new() -> (set: FoldSet)
        ensures
            set@ == Set::<FoldKey>::empty(),
    {
        let set = FoldSet { keys: Vec::new() };
        assert(set@ =~= Set::<FoldKey>::empty());
        set
    }

    fn place(&self, key: &FoldKey) -> (at: Option<usize>)
        ensures
            at matches Some(k) ==> k < self.keys@.len() && self.keys@[k as int] == *key,
            at is None <==> !self.keys@.contains(*key),
    {
        let mut k: usize = 0;
        while k < self.keys.len()
            invariant
                k <= self.keys.len(),
                forall|m: int| 0 <= m < k ==> self.keys@[m] != *key,
            decreases self.keys.len() - k,
        {
            if same_fold(&self.keys[k], key) {
                return Some(k);
            }
            k += 1;
        }
        None
    }

    /// Is a block folded?
    pub fn contains(&self, key: &FoldKey) -> (yes: bool)
        ensures
            yes == self@.contains(*key),
    {
        self.place(key).is_some()
    }

    /// Folds a block.
    pub fn insert(&mut self, key: FoldKey)
        ensures
            final(self)@ == old(self)@.insert(key),
    {
        if !self.contains(&key) {
            let ghost before = self.keys@;
            self.keys.push(key);
            proof {
                assert forall|k: FoldKey|
                    self@.contains(k) <==> #[trigger] old(self)@.insert(key).contains(k) by {
                    if before.contains(k) {
                        let i = choose|i: int| 0 <= i < before.len() && before[i] == k;
                        assert(self.keys@[i] == k);
                    }
                    if k == key {
                        assert(self.keys@[before.len() as int] == k);
                    }
                    if self.keys@.contains(k) {
                        let i = choose|i: int| 0 <= i < self.keys@.len() && self.keys@[i] == k;
                        if i < before.len() {
                            assert(before[i] == k);
                        }
                    }
                }
                assert(self@ =~= old(self)@.insert(key));
            }
        } else {
            assert(self@ =~= old(self)@.insert(key));
        }
    }

    /// Unfolds a block.
    pub fn remove(&mut self, key: &FoldKey)
        ensures
            final(self)@ == old(self)@.remove(*key),
    {
        let mut kept: Vec<FoldKey> = Vec::new();
        let mut k: usize = 0;
        while k < self.keys.len()
            invariant
                k <= self.keys@.len(),
                self.keys@ == old(self).keys@,
                forall|x: FoldKey|
                    #[trigger] kept@.contains(x) <==> x != *key && exists|i: int|
                        0 <= i < k && self.keys@[i] == x,
            decreases self.keys@.len() - k,
        {
            let ghost before = kept@;
            let it: FoldKey = self.keys[k];
            if !same_fold(&it, key) {
                kept.push(it);
            }
            proof {
                assert forall|x: FoldKey|
                    #[trigger] kept@.contains(x) <==> x != *key && exists|i: int|
                        0 <= i < k + 1 && self.keys@[i] == x by {
                    if kept@.contains(x) {
                        let j = choose|j: int| 0 <= j < kept@.len() && kept@[j] == x;
                        if j < before.len() {
                            assert(before[j] == x);
                            assert(before.contains(x));
                        } else {
                            assert(self.keys@[k as int] == x);
                        }
                    }
                    if x != *key && exists|i: int| 0 <= i < k + 1 && self.keys@[i] == x {
                        let i = choose|i: int| 0 <= i < k + 1 && self.keys@[i] == x;
                        if i < k {
                            assert(before.contains(x));
                            let j = choose|j: int| 0 <= j < before.len() && before[j] == x;
                            assert(kept@[j] == x);
                        } else {
                            assert(kept@[before.len() as int] == x);
                        }
                    }
                }
            }
            k += 1;
        }
        self.keys = kept;
        assert(self@ =~= old(self)@.remove(*key));
    }
}

// ---------------------------------------------------------------------------
// Lenses
// ---------------------------------------------------------------------------

/// A phi.
pub open spec fn phi_opcode(name: Seq<u8>) -> bool {
    occurs_at(name, 0, "φ".spec_bytes()) || occurs_at(name, 0, "Phi".spec_bytes())
}

pub(crate) fn is_phi_name(s: &[u8]) -> (yes: bool)
    ensures
        yes == phi_opcode(s@),
{
    text::starts_with_at(s, 0, "φ") || text::starts_with_at(s, 0, "Phi")
}

/// Is this the opcode of a phi?
pub fn is_phi_opcode(name: &str) -> (yes: bool)
    ensures
        yes == phi_opcode(name.spec_bytes()),
{
    is_phi_name(name.as_bytes())
}

/// A guard: it can deoptimise.
pub open spec fn guard_opcode(name: Seq<u8>) -> bool {
    occurs_at(name, 0, "Check".spec_bytes()) || occurs_at(name, 0, "Assert".spec_bytes())
        || find_from(name, 0, "Deopt".spec_bytes()) is Some
}

pub(crate) fn is_guard_name(s: &[u8]) -> (yes: bool)
    ensures
        yes == guard_opcode(s@),
{
    text::starts_with_at(s, 0, "Check") || text::starts_with_at(s, 0, "Assert") || text::find(
        s,
        0,
        "Deopt",
    ).is_some()
}

/// Is this the opcode of a guard?
pub fn is_guard_opcode(name: &str) -> (yes: bool)
    ensures
        yes == guard_opcode(name.spec_bytes()),
{
    is_guard_name(name.as_bytes())
}

/// Control flow.
pub open spec fn control_opcode(name: Seq<u8>) -> bool {
    ||| occurs_at(name, 0, "Branch".spec_bytes())
    ||| occurs_at(name, 0, "Jump".spec_bytes())
    ||| occurs_at(name, 0, "Goto".spec_bytes())
    ||| occurs_at(name, 0, "Return".spec_bytes())
    ||| occurs_at(name, 0, "Switch".spec_bytes())
}

pub(crate) fn is_control_name(s: &[u8]) -> (yes: bool)
    ensures
        yes == control_opcode(s@),
{
    text::starts_with_at(s, 0, "Branch") || text::starts_with_at(s, 0, "Jump")
        || text::starts_with_at(s, 0, "Goto") || text::starts_with_at(s, 0, "Return")
        || text::starts_with_at(s, 0, "Switch")
}

/// Is this the opcode of control flow?
pub fn is_control_opcode(name: &str) -> (yes: bool)
    ensures
        yes == control_opcode(name.spec_bytes()),
{
    is_control_name(name.as_bytes())
}

/// A filter on the lines of a parsed compilation.
#[derive(Debug, Clone, Copy, PartialEq, Eq, Structural)]
pub enum Lens {
    /// Guards.
    Checks,
    /// Control flow and phis.
    Phi,
    /// Register-allocator spills and reloads.
    Spill,
    /// Megamorphic feedback and slow-path inline caches.
    Megamorphic,
}

/// The name of a lens, which is its command.
pub open spec fn lens_name(lens: Lens) -> Seq<char> {
    match lens {
        Lens::Checks => "checks"@,
        Lens::Phi => "phi"@,
        Lens::Spill => "spill"@,
        Lens::Megamorphic => "megamorphic"@,
    }
}

/// The opcode of a node line; empty for other lines.
pub open spec fn opcode_of(info: Option<LineModel>, parsed: ParsedModel) -> Seq<u8> {
    match info {
        Some(LineModel::Node(node)) => if (node.opcode as int) < parsed.opcodes.len() {
            vstd::utf8::encode_utf8(parsed.opcodes[node.opcode as int])
        } else {
            Seq::empty()
        },
        _ => Seq::empty(),
    }
}

/// The lens keeps a line.
pub open spec fn lens_keeps(
    lens: Lens,
    info: Option<LineModel>,
    parsed: ParsedModel,
    s: Seq<u8>,
) -> bool {
    let opcode = opcode_of(info, parsed);
    match lens {
        Lens::Checks => guard_opcode(opcode),
        Lens::Phi => phi_opcode(opcode) || control_opcode(opcode) || info matches Some(
            LineModel::PhiMove { .. },
        ),
        Lens::Spill => find_from(s, 0, "spill".spec_bytes()) is Some || find_from(
            s,
            0,
            "Spill".spec_bytes(),
        ) is Some || (find_from(opcode, 0, "GapMove".spec_bytes()) is Some && find_from(
            s,
            0,
            "[stack:".spec_bytes(),
        ) is Some),
        Lens::Megamorphic => {
            ||| info matches Some(LineModel::FeedbackSlot { ic, .. }) && ic == IcState::Megamorphic
            ||| find_from(s, 0, "MEGAMORPHIC".spec_bytes()) is Some
            ||| find_from(opcode, 0, "Megamorphic".spec_bytes()) is Some
            ||| find_from(opcode, 0, "Generic".spec_bytes()) is Some
        },
    }
}

/// The view of an optional reference to a line.
pub open spec fn info_model(info: Option<&LineInfo>) -> Option<LineModel> {
    match info {
        Some(i) => Some(i@),
        None => None,
    }
}

impl Lens {
    /// The name of the lens.
    pub fn name(self) -> (name: &'static str)
        ensures
            name@ == lens_name(self),
    {
        match self {
            Lens::Checks => "checks",
            Lens::Phi => "phi",
            Lens::Spill => "spill",
            Lens::Megamorphic => "megamorphic",
        }
    }

    /// Does the lens keep a line?
    pub fn matches(
        self,
        info: Option<&LineInfo>,
        parsed: &ParsedCompilation,
        buffer: &LogBuffer,
        line: usize,
    ) -> (yes: bool)
        requires
            buffer.wf(),
        ensures
            yes == lens_keeps(self, info_model(info), parsed@, buffer@.line_text(line as int)),
    {
        let chars = buffer.line_text(line);
        let s = chars.as_str().as_bytes();
        assert(parsed@.opcodes.len() == parsed.opcodes@.len());
        let opcode: &str = match info {
            Some(LineInfo::Node(node)) => if (node.opcode as usize) < parsed.opcodes.len() {
                assert(parsed@.opcodes[node.opcode as int] == parsed.opcodes@[node.opcode as int]@);
                parsed.opcodes[node.opcode as usize].as_str()
            } else {
                ""
            },
            _ => "",
        };
        proof {
            reveal_strlit("");
            assert(""@ =~= Seq::empty());
            assert(vstd::utf8::encode_utf8(""@) =~= Seq::<u8>::empty());
        }
        let o = opcode.as_bytes();
        assert(o@ == opcode_of(info_model(info), parsed@));
        match self {
            Lens::Checks => is_guard_opcode(opcode),
            Lens::Phi => is_phi_opcode(opcode) || is_control_opcode(opcode) || match info {
                Some(LineInfo::PhiMove { .. }) => true,
                _ => false,
            },
            Lens::Spill => text::find(s, 0, "spill").is_some() || text::find(
                s,
                0,
                "Spill",
            ).is_some() || (text::find(o, 0, "GapMove").is_some() && text::find(
                s,
                0,
                "[stack:",
            ).is_some()),
            Lens::Megamorphic => {
                let slot: bool = match info {
                    Some(LineInfo::FeedbackSlot { ic, .. }) => *ic == IcState::Megamorphic,
                    _ => false,
                };
                slot || text::find(s, 0, "MEGAMORPHIC").is_some() || text::find(
                    o,
                    0,
                    "Megamorphic",
                ).is_some() || text::find(o, 0, "Generic").is_some()
            },
        }
    }
}

// ---------------------------------------------------------------------------
// Modeled rows
// ---------------------------------------------------------------------------

/// What decides the rows of a compilation.
pub struct RowRules {
    pub first: int,
    pub end: int,
    pub source: usize,
    pub comp: usize,
    pub folded: Set<FoldKey>,
    pub show_annotations: bool,
    pub lens: Option<Lens>,
    pub parsed: ParsedModel,
    pub buffer: LogModel,
}

/// Rows while they are built.
#[verifier::ext_equal]
pub struct RowState {
    pub rows: Seq<ViewRow>,
    /// Annotations that may still collapse.
    pub pending: Seq<(usize, Option<(usize, usize)>)>,
    /// The marker of the block that is folded, with the count so far.
    pub fold: Option<ViewRow>,
}

/// A text row.
pub open spec fn text_row(line: usize, info: Option<(usize, usize)>) -> ViewRow {
    ViewRow { line, info, kind: RowKind::Text }
}

impl RowState {
    /// With one text row more.
    pub open spec fn shown(self, line: usize, info: Option<(usize, usize)>) -> RowState {
        RowState { rows: self.rows.push(text_row(line, info)), ..self }
    }

    /// The waiting annotations settled: shown one by one, or as one marker.
    pub open spec fn flushed(self, show: bool) -> RowState {
        if self.pending.len() == 0 {
            self
        } else if show {
            RowState {
                rows: self.rows + self.pending.map_values(
                    |p: (usize, Option<(usize, usize)>)| text_row(p.0, p.1),
                ),
                pending: Seq::empty(),
                ..self
            }
        } else {
            RowState {
                rows: self.rows.push(
                    ViewRow {
                        line: self.pending[0].0,
                        info: self.pending[0].1,
                        kind: RowKind::AnnotationFold { count: self.pending.len() as usize },
                    },
                ),
                pending: Seq::empty(),
                ..self
            }
        }
    }

    /// The folded block, if any, settled: its marker is shown.
    pub open spec fn unfolded(self) -> RowState {
        match self.fold {
            Some(marker) => RowState { rows: self.rows.push(marker), fold: None, ..self },
            None => self,
        }
    }
}

/// A marker that hides one line more.
pub open spec fn hiding_more(marker: ViewRow) -> ViewRow {
    match marker.kind {
        RowKind::BlockFold { block, hidden } => ViewRow {
            kind: RowKind::BlockFold { block, hidden: (hidden + 1) as usize },
            ..marker
        },
        _ => marker,
    }
}

/// Banners and block headers stay whatever the lens.
pub open spec fn is_skeleton(info: Option<LineModel>) -> bool {
    info matches Some(LineModel::Banner) || info matches Some(LineModel::BlockHeader { .. })
}

/// The state after a line that no fold hides.
pub open spec fn line_shown(
    st: RowState,
    rules: RowRules,
    line: usize,
    at: Option<(usize, usize)>,
    info: Option<LineModel>,
) -> RowState {
    match rules.lens {
        Some(lens) => {
            if is_skeleton(info) || lens_keeps(
                lens,
                info,
                rules.parsed,
                rules.buffer.line_text(line as int),
            ) {
                st.flushed(rules.show_annotations).shown(line, at)
            } else {
                st
            }
        },
        None => {
            if info matches Some(LineModel::Annotation { .. }) {
                RowState { pending: st.pending.push((line, at)), ..st }
            } else {
                st.flushed(rules.show_annotations).shown(line, at)
            }
        },
    }
}

/// The state after line `line`, which is line `i` of phase `p`.
#[verifier::opaque]
pub open spec fn phase_line_rows(
    st: RowState,
    rules: RowRules,
    graph: bool,
    p: usize,
    i: usize,
    line: usize,
    info: Option<LineModel>,
) -> RowState {
    if !(rules.first <= line < rules.end) {
        st
    } else {
        let header = graph && info matches Some(LineModel::BlockHeader { .. });
        let open = if header {
            st.flushed(rules.show_annotations).unfolded()
        } else {
            st
        };
        let block = match info {
            Some(LineModel::BlockHeader { block }) => block,
            _ => 0,
        };
        if header && rules.folded.contains((rules.source, rules.comp, p, block)) {
            RowState {
                fold: Some(
                    ViewRow {
                        line,
                        info: Some((p, i)),
                        kind: RowKind::BlockFold { block, hidden: 0 },
                    },
                ),
                ..open
            }
        } else if open.fold is Some {
            RowState { fold: Some(hiding_more(open.fold->0)), ..open }
        } else {
            line_shown(open, rules, line, Some((p, i)), info)
        }
    }
}

/// The classification of line `i` of a phase, where the parse reaches it.
pub open spec fn info_at(infos: Seq<LineModel>, i: int) -> Option<LineModel> {
    if 0 <= i < infos.len() {
        Some(infos[i])
    } else {
        None
    }
}

/// The state after the first `n` lines of phase `p`.
pub open spec fn phase_rows(
    st: RowState,
    rules: RowRules,
    section: PhaseSectionModel,
    infos: Seq<LineModel>,
    p: usize,
    n: int,
) -> RowState
    decreases n,
{
    if n <= 0 {
        st
    } else {
        phase_line_rows(
            phase_rows(st, rules, section, infos, p, n - 1),
            rules,
            section.kind is Graph,
            p,
            (n - 1) as usize,
            (section.start + n - 1) as usize,
            info_at(infos, n - 1),
        )
    }
}

/// How many lines a range of lines has.
pub open spec fn span_len(start: int, end: int) -> int {
    if start < end {
        end - start
    } else {
        0
    }
}

/// The state after the first `k` phases.
pub open spec fn all_phase_rows(
    st: RowState,
    rules: RowRules,
    sections: Seq<PhaseSectionModel>,
    k: int,
) -> RowState
    decreases k,
{
    if k <= 0 {
        st
    } else {
        let section = sections[k - 1];
        phase_rows(
            all_phase_rows(st, rules, sections, k - 1),
            rules,
            section,
            rules.parsed.phases[k - 1].infos,
            (k - 1) as usize,
            span_len(section.start, section.end),
        ).flushed(rules.show_annotations).unfolded()
    }
}

/// The state after the first `n` lines that anchor a compilation.
pub open spec fn anchor_rows(rules: RowRules, start: int, n: int) -> RowState
    decreases n,
{
    if n <= 0 {
        RowState { rows: Seq::empty(), pending: Seq::empty(), fold: None }
    } else {
        let before = anchor_rows(rules, start, n - 1);
        let line = start + n - 1;
        if rules.first <= line < rules.end {
            before.shown(line as usize, None)
        } else {
            before
        }
    }
}

/// The state after the first `n` lines of the preamble.
pub open spec fn preamble_rows(st: RowState, rules: RowRules, start: int, n: int) -> RowState
    decreases n,
{
    if n <= 0 {
        st
    } else {
        let before = preamble_rows(st, rules, start, n - 1);
        let line = start + n - 1;
        if rules.first <= line < rules.end {
            line_shown(before, rules, line as usize, None, info_at(rules.parsed.preamble, n - 1))
        } else {
            before
        }
    }
}

/// How many phases both the index and the parse have.
pub open spec fn common_phases(c: CompilationModel, parsed: ParsedModel) -> int {
    if c.phases.len() <= parsed.phases.len() {
        c.phases.len() as int
    } else {
        parsed.phases.len() as int
    }
}

/// The rows of a compilation.
pub open spec fn modeled_rows(c: CompilationModel, rules: RowRules) -> Seq<ViewRow> {
    let anchors = anchor_rows(rules, c.start, span_len(c.start, c.preamble_start));
    let pre = preamble_rows(
        anchors,
        rules,
        c.preamble_start,
        span_len(c.preamble_start, c.preamble_end),
    ).flushed(rules.show_annotations);
    all_phase_rows(pre, rules, c.phases, common_phases(c, rules.parsed)).rows
}

/// Rows while they are built.
pub struct RowBuilder {
    rows: Vec<ViewRow>,
    pending: Vec<(usize, Option<(usize, usize)>)>,
    fold: Option<ViewRow>,
}

impl View for RowBuilder {
    type V = RowState;

    closed spec fn view(&self) -> RowState {
        RowState { rows: self.rows@, pending: self.pending@, fold: self.fold }
    }
}

impl RowBuilder {
    fn show(&mut self, line: usize, info: Option<(usize, usize)>)
        ensures
            final(self)@ == old(self)@.shown(line, info),
    {
        self.rows.push(ViewRow { line, info, kind: RowKind::Text });
    }

    fn flush(&mut self, show: bool)
        ensures
            final(self)@ == old(self)@.flushed(show),
    {
        let n: usize = self.pending.len();
        if n == 0 {
            return;
        }
        if show {
            let ghost add = self.pending@.map_values(
                |p: (usize, Option<(usize, usize)>)| text_row(p.0, p.1),
            );
            let mut k: usize = 0;
            assert(self.rows@ =~= old(self).rows@ + add.take(0));
            while k < n
                invariant
                    n == self.pending@.len(),
                    k <= n,
                    self.pending@ == old(self).pending@,
                    self.fold == old(self).fold,
                    add == self.pending@.map_values(
                        |p: (usize, Option<(usize, usize)>)| text_row(p.0, p.1),
                    ),
                    self.rows@ == old(self).rows@ + add.take(k as int),
                decreases n - k,
            {
                let (line, info) = self.pending[k];
                self.rows.push(ViewRow { line, info, kind: RowKind::Text });
                assert(self.rows@ =~= old(self).rows@ + add.take(k + 1));
                k += 1;
            }
            assert(add.take(n as int) =~= add);
        } else {
            let (line, info) = self.pending[0];
            self.rows.push(ViewRow { line, info, kind: RowKind::AnnotationFold { count: n } });
        }
        self.pending = Vec::new();
        assert(self@ =~= old(self)@.flushed(show));
    }

    fn unfold(&mut self)
        ensures
            final(self)@ == old(self)@.unfolded(),
    {
        if let Some(marker) = self.fold {
            self.rows.push(marker);
            self.fold = None;
        }
    }
}

/// What decides the rows, as the builder carries it.
pub struct Rules<'a> {
    pub only: &'a Range<usize>,
    pub source: usize,
    pub comp: usize,
    pub folded: &'a FoldSet,
    pub show_annotations: bool,
    pub lens: Option<Lens>,
    pub parsed: &'a ParsedCompilation,
    pub buffer: &'a LogBuffer,
}

impl<'a> View for Rules<'a> {
    type V = RowRules;

    open spec fn view(&self) -> RowRules {
        RowRules {
            first: self.only.start as int,
            end: self.only.end as int,
            source: self.source,
            comp: self.comp,
            folded: self.folded@,
            show_annotations: self.show_annotations,
            lens: self.lens,
            parsed: self.parsed@,
            buffer: self.buffer@,
        }
    }
}

fn show_line(
    st: &mut RowBuilder,
    rules: &Rules<'_>,
    line: usize,
    at: Option<(usize, usize)>,
    info: Option<&LineInfo>,
)
    requires
        rules.buffer.wf(),
    ensures
        final(st)@ == line_shown(old(st)@, rules@, line, at, info_model(info)),
{
    match rules.lens {
        Some(lens) => {
            let skeleton: bool = match info {
                Some(LineInfo::Banner) => true,
                Some(LineInfo::BlockHeader { .. }) => true,
                _ => false,
            };
            if skeleton || lens.matches(info, rules.parsed, rules.buffer, line) {
                st.flush(rules.show_annotations);
                st.show(line, at);
            }
        },
        None => match info {
            Some(LineInfo::Annotation { .. }) => {
                st.pending.push((line, at));
            },
            _ => {
                st.flush(rules.show_annotations);
                st.show(line, at);
            },
        },
    }
}

/// No block hides more lines than there are.
pub open spec fn hidden_at_most(fold: Option<ViewRow>, n: int) -> bool {
    fold matches Some(ViewRow { kind: RowKind::BlockFold { hidden, .. }, .. }) ==> hidden <= n
}

fn take_phase_line(
    st: &mut RowBuilder,
    rules: &Rules<'_>,
    graph: bool,
    p: usize,
    i: usize,
    line: usize,
    info: Option<&LineInfo>,
)
    requires
        rules.buffer.wf(),
        i < usize::MAX,
        hidden_at_most(old(st)@.fold, i as int),
    ensures
        final(st)@ == phase_line_rows(old(st)@, rules@, graph, p, i, line, info_model(info)),
        hidden_at_most(final(st)@.fold, i + 1),
{
    reveal(phase_line_rows);
    if !(rules.only.start <= line && line < rules.only.end) {
        return;
    }
    if graph {
        if let Some(LineInfo::BlockHeader { block }) = info {
            st.flush(rules.show_annotations);
            st.unfold();
            if rules.folded.contains(&(rules.source, rules.comp, p, *block)) {
                st.fold = Some(
                    ViewRow {
                        line,
                        info: Some((p, i)),
                        kind: RowKind::BlockFold { block: *block, hidden: 0 },
                    },
                );
                return;
            }
        }
    }
    if let Some(marker) = st.fold {
        let more = match marker.kind {
            RowKind::BlockFold { block, hidden } => ViewRow {
                kind: RowKind::BlockFold { block, hidden: hidden + 1 },
                ..marker
            },
            _ => marker,
        };
        st.fold = Some(more);
        return;
    }
    show_line(st, rules, line, Some((p, i)), info);
}

/// Builds the rows of a compilation, or of the part of it in `only_lines`.
pub fn model_rows(
    parsed: &ParsedCompilation,
    section: &CompilationSection,
    only_lines: &Range<usize>,
    source: usize,
    comp: usize,
    folded: &FoldSet,
    show_annotations: bool,
    buffer: &LogBuffer,
    lens: Option<Lens>,
) -> (rows: Vec<ViewRow>)
    requires
        buffer.wf(),
    ensures
        rows@ == modeled_rows(
            section@,
            RowRules {
                first: only_lines.start as int,
                end: only_lines.end as int,
                source,
                comp,
                folded: folded@,
                show_annotations,
                lens,
                parsed: parsed@,
                buffer: buffer@,
            },
        ),
{
    let rules = Rules {
        only: only_lines,
        source,
        comp,
        folded,
        show_annotations,
        lens,
        parsed,
        buffer,
    };
    let mut st = RowBuilder { rows: Vec::new(), pending: Vec::new(), fold: None };
    let ghost c = section@;
    let start: usize = section.lines.start;
    let mut line: usize = start;
    while line < section.preamble.start
        invariant
            start <= line,
            line <= section.preamble.start || line == start,
            c.preamble_start == section.preamble.start,
            rules@.first == only_lines.start,
            rules@.end == only_lines.end,
            st@ == anchor_rows(rules@, start as int, line - start),
        decreases section.preamble.start - line,
    {
        if only_lines.start <= line && line < only_lines.end {
            st.show(line, None);
        }
        line += 1;
    }
    let ghost anchors = st@;
    let first: usize = section.preamble.start;
    line = first;
    while line < section.preamble.end
        invariant
            buffer.wf(),
            first <= line,
            line <= section.preamble.end || line == first,
            rules.buffer == buffer,
            rules.parsed == parsed,
            rules@.first == only_lines.start,
            rules@.end == only_lines.end,
            st@ == preamble_rows(anchors, rules@, first as int, line - first),
        decreases section.preamble.end - line,
    {
        if only_lines.start <= line && line < only_lines.end {
            let k: usize = line - first;
            let info: Option<&LineInfo> = if k < parsed.preamble.len() {
                Some(&parsed.preamble[k])
            } else {
                None
            };
            assert(info_model(info) == info_at(parsed@.preamble, k as int));
            show_line(&mut st, &rules, line, None, info);
        }
        line += 1;
    }
    st.flush(show_annotations);
    let ghost pre = st@;
    proof {
        lemma_no_fold(rules@, c.start, span_len(c.start, c.preamble_start));
        lemma_preamble_no_fold(
            anchors,
            rules@,
            c.preamble_start,
            span_len(c.preamble_start, c.preamble_end),
        );
    }
    assert(c.phases.len() == section.phases@.len());
    assert(parsed@.phases.len() == parsed.phases@.len());
    let mut p: usize = 0;
    while p < section.phases.len() && p < parsed.phases.len()
        invariant
            buffer.wf(),
            p <= section.phases.len(),
            p <= parsed.phases.len(),
            c.phases == phase_models(section.phases@),
            parsed@.phases == parsed_phase_models(parsed.phases@),
            rules.buffer == buffer,
            rules.parsed == parsed,
            rules@.parsed == parsed@,
            rules@.show_annotations == show_annotations,
            st@.fold is None,
            st@ == all_phase_rows(pre, rules@, c.phases, p as int),
        decreases section.phases.len() - p,
    {
        let phase = &section.phases[p];
        let infos = &parsed.phases[p].infos;
        let ghost model = c.phases[p as int];
        assert(model == section.phases@[p as int]@);
        assert(parsed@.phases[p as int] == parsed.phases@[p as int]@);
        let ghost lines = parsed@.phases[p as int].infos;
        assert(lines == line_models(infos@));
        let graph: bool = match &phase.kind {
            PhaseKind::Graph { .. } => true,
            _ => false,
        };
        let ghost before = st@;
        let mut i: usize = 0;
        while phase.lines.start < phase.lines.end && i < phase.lines.end - phase.lines.start
            invariant
                buffer.wf(),
                rules.buffer == buffer,
                i == 0 || i <= phase.lines.end - phase.lines.start,
                model == phase@,
                graph == (model.kind is Graph),
                lines == line_models(infos@),
                hidden_at_most(st@.fold, i as int),
                st@ == phase_rows(before, rules@, model, lines, p, i as int),
            decreases phase.lines.end - phase.lines.start - i,
        {
            let info: Option<&LineInfo> = if i < infos.len() {
                Some(&infos[i])
            } else {
                None
            };
            assert(info_model(info) == info_at(lines, i as int));
            take_phase_line(&mut st, &rules, graph, p, i, phase.lines.start + i, info);
            i += 1;
        }
        st.flush(show_annotations);
        st.unfold();
        p += 1;
    }
    st.rows
}

proof fn lemma_no_fold(rules: RowRules, start: int, n: int)
    ensures
        anchor_rows(rules, start, n).fold is None,
    decreases n,
{
    if n > 0 {
        lemma_no_fold(rules, start, n - 1);
    }
}

proof fn lemma_preamble_no_fold(st: RowState, rules: RowRules, start: int, n: int)
    requires
        st.fold is None,
    ensures
        preamble_rows(st, rules, start, n).fold is None,
    decreases n,
{
    if n > 0 {
        lemma_preamble_no_fold(st, rules, start, n - 1);
    }
}

// ---------------------------------------------------------------------------
// Laws
// ---------------------------------------------------------------------------

/// How many lines a row stands for.
pub open spec fn row_weight(row: ViewRow) -> int {
    match row.kind {
        RowKind::Text => 1,
        RowKind::BlockFold { hidden, .. } => 1 + hidden,
        RowKind::AnnotationFold { count } => count as int,
    }
}

/// How many lines rows stand for.
pub open spec fn rows_weight(rows: Seq<ViewRow>) -> int
    decreases rows.len(),
{
    if rows.len() == 0 {
        0
    } else {
        rows_weight(rows.drop_last()) + row_weight(rows.last())
    }
}

/// How many of `n` lines from `start` on lie in the window.
pub open spec fn lines_in_window(rules: RowRules, start: int, n: int) -> int
    decreases n,
{
    if n <= 0 {
        0
    } else {
        lines_in_window(rules, start, n - 1) + if rules.first <= start + n - 1 < rules.end {
            1int
        } else {
            0
        }
    }
}

/// How many lines of the first `k` phases lie in the window.
pub open spec fn phase_lines_in_window(
    rules: RowRules,
    sections: Seq<PhaseSectionModel>,
    k: int,
) -> int
    decreases k,
{
    if k <= 0 {
        0
    } else {
        phase_lines_in_window(rules, sections, k - 1) + lines_in_window(
            rules,
            sections[k - 1].start,
            span_len(sections[k - 1].start, sections[k - 1].end),
        )
    }
}

/// How many lines of a compilation lie in the window.
pub open spec fn compilation_lines_in_window(c: CompilationModel, rules: RowRules) -> int {
    lines_in_window(rules, c.start, span_len(c.start, c.preamble_start)) + lines_in_window(
        rules,
        c.preamble_start,
        span_len(c.preamble_start, c.preamble_end),
    ) + phase_lines_in_window(rules, c.phases, common_phases(c, rules.parsed))
}

/// The places of a compilation are those of a machine.
pub open spec fn places_fit(c: CompilationModel) -> bool {
    &&& 0 <= c.start <= usize::MAX
    &&& 0 <= c.preamble_start <= usize::MAX
    &&& 0 <= c.preamble_end <= usize::MAX
    &&& c.phases.len() <= usize::MAX
    &&& forall|k: int|
        0 <= k < c.phases.len() ==> 0 <= (#[trigger] c.phases[k]).start <= usize::MAX && 0
            <= c.phases[k].end <= usize::MAX
}

spec fn state_weight(st: RowState) -> int {
    rows_weight(st.rows) + st.pending.len() + match st.fold {
        Some(marker) => row_weight(marker),
        None => 0,
    }
}

spec fn fold_is_block(st: RowState) -> bool {
    &&& st.fold matches Some(marker) ==> marker.kind is BlockFold
    &&& forall|r: int| 0 <= r < st.rows.len() ==> row_weight(#[trigger] st.rows[r]) >= 0
}

proof fn lemma_weight_push(rows: Seq<ViewRow>, row: ViewRow)
    ensures
        rows_weight(rows.push(row)) == rows_weight(rows) + row_weight(row),
{
    assert(rows.push(row).drop_last() =~= rows);
}

proof fn lemma_weight_texts(rows: Seq<ViewRow>, more: Seq<ViewRow>)
    requires
        forall|k: int| 0 <= k < more.len() ==> row_weight(#[trigger] more[k]) == 1,
    ensures
        rows_weight(rows + more) == rows_weight(rows) + more.len(),
    decreases more.len(),
{
    if more.len() == 0 {
        assert(rows + more =~= rows);
    } else {
        lemma_weight_texts(rows, more.drop_last());
        assert((rows + more).drop_last() =~= rows + more.drop_last());
    }
}

proof fn lemma_weight_nonnegative(rows: Seq<ViewRow>)
    requires
        forall|r: int| 0 <= r < rows.len() ==> row_weight(#[trigger] rows[r]) >= 0,
    ensures
        rows_weight(rows) >= 0,
    decreases rows.len(),
{
    if rows.len() > 0 {
        assert(row_weight(rows[rows.len() - 1]) >= 0);
        assert forall|r: int| 0 <= r < rows.drop_last().len() implies row_weight(
            #[trigger] rows.drop_last()[r],
        ) >= 0 by {
            assert(rows.drop_last()[r] == rows[r]);
        }
        lemma_weight_nonnegative(rows.drop_last());
    }
}

proof fn lemma_flush_keeps_weight(st: RowState, show: bool)
    requires
        fold_is_block(st),
        st.pending.len() <= usize::MAX,
    ensures
        state_weight(st.flushed(show)) == state_weight(st),
        fold_is_block(st.flushed(show)),
        st.flushed(show).pending.len() == 0,
        st.flushed(show).fold == st.fold,
{
    if st.pending.len() > 0 {
        if show {
            let more = st.pending.map_values(
                |p: (usize, Option<(usize, usize)>)| text_row(p.0, p.1),
            );
            lemma_weight_texts(st.rows, more);
        } else {
            lemma_weight_push(st.rows, st.flushed(show).rows.last());
            assert(st.flushed(show).rows =~= st.rows.push(st.flushed(show).rows.last()));
        }
    }
}

proof fn lemma_unfold_keeps_weight(st: RowState)
    requires
        fold_is_block(st),
    ensures
        state_weight(st.unfolded()) == state_weight(st),
        fold_is_block(st.unfolded()),
        st.unfolded().pending == st.pending,
        st.unfolded().fold is None,
{
    if let Some(marker) = st.fold {
        lemma_weight_push(st.rows, marker);
    }
}

proof fn lemma_shown_weight(
    st: RowState,
    rules: RowRules,
    line: usize,
    at: Option<(usize, usize)>,
    info: Option<LineModel>,
)
    requires
        fold_is_block(st),
        rules.lens is None,
        st.pending.len() <= usize::MAX,
    ensures
        state_weight(line_shown(st, rules, line, at, info)) == state_weight(st) + 1,
        fold_is_block(line_shown(st, rules, line, at, info)),
        line_shown(st, rules, line, at, info).fold == st.fold,
{
    lemma_flush_keeps_weight(st, rules.show_annotations);
    lemma_weight_push(st.flushed(rules.show_annotations).rows, text_row(line, at));
}

proof fn lemma_line_weight(
    st: RowState,
    rules: RowRules,
    graph: bool,
    p: usize,
    i: usize,
    line: usize,
    info: Option<LineModel>,
)
    requires
        fold_is_block(st),
        rules.lens is None,
        st.pending.len() <= usize::MAX,
        hidden_at_most(st.fold, i as int),
        i < usize::MAX,
    ensures
        ({
            let after = phase_line_rows(st, rules, graph, p, i, line, info);
            &&& fold_is_block(after)
            &&& hidden_at_most(after.fold, i + 1)
            &&& state_weight(after) == state_weight(st) + if rules.first <= line < rules.end {
                1int
            } else {
                0
            }
        }),
{
    reveal(phase_line_rows);
    let flushed = st.flushed(rules.show_annotations);
    lemma_flush_keeps_weight(st, rules.show_annotations);
    lemma_unfold_keeps_weight(flushed);
    lemma_shown_weight(st, rules, line, Some((p, i)), info);
    lemma_shown_weight(flushed.unfolded(), rules, line, Some((p, i)), info);
}

proof fn lemma_window_bounds(rules: RowRules, start: int, n: int)
    ensures
        0 <= lines_in_window(rules, start, n),
        n >= 0 ==> lines_in_window(rules, start, n) <= n,
    decreases n,
{
    if n > 0 {
        lemma_window_bounds(rules, start, n - 1);
    }
}

proof fn lemma_pending_bound(st: RowState)
    requires
        fold_is_block(st),
    ensures
        0 <= st.pending.len() <= state_weight(st),
{
    lemma_weight_nonnegative(st.rows);
}

proof fn lemma_phase_weight(
    st: RowState,
    rules: RowRules,
    section: PhaseSectionModel,
    infos: Seq<LineModel>,
    p: usize,
    n: int,
)
    requires
        fold_is_block(st),
        st.fold is None,
        rules.lens is None,
        0 <= section.start,
        0 <= n,
        section.start + n <= usize::MAX,
        state_weight(st) + lines_in_window(rules, section.start, n) <= usize::MAX,
    ensures
        ({
            let after = phase_rows(st, rules, section, infos, p, n);
            &&& fold_is_block(after)
            &&& hidden_at_most(after.fold, n)
            &&& state_weight(after) == state_weight(st) + lines_in_window(rules, section.start, n)
        }),
    decreases n,
{
    if n > 0 {
        lemma_phase_weight(st, rules, section, infos, p, n - 1);
        let before = phase_rows(st, rules, section, infos, p, n - 1);
        lemma_pending_bound(before);
        lemma_line_weight(
            before,
            rules,
            section.kind is Graph,
            p,
            (n - 1) as usize,
            (section.start + n - 1) as usize,
            info_at(infos, n - 1),
        );
    }
}

proof fn lemma_phases_weight(
    st: RowState,
    rules: RowRules,
    c: CompilationModel,
    k: int,
)
    requires
        fold_is_block(st),
        st.fold is None,
        rules.lens is None,
        places_fit(c),
        0 <= k <= common_phases(c, rules.parsed),
        st.pending.len() == 0,
        state_weight(st) + phase_lines_in_window(rules, c.phases, k) <= usize::MAX,
    ensures
        ({
            let after = all_phase_rows(st, rules, c.phases, k);
            &&& fold_is_block(after)
            &&& after.fold is None
            &&& after.pending.len() == 0
            &&& state_weight(after) == state_weight(st) + phase_lines_in_window(rules, c.phases, k)
        }),
    decreases k,
{
    if k > 0 {
        let section = c.phases[k - 1];
        let n = span_len(section.start, section.end);
        lemma_window_bounds(rules, section.start, n);
        lemma_phases_weight(st, rules, c, k - 1);
        let before = all_phase_rows(st, rules, c.phases, k - 1);
        let infos = rules.parsed.phases[k - 1].infos;
        lemma_phase_weight(before, rules, section, infos, (k - 1) as usize, n);
        let inner = phase_rows(before, rules, section, infos, (k - 1) as usize, n);
        lemma_pending_bound(inner);
        lemma_flush_keeps_weight(inner, rules.show_annotations);
        lemma_unfold_keeps_weight(inner.flushed(rules.show_annotations));
    }
}

proof fn lemma_anchor_weight(rules: RowRules, start: int, n: int)
    requires
        0 <= start,
    ensures
        ({
            let after = anchor_rows(rules, start, n);
            &&& fold_is_block(after)
            &&& after.fold is None
            &&& after.pending.len() == 0
            &&& state_weight(after) == lines_in_window(rules, start, n)
        }),
    decreases n,
{
    if n > 0 {
        lemma_anchor_weight(rules, start, n - 1);
        let before = anchor_rows(rules, start, n - 1);
        lemma_weight_push(before.rows, text_row((start + n - 1) as usize, None));
    }
}

proof fn lemma_preamble_weight(st: RowState, rules: RowRules, start: int, n: int)
    requires
        fold_is_block(st),
        st.fold is None,
        rules.lens is None,
        state_weight(st) + lines_in_window(rules, start, n) <= usize::MAX,
    ensures
        ({
            let after = preamble_rows(st, rules, start, n);
            &&& fold_is_block(after)
            &&& after.fold is None
            &&& state_weight(after) == state_weight(st) + lines_in_window(rules, start, n)
        }),
    decreases n,
{
    if n > 0 {
        lemma_preamble_weight(st, rules, start, n - 1);
        let before = preamble_rows(st, rules, start, n - 1);
        lemma_pending_bound(before);
        lemma_shown_weight(
            before,
            rules,
            (start + n - 1) as usize,
            None,
            info_at(rules.parsed.preamble, n - 1),
        );
    }
}

/// Without a lens no line of the window is lost: each is shown, hidden in a
/// folded block or counted in a collapsed run, and the rows account for
/// every line exactly once.
pub proof fn law_rows_account_for_every_line(c: CompilationModel, rules: RowRules)
    requires
        rules.lens is None,
        places_fit(c),
        compilation_lines_in_window(c, rules) <= usize::MAX,
    ensures
        rows_weight(modeled_rows(c, rules)) == compilation_lines_in_window(c, rules),
{
    let head = span_len(c.start, c.preamble_start);
    let body = span_len(c.preamble_start, c.preamble_end);
    let k = common_phases(c, rules.parsed);
    lemma_window_bounds(rules, c.start, head);
    lemma_window_bounds(rules, c.preamble_start, body);
    lemma_phase_window_nonnegative(rules, c.phases, k);
    lemma_anchor_weight(rules, c.start, head);
    let anchors = anchor_rows(rules, c.start, head);
    lemma_preamble_weight(anchors, rules, c.preamble_start, body);
    let inner = preamble_rows(anchors, rules, c.preamble_start, body);
    lemma_pending_bound(inner);
    lemma_flush_keeps_weight(inner, rules.show_annotations);
    lemma_phases_weight(inner.flushed(rules.show_annotations), rules, c, k);
}

proof fn lemma_phase_window_nonnegative(
    rules: RowRules,
    sections: Seq<PhaseSectionModel>,
    k: int,
)
    ensures
        phase_lines_in_window(rules, sections, k) >= 0,
    decreases k,
{
    if k > 0 {
        lemma_phase_window_nonnegative(rules, sections, k - 1);
        lemma_window_bounds(
            rules,
            sections[k - 1].start,
            span_len(sections[k - 1].start, sections[k - 1].end),
        );
    }
}

/// Rows come in the order of their lines, none of which is shown twice, and
/// what still waits comes behind them and before `bound`.
spec fn in_order(st: RowState, bound: int) -> bool {
    &&& lines_increase(st.rows)
    &&& forall|r: int| 0 <= r < st.rows.len() ==> (#[trigger] st.rows[r]).line < bound
    &&& forall|a: int, b: int|
        0 <= a < b < st.pending.len() ==> (#[trigger] st.pending[a]).0 < (
        #[trigger] st.pending[b]).0
    &&& forall|r: int, a: int|
        0 <= r < st.rows.len() && 0 <= a < st.pending.len() ==> (#[trigger] st.rows[r]).line < (
        #[trigger] st.pending[a]).0
    &&& forall|a: int| 0 <= a < st.pending.len() ==> (#[trigger] st.pending[a]).0 < bound
    &&& st.fold matches Some(marker) ==> st.pending.len() == 0 && marker.line < bound && forall|
        r: int,
    |
        0 <= r < st.rows.len() ==> (#[trigger] st.rows[r]).line < marker.line
}

/// The lines of rows strictly increase.
pub open spec fn lines_increase(rows: Seq<ViewRow>) -> bool {
    forall|a: int, b: int|
        0 <= a < b < rows.len() ==> (#[trigger] rows[a]).line < (#[trigger] rows[b]).line
}

proof fn lemma_flush_in_order(st: RowState, show: bool, bound: int)
    requires
        in_order(st, bound),
    ensures
        in_order(st.flushed(show), bound),
        st.flushed(show).pending.len() == 0,
        st.flushed(show).fold == st.fold,
{
    if st.pending.len() > 0 {
        assert(st.pending[0].0 < bound);
        if show {
            let n = st.rows.len();
            let rows = st.flushed(show).rows;
            assert forall|r: int| 0 <= r < rows.len() implies (#[trigger] rows[r]).line < bound by {
                if r >= n {
                    assert(rows[r].line == st.pending[r - n].0);
                } else {
                    assert(rows[r] == st.rows[r]);
                }
            }
            assert forall|a: int, b: int| 0 <= a < b < rows.len() implies (#[trigger] rows[a]).line
                < (#[trigger] rows[b]).line by {
                if a < n {
                    assert(rows[a] == st.rows[a]);
                } else {
                    assert(rows[a].line == st.pending[a - n].0);
                }
                if b < n {
                    assert(rows[b] == st.rows[b]);
                } else {
                    assert(rows[b].line == st.pending[b - n].0);
                }
            }
        }
    }
}

proof fn lemma_shown_in_order(
    st: RowState,
    rules: RowRules,
    line: usize,
    at: Option<(usize, usize)>,
    info: Option<LineModel>,
)
    requires
        in_order(st, line as int),
        st.fold is None,
    ensures
        in_order(line_shown(st, rules, line, at, info), line + 1),
        line_shown(st, rules, line, at, info).fold is None,
{
    lemma_flush_in_order(st, rules.show_annotations, line as int);
}

proof fn lemma_line_in_order(
    st: RowState,
    rules: RowRules,
    graph: bool,
    p: usize,
    i: usize,
    line: usize,
    info: Option<LineModel>,
)
    requires
        in_order(st, line as int),
    ensures
        in_order(phase_line_rows(st, rules, graph, p, i, line, info), line + 1),
{
    reveal(phase_line_rows);
    let flushed = st.flushed(rules.show_annotations);
    lemma_flush_in_order(st, rules.show_annotations, line as int);
    assert(in_order(flushed.unfolded(), line as int));
    lemma_shown_in_order(flushed.unfolded(), rules, line, Some((p, i)), info);
    if st.fold is None {
        lemma_shown_in_order(st, rules, line, Some((p, i)), info);
    }
}

proof fn lemma_phase_in_order(
    st: RowState,
    rules: RowRules,
    section: PhaseSectionModel,
    infos: Seq<LineModel>,
    p: usize,
    n: int,
)
    requires
        in_order(st, section.start),
        0 <= section.start,
        0 <= n,
        section.start + n <= usize::MAX,
    ensures
        in_order(phase_rows(st, rules, section, infos, p, n), section.start + n),
    decreases n,
{
    if n > 0 {
        lemma_phase_in_order(st, rules, section, infos, p, n - 1);
        lemma_line_in_order(
            phase_rows(st, rules, section, infos, p, n - 1),
            rules,
            section.kind is Graph,
            p,
            (n - 1) as usize,
            (section.start + n - 1) as usize,
            info_at(infos, n - 1),
        );
    }
}

/// Sections come one behind the other, from `from` on.
spec fn sections_in_order(sections: Seq<PhaseSectionModel>, from: int) -> bool {
    &&& sections.len() > 0 ==> from <= sections[0].start
    &&& forall|k: int|
        0 <= k < sections.len() ==> 0 <= (#[trigger] sections[k]).start <= sections[k].end
            <= usize::MAX
    &&& forall|j: int, k: int|
        0 <= j < sections.len() && k == j + 1 && k < sections.len() ==> (
        #[trigger] sections[j]).end <= (#[trigger] sections[k]).start
}

proof fn lemma_phases_in_order(
    st: RowState,
    rules: RowRules,
    sections: Seq<PhaseSectionModel>,
    from: int,
    k: int,
)
    requires
        in_order(st, from),
        0 <= from,
        st.fold is None,
        st.pending.len() == 0,
        sections_in_order(sections, from),
        0 <= k <= sections.len(),
    ensures
        ({
            let after = all_phase_rows(st, rules, sections, k);
            &&& in_order(
                after,
                if k == 0 {
                    from
                } else {
                    sections[k - 1].end
                },
            )
            &&& after.fold is None
            &&& after.pending.len() == 0
        }),
    decreases k,
{
    if k > 0 {
        lemma_phases_in_order(st, rules, sections, from, k - 1);
        let before = all_phase_rows(st, rules, sections, k - 1);
        let section = sections[k - 1];
        let n = span_len(section.start, section.end);
        let infos = rules.parsed.phases[k - 1].infos;
        if k > 1 {
            assert(sections[k - 2].end <= section.start);
        }
        assert(in_order(before, section.start));
        lemma_phase_in_order(before, rules, section, infos, (k - 1) as usize, n);
        let inner = phase_rows(before, rules, section, infos, (k - 1) as usize, n);
        lemma_flush_in_order(inner, rules.show_annotations, section.end);
    }
}

proof fn lemma_anchors_in_order(rules: RowRules, start: int, n: int)
    requires
        0 <= start,
        0 <= n,
        start + n <= usize::MAX,
    ensures
        in_order(anchor_rows(rules, start, n), start + n),
        anchor_rows(rules, start, n).fold is None,
        anchor_rows(rules, start, n).pending.len() == 0,
    decreases n,
{
    if n > 0 {
        lemma_anchors_in_order(rules, start, n - 1);
    }
}

proof fn lemma_preamble_in_order(st: RowState, rules: RowRules, start: int, n: int)
    requires
        in_order(st, start),
        st.fold is None,
        0 <= start,
        0 <= n,
        start + n <= usize::MAX,
    ensures
        in_order(preamble_rows(st, rules, start, n), start + n),
        preamble_rows(st, rules, start, n).fold is None,
    decreases n,
{
    if n > 0 {
        lemma_preamble_in_order(st, rules, start, n - 1);
        lemma_shown_in_order(
            preamble_rows(st, rules, start, n - 1),
            rules,
            (start + n - 1) as usize,
            None,
            info_at(rules.parsed.preamble, n - 1),
        );
    }
}

/// The rows of a compilation come in the order of their lines, whatever is
/// folded, collapsed or left out, and no line has two rows.
pub proof fn law_rows_follow_the_lines(c: CompilationModel, rules: RowRules)
    requires
        places_fit(c),
        crate::phases::phases_tile(c),
    ensures
        lines_increase(modeled_rows(c, rules)),
{
    let head = span_len(c.start, c.preamble_start);
    let body = span_len(c.preamble_start, c.preamble_end);
    let k = common_phases(c, rules.parsed);
    lemma_anchors_in_order(rules, c.start, head);
    let anchors = anchor_rows(rules, c.start, head);
    lemma_preamble_in_order(anchors, rules, c.preamble_start, body);
    let inner = preamble_rows(anchors, rules, c.preamble_start, body);
    lemma_flush_in_order(inner, rules.show_annotations, c.preamble_end);
    lemma_phases_in_order(
        inner.flushed(rules.show_annotations),
        rules,
        c.phases,
        c.preamble_end,
        k,
    );
}

/// With annotations shown, nothing folded and no lens, every row is the text
/// of one line.
pub proof fn law_unfolded_rows_are_plain_text(c: CompilationModel, rules: RowRules)
    requires
        rules.lens is None,
        rules.show_annotations,
        rules.folded == Set::<FoldKey>::empty(),
    ensures
        forall|r: int|
            0 <= r < modeled_rows(c, rules).len() ==> (#[trigger] modeled_rows(c, rules)[r]).kind
                == RowKind::Text,
{
    let head = span_len(c.start, c.preamble_start);
    let body = span_len(c.preamble_start, c.preamble_end);
    lemma_plain_anchors(rules, c.start, head);
    let anchors = anchor_rows(rules, c.start, head);
    lemma_plain_preamble(anchors, rules, c.preamble_start, body);
    let inner = preamble_rows(anchors, rules, c.preamble_start, body);
    lemma_plain_phases(
        inner.flushed(true),
        rules,
        c.phases,
        common_phases(c, rules.parsed),
    );
}

spec fn plain(st: RowState) -> bool {
    &&& st.fold is None
    &&& forall|r: int| 0 <= r < st.rows.len() ==> (#[trigger] st.rows[r]).kind == RowKind::Text
}

proof fn lemma_plain_anchors(rules: RowRules, start: int, n: int)
    ensures
        plain(anchor_rows(rules, start, n)),
    decreases n,
{
    if n > 0 {
        lemma_plain_anchors(rules, start, n - 1);
    }
}

proof fn lemma_plain_preamble(st: RowState, rules: RowRules, start: int, n: int)
    requires
        plain(st),
        rules.lens is None,
        rules.show_annotations,
    ensures
        plain(preamble_rows(st, rules, start, n)),
    decreases n,
{
    if n > 0 {
        lemma_plain_preamble(st, rules, start, n - 1);
    }
}

proof fn lemma_plain_phase(
    st: RowState,
    rules: RowRules,
    section: PhaseSectionModel,
    infos: Seq<LineModel>,
    p: usize,
    n: int,
)
    requires
        plain(st),
        rules.lens is None,
        rules.show_annotations,
        rules.folded == Set::<FoldKey>::empty(),
    ensures
        plain(phase_rows(st, rules, section, infos, p, n)),
    decreases n,
{
    if n > 0 {
        lemma_plain_phase(st, rules, section, infos, p, n - 1);
        reveal(phase_line_rows);
    }
}

proof fn lemma_plain_phases(
    st: RowState,
    rules: RowRules,
    sections: Seq<PhaseSectionModel>,
    k: int,
)
    requires
        plain(st),
        rules.lens is None,
        rules.show_annotations,
        rules.folded == Set::<FoldKey>::empty(),
    ensures
        plain(all_phase_rows(st, rules, sections, k)),
    decreases k,
{
    if k > 0 {
        lemma_plain_phases(st, rules, sections, k - 1);
        let section = sections[k - 1];
        lemma_plain_phase(
            all_phase_rows(st, rules, sections, k - 1),
            rules,
            section,
            rules.parsed.phases[k - 1].infos,
            (k - 1) as usize,
            span_len(section.start, section.end),
        );
    }
}

} // verus!
