//! The timeline, and the jump from an event to the compilation that it is
//! about.

use vstd::prelude::*;
#[allow(unused_imports)]
use vstd::string::*;

use super::compare::find_place;
#[allow(unused_imports)]
use super::compare::{oversized, row_place};
#[allow(unused_imports)]
use super::moves::less_one;
#[allow(unused_imports)]
use super::{view_at, AppModel};
use super::{App, Pane, Row, ViewState};
use crate::model::{
    Addr, CompilationSection, DeoptFrame, EventKind, LineInfo, ParsedCompilation, PhaseKind, Tier,
};
#[allow(unused_imports)]
use crate::model::{
    addr_text, line_models, shown_name, tier_label, CompilationModel, EventModel, LineModel,
    ParsedModel, TierModel,
};
#[allow(unused_imports)]
use crate::parse::compilation::{law_phases_mirror_the_index, parsed_compilation, phase_size};
use crate::text;
#[allow(unused_imports)]
use crate::text::decimal;
use crate::view::MODEL_LIMIT;

verus! {

// ---------------------------------------------------------------------------
// Texts
// ---------------------------------------------------------------------------

/// ` @` and an offset, where there is one.
pub open spec fn at_offset(offset: Option<u32>) -> Seq<char> {
    match offset {
        Some(o) => " @"@ + decimal(o as int),
        None => Seq::empty(),
    }
}

/// An event in words.
pub open spec fn event_text(event: EventModel) -> Seq<char> {
    match event {
        EventModel::Marking { name, target, reason, .. } => "mark "@ + shown_name(name) + " → "@
            + tier_label(target) + " ("@ + reason + ")"@,
        EventModel::CompileStart { name, target, osr, .. } => "compile "@ + shown_name(name) + " "@
            + tier_label(target) + (if osr {
            " OSR"@
        } else {
            Seq::empty()
        }),
        EventModel::CompileDone { name, target, osr, .. } => "done "@ + shown_name(name) + " "@
            + tier_label(target) + (if osr {
            " OSR"@
        } else {
            Seq::empty()
        }),
        EventModel::DeoptBegin { kind, reason, name, tier, bytecode_offset, .. } => kind + " "@
            + shown_name(name) + " "@ + tier_label(tier) + at_offset(bytecode_offset) + " — "@
            + reason,
        EventModel::DeoptEnd { invalidated } => "bailout end ("@ + (if invalidated {
            "code invalidated"@
        } else {
            "code unaffected"@
        }) + ")"@,
        EventModel::Osr { what, name, osr_offset } => "OSR "@ + what + " "@ + shown_name(name)
            + at_offset(osr_offset),
    }
}

fn push_name(out: &mut String, name: &String)
    ensures
        final(out)@ == old(out)@ + shown_name(name@),
{
    if name.as_str().is_empty() {
        out.append("<toplevel>");
    } else {
        out.append(name.as_str());
    }
}

fn push_offset(out: &mut String, offset: Option<u32>)
    ensures
        final(out)@ == old(out)@ + at_offset(offset),
{
    let ghost before = out@;
    match offset {
        Some(o) => {
            out.append(" @");
            text::push_decimal(out, o as usize);
            assert(out@ =~= before + (" @"@ + decimal(o as int)));
        },
        None => {
            assert(out@ =~= before + Seq::<char>::empty());
        },
    }
}

fn push_osr(out: &mut String, osr: bool)
    ensures
        final(out)@ == old(out)@ + (if osr {
            " OSR"@
        } else {
            Seq::<char>::empty()
        }),
{
    let ghost before = out@;
    if osr {
        out.append(" OSR");
    } else {
        assert(out@ =~= before + Seq::<char>::empty());
    }
}

/// An event in words.
pub fn event_summary(kind: &EventKind) -> (out: String)
    ensures
        out@ == event_text(kind@),
{
    match kind {
        EventKind::Marking { name, target, reason, .. } => {
            let mut out = text::owned("mark ");
            push_name(&mut out, name);
            out.append(" → ");
            out.append(target.label());
            out.append(" (");
            out.append(reason.as_str());
            out.append(")");
            out
        },
        EventKind::CompileStart { name, target, osr, .. } => {
            let mut out = text::owned("compile ");
            push_name(&mut out, name);
            out.append(" ");
            out.append(target.label());
            push_osr(&mut out, *osr);
            out
        },
        EventKind::CompileDone { name, target, osr, .. } => {
            let mut out = text::owned("done ");
            push_name(&mut out, name);
            out.append(" ");
            out.append(target.label());
            push_osr(&mut out, *osr);
            out
        },
        EventKind::DeoptBegin { kind, reason, name, tier, bytecode_offset, .. } => {
            let mut out = kind.clone();
            out.append(" ");
            push_name(&mut out, name);
            out.append(" ");
            out.append(tier.label());
            push_offset(&mut out, *bytecode_offset);
            out.append(" — ");
            out.append(reason.as_str());
            out
        },
        EventKind::DeoptEnd { invalidated } => {
            let mut out = text::owned("bailout end (");
            out.append(
                if *invalidated {
                    "code invalidated"
                } else {
                    "code unaffected"
                },
            );
            out.append(")");
            out
        },
        EventKind::Osr { what, name, osr_offset } => {
            let mut out = text::owned("OSR ");
            out.append(what.as_str());
            out.append(" ");
            push_name(&mut out, name);
            push_offset(&mut out, *osr_offset);
            out
        },
    }
}

// ---------------------------------------------------------------------------
// Correlation
// ---------------------------------------------------------------------------

/// Which way an event is bound to a compilation of its function.
#[derive(Debug, Clone, Copy, PartialEq, Eq, Structural)]
pub enum Bind {
    /// Code that is torn down was compiled before.
    BackwardOnly,
    /// What triggers a compilation comes before it.
    ForwardFirst,
    /// What reports a compilation comes behind it.
    BackwardFirst,
}

/// What an event can be correlated by: function, tier, bytecode offset and
/// direction.
pub open spec fn correlation(event: EventModel) -> Option<(Addr, TierModel, Option<u32>, Bind)> {
    match event {
        EventModel::DeoptBegin { sfi: Some(sfi), tier, bytecode_offset, .. } => Some(
            (sfi, tier, bytecode_offset, Bind::BackwardOnly),
        ),
        EventModel::Marking { sfi: Some(sfi), target, .. } => Some(
            (sfi, target, None, Bind::ForwardFirst),
        ),
        EventModel::CompileStart { sfi: Some(sfi), target, .. } => Some(
            (sfi, target, None, Bind::ForwardFirst),
        ),
        EventModel::CompileDone { sfi: Some(sfi), target, .. } => Some(
            (sfi, target, None, Bind::BackwardFirst),
        ),
        _ => None,
    }
}

/// A compilation is of a function and tier.
pub open spec fn is_of(c: CompilationModel, sfi: Addr, tier: TierModel) -> bool {
    c.sfi == sfi && c.tier == tier
}

/// The last of the first `n` compilations of a function that starts before
/// `line`.
pub open spec fn latest_before(
    comps: Seq<CompilationModel>,
    sfi: Addr,
    tier: TierModel,
    line: int,
    n: int,
) -> Option<int>
    decreases n,
{
    if n <= 0 {
        None
    } else if is_of(comps[n - 1], sfi, tier) && !comps[n - 1].filtered_out && comps[n - 1].start
        < line {
        Some(n - 1)
    } else {
        latest_before(comps, sfi, tier, line, n - 1)
    }
}

/// The first compilation of a function at or after `i` that does not start
/// before `line`.
pub open spec fn first_behind(
    comps: Seq<CompilationModel>,
    sfi: Addr,
    tier: TierModel,
    line: int,
    i: int,
) -> Option<int>
    decreases comps.len() - i,
{
    if i < 0 || i >= comps.len() {
        None
    } else if is_of(comps[i], sfi, tier) && !comps[i].filtered_out && comps[i].start >= line {
        Some(i)
    } else {
        first_behind(comps, sfi, tier, line, i + 1)
    }
}

/// A compilation of a function at or after `i` is left out by the name filter.
pub open spec fn left_out_from(
    comps: Seq<CompilationModel>,
    sfi: Addr,
    tier: TierModel,
    i: int,
) -> bool
    decreases comps.len() - i,
{
    if i < 0 || i >= comps.len() {
        false
    } else {
        (is_of(comps[i], sfi, tier) && comps[i].filtered_out) || left_out_from(
            comps,
            sfi,
            tier,
            i + 1,
        )
    }
}

/// The compilation that an event is about.
pub open spec fn bound_comp(
    comps: Seq<CompilationModel>,
    sfi: Addr,
    tier: TierModel,
    line: int,
    bind: Bind,
) -> Option<int> {
    let backward = latest_before(comps, sfi, tier, line, comps.len() as int);
    let forward = first_behind(comps, sfi, tier, line, 0);
    match bind {
        Bind::BackwardOnly => backward,
        Bind::ForwardFirst => if forward is Some {
            forward
        } else {
            backward
        },
        Bind::BackwardFirst => if backward is Some {
            backward
        } else {
            forward
        },
    }
}

/// The first line at or after line `i` of a phase with a bytecode offset.
pub open spec fn bytecode_from(infos: Seq<LineModel>, offset: u32, i: int) -> Option<int>
    decreases infos.len() - i,
{
    if i < 0 || i >= infos.len() {
        None
    } else if infos[i] matches LineModel::Bytecode(bc) && bc.offset == offset {
        Some(i)
    } else {
        bytecode_from(infos, offset, i + 1)
    }
}

/// The first graph phase, or else bytecode phase, at or after `p` that has a
/// line with the offset, and that line.
pub open spec fn phase_with_offset(
    section: CompilationModel,
    parsed: ParsedModel,
    offset: u32,
    graph: bool,
    p: int,
) -> Option<int>
    decreases section.phases.len() - p,
{
    if p < 0 || p >= section.phases.len() {
        None
    } else {
        let fits = if graph {
            section.phases[p].kind is Graph
        } else {
            section.phases[p].kind is Bytecode
        };
        match (fits, bytecode_from(parsed.phases[p].infos, offset, 0)) {
            (true, Some(i)) => Some(section.phases[p].start + i),
            _ => phase_with_offset(section, parsed, offset, graph, p + 1),
        }
    }
}

/// A line is a deopt frame at the offset.
pub open spec fn frame_at(frames: Seq<DeoptFrame>, info: LineModel, offset: u32) -> bool {
    match info {
        LineModel::Frame { frame, .. } => frame < frames.len()
            && frames[frame as int].bytecode_offset == Some(offset as i32),
        _ => false,
    }
}

/// The first deopt frame at or after line `i` of a phase at the offset.
pub open spec fn frame_from(
    infos: Seq<LineModel>,
    frames: Seq<DeoptFrame>,
    offset: u32,
    i: int,
) -> Option<int>
    decreases infos.len() - i,
{
    if i < 0 || i >= infos.len() {
        None
    } else if frame_at(frames, infos[i], offset) {
        Some(i)
    } else {
        frame_from(infos, frames, offset, i + 1)
    }
}

/// The line of the first deopt frame at or after phase `p` at the offset.
pub open spec fn frame_with_offset(
    section: CompilationModel,
    parsed: ParsedModel,
    offset: u32,
    p: int,
) -> Option<int>
    decreases section.phases.len() - p,
{
    if p < 0 || p >= section.phases.len() {
        None
    } else {
        match frame_from(parsed.phases[p].infos, parsed.frames, offset, 0) {
            Some(i) => Some(section.phases[p].start + i),
            None => frame_with_offset(section, parsed, offset, p + 1),
        }
    }
}

/// Where a bytecode offset is found in a compilation: in a graph, else as a
/// deopt frame, else in the bytecode array.
pub open spec fn offset_place(section: CompilationModel, parsed: ParsedModel, offset: u32) -> Option<
    (int, Seq<char>),
> {
    match phase_with_offset(section, parsed, offset, true, 0) {
        Some(line) => Some((line, "graph"@)),
        None => match frame_with_offset(section, parsed, offset, 0) {
            Some(line) => Some((line, "deopt frame"@)),
            None => match phase_with_offset(section, parsed, offset, false, 0) {
                Some(line) => Some((line, "bytecode array"@)),
                None => None,
            },
        },
    }
}

impl AppModel {
    /// The sidebar shows the other list. Each list keeps its selection.
    #[verifier::opaque]
    pub open spec fn timeline_toggled(self) -> AppModel {
        let swapped = self.with_sidebar_visible(true).with_timeline(!self.timeline).with_selected(
            self.timeline_selected,
        ).with_timeline_selected(self.selected).with_timeline_deopts_only(
            false,
        ).with_sidebar_scroll(0).with_focus(Pane::Sidebar);
        let parked = if self.split is Some {
            swapped.with_diff(false).with_other_view(view_at(self.timeline_selected))
        } else {
            swapped
        };
        let n = parked.rows().len() as int;
        let selected = if self.timeline_selected < less_one(n) {
            self.timeline_selected as int
        } else {
            less_one(n)
        };
        let reset = parked.with_selected(selected as usize).view_reset();
        reset.say(
            if self.timeline {
                "compilation list"@
            } else if n == 0 {
                "timeline — no events (needs --trace-opt / --trace-deopt)"@
            } else {
                "timeline — "@ + decimal(n) + " events · Enter jumps to the compilation"@
            },
        )
    }

    /// The compilation list is shown.
    pub open spec fn list_shown(self) -> AppModel {
        if self.timeline {
            self.with_timeline(false).with_selected(self.timeline_selected).with_timeline_selected(
                self.selected,
            )
        } else {
            self
        }
    }

    /// The group of a function is open where compilations are grouped.
    pub open spec fn group_opened(self, sfi: Addr) -> AppModel {
        if self.grouped {
            self.with_expanded_groups(self.expanded_groups.insert((self.active, sfi.0)))
        } else {
            self
        }
    }

    /// A compilation is selected. A filter that hides it is cleared.
    pub open spec fn comp_selected(self, comp: int) -> AppModel {
        let row = Row::Compilation(comp as usize);
        match row_place(self.rows(), row, 0) {
            Some(at) => self.with_selected(at as usize),
            None => if self.sidebar_filter is Some {
                let cleared = self.with_sidebar_filter(None).say(
                    "sidebar filter cleared to show the jump target"@,
                );
                match row_place(cleared.rows(), row, 0) {
                    Some(at) => cleared.with_selected(at as usize),
                    None => cleared,
                }
            } else {
                self
            },
        }
    }

    /// A compilation is opened in the viewport.
    pub open spec fn comp_shown(self, comp: int) -> AppModel {
        self.list_shown().group_opened(self.compilations()[comp].sfi).comp_selected(
            comp,
        ).view_reset().with_focus(Pane::Viewport)
    }

    /// The cursor goes to a bytecode offset of a compilation.
    pub open spec fn at_bytecode(self, comp: int, offset: u32) -> AppModel {
        let section = self.compilations()[comp];
        if oversized(section) {
            self.say(
                "@"@ + decimal(offset as int)
                    + ": section too large to model — cursor at the top"@,
            )
        } else {
            match offset_place(
                section,
                parsed_compilation(self.source().buffer, section),
                offset,
            ) {
                Some((line, place)) => self.gone_to(line).say(
                    "bytecode offset "@ + decimal(offset as int) + " ("@ + place + ")"@,
                ),
                None => self.say(
                    "bytecode offset "@ + decimal(offset as int)
                        + " not in this dump — cursor at the top"@,
                ),
            }
        }
    }

    /// The viewport goes from an event to the compilation that it is about.
    pub open spec fn event_followed(self, ev: int) -> AppModel {
        let (line, event) = self.source().index.events[ev];
        let comps = self.compilations();
        match correlation(event) {
            None => self.say("this event has no SFI to correlate on — timeline entry only"@),
            Some((sfi, tier, offset, bind)) => match bound_comp(comps, sfi, tier, line, bind) {
                None => self.say(
                    if left_out_from(comps, sfi, tier, 0) {
                        "the "@ + tier_label(tier) + " graph for sfi "@ + addr_text(sfi)
                            + " is hidden by --function — timeline entry only"@
                    } else {
                        "unresolved: no "@ + tier_label(tier) + " graph for sfi "@ + addr_text(sfi)
                            + " in this trace — timeline entry only"@
                    },
                ),
                Some(comp) => {
                    let c = comps[comp];
                    let opened = self.history_pushed().comp_shown(comp).say(
                        "jumped to "@ + shown_name(c.name) + " · "@ + tier_label(c.tier) + " #"@
                            + decimal(c.ordinal as int),
                    );
                    match offset {
                        Some(o) => opened.at_bytecode(comp, o),
                        None => opened,
                    }
                },
            },
        }
    }

    /// The selected row is expanded or collapsed, shown or followed.
    #[verifier::opaque]
    pub open spec fn row_toggled(self) -> AppModel {
        match self.row_at(self.selected as int) {
            Some(Row::Compilation(i)) => {
                let key = (self.active, i as u64);
                self.with_expanded(
                    if self.expanded.contains(key) {
                        self.expanded.remove(key)
                    } else {
                        self.expanded.insert(key)
                    },
                )
            },
            Some(Row::Function { sfi, .. }) => {
                let key = (self.active, sfi.0);
                self.with_expanded_groups(
                    if self.expanded_groups.contains(key) {
                        self.expanded_groups.remove(key)
                    } else {
                        self.expanded_groups.insert(key)
                    },
                )
            },
            Some(Row::Phase { .. }) => self.with_focus(Pane::Viewport),
            Some(Row::Raw(_)) => self.with_focus(Pane::Viewport),
            Some(Row::Event(i)) => self.event_followed(i as int),
            None => self,
        }
    }
}

// ---------------------------------------------------------------------------
// The operations
// ---------------------------------------------------------------------------

pub(crate) fn find_bytecode(infos: &Vec<LineInfo>, offset: u32) -> (at: Option<usize>)
    ensures
        text::pos(at) == bytecode_from(line_models(infos@), offset, 0),
        at matches Some(i) ==> i < infos@.len(),
{
    let ghost all = line_models(infos@);
    let mut i: usize = 0;
    while i < infos.len()
        invariant
            i <= infos@.len(),
            all == line_models(infos@),
            bytecode_from(all, offset, 0) == bytecode_from(all, offset, i as int),
        decreases infos.len() - i,
    {
        assert(all[i as int] == infos@[i as int]@);
        if let LineInfo::Bytecode(bc) = &infos[i] {
            if bc.offset == offset {
                return Some(i);
            }
        }
        i += 1;
    }
    None
}

fn find_frame(infos: &Vec<LineInfo>, frames: &Vec<DeoptFrame>, offset: u32) -> (at: Option<usize>)
    ensures
        text::pos(at) == frame_from(line_models(infos@), frames@, offset, 0),
        at matches Some(i) ==> i < infos@.len(),
{
    let ghost all = line_models(infos@);
    let mut i: usize = 0;
    while i < infos.len()
        invariant
            i <= infos@.len(),
            all == line_models(infos@),
            frame_from(all, frames@, offset, 0) == frame_from(all, frames@, offset, i as int),
        decreases infos.len() - i,
    {
        assert(all[i as int] == infos@[i as int]@);
        if let LineInfo::Frame { frame, .. } = &infos[i] {
            let k: usize = *frame as usize;
            if k < frames.len() {
                if let Some(o) = frames[k].bytecode_offset {
                    if o == offset as i32 {
                        return Some(i);
                    }
                }
            }
        }
        i += 1;
    }
    None
}

/// A parse has a phase for every phase and a class for every line.
pub open spec fn mirrors(section: CompilationModel, parsed: ParsedModel) -> bool {
    &&& parsed.phases.len() == section.phases.len()
    &&& forall|k: int|
        0 <= k < section.phases.len() ==> (#[trigger] parsed.phases[k]).infos.len() == phase_size(
            section.phases[k],
        )
}

fn find_phase_with_offset(
    section: &CompilationSection,
    parsed: &ParsedCompilation,
    offset: u32,
    graph: bool,
) -> (line: Option<usize>)
    requires
        mirrors(section@, parsed@),
    ensures
        text::pos(line) == phase_with_offset(section@, parsed@, offset, graph, 0),
{
    let mut p: usize = 0;
    while p < section.phases.len()
        invariant
            p <= section.phases@.len(),
            mirrors(section@, parsed@),
            phase_with_offset(section@, parsed@, offset, graph, 0) == phase_with_offset(
                section@,
                parsed@,
                offset,
                graph,
                p as int,
            ),
        decreases section.phases.len() - p,
    {
        assert(section@.phases[p as int] == section.phases@[p as int]@);
        assert(parsed@.phases[p as int] == parsed.phases@[p as int]@);
        let fits: bool = match &section.phases[p].kind {
            PhaseKind::Graph { .. } => graph,
            PhaseKind::Bytecode => !graph,
            _ => false,
        };
        if fits {
            if let Some(i) = find_bytecode(&parsed.phases[p].infos, offset) {
                return Some(section.phases[p].lines.start + i);
            }
        }
        p += 1;
    }
    None
}

fn find_frame_with_offset(
    section: &CompilationSection,
    parsed: &ParsedCompilation,
    offset: u32,
) -> (line: Option<usize>)
    requires
        mirrors(section@, parsed@),
    ensures
        text::pos(line) == frame_with_offset(section@, parsed@, offset, 0),
{
    let mut p: usize = 0;
    while p < section.phases.len()
        invariant
            p <= section.phases@.len(),
            mirrors(section@, parsed@),
            frame_with_offset(section@, parsed@, offset, 0) == frame_with_offset(
                section@,
                parsed@,
                offset,
                p as int,
            ),
        decreases section.phases.len() - p,
    {
        assert(section@.phases[p as int] == section.phases@[p as int]@);
        assert(parsed@.phases[p as int] == parsed.phases@[p as int]@);
        if let Some(i) = find_frame(&parsed.phases[p].infos, &parsed.frames, offset) {
            return Some(section.phases[p].lines.start + i);
        }
        p += 1;
    }
    None
}

fn find_offset(
    section: &CompilationSection,
    parsed: &ParsedCompilation,
    offset: u32,
) -> (place: Option<(usize, &'static str)>)
    requires
        mirrors(section@, parsed@),
    ensures
        match place {
            Some((line, name)) => offset_place(section@, parsed@, offset) == Some(
                (line as int, name@),
            ),
            None => offset_place(section@, parsed@, offset) is None,
        },
{
    if let Some(line) = find_phase_with_offset(section, parsed, offset, true) {
        return Some((line, "graph"));
    }
    if let Some(line) = find_frame_with_offset(section, parsed, offset) {
        return Some((line, "deopt frame"));
    }
    match find_phase_with_offset(section, parsed, offset, false) {
        Some(line) => Some((line, "bytecode array")),
        None => None,
    }
}

/// What a key for correlation gives.
pub open spec fn key_model(key: Option<(Addr, Tier, Option<u32>, Bind)>) -> Option<
    (Addr, TierModel, Option<u32>, Bind),
> {
    match key {
        Some((sfi, tier, offset, bind)) => Some((sfi, tier@, offset, bind)),
        None => None,
    }
}

fn correlate(kind: &EventKind) -> (key: Option<(Addr, Tier, Option<u32>, Bind)>)
    ensures
        key_model(key) == correlation(kind@),
{
    match kind {
        EventKind::DeoptBegin { sfi: Some(sfi), tier, bytecode_offset, .. } => Some(
            (*sfi, tier.duplicate(), *bytecode_offset, Bind::BackwardOnly),
        ),
        EventKind::Marking { sfi: Some(sfi), target, .. } => Some(
            (*sfi, target.duplicate(), None, Bind::ForwardFirst),
        ),
        EventKind::CompileStart { sfi: Some(sfi), target, .. } => Some(
            (*sfi, target.duplicate(), None, Bind::ForwardFirst),
        ),
        EventKind::CompileDone { sfi: Some(sfi), target, .. } => Some(
            (*sfi, target.duplicate(), None, Bind::BackwardFirst),
        ),
        _ => None,
    }
}

impl App {
    /// Shows the other list in the sidebar.
    pub(crate) fn toggle_timeline(&mut self)
        requires
            old(self).wf(),
        ensures
            final(self).wf(),
            final(self)@ == old(self)@.timeline_toggled(),
    {
        reveal(AppModel::timeline_toggled);
        proof {
            self.lemma_fields();
        }
        let was: bool = self.timeline;
        let here: usize = self.selected;
        let parked: usize = self.timeline_selected;
        let split: bool = self.split.is_some();
        self.set_sidebar_visible(true);
        self.set_timeline(!was);
        self.set_selected(parked);
        self.set_timeline_selected(here);
        self.set_timeline_deopts_only(false);
        self.set_sidebar_scroll(0);
        self.set_focus(Pane::Sidebar);
        if split {
            self.set_diff(false);
            self.set_other_view(ViewState { selected: parked, cursor: 0, top: 0, scroll_x: 0 });
        }
        let n: usize = self.rows().len();
        let last: usize = if n > 0 {
            n - 1
        } else {
            0
        };
        self.set_selected(
            if parked < last {
                parked
            } else {
                last
            },
        );
        self.reset_view();
        if was {
            self.say("compilation list");
        } else if n == 0 {
            self.say("timeline — no events (needs --trace-opt / --trace-deopt)");
        } else {
            let mut message = text::owned("timeline — ");
            text::push_decimal(&mut message, n);
            message.append(" events · Enter jumps to the compilation");
            self.say_text(message);
        }
    }

    fn show_list(&mut self)
        requires
            old(self).wf(),
        ensures
            final(self).wf(),
            final(self)@ == old(self)@.list_shown(),
    {
        proof {
            self.lemma_fields();
        }
        if self.timeline {
            let here: usize = self.selected;
            let parked: usize = self.timeline_selected;
            self.set_timeline(false);
            self.set_selected(parked);
            self.set_timeline_selected(here);
        }
    }

    fn open_group(&mut self, sfi: Addr)
        requires
            old(self).wf(),
        ensures
            final(self).wf(),
            final(self)@ == old(self)@.group_opened(sfi),
    {
        proof {
            self.lemma_fields();
        }
        if self.grouped {
            self.expand_group(sfi.0);
        }
    }

    fn select_comp(&mut self, comp: usize)
        requires
            old(self).wf(),
        ensures
            final(self).wf(),
            final(self)@ == old(self)@.comp_selected(comp as int),
    {
        proof {
            self.lemma_fields();
        }
        let rows = self.rows();
        if let Some(at) = find_place(&rows, Row::Compilation(comp)) {
            self.set_selected(at);
            return ;
        }
        if self.sidebar_filter.is_some() {
            self.set_sidebar_filter(None);
            self.say("sidebar filter cleared to show the jump target");
            let rows = self.rows();
            if let Some(at) = find_place(&rows, Row::Compilation(comp)) {
                self.set_selected(at);
            }
        }
    }

    /// Opens a compilation in the viewport.
    fn open_compilation(&mut self, comp: usize)
        requires
            old(self).wf(),
            comp < old(self)@.compilations().len(),
        ensures
            final(self).wf(),
            final(self)@ == old(self)@.comp_shown(comp as int),
    {
        let sfi: Addr = self.active_source().index.compilation(comp).key.sfi;
        self.show_list();
        self.open_group(sfi);
        self.select_comp(comp);
        self.reset_view();
        self.set_focus(Pane::Viewport);
    }

    /// Moves the cursor to a bytecode offset of a compilation.
    fn jump_to_bytecode_offset(&mut self, comp: usize, offset: u32)
        requires
            old(self).wf(),
            comp < old(self)@.compilations().len(),
        ensures
            final(self).wf(),
            final(self)@ == old(self)@.at_bytecode(comp as int, offset),
    {
        proof {
            self.lemma_fields();
            self.lemma_wf();
        }
        let section = self.active_source().index.compilation(comp);
        if section.lines.start < section.lines.end && section.lines.end - section.lines.start
            > MODEL_LIMIT {
            let mut message = text::owned("@");
            text::push_decimal(&mut message, offset as usize);
            message.append(": section too large to model — cursor at the top");
            self.say_text(message);
            return ;
        }
        let active: usize = self.active;
        let parsed = self.parse(active, comp);
        proof {
            law_phases_mirror_the_index(
                self@.source().buffer,
                self@.compilations()[comp as int],
            );
        }
        let section = self.active_source().index.compilation(comp);
        let mut message = text::owned("bytecode offset ");
        text::push_decimal(&mut message, offset as usize);
        match find_offset(section, &*parsed, offset) {
            Some((line, place)) => {
                self.goto_line(line);
                message.append(" (");
                message.append(place);
                message.append(")");
                self.say_text(message);
            },
            None => {
                message.append(" not in this dump — cursor at the top");
                self.say_text(message);
            },
        }
    }

    fn matching(&self, i: usize, sfi: Addr, tier: &Tier) -> (yes: bool)
        requires
            self.wf(),
            i < self@.compilations().len(),
        ensures
            yes == is_of(self@.compilations()[i as int], sfi, tier@),
    {
        let c = self.active_source().index.compilation(i);
        c.key.sfi == sfi && c.key.tier.same(tier)
    }

    fn find_before(&self, sfi: Addr, tier: &Tier, line: usize) -> (at: Option<usize>)
        requires
            self.wf(),
        ensures
            text::pos(at) == latest_before(
                self@.compilations(),
                sfi,
                tier@,
                line as int,
                self@.compilations().len() as int,
            ),
            at matches Some(k) ==> k < self@.compilations().len(),
    {
        let index = &self.active_source().index;
        let mut n: usize = index.compilation_count();
        while n > 0
            invariant
                self.wf(),
                index@ == self@.source().index,
                n <= self@.compilations().len(),
                latest_before(
                    self@.compilations(),
                    sfi,
                    tier@,
                    line as int,
                    self@.compilations().len() as int,
                ) == latest_before(self@.compilations(), sfi, tier@, line as int, n as int),
            decreases n,
        {
            let c = index.compilation(n - 1);
            if self.matching(n - 1, sfi, tier) && !c.filtered_out && c.lines.start < line {
                return Some(n - 1);
            }
            n -= 1;
        }
        None
    }

    fn find_behind(&self, sfi: Addr, tier: &Tier, line: usize) -> (at: Option<usize>)
        requires
            self.wf(),
        ensures
            text::pos(at) == first_behind(self@.compilations(), sfi, tier@, line as int, 0),
            at matches Some(k) ==> k < self@.compilations().len(),
    {
        let index = &self.active_source().index;
        let count: usize = index.compilation_count();
        let mut i: usize = 0;
        while i < count
            invariant
                self.wf(),
                index@ == self@.source().index,
                count == self@.compilations().len(),
                i <= count,
                first_behind(self@.compilations(), sfi, tier@, line as int, 0) == first_behind(
                    self@.compilations(),
                    sfi,
                    tier@,
                    line as int,
                    i as int,
                ),
            decreases count - i,
        {
            let c = index.compilation(i);
            if self.matching(i, sfi, tier) && !c.filtered_out && c.lines.start >= line {
                return Some(i);
            }
            i += 1;
        }
        None
    }

    fn is_left_out(&self, sfi: Addr, tier: &Tier) -> (yes: bool)
        requires
            self.wf(),
        ensures
            yes == left_out_from(self@.compilations(), sfi, tier@, 0),
    {
        let index = &self.active_source().index;
        let count: usize = index.compilation_count();
        let mut i: usize = 0;
        while i < count
            invariant
                self.wf(),
                index@ == self@.source().index,
                count == self@.compilations().len(),
                i <= count,
                left_out_from(self@.compilations(), sfi, tier@, 0) == left_out_from(
                    self@.compilations(),
                    sfi,
                    tier@,
                    i as int,
                ),
            decreases count - i,
        {
            if self.matching(i, sfi, tier) && index.compilation(i).filtered_out {
                return true;
            }
            i += 1;
        }
        false
    }

    fn find_bound(&self, sfi: Addr, tier: &Tier, line: usize, bind: Bind) -> (at: Option<usize>)
        requires
            self.wf(),
        ensures
            text::pos(at) == bound_comp(self@.compilations(), sfi, tier@, line as int, bind),
            at matches Some(k) ==> k < self@.compilations().len(),
    {
        match bind {
            Bind::BackwardOnly => self.find_before(sfi, tier, line),
            Bind::ForwardFirst => match self.find_behind(sfi, tier, line) {
                Some(k) => Some(k),
                None => self.find_before(sfi, tier, line),
            },
            Bind::BackwardFirst => match self.find_before(sfi, tier, line) {
                Some(k) => Some(k),
                None => self.find_behind(sfi, tier, line),
            },
        }
    }

    /// Goes from an event to the compilation that it is about.
    pub(crate) fn event_jump(&mut self, ev: usize)
        requires
            old(self).wf(),
            ev < old(self)@.source().index.events.len(),
        ensures
            final(self).wf(),
            final(self)@ == old(self)@.event_followed(ev as int),
    {
        let event = self.active_source().index.event(ev);
        let line: usize = event.line;
        let (sfi, tier, offset, bind) = match correlate(&event.kind) {
            Some(key) => key,
            None => {
                self.say("this event has no SFI to correlate on — timeline entry only");
                return ;
            },
        };
        let comp: usize = match self.find_bound(sfi, &tier, line, bind) {
            Some(comp) => comp,
            None => {
                if self.is_left_out(sfi, &tier) {
                    let mut message = text::owned("the ");
                    message.append(tier.label());
                    message.append(" graph for sfi ");
                    message.append(sfi.to_text().as_str());
                    message.append(" is hidden by --function — timeline entry only");
                    self.say_text(message);
                } else {
                    let mut message = text::owned("unresolved: no ");
                    message.append(tier.label());
                    message.append(" graph for sfi ");
                    message.append(sfi.to_text().as_str());
                    message.append(" in this trace — timeline entry only");
                    self.say_text(message);
                }
                return ;
            },
        };
        let c = self.active_source().index.compilation(comp);
        let mut message = text::owned("jumped to ");
        message.append(c.display_name());
        message.append(" · ");
        message.append(c.key.tier.label());
        message.append(" #");
        text::push_decimal(&mut message, c.key.ordinal as usize);
        let ghost before = self@;
        self.push_history();
        proof {
            lemma_jumps_keep_sources(before, before.here());
        }
        self.open_compilation(comp);
        proof {
            lemma_opening_keeps_sources(before.history_pushed(), comp as int);
        }
        self.say_text(message);
        proof {
            reveal(AppModel::say);
        }
        if let Some(o) = offset {
            self.jump_to_bytecode_offset(comp, o);
        }
    }

    /// Expands or collapses, shows or follows the selected row.
    pub(crate) fn toggle_expand(&mut self)
        requires
            old(self).wf(),
        ensures
            final(self).wf(),
            final(self)@ == old(self)@.row_toggled(),
    {
        reveal(AppModel::row_toggled);
        proof {
            self.lemma_fields();
        }
        match self.row_at(self.selected) {
            Some(Row::Compilation(i)) => {
                if self.compilation_expanded(i) {
                    self.collapse_comp(i);
                } else {
                    self.expand_comp(i);
                }
            },
            Some(Row::Function { sfi, .. }) => {
                if self.group_expanded(sfi.0) {
                    self.collapse_group(sfi.0);
                } else {
                    self.expand_group(sfi.0);
                }
            },
            Some(Row::Phase { .. }) => {
                self.set_focus(Pane::Viewport);
            },
            Some(Row::Raw(_)) => {
                self.set_focus(Pane::Viewport);
            },
            Some(Row::Event(i)) => {
                self.event_jump(i);
            },
            None => {},
        }
    }
}

proof fn lemma_jumps_keep_sources(a: AppModel, jump: super::Jump)
    ensures
        a.jump_pushed(jump).sources == a.sources,
        a.jump_pushed(jump).active == a.active,
{
    reveal(AppModel::with_jumps);
    reveal(AppModel::with_jump_at);
}

proof fn lemma_sync_keeps_sources(a: AppModel)
    ensures
        a.event_synced().sources == a.sources,
        a.event_synced().active == a.active,
{
    reveal(AppModel::with_cursor);
}

proof fn lemma_reset_keeps_sources(a: AppModel)
    ensures
        a.view_reset().sources == a.sources,
        a.view_reset().active == a.active,
{
    reveal(AppModel::view_reset);
    reveal(AppModel::with_cursor);
    reveal(AppModel::with_top);
    reveal(AppModel::with_scroll_x);
    reveal(AppModel::with_follow);
    reveal(AppModel::with_cycle);
    lemma_sync_keeps_sources(
        a.with_cursor(0).with_top(0).with_scroll_x(0).with_follow(false).with_cycle(None),
    );
}

proof fn lemma_selecting_keeps_sources(a: AppModel, comp: int)
    ensures
        a.comp_selected(comp).sources == a.sources,
        a.comp_selected(comp).active == a.active,
{
    reveal(AppModel::with_selected);
    reveal(AppModel::with_sidebar_filter);
    reveal(AppModel::say);
}

proof fn lemma_opening_keeps_sources(a: AppModel, comp: int)
    ensures
        a.comp_shown(comp).sources == a.sources,
        a.comp_shown(comp).active == a.active,
{
    reveal(AppModel::with_timeline);
    reveal(AppModel::with_selected);
    reveal(AppModel::with_timeline_selected);
    reveal(AppModel::with_expanded_groups);
    reveal(AppModel::with_focus);
    let listed = a.list_shown();
    let grouped = listed.group_opened(a.compilations()[comp].sfi);
    lemma_selecting_keeps_sources(grouped, comp);
    lemma_reset_keeps_sources(grouped.comp_selected(comp));
}

} // verus!
