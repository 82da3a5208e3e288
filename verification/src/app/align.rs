//! The alignment of a trace with the JavaScript source.
//!
//! Rows of bytecode carry offsets into the script, the rows below them come
//! from the same place, and a context line at least names the line on which
//! its function is defined.

use std::collections::HashMap;
use vstd::prelude::*;
#[allow(unused_imports)]
use vstd::string::*;
#[allow(unused_imports)]
use vstd::utf8::encode_utf8;

use super::scripts::{open_embedded, open_script, SCRIPT_LIMIT};
#[allow(unused_imports)]
use super::scripts::{displayed, embedded_pane, no_source, script_pane, source_lines};
#[allow(unused_imports)]
use super::timeline::mirrors;
#[allow(unused_imports)]
use super::{AppModel, PaneModel, RequestModel};
use super::{Anchor, App, Leg, Request, SourcePane, SrcRef};
use crate::model::{CompilationSection, LineInfo, ParsedCompilation, ParsedPhase};
#[allow(unused_imports)]
use crate::model::{
    line_models, CompilationModel, LineModel, ParsedModel, PhaseModel, PhaseSectionModel,
};
#[allow(unused_imports)]
use crate::parse::compilation::{law_phases_mirror_the_index, parsed_compilation};
use crate::text;
#[allow(unused_imports)]
use crate::text::decimal;

verus! {

// ---------------------------------------------------------------------------
// The map
// ---------------------------------------------------------------------------

/// Where lines come from in the script.
pub struct SourceMap {
    pub of_row: HashMap<usize, SrcRef>,
}

impl View for SourceMap {
    type V = Map<usize, SrcRef>;

    open spec fn view(&self) -> Map<usize, SrcRef> {
        self.of_row@
    }
}

impl SourceMap {
    /// Where a line comes from.
    pub fn get(&self, line: usize) -> (place: Option<SrcRef>)
        ensures
            place == (if self@.dom().contains(line) {
                Some(self@[line])
            } else {
                None
            }),
    {
        broadcast use vstd::std_specs::hash::group_hash_axioms;

        match self.of_row.get(&line) {
            Some(r) => Some(*r),
            None => None,
        }
    }

    /// How many lines have a place.
    pub fn len(&self) -> (n: usize)
        ensures
            n == self@.len(),
    {
        broadcast use vstd::std_specs::hash::group_hash_axioms;

        self.of_row.len()
    }
}

/// The script offsets of bytecode offsets, with those of the first `n` lines.
/// The first one counts.
pub open spec fn positions_in(infos: Seq<LineModel>, known: Map<u32, u32>, n: int) -> Map<u32, u32>
    decreases n,
{
    if n <= 0 {
        known
    } else {
        let before = positions_in(infos, known, n - 1);
        match infos[n - 1] {
            LineModel::Bytecode(bc) => match bc.src_pos {
                Some(pos) => if before.dom().contains(bc.offset) {
                    before
                } else {
                    before.insert(bc.offset, pos)
                },
                None => before,
            },
            _ => before,
        }
    }
}

/// The script offsets of bytecode offsets in the first `n` phases.
pub open spec fn positions(phases: Seq<PhaseModel>, n: int) -> Map<u32, u32>
    decreases n,
{
    if n <= 0 {
        Map::empty()
    } else {
        let infos = phases[n - 1].infos;
        positions_in(infos, positions(phases, n - 1), infos.len() as int)
    }
}

/// Where a line and those below it come from, given where the line above it
/// does.
pub open spec fn place_after(
    info: LineModel,
    before: Option<SrcRef>,
    pos: Map<u32, u32>,
) -> Option<SrcRef> {
    match info {
        LineModel::SfiContext { line, same_script, .. } => if same_script && line > 0 {
            Some(SrcRef::FnLine(line))
        } else {
            None
        },
        LineModel::Bytecode(bc) => match bc.src_pos {
            Some(p) => Some(SrcRef::Char(p)),
            None => if pos.dom().contains(bc.offset) {
                Some(SrcRef::Char(pos[bc.offset]))
            } else {
                before
            },
        },
        _ => before,
    }
}

/// Lines of this class have a place.
pub open spec fn is_placed(info: LineModel) -> bool {
    info is SfiContext || info is Bytecode || info is Node || info is Frame || info is PhiMove
}

/// Where the line behind the first `n` would come from.
pub open spec fn place_at(infos: Seq<LineModel>, pos: Map<u32, u32>, n: int) -> Option<SrcRef>
    decreases n,
{
    if n <= 0 {
        None
    } else {
        place_after(infos[n - 1], place_at(infos, pos, n - 1), pos)
    }
}

/// The places of lines, with those of the first `n` lines of a phase.
pub open spec fn placed_in(
    infos: Seq<LineModel>,
    start: int,
    pos: Map<u32, u32>,
    known: Map<usize, SrcRef>,
    n: int,
) -> Map<usize, SrcRef>
    decreases n,
{
    if n <= 0 {
        known
    } else {
        let before = placed_in(infos, start, pos, known, n - 1);
        match (is_placed(infos[n - 1]), place_at(infos, pos, n)) {
            (true, Some(r)) => before.insert((start + n - 1) as usize, r),
            _ => before,
        }
    }
}

/// The places of the lines of the first `n` phases.
pub open spec fn placed(
    section: CompilationModel,
    parsed: ParsedModel,
    n: int,
) -> Map<usize, SrcRef>
    decreases n,
{
    if n <= 0 {
        Map::empty()
    } else {
        let infos = parsed.phases[n - 1].infos;
        placed_in(
            infos,
            section.phases[n - 1].start,
            positions(parsed.phases, parsed.phases.len() as int),
            placed(section, parsed, n - 1),
            infos.len() as int,
        )
    }
}

/// Where the lines of a compilation come from in the script.
pub open spec fn aligned(section: CompilationModel, parsed: ParsedModel) -> Map<usize, SrcRef> {
    placed(section, parsed, parsed.phases.len() as int)
}

fn add_positions(infos: &Vec<LineInfo>, pos: &mut HashMap<u32, u32>)
    ensures
        final(pos)@ == positions_in(line_models(infos@), old(pos)@, infos@.len() as int),
{
    broadcast use vstd::std_specs::hash::group_hash_axioms;

    let ghost all = line_models(infos@);
    let mut n: usize = 0;
    while n < infos.len()
        invariant
            n <= infos@.len(),
            all == line_models(infos@),
            pos@ == positions_in(all, old(pos)@, n as int),
        decreases infos.len() - n,
    {
        assert(all[n as int] == infos@[n as int]@);
        if let LineInfo::Bytecode(bc) = &infos[n] {
            if let Some(p) = bc.src_pos {
                if !pos.contains_key(&bc.offset) {
                    pos.insert(bc.offset, p);
                }
            }
        }
        n += 1;
    }
}

fn find_positions(phases: &Vec<ParsedPhase>) -> (pos: HashMap<u32, u32>)
    ensures
        pos@ == positions(crate::model::parsed_phase_models(phases@), phases@.len() as int),
{
    broadcast use vstd::std_specs::hash::group_hash_axioms;

    let ghost all = crate::model::parsed_phase_models(phases@);
    let mut pos: HashMap<u32, u32> = HashMap::new();
    let mut n: usize = 0;
    while n < phases.len()
        invariant
            n <= phases@.len(),
            all == crate::model::parsed_phase_models(phases@),
            pos@ == positions(all, n as int),
        decreases phases.len() - n,
    {
        assert(all[n as int] == phases@[n as int]@);
        add_positions(&phases[n].infos, &mut pos);
        n += 1;
    }
    pos
}

fn find_place_after(
    info: &LineInfo,
    before: Option<SrcRef>,
    pos: &HashMap<u32, u32>,
) -> (place: Option<SrcRef>)
    ensures
        place == place_after(info@, before, pos@),
{
    broadcast use vstd::std_specs::hash::group_hash_axioms;

    match info {
        LineInfo::SfiContext { line, same_script, .. } => if *same_script && *line > 0 {
            Some(SrcRef::FnLine(*line))
        } else {
            None
        },
        LineInfo::Bytecode(bc) => match bc.src_pos {
            Some(p) => Some(SrcRef::Char(p)),
            None => match pos.get(&bc.offset) {
                Some(p) => Some(SrcRef::Char(*p)),
                None => before,
            },
        },
        _ => before,
    }
}

fn has_place(info: &LineInfo) -> (yes: bool)
    ensures
        yes == is_placed(info@),
{
    match info {
        LineInfo::SfiContext { .. } => true,
        LineInfo::Bytecode(_) => true,
        LineInfo::Node(_) => true,
        LineInfo::Frame { .. } => true,
        LineInfo::PhiMove { .. } => true,
        _ => false,
    }
}

fn place_lines(
    infos: &Vec<LineInfo>,
    start: usize,
    pos: &HashMap<u32, u32>,
    map: &mut HashMap<usize, SrcRef>,
)
    requires
        infos@.len() == 0 || start + infos@.len() <= usize::MAX,
    ensures
        final(map)@ == placed_in(
            line_models(infos@),
            start as int,
            pos@,
            old(map)@,
            infos@.len() as int,
        ),
{
    broadcast use vstd::std_specs::hash::group_hash_axioms;

    let ghost all = line_models(infos@);
    let mut place: Option<SrcRef> = None;
    let mut n: usize = 0;
    while n < infos.len()
        invariant
            n <= infos@.len(),
            infos@.len() == 0 || start + infos@.len() <= usize::MAX,
            all == line_models(infos@),
            place == place_at(all, pos@, n as int),
            map@ == placed_in(all, start as int, pos@, old(map)@, n as int),
        decreases infos.len() - n,
    {
        assert(all[n as int] == infos@[n as int]@);
        place = find_place_after(&infos[n], place, pos);
        if has_place(&infos[n]) {
            if let Some(r) = place {
                map.insert(start + n, r);
            }
        }
        n += 1;
    }
}

fn align(section: &CompilationSection, parsed: &ParsedCompilation) -> (map: SourceMap)
    requires
        mirrors(section@, parsed@),
    ensures
        map@ == aligned(section@, parsed@),
{
    broadcast use vstd::std_specs::hash::group_hash_axioms;

    let pos = find_positions(&parsed.phases);
    let mut map: HashMap<usize, SrcRef> = HashMap::new();
    let mut n: usize = 0;
    assert(parsed@.phases.len() == parsed.phases@.len());
    assert(section@.phases.len() == section.phases@.len());
    while n < parsed.phases.len()
        invariant
            n <= parsed.phases@.len(),
            parsed@.phases.len() == parsed.phases@.len(),
            section@.phases.len() == section.phases@.len(),
            mirrors(section@, parsed@),
            pos@ == positions(parsed@.phases, parsed@.phases.len() as int),
            map@ == placed(section@, parsed@, n as int),
        decreases parsed.phases.len() - n,
    {
        assert(parsed@.phases[n as int] == parsed.phases@[n as int]@);
        assert(section@.phases[n as int] == section.phases@[n as int]@);
        place_lines(&parsed.phases[n].infos, section.phases[n].lines.start, &pos, &mut map);
        n += 1;
    }
    SourceMap { of_row: map }
}

// ---------------------------------------------------------------------------
// From the source to the trace
// ---------------------------------------------------------------------------

/// The first line of any of the first `n` phases.
pub open spec fn first_line(phases: Seq<PhaseSectionModel>, n: int) -> int
    decreases n,
{
    if n <= 1 {
        phases[0].start
    } else if phases[n - 1].start < first_line(phases, n - 1) {
        phases[n - 1].start
    } else {
        first_line(phases, n - 1)
    }
}

/// One past the last line of any of the first `n` phases.
pub open spec fn last_line(phases: Seq<PhaseSectionModel>, n: int) -> int
    decreases n,
{
    if n <= 1 {
        phases[0].end
    } else if phases[n - 1].end > last_line(phases, n - 1) {
        phases[n - 1].end
    } else {
        last_line(phases, n - 1)
    }
}

/// A line comes from a line of the pane.
pub open spec fn comes_from(
    map: Map<usize, SrcRef>,
    pane: PaneModel,
    display: int,
    line: usize,
) -> bool {
    map.dom().contains(line) && displayed(pane, map[line]) == Some(display)
}

/// The lines in `from..to` that come from a line of the pane, in order.
pub open spec fn lines_from(
    map: Map<usize, SrcRef>,
    pane: PaneModel,
    display: int,
    from: int,
    to: int,
) -> Seq<usize>
    decreases to - from,
{
    if to <= from {
        Seq::empty()
    } else {
        let before = lines_from(map, pane, display, from, to - 1);
        if comes_from(map, pane, display, (to - 1) as usize) {
            before.push((to - 1) as usize)
        } else {
            before
        }
    }
}

/// The lines of a compilation that come from a line of the pane, in order.
pub open spec fn aligned_lines(
    section: CompilationModel,
    parsed: ParsedModel,
    pane: PaneModel,
    display: int,
) -> Seq<usize> {
    let n = section.phases.len() as int;
    if n == 0 {
        Seq::empty()
    } else {
        lines_from(
            aligned(section, parsed),
            pane,
            display,
            first_line(section.phases, n),
            last_line(section.phases, n),
        )
    }
}

fn list_aligned(
    section: &CompilationSection,
    map: &SourceMap,
    pane: &SourcePane,
    display: usize,
) -> (lines: Vec<usize>)
    requires
        section.phases@.len() > 0,
    ensures
        lines@ == lines_from(
            map@,
            pane@,
            display as int,
            first_line(section@.phases, section@.phases.len() as int),
            last_line(section@.phases, section@.phases.len() as int),
        ),
{
    let mut from: usize = section.phases[0].lines.start;
    let mut to: usize = section.phases[0].lines.end;
    assert(section@.phases[0] == section.phases@[0]@);
    let mut n: usize = 1;
    while n < section.phases.len()
        invariant
            1 <= n <= section.phases@.len(),
            section@.phases.len() == section.phases@.len(),
            from == first_line(section@.phases, n as int),
            to == last_line(section@.phases, n as int),
        decreases section.phases.len() - n,
    {
        assert(section@.phases[n as int] == section.phases@[n as int]@);
        let lines = &section.phases[n].lines;
        if lines.start < from {
            from = lines.start;
        }
        if lines.end > to {
            to = lines.end;
        }
        n += 1;
    }
    let mut out: Vec<usize> = Vec::new();
    let mut k: usize = from;
    while k < to
        invariant
            from <= k,
            k <= to || k == from,
            out@ == lines_from(map@, pane@, display as int, from as int, k as int),
        decreases to - k,
    {
        if let Some(r) = map.get(k) {
            if let Some(d) = pane.display_line(&r) {
                if d == display {
                    out.push(k);
                }
            }
        }
        k += 1;
    }
    out
}

// ---------------------------------------------------------------------------
// The state
// ---------------------------------------------------------------------------

/// The view of a script that was read, with its title.
pub open spec fn found_script(found: Option<(String, String)>) -> Option<(Seq<char>, Seq<char>)> {
    match found {
        Some((title, script)) => Some((title@, script@)),
        None => None,
    }
}

impl AppModel {
    /// The parse of a compilation of the source that is shown.
    pub open spec fn parse_of(self, comp: int) -> ParsedModel {
        parsed_compilation(self.source().buffer, self.compilations()[comp])
    }

    /// The places of the lines of a compilation.
    pub open spec fn source_map(self, comp: int) -> Map<usize, SrcRef> {
        aligned(self.compilations()[comp], self.parse_of(comp))
    }

    /// The pane of a compilation: of the script, where it was found and is
    /// not too large, or else of the source in the dump.
    pub open spec fn pane_for(
        self,
        comp: int,
        found: Option<(Seq<char>, Seq<char>)>,
    ) -> Result<PaneModel, Seq<char>> {
        let key = (self.active, comp as usize);
        let parsed = self.parse_of(comp);
        let embedded = match source_lines(self.compilations()[comp]) {
            Some(range) => Ok(
                embedded_pane(
                    self.source().buffer,
                    range,
                    parsed.script,
                    parsed.script_line,
                    parsed.source_position,
                    key,
                ),
            ),
            None => Err(no_source(parsed.script)),
        };
        match found {
            Some((title, script)) => if encode_utf8(script).len() <= SCRIPT_LIMIT {
                Ok(script_pane(title, script, key))
            } else {
                embedded
            },
            None => embedded,
        }
    }

    /// The pane is open, or a message says why not.
    pub open spec fn pane_opened(
        self,
        comp: int,
        found: Option<(Seq<char>, Seq<char>)>,
    ) -> AppModel {
        match self.pane_for(comp, found) {
            Ok(pane) => self.say(
                pane.title + " — "@ + decimal(self.source_map(comp).len() as int)
                    + " aligned rows"@,
            ).with_source_pane(Some(pane)),
            Err(e) => self.say(e),
        }
    }

    /// The pane is opened or closed. A script has to be read first.
    #[verifier::opaque]
    pub open spec fn source_pane_toggled(self) -> AppModel {
        if self.source_pane is Some {
            self.without_source_pane().say("source pane closed"@)
        } else if self.diff {
            self.say("source pane is off in diff view (d to leave)"@)
        } else {
            match self.current_comp() {
                None => self.say("source alignment needs a compilation in view"@),
                Some(comp) => {
                    let single = self.with_split(None);
                    match self.parse_of(comp).script {
                        Some(script) => single.with_request(
                            Some(
                                RequestModel::Script {
                                    script,
                                    trace: self.source().label,
                                    comp: comp as usize,
                                },
                            ),
                        ),
                        None => single.pane_opened(comp, None),
                    }
                },
            }
        }
    }

    /// The script that was asked for was read or was not found.
    pub open spec fn script_answered(
        self,
        comp: int,
        found: Option<(Seq<char>, Seq<char>)>,
    ) -> AppModel {
        if comp < self.compilations().len() {
            self.pane_opened(comp, found)
        } else {
            self
        }
    }

    /// The pane shows the compilation in view.
    pub open spec fn pane_in_view(self, pane: PaneModel) -> bool {
        pane.key.0 == self.active && self.current_comp() == Some(pane.key.1 as int)
    }

    /// The line of the pane that the row under the cursor comes from.
    pub open spec fn aligned_line(self) -> Option<int> {
        match self.source_pane {
            None => None,
            Some(pane) => if !self.pane_in_view(pane) || self.cursor >= self.shown().rows_len() {
                None
            } else {
                let map = self.source_map(pane.key.1 as int);
                let line = self.shown().row_at(self.cursor as int).line;
                if map.dom().contains(line) {
                    displayed(pane, map[line])
                } else {
                    None
                }
            },
        }
    }

    /// The cursor of the pane goes to where the row under the cursor comes
    /// from.
    #[verifier::opaque]
    pub open spec fn source_synced(self) -> AppModel {
        match (self.source_pane, self.aligned_line()) {
            (Some(pane), Some(d)) => self.with_source_pane(
                Some(PaneModel { cursor: d as usize, ..pane }),
            ),
            _ => self,
        }
    }

    /// The cursor goes to a row that comes from the line under the cursor of
    /// the pane.
    #[verifier::opaque]
    pub open spec fn source_entered(self) -> AppModel {
        match self.source_pane {
            None => self,
            Some(pane) => if !self.pane_in_view(pane) {
                self.say("view moved to another compilation — S reopens the pane"@)
            } else {
                let comp = pane.key.1 as int;
                let targets = aligned_lines(
                    self.compilations()[comp],
                    self.parse_of(comp),
                    pane,
                    pane.cursor as int,
                );
                if targets.len() == 0 {
                    self.say(
                        "no aligned trace rows for source line "@ + decimal(
                            pane.base_line + pane.cursor + 1,
                        ),
                    )
                } else {
                    self.cycled(Anchor::Line(pane.cursor), Leg::AlignedRow, targets)
                }
            },
        }
    }
}

impl App {
    /// Where the lines of a compilation come from in the script.
    pub fn source_map(&mut self, comp: usize) -> (map: SourceMap)
        requires
            old(self).wf(),
            comp < old(self)@.compilations().len(),
        ensures
            final(self).wf(),
            final(self)@ == old(self)@,
            map@ == old(self)@.source_map(comp as int),
    {
        proof {
            self.lemma_fields();
            self.lemma_wf();
            law_phases_mirror_the_index(self@.source().buffer, self@.compilations()[comp as int]);
        }
        let active: usize = self.active;
        let parsed = self.parse(active, comp);
        align(self.active_source().index.compilation(comp), &*parsed)
    }

    fn build_source_pane(&mut self, comp: usize, found: Option<(String, String)>) -> (pane: Result<
        SourcePane,
        String,
    >)
        requires
            old(self).wf(),
            comp < old(self)@.compilations().len(),
        ensures
            final(self).wf(),
            final(self)@ == old(self)@,
            match (old(self)@.pane_for(comp as int, found_script(found)), pane) {
                (Ok(p), Ok(q)) => q@ == p,
                (Err(d), Err(e)) => e@ == d,
                _ => false,
            },
    {
        proof {
            self.lemma_fields();
            self.lemma_wf();
        }
        let key: (usize, usize) = (self.active, comp);
        if let Some((title, script)) = found {
            let bytes = script.as_str().as_bytes();
            assert(bytes@.len() == bytes.len());
            if bytes.len() <= SCRIPT_LIMIT {
                return Ok(open_script(title, script.as_str(), key));
            }
        }
        let active: usize = self.active;
        let parsed = self.parse(active, comp);
        let source = self.active_source();
        open_embedded(
            &source.buffer,
            source.index.compilation(comp),
            &parsed.script,
            parsed.script_line,
            parsed.source_position,
            key,
        )
    }

    fn open_pane(&mut self, comp: usize, found: Option<(String, String)>)
        requires
            old(self).wf(),
            comp < old(self)@.compilations().len(),
        ensures
            final(self).wf(),
            final(self)@ == old(self)@.pane_opened(comp as int, found_script(found)),
    {
        match self.build_source_pane(comp, found) {
            Ok(pane) => {
                let aligned: usize = self.source_map(comp).len();
                let mut message = text::owned(pane.title.as_str());
                message.append(" — ");
                text::push_decimal(&mut message, aligned);
                message.append(" aligned rows");
                self.say_text(message);
                self.set_source_pane(Some(pane));
            },
            Err(e) => {
                self.say_text(e);
            },
        }
    }

    /// Opens or closes the pane with the JavaScript source. Where the dump
    /// names a script, the program asks for it and the pane opens with the
    /// answer.
    pub(crate) fn toggle_source_pane(&mut self)
        requires
            old(self).wf(),
        ensures
            final(self).wf(),
            final(self)@ == old(self)@.source_pane_toggled(),
    {
        reveal(AppModel::source_pane_toggled);
        proof {
            self.lemma_fields();
            self.lemma_wf();
        }
        if self.source_pane.is_some() {
            self.close_source_pane();
            self.say("source pane closed");
            return ;
        }
        if self.diff {
            self.say("source pane is off in diff view (d to leave)");
            return ;
        }
        let active: usize = self.active;
        let comp: usize = match self.current_comp() {
            Some(comp) => comp,
            None => {
                self.say("source alignment needs a compilation in view");
                return ;
            },
        };
        let parsed = self.parse(active, comp);
        match &parsed.script {
            Some(s) => {
                let request = Request::Script {
                    script: text::owned(s.as_str()),
                    trace: text::owned(self.active_source().label.as_str()),
                    comp,
                };
                self.set_split(None);
                self.set_request(Some(request));
            },
            None => {
                self.set_split(None);
                proof {
                    reveal(AppModel::with_split);
                }
                self.open_pane(comp, None);
            },
        }
    }

    /// Takes the script that was asked for, with its title, or that it was not
    /// found. A script that is too large counts as not found.
    pub fn script_read(&mut self, comp: usize, found: Option<(String, String)>)
        requires
            old(self).wf(),
        ensures
            final(self).wf(),
            final(self)@ == old(self)@.script_answered(comp as int, found_script(found)),
    {
        if comp < self.active_source().index.compilation_count() {
            self.open_pane(comp, found);
        }
    }

    fn is_in_view(&mut self, key: (usize, usize)) -> (yes: bool)
        requires
            old(self).wf(),
        ensures
            final(self).wf(),
            final(self)@ == old(self)@,
            yes == (key.0 == old(self)@.active && old(self)@.current_comp() == Some(key.1 as int)),
            yes ==> key.1 < old(self)@.compilations().len(),
    {
        proof {
            self.lemma_fields();
        }
        let active: usize = self.active;
        match self.current_comp() {
            Some(comp) => key.0 == active && key.1 == comp,
            None => false,
        }
    }

    /// The line of the pane that the row under the cursor comes from.
    pub fn aligned_line(&mut self) -> (line: Option<usize>)
        requires
            old(self).wf(),
        ensures
            final(self).wf(),
            final(self)@ == old(self)@,
            text::pos(line) == old(self)@.aligned_line(),
    {
        proof {
            self.lemma_fields();
        }
        let cursor: usize = self.cursor;
        let key: (usize, usize) = match &self.source_pane {
            Some(pane) => pane.key,
            None => {
                return None;
            },
        };
        if !self.is_in_view(key) {
            return None;
        }
        let vm = self.view_model();
        let line: usize = match vm.line_at(cursor) {
            Some(line) => line,
            None => {
                return None;
            },
        };
        let map = self.source_map(key.1);
        proof {
            self.lemma_fields();
        }
        match (map.get(line), &self.source_pane) {
            (Some(r), Some(pane)) => pane.display_line(&r),
            _ => None,
        }
    }

    /// Moves the cursor of the pane to where the row under the cursor comes
    /// from.
    pub(crate) fn sync_source_cursor(&mut self)
        requires
            old(self).wf(),
        ensures
            final(self).wf(),
            final(self)@ == old(self)@.source_synced(),
    {
        reveal(AppModel::source_synced);
        if let Some(d) = self.aligned_line() {
            self.set_pane_cursor(d);
        }
    }

    /// Goes to a row that comes from the line under the cursor of the pane,
    /// or to the next one.
    pub(crate) fn source_enter(&mut self)
        requires
            old(self).wf(),
        ensures
            final(self).wf(),
            final(self)@ == old(self)@.source_entered(),
    {
        reveal(AppModel::source_entered);
        proof {
            self.lemma_fields();
        }
        let (key, cursor, base): ((usize, usize), usize, u32) = match &self.source_pane {
            Some(pane) => (pane.key, pane.cursor, pane.base_line),
            None => {
                return ;
            },
        };
        if !self.is_in_view(key) {
            self.say("view moved to another compilation — S reopens the pane");
            return ;
        }
        let map = self.source_map(key.1);
        proof {
            self.lemma_fields();
            law_phases_mirror_the_index(self@.source().buffer, self@.compilations()[key.1 as int]);
        }
        let section = self.active_source().index.compilation(key.1);
        assert(section@.phases.len() == section.phases@.len());
        let targets: Vec<usize> = match &self.source_pane {
            Some(pane) => if section.phases.len() > 0 {
                list_aligned(section, &map, pane, cursor)
            } else {
                Vec::new()
            },
            None => Vec::new(),
        };
        if targets.len() == 0 {
            let mut message = text::owned("no aligned trace rows for source line ");
            super::jumps::push_big(&mut message, base as u128 + cursor as u128 + 1);
            self.say_text(message);
            return ;
        }
        self.cycle_jump(Anchor::Line(cursor), Leg::AlignedRow, targets);
    }
}

} // verus!
