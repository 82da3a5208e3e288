//! Parsing of one whole compilation.

use std::ops::Range;
use vstd::prelude::*;
#[allow(unused_imports)]
use vstd::string::*;

use super::graph;
#[allow(unused_imports)]
use super::graph::{dump_state, graph_state};
use super::intern::Interner;
#[allow(unused_imports)]
use super::intern::{nothing_interned, InternModel};
use super::listing;
#[allow(unused_imports)]
use super::listing::listing_phase;
use super::maglev;
#[allow(unused_imports)]
use super::maglev::{preamble_decision, preamble_info, with_some};
use super::turbofan;
#[allow(unused_imports)]
use super::turbofan::{grammar_of, phase_state};
#[allow(unused_imports)]
use crate::model::{
    decision_models, empty_parse, line_models, parsed_phase_models, phase_models, texts,
    CompilationModel, DecisionModel, LineModel, ParsedModel, PhaseKindModel, PhaseSectionModel,
    TierModel,
};
use crate::model::{
    CompilationSection, InlineDecision, LineInfo, ParsedCompilation, ParsedPhase, PhaseKind,
    PhaseSection, Tier,
};
use crate::source::LogBuffer;
#[allow(unused_imports)]
use crate::source::LogModel;
use crate::text;
#[allow(unused_imports)]
use crate::text::{number_u32, occurs_at, trimmed_end, trimmed_start, ByteClass};

verus! {

/// A header of a Turboshaft block stands at `t`.
pub open spec fn turboshaft_header_at(s: Seq<u8>, t: int, word: Seq<u8>) -> bool {
    occurs_at(s, t, word) && text::class_is(s, t + word.len(), ByteClass::Digit)
}

/// What one line says about the grammar of its phase, if anything.
pub open spec fn grammar_hint(s: Seq<u8>) -> Option<bool> {
    let t = trimmed_start(s, 0);
    if turboshaft_header_at(s, t, "BLOCK B".spec_bytes()) || turboshaft_header_at(
        s,
        t,
        "MERGE B".spec_bytes(),
    ) || turboshaft_header_at(s, t, "LOOP B".spec_bytes()) {
        Some(true)
    } else if occurs_at(s, t, "Block b".spec_bytes()) {
        Some(false)
    } else {
        None
    }
}

/// The first hint among the lines `i..n` decides; without one the phase is no
/// Turboshaft.
pub open spec fn hinted(lines: Seq<Seq<u8>>, i: int, n: int) -> bool
    decreases n - i,
{
    if i < 0 || i >= n || i >= lines.len() {
        false
    } else {
        match grammar_hint(lines[i]) {
            Some(yes) => yes,
            None => hinted(lines, i + 1, n),
        }
    }
}

/// The phase prints Turboshaft: decided from the thirty lines after the banner.
pub open spec fn turboshaft_lines(lines: Seq<Seq<u8>>) -> bool {
    hinted(lines, 1, 31)
}

fn find_hint(s: &[u8]) -> (hint: Option<bool>)
    ensures
        hint == grammar_hint(s@),
{
    let t: usize = text::trim_start(s, 0);
    if (text::starts_with_at(s, t, "BLOCK B") && text::class_at(
        s,
        t + "BLOCK B".len(),
        ByteClass::Digit,
    )) || (text::starts_with_at(s, t, "MERGE B") && text::class_at(
        s,
        t + "MERGE B".len(),
        ByteClass::Digit,
    )) || (text::starts_with_at(s, t, "LOOP B") && text::class_at(
        s,
        t + "LOOP B".len(),
        ByteClass::Digit,
    )) {
        Some(true)
    } else if text::starts_with_at(s, t, "Block b") {
        Some(false)
    } else {
        None
    }
}

/// Does a graph phase print Turboshaft?
pub fn turboshaft_body(buffer: &LogBuffer, lines: &Range<usize>) -> (yes: bool)
    requires
        buffer.wf(),
    ensures
        yes == turboshaft_lines(buffer@.texts(lines.start as int, lines.end as int)),
{
    let ghost all = buffer@.texts(lines.start as int, lines.end as int);
    let mut k: usize = 1;
    while k < 31 && lines.start < lines.end && k < lines.end - lines.start
        invariant
            buffer.wf(),
            1 <= k <= 31,
            all == buffer@.texts(lines.start as int, lines.end as int),
            turboshaft_lines(all) == hinted(all, k as int, 31),
        decreases 31 - k,
    {
        let chars = buffer.line_text(lines.start + k);
        let s = chars.as_str().as_bytes();
        assert(all[k as int] == s@);
        if let Some(yes) = find_hint(s) {
            return yes;
        }
        k += 1;
    }
    false
}

// ---------------------------------------------------------------------------
// The lines before the first banner
// ---------------------------------------------------------------------------

/// The first `n` lines before the first banner. In a code listing they are the
/// source of the function; otherwise they are annotations.
pub open spec fn preamble_state(
    lines: Seq<Seq<u8>>,
    start: int,
    listing: bool,
    n: int,
) -> (Seq<LineModel>, Seq<DecisionModel>)
    decreases n,
{
    if n <= 0 {
        (Seq::empty(), Seq::empty())
    } else {
        let (infos, decisions) = preamble_state(lines, start, listing, n - 1);
        let s = lines[n - 1];
        if listing {
            (
                infos.push(
                    if text::blank_from(s, 0) {
                        LineModel::Control
                    } else {
                        LineModel::Source
                    },
                ),
                decisions,
            )
        } else {
            (
                infos.push(preamble_info(s)),
                with_some(decisions, preamble_decision(s, start + n - 1)),
            )
        }
    }
}

fn parse_preamble(
    buffer: &LogBuffer,
    lines: &Range<usize>,
    listing: bool,
) -> (out: (Vec<LineInfo>, Vec<InlineDecision>))
    requires
        buffer.wf(),
    ensures
        ({
            let all = buffer@.texts(lines.start as int, lines.end as int);
            (line_models(out.0@), decision_models(out.1@)) == preamble_state(
                all,
                lines.start as int,
                listing,
                all.len() as int,
            )
        }),
{
    let ghost all = buffer@.texts(lines.start as int, lines.end as int);
    let mut infos: Vec<LineInfo> = Vec::new();
    let mut decisions: Vec<InlineDecision> = Vec::new();
    assert(line_models(infos@) =~= Seq::empty());
    assert(decision_models(decisions@) =~= Seq::empty());
    let mut line: usize = lines.start;
    while line < lines.end
        invariant
            buffer.wf(),
            all == buffer@.texts(lines.start as int, lines.end as int),
            lines.start <= line,
            line <= lines.end || line == lines.start,
            (line_models(infos@), decision_models(decisions@)) == preamble_state(
                all,
                lines.start as int,
                listing,
                line - lines.start,
            ),
        decreases lines.end - line,
    {
        let chars = buffer.line_text(line);
        let s = chars.as_str().as_bytes();
        assert(all[line - lines.start] == s@);
        let ghost before = line_models(infos@);
        let info = if listing {
            if text::is_blank(s, 0) {
                LineInfo::Control
            } else {
                LineInfo::Source
            }
        } else {
            maglev::classify_preamble(s, line, &mut decisions)
        };
        infos.push(info);
        assert(line_models(infos@) =~= before.push(info@));
        line += 1;
    }
    (infos, decisions)
}

// ---------------------------------------------------------------------------
// Phases
// ---------------------------------------------------------------------------

/// What is known after some phases of a compilation.
#[verifier::ext_equal]
pub struct CompileState {
    pub interned: InternModel,
    pub parsed: ParsedModel,
}

/// The state after one more phase. The tier, the kind of the phase and its
/// lines decide which grammar reads it.
#[verifier::opaque]
pub open spec fn after_phase(
    st: CompileState,
    buffer: LogModel,
    tier: TierModel,
    phase: PhaseSectionModel,
) -> CompileState {
    let lines = buffer.texts(phase.start, phase.end);
    let name = vstd::utf8::encode_utf8(phase.name);
    match phase.kind {
        PhaseKindModel::Listing => CompileState {
            parsed: ParsedModel {
                phases: st.parsed.phases.push(listing_phase(name, lines)),
                ..st.parsed
            },
            ..st
        },
        PhaseKindModel::Graph { .. } => {
            if tier == TierModel::Turbofan || turboshaft_lines(lines) {
                let out = phase_state(grammar_of(name), lines, st.interned, lines.len() as int);
                CompileState {
                    interned: out.interned,
                    parsed: ParsedModel {
                        phases: st.parsed.phases.push(out.phase),
                        ..st.parsed
                    },
                }
            } else {
                let out = graph_state(
                    lines,
                    phase.start,
                    st.interned,
                    st.parsed,
                    lines.len() as int,
                );
                CompileState {
                    interned: out.mem.interned,
                    parsed: ParsedModel {
                        phases: out.parsed.phases.push(out.phase),
                        ..out.parsed
                    },
                }
            }
        },
        _ => {
            let out = dump_state(lines, phase.start, st.parsed, lines.len() as int);
            CompileState {
                parsed: ParsedModel { phases: out.parsed.phases.push(out.phase), ..out.parsed },
                ..st
            }
        },
    }
}

/// The state after the first `n` phases.
pub open spec fn phases_state(
    start: CompileState,
    buffer: LogModel,
    tier: TierModel,
    phases: Seq<PhaseSectionModel>,
    n: int,
) -> CompileState
    decreases n,
{
    if n <= 0 {
        start
    } else {
        after_phase(
            phases_state(start, buffer, tier, phases, n - 1),
            buffer,
            tier,
            phases[n - 1],
        )
    }
}

/// The first phase at or after `i` that is called `name`.
pub open spec fn phase_named(
    phases: Seq<PhaseSectionModel>,
    name: Seq<char>,
    i: int,
) -> Option<int>
    decreases phases.len() - i,
{
    if i < 0 || i >= phases.len() {
        None
    } else if phases[i].name == name {
        Some(i)
    } else {
        phase_named(phases, name, i + 1)
    }
}

/// The `source_position = N` among the lines `i..n`.
pub open spec fn position_in(lines: Seq<Seq<u8>>, i: int, n: int) -> Option<u32>
    decreases n - i,
{
    if i < 0 || i >= n || i >= lines.len() {
        None
    } else if occurs_at(lines[i], 0, "source_position = ".spec_bytes()) {
        position_at(lines[i], "source_position = ".spec_bytes().len() as int)
    } else {
        position_in(lines, i + 1, n)
    }
}

/// The number from `from` to the end of the line, white space around it aside.
pub open spec fn position_at(s: Seq<u8>, from: int) -> Option<u32> {
    let e = trimmed_end(s, from, s.len() as int);
    if trimmed_start(s, from) < e {
        number_u32(s, trimmed_start(s, from), e)
    } else {
        None
    }
}

/// The function's character offset in its script: printed among the first
/// twelve lines of the code dump.
pub open spec fn source_position(buffer: LogModel, phases: Seq<PhaseSectionModel>) -> Option<u32> {
    match phase_named(phases, "Optimized code"@, 0) {
        Some(k) => position_in(buffer.texts(phases[k].start, phases[k].end), 0, 12),
        None => None,
    }
}

/// The parse of a compilation.
pub open spec fn parsed_compilation(buffer: LogModel, c: CompilationModel) -> ParsedModel {
    let listing = c.phases.len() > 0 && c.phases[0].kind == PhaseKindModel::Listing;
    let pre = buffer.texts(c.preamble_start, c.preamble_end);
    let (preamble, decisions) = preamble_state(
        pre,
        c.preamble_start,
        listing,
        pre.len() as int,
    );
    let out = phases_state(
        CompileState {
            interned: nothing_interned(),
            parsed: ParsedModel { preamble, inline_decisions: decisions, ..empty_parse() },
        },
        buffer,
        c.tier,
        c.phases,
        c.phases.len() as int,
    );
    ParsedModel {
        opcodes: out.interned.opcodes,
        frames: out.interned.frames,
        source_position: source_position(buffer, c.phases),
        ..out.parsed
    }
}

fn copy_range(r: &Range<usize>) -> (out: Range<usize>)
    ensures
        out == *r,
{
    Range { start: r.start, end: r.end }
}

fn parse_one_phase(
    buffer: &LogBuffer,
    tier: &Tier,
    phase: &PhaseSection,
    interner: &mut Interner,
    parsed: &mut ParsedCompilation,
)
    requires
        buffer.wf(),
        old(interner)@.wf(),
    ensures
        (CompileState { interned: final(interner)@, parsed: final(parsed)@ }) == after_phase(
            CompileState { interned: old(interner)@, parsed: old(parsed)@ },
            buffer@,
            tier@,
            phase@,
        ),
        final(interner)@.wf(),
{
    reveal(after_phase);
    let result: ParsedPhase = match &phase.kind {
        PhaseKind::Listing => listing::parse_listing_phase(
            buffer,
            copy_range(&phase.lines),
            phase.name.as_str(),
        ),
        PhaseKind::Graph { .. } => {
            if tier.same(&Tier::Turbofan) || turboshaft_body(buffer, &phase.lines) {
                let ghost before = interner@;
                let out = turbofan::parse_phase(
                    buffer,
                    copy_range(&phase.lines),
                    phase.name.as_str(),
                    interner,
                );
                proof {
                    lemma_phase_keeps_frames(
                        grammar_of(vstd::utf8::encode_utf8(phase.name@)),
                        buffer@.texts(phase.lines.start as int, phase.lines.end as int),
                        before,
                        buffer@.texts(phase.lines.start as int, phase.lines.end as int).len()
                            as int,
                    );
                }
                out
            } else {
                graph::parse_graph_phase(buffer, copy_range(&phase.lines), interner, parsed)
            }
        },
        _ => graph::parse_dump_phase(buffer, copy_range(&phase.lines), parsed),
    };
    let ghost before = parsed_phase_models(parsed.phases@);
    parsed.phases.push(result);
    assert(parsed_phase_models(parsed.phases@) =~= before.push(result@));
}

proof fn lemma_phase_keeps_frames(
    grammar: turbofan::Grammar,
    lines: Seq<Seq<u8>>,
    m: InternModel,
    n: int,
)
    requires
        m.wf(),
    ensures
        phase_state(grammar, lines, m, n).interned.wf(),
    decreases n,
{
    if n > 0 {
        lemma_phase_keeps_frames(grammar, lines, m, n - 1);
        reveal(turbofan::grammar_line);
    }
}

fn find_source_position(buffer: &LogBuffer, phases: &Vec<PhaseSection>) -> (position: Option<u32>)
    requires
        buffer.wf(),
    ensures
        position == source_position(buffer@, phase_models(phases@)),
{
    let ghost models = phase_models(phases@);
    let wanted: String = text::owned("Optimized code");
    let mut k: usize = 0;
    while k < phases.len() && !(phases[k].name == wanted)
        invariant
            k <= phases.len(),
            models == phase_models(phases@),
            wanted@ == "Optimized code"@,
            phase_named(models, "Optimized code"@, 0) == phase_named(
                models,
                "Optimized code"@,
                k as int,
            ),
        decreases phases.len() - k,
    {
        assert(models[k as int] == phases@[k as int]@);
        k += 1;
    }
    if k >= phases.len() {
        return None;
    }
    assert(models[k as int] == phases@[k as int]@);
    let lines: Range<usize> = copy_range(&phases[k].lines);
    let ghost all = buffer@.texts(lines.start as int, lines.end as int);
    let mut i: usize = 0;
    while i < 12 && lines.start < lines.end && i < lines.end - lines.start
        invariant
            buffer.wf(),
            i <= 12,
            all == buffer@.texts(lines.start as int, lines.end as int),
            source_position(buffer@, phase_models(phases@)) == position_in(all, i as int, 12),
        decreases 12 - i,
    {
        let chars = buffer.line_text(lines.start + i);
        let s = chars.as_str().as_bytes();
        assert(all[i as int] == s@);
        if text::starts_with_at(s, 0, "source_position = ") {
            let from: usize = "source_position = ".len();
            let e: usize = text::trim_end(s, from, s.len());
            let b: usize = text::trim_start(s, from);
            if b < e {
                return text::parse_number(s, b, e);
            }
            return None;
        }
        i += 1;
    }
    None
}

/// Parses one compilation. Total: every line is classified.
pub fn parse_compilation(buffer: &LogBuffer, section: &CompilationSection) -> (parsed:
    ParsedCompilation)
    requires
        buffer.wf(),
    ensures
        parsed@ == parsed_compilation(buffer@, section@),
{
    let listing: bool = section.phases.len() > 0 && match &section.phases[0].kind {
        PhaseKind::Listing => true,
        _ => false,
    };
    assert(section@.phases.len() == section.phases@.len());
    assert(section.phases@.len() > 0 ==> section@.phases[0] == section.phases@[0]@);
    let (preamble, decisions) = parse_preamble(buffer, &section.preamble, listing);
    let mut parsed = ParsedCompilation::default();
    parsed.preamble = preamble;
    parsed.inline_decisions = decisions;
    let mut interner = Interner::new();
    let ghost start = CompileState { interned: interner@, parsed: parsed@ };
    assert(parsed@ =~= ParsedModel {
        preamble: line_models(preamble@),
        inline_decisions: decision_models(decisions@),
        ..empty_parse()
    });
    let mut k: usize = 0;
    while k < section.phases.len()
        invariant
            buffer.wf(),
            k <= section.phases.len(),
            interner@.wf(),
            section@.phases == phase_models(section.phases@),
            (CompileState { interned: interner@, parsed: parsed@ }) == phases_state(
                start,
                buffer@,
                section.key.tier@,
                section@.phases,
                k as int,
            ),
        decreases section.phases.len() - k,
    {
        assert(section@.phases[k as int] == section.phases@[k as int]@);
        parse_one_phase(
            buffer,
            &section.key.tier,
            &section.phases[k],
            &mut interner,
            &mut parsed,
        );
        k += 1;
    }
    parsed.source_position = find_source_position(buffer, &section.phases);
    let Interner { opcodes, frames, frame_keys: _ } = interner;
    parsed.opcodes = opcodes;
    parsed.frames = frames;
    assert(parsed@ =~= parsed_compilation(buffer@, section@));
    parsed
}

/// How many lines a phase has.
pub open spec fn phase_size(phase: PhaseSectionModel) -> int {
    if phase.start < phase.end {
        phase.end - phase.start
    } else {
        0
    }
}

/// A parse mirrors the index: one parsed phase per phase, in order, and every
/// line of a phase classified.
pub proof fn law_phases_mirror_the_index(buffer: LogModel, c: CompilationModel)
    ensures
        parsed_compilation(buffer, c).phases.len() == c.phases.len(),
        forall|k: int|
            0 <= k < c.phases.len() ==> (#[trigger] parsed_compilation(
                buffer,
                c,
            ).phases[k]).infos.len() == phase_size(c.phases[k]),
{
    let pre = buffer.texts(c.preamble_start, c.preamble_end);
    let (preamble, decisions) = preamble_state(
        pre,
        c.preamble_start,
        c.phases.len() > 0 && c.phases[0].kind == PhaseKindModel::Listing,
        pre.len() as int,
    );
    lemma_phases_state(
        CompileState {
            interned: nothing_interned(),
            parsed: ParsedModel { preamble, inline_decisions: decisions, ..empty_parse() },
        },
        buffer,
        c.tier,
        c.phases,
        c.phases.len() as int,
    );
}

proof fn lemma_phases_state(
    start: CompileState,
    buffer: LogModel,
    tier: TierModel,
    phases: Seq<PhaseSectionModel>,
    n: int,
)
    requires
        0 <= n <= phases.len(),
        start.parsed.phases.len() == 0,
    ensures
        phases_state(start, buffer, tier, phases, n).parsed.phases.len() == n,
        forall|k: int|
            0 <= k < n ==> (#[trigger] phases_state(
                start,
                buffer,
                tier,
                phases,
                n,
            ).parsed.phases[k]).infos.len() == phase_size(phases[k]),
    decreases n,
{
    if n > 0 {
        lemma_phases_state(start, buffer, tier, phases, n - 1);
        let st = phases_state(start, buffer, tier, phases, n - 1);
        let p = phases[n - 1];
        lemma_after_phase(st, buffer, tier, p);
        let out = phases_state(start, buffer, tier, phases, n).parsed.phases;
        assert forall|k: int| 0 <= k < n implies (#[trigger] out[k]).infos.len() == phase_size(
            phases[k],
        ) by {
            if k < n - 1 {
                assert(out.drop_last()[k] == out[k]);
            }
        }
    }
}

proof fn lemma_after_phase(
    st: CompileState,
    buffer: LogModel,
    tier: TierModel,
    phase: PhaseSectionModel,
)
    ensures
        ({
            let out = after_phase(st, buffer, tier, phase).parsed.phases;
            &&& out.len() == st.parsed.phases.len() + 1
            &&& out.drop_last() == st.parsed.phases
            &&& out.last().infos.len() == phase_size(phase)
        }),
{
    reveal(after_phase);
    let lines = buffer.texts(phase.start, phase.end);
    let name = vstd::utf8::encode_utf8(phase.name);
    let n = lines.len() as int;
    graph::law_graph_lines_are_all_classified(lines, phase.start, st.interned, st.parsed, n);
    graph::law_dump_lines_are_all_classified(lines, phase.start, st.parsed, n);
    turbofan::law_lines_are_all_classified(grammar_of(name), lines, st.interned, n);
    graph::lemma_graph_keeps_phases(lines, phase.start, st.interned, st.parsed, n);
    graph::lemma_dump_keeps_phases(lines, phase.start, st.parsed, n);
    let out = after_phase(st, buffer, tier, phase).parsed.phases;
    assert(out.drop_last() =~= st.parsed.phases);
}

} // verus!
