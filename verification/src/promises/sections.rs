//! What lines do to the sections of a trace, and how a section is read.

use vstd::prelude::*;
#[allow(unused_imports)]
use vstd::string::*;

#[allow(unused_imports)]
use super::bytes::{digit, digit_run, lemma_decimal, lemma_says, number, says};
#[allow(unused_imports)]
use super::lenses::lemma_nothing_to_trim;
#[allow(unused_imports)]
use super::notes::{blank, lemma_blank_start};
#[allow(unused_imports)]
use crate::index::{left_out, phase_kind, IndexModel, OpenModel};
#[allow(unused_imports)]
use crate::model::{shown_name, Addr, EventModel, TierModel};
#[allow(unused_imports)]
use crate::parse::compilation::{grammar_hint, hinted, position_in, source_position};
#[allow(unused_imports)]
use crate::parse::graph::{region_header, DumpRegion};
#[allow(unused_imports)]
use crate::parse::turbofan::{grammar_of, Grammar};
#[allow(unused_imports)]
use crate::pattern::regex_found;
#[allow(unused_imports)]
use crate::text::white_len;

verus! {

// ---------------------------------------------------------------------------
// The index
// ---------------------------------------------------------------------------

/// A banner in an open compilation opens a phase of that name on its line. What
/// was there before stays, but that the phase in front ends there.
pub proof fn law_a_banner_opens_a_phase(m: IndexModel, i: int, name: Seq<char>)
    requires
        m.open == OpenModel::Compilation,
        m.compilations.len() > 0,
        name != "Bytecode before MaglevGraphBuilding"@,
    ensures
        ({
            let after = m.on_banner(i, name);
            let was = m.compilations.last();
            let now = after.compilations.last();
            let n = was.phases.len() as int;
            &&& after.compilations.len() == m.compilations.len()
            &&& now.phases.len() == n + 1
            &&& now.phases[n].name == name
            &&& now.phases[n].start == i
            &&& now.phases[n].kind == phase_kind(name)
            &&& now.end == i + 1
            &&& n > 0 ==> now.phases[n - 1].end == i && now.phases[n - 1].start == was.phases[n
                - 1].start && now.phases[n - 1].name == was.phases[n - 1].name
            &&& n == 0 ==> now.preamble_end == i
            &&& forall|k: int| 0 <= k < n - 1 ==> now.phases[k] == was.phases[k]
            &&& now.name == was.name && now.tier == was.tier && now.sfi == was.sfi && now.start
                == was.start
            &&& after.open == OpenModel::Compilation
            &&& after.events == m.events
        }),
{
}

/// An anchor opens a compilation with the function, the address and the tier that
/// it names. It starts at the lines that were held back, and no phase is open.
pub proof fn law_an_anchor_opens_a_compilation(
    m: IndexModel,
    i: int,
    addr: Option<Addr>,
    name: Seq<char>,
    sfi: Option<Addr>,
    tier: TierModel,
)
    requires
        m.open == (OpenModel::Idle { raw_since: None }),
    ensures
        ({
            let after = m.on_compiling(i, addr, name, sfi, tier);
            let now = after.compilations.last();
            &&& after.compilations.len() == m.compilations.len() + 1
            &&& now.name == name
            &&& now.tier == tier
            &&& now.function_addr == addr
            &&& sfi matches Some(a) ==> now.sfi == a
            &&& sfi is None ==> now.sfi == Addr(0)
            &&& now.phases.len() == 0
            &&& now.start == (match m.pending {
                Some(p) => p,
                None => i,
            })
            &&& now.end == i + 1
            &&& now.filtered_out == (m.filter matches Some(pattern) && !regex_found(
                pattern,
                shown_name(name),
            ))
            &&& after.open == OpenModel::Compilation
            &&& after.pending is None
        }),
{
}

/// The line that ends a compilation is its last, and nothing is open behind it.
pub proof fn law_a_finish_closes_the_compilation(m: IndexModel, i: int, line: Seq<u8>)
    requires
        m.open == OpenModel::Compilation,
        m.compilations.len() > 0,
    ensures
        ({
            let after = m.on_finished(i, line);
            &&& after.open == (OpenModel::Idle { raw_since: None })
            &&& after.compilations.len() == m.compilations.len()
            &&& after.compilations.last().end == i + 1
            &&& after.compilations.last().name == m.compilations.last().name
        }),
{
}

/// Only TurboFan opens a compilation by its begin line; that of another tier is
/// held back for the anchor that follows.
pub proof fn law_a_begin_line_anchors_turbofan_alone(
    m: IndexModel,
    i: int,
    name: Seq<char>,
    tier: TierModel,
)
    requires
        m.open == (OpenModel::Idle { raw_since: None }),
    ensures
        tier == TierModel::Turbofan ==> m.on_begin(i, name, tier).compilations.len()
            == m.compilations.len() + 1 && m.on_begin(i, name, tier).compilations.last().name
            == name,
        tier != TierModel::Turbofan ==> m.on_begin(i, name, tier).compilations == m.compilations
            && m.on_begin(i, name, tier).pending == Some(
            match m.pending {
                Some(p) => p,
                None => i,
            },
        ),
{
}

/// An event is recorded with its line, behind those before it, and a compilation
/// is not open any more behind it.
pub proof fn law_an_event_is_recorded(m: IndexModel, i: int, event: EventModel, line: Seq<u8>)
    ensures
        m.on_event(i, event, line).events == m.events.push((i, event)),
        m.open == OpenModel::Compilation ==> m.on_event(i, event, line).open is Idle,
{
    lemma_closed_events(m, i, event, line);
}

proof fn lemma_closed_events(m: IndexModel, i: int, event: EventModel, line: Seq<u8>)
    ensures
        m.on_event(i, event, line).events == m.events.push((i, event)),
{
    let noted = IndexModel { events: m.events.push((i, event)), ..m.noted(event) };
    assert(m.noted(event).events == m.events);
    assert(noted.content(i, line).events == noted.events);
    let cut = noted.cut_at(i);
    assert(cut.events == noted.events);
}

/// A name filter leaves out what its pattern is not found in, by the name that is
/// shown; without a filter nothing is left out.
pub proof fn law_a_filter_leaves_out_what_it_does_not_find(
    filter: Option<Seq<char>>,
    name: Seq<char>,
)
    ensures
        filter is None ==> !left_out(filter, name),
        filter matches Some(pattern) ==> left_out(filter, name) == !regex_found(
            pattern,
            if name.len() == 0 {
                "<toplevel>"@
            } else {
                name
            },
        ),
{
}

// ---------------------------------------------------------------------------
// Grammars
// ---------------------------------------------------------------------------

/// The banner of a phase of the optimising pipeline tells how it is read.
pub proof fn law_the_banner_tells_the_grammar(name: Seq<u8>)
    ensures
        says(name, 0, "Graph after "@) ==> grammar_of(name) == Grammar::Sea,
        says(name, 0, "schedule"@) && name.len() == 8 ==> grammar_of(name) == Grammar::Schedule,
        says(name, 0, "Instruction sequence"@) ==> grammar_of(name) == Grammar::Instructions,
        !says(name, 0, "Graph after "@) && !(says(name, 0, "schedule"@) && name.len() == 8)
            && !says(name, 0, "Instruction sequence"@) ==> grammar_of(name) == Grammar::Turboshaft,
{
    reveal_strlit("Graph after ");
    reveal_strlit("schedule");
    reveal_strlit("Instruction sequence");
    lemma_says(name, 0, "Graph after "@);
    lemma_says(name, 0, "schedule"@);
    lemma_says(name, 0, "Instruction sequence"@);
    if says(name, 0, "Instruction sequence"@) {
        assert(name[0] as int == "Instruction sequence"@[0] as int);
        if says(name, 0, "Graph after "@) {
            assert(name[0] as int == "Graph after "@[0] as int);
        }
    }
    if says(name, 0, "schedule"@) {
        assert(name[0] as int == "schedule"@[0] as int);
        if says(name, 0, "Graph after "@) {
            assert(name[0] as int == "Graph after "@[0] as int);
        }
    }
}

/// The first line that tells decides how a phase is read, among the thirty behind
/// its banner; where none tells it is no Turboshaft.
pub proof fn law_the_first_hint_decides(lines: Seq<Seq<u8>>, i: int, k: int, n: int)
    requires
        0 <= i <= k,
        forall|j: int| i <= j < k ==> grammar_hint(#[trigger] lines[j]) is None,
    ensures
        k < n && k < lines.len() && grammar_hint(lines[k]) is Some ==> hinted(lines, i, n)
            == grammar_hint(lines[k])->0,
        k >= n || k >= lines.len() ==> !hinted(lines, i, n),
    decreases k - i,
{
    if i < k && i < n && i < lines.len() {
        assert(grammar_hint(lines[i]) is None);
        law_the_first_hint_decides(lines, i + 1, k, n);
    }
}

/// `source_position = N` says where the function stands in its script; the first
/// such line counts.
pub proof fn law_a_source_position_is_read(
    lines: Seq<Seq<u8>>,
    i: int,
    k: int,
    n: int,
)
    requires
        0 <= i <= k < n,
        k < lines.len(),
        forall|j: int| i <= j < k ==> !says(#[trigger] lines[j], 0, "source_position = "@),
        says(lines[k], 0, "source_position = "@),
        digit_run(lines[k], 18, lines[k].len() as int),
        number(lines[k], 18, lines[k].len() as int) <= u32::MAX,
    ensures
        position_in(lines, i, n) == Some(number(lines[k], 18, lines[k].len() as int) as u32),
    decreases k - i,
{
    reveal_strlit("source_position = ");
    lemma_says(lines[i], 0, "source_position = "@);
    if i < k {
        assert(!says(lines[i], 0, "source_position = "@));
        law_a_source_position_is_read(lines, i + 1, k, n);
    } else {
        let s = lines[k];
        let e = s.len() as int;
        lemma_decimal(s, 18, e);
        assert(digit(s[e - 1]));
        assert(digit(s[18]));
        assert(white_len(s, 18) == 0);
        lemma_blank_start(s, 18, 18);
        lemma_nothing_to_trim(s, 18, e);
    }
}

/// The parts of a bytecode dump are told apart by their headers.
pub proof fn law_the_parts_of_a_dump_have_headers(s: Seq<u8>, t: int)
    requires
        blank(s, 0, t),
        t < s.len(),
        white_len(s, t) == 0,
    ensures
        says(s, t, "Constant pool (size"@) ==> region_header(s) == Some(DumpRegion::Pool),
        says(s, t, "Handler Table (size"@) ==> region_header(s) == Some(DumpRegion::Tables),
        says(s, t, "Source Position Table (size"@) ==> region_header(s) == Some(
            DumpRegion::Tables,
        ),
{
    lemma_blank_start(s, 0, t);
    reveal_strlit("Constant pool (size");
    reveal_strlit("Handler Table (size");
    reveal_strlit("Source Position Table (size");
    lemma_says(s, t, "Constant pool (size"@);
    lemma_says(s, t, "Handler Table (size"@);
    lemma_says(s, t, "Source Position Table (size"@);
    if says(s, t, "Handler Table (size"@) && says(s, t, "Constant pool (size"@) {
        assert(s[t + 0] as int == "Handler Table (size"@[0] as int);
        assert(s[t + 0] as int == "Constant pool (size"@[0] as int);
    }
    if says(s, t, "Source Position Table (size"@) && says(s, t, "Constant pool (size"@) {
        assert(s[t + 0] as int == "Source Position Table (size"@[0] as int);
        assert(s[t + 0] as int == "Constant pool (size"@[0] as int);
    }
}

} // verus!
