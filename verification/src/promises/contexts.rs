//! Contexts, code dumps and the parts of a bytecode dump.

use vstd::prelude::*;
#[allow(unused_imports)]
use vstd::string::*;

#[allow(unused_imports)]
use super::bytes::{lemma_says, says};
#[allow(unused_imports)]
use super::lenses::lemma_nothing_to_trim;
#[allow(unused_imports)]
use super::nodes::lemma_first_byte;
#[allow(unused_imports)]
use crate::index::{listing_header, IndexModel, OpenModel};
#[allow(unused_imports)]
use crate::model::{tier_of, LineModel};
#[allow(unused_imports)]
use crate::parse::bytecode::{bytecode_row, pool_entry, slot_header};
#[allow(unused_imports)]
use crate::parse::graph::{
    after_dump_line, after_line, region_header, DumpRegion, DumpState, GraphState,
};
#[allow(unused_imports)]
use crate::parse::maglev::{decision_of, script_of, MemoryModel};
#[allow(unused_imports)]
use crate::text::{occurs_at, text_of};

verus! {

/// The script of a compilation is the first that a context names. A context is of
/// that script exactly if it names it, and the first such context with a line
/// tells where the script's function is.
pub proof fn law_a_compilation_has_the_script_of_its_first_context(
    st: GraphState,
    mem: MemoryModel,
    line: u32,
    col: u32,
    same: bool,
    s: Seq<u8>,
    at: int,
)
    ensures
        ({
            let info = LineModel::SfiContext { line, col, same_script: same };
            let out = after_line(st, mem, info, s, at);
            let own = script_of(s) is Some && (st.parsed.script is None || st.parsed.script
                == script_of(s));
            &&& out.phase.infos == st.phase.infos.push(
                LineModel::SfiContext { line, col, same_script: own },
            )
            &&& st.parsed.script is Some ==> out.parsed.script == st.parsed.script
            &&& st.parsed.script is None ==> out.parsed.script == script_of(s)
            &&& st.parsed.script_line is Some ==> out.parsed.script_line == st.parsed.script_line
            &&& st.parsed.script_line is None ==> out.parsed.script_line == (if own && line > 0 {
                Some(line)
            } else {
                None
            })
            &&& out.parsed.inline_decisions == st.parsed.inline_decisions
        }),
{
    reveal(after_line);
}

/// A note that records an inlining decision adds it behind those before; another
/// adds none.
pub proof fn law_a_note_adds_its_decision(
    st: GraphState,
    mem: MemoryModel,
    after: Option<u32>,
    s: Seq<u8>,
    at: int,
)
    ensures
        ({
            let info = LineModel::Annotation { after_node: after };
            let was = st.parsed.inline_decisions;
            let now = after_line(st, mem, info, s, at).parsed.inline_decisions;
            &&& decision_of(s, at) matches Some(d) ==> now == was.push(d)
            &&& decision_of(s, at) is None ==> now == was
        }),
{
    reveal(after_line);
}

/// The header of a part of a bytecode dump begins that part.
pub proof fn law_a_header_begins_its_part(st: DumpState, s: Seq<u8>, at: int, part: DumpRegion)
    requires
        region_header(s) == Some(part),
    ensures
        after_dump_line(st, s, at).region == part,
        after_dump_line(st, s, at).phase.infos == st.phase.infos.push(LineModel::Control),
{
    reveal(after_dump_line);
}

/// Within a part a line is read as a row of that part: of bytecode, of the pool or
/// of the feedback vector; the tables have none.
pub proof fn law_a_line_is_read_by_the_part_it_is_in(st: DumpState, s: Seq<u8>, at: int)
    requires
        region_header(s) is None,
    ensures
        ({
            let row = match st.region {
                DumpRegion::Code => bytecode_row(s, true),
                DumpRegion::Pool => pool_entry(s),
                DumpRegion::Feedback => slot_header(s),
                DumpRegion::Tables => None,
            };
            let out = after_dump_line(st, s, at);
            &&& out.region == st.region
            &&& row matches Some(info) ==> out.phase.infos == st.phase.infos.push(info)
            &&& row is None ==> out.phase.infos == st.phase.infos.push(LineModel::Control)
        }),
{
    reveal(after_dump_line);
}

/// `kind = Tier` in a code dump tells the tier of its code, and `name = …` the
/// name of its function.
pub proof fn law_a_code_dump_is_told_apart_by_its_lines(m: IndexModel, i: int, s: Seq<u8>)
    requires
        m.open == OpenModel::Code,
        m.compilations.len() > 0,
        m.pending is None,
        s.len() > 7,
        33 <= s.last() <= 126,
    ensures
        says(s, 0, "kind = "@) ==> {
            let now = m.on_code_line(i, s).compilations.last();
            now.tier == tier_of(s, 7, s.len() as int) && now.name == m.compilations.last().name
                && now.end == i + 1
        },
        says(s, 0, "name = "@) ==> {
            let now = m.on_code_line(i, s).compilations.last();
            now.name == text_of(s, 7, s.len() as int) && now.tier == m.compilations.last().tier
                && now.end == i + 1
        },
{
    lemma_nothing_to_trim(s, 0, s.len() as int);
    lemma_code_words(s);
}

proof fn lemma_code_words(s: Seq<u8>)
    ensures
        occurs_at(s, 0, "kind = ".spec_bytes()) == says(s, 0, "kind = "@),
        occurs_at(s, 0, "name = ".spec_bytes()) == says(s, 0, "name = "@),
        "kind = ".spec_bytes().len() == 7,
        "name = ".spec_bytes().len() == 7,
        says(s, 0, "kind = "@) || says(s, 0, "name = "@) ==> listing_header(s) is None,
        !(says(s, 0, "kind = "@) && says(s, 0, "name = "@)),
{
    reveal_strlit("kind = ");
    reveal_strlit("name = ");
    lemma_says(s, 0, "kind = "@);
    lemma_says(s, 0, "name = "@);
    if says(s, 0, "kind = "@) {
        assert(s[0] as int == "kind = "@[0] as int);
        lemma_no_listing(s);
    }
    if says(s, 0, "name = "@) {
        assert(s[0] as int == "name = "@[0] as int);
        lemma_no_listing(s);
    }
}

proof fn lemma_no_listing(s: Seq<u8>)
    requires
        s.len() > 0,
        s[0] != 73,
        s[0] != 68,
        s[0] != 83,
        s[0] != 82,
    ensures
        listing_header(s) is None,
{
    reveal_strlit("Instructions (");
    reveal_strlit("Deoptimization Input Data (");
    reveal_strlit("Safepoints (");
    reveal_strlit("RelocInfo (");
    lemma_first_byte(s, 0, "Instructions ("@);
    lemma_first_byte(s, 0, "Deoptimization Input Data ("@);
    lemma_first_byte(s, 0, "Safepoints ("@);
    lemma_first_byte(s, 0, "RelocInfo ("@);
}

/// The listings of a code dump are phases of their own, called by their headers.
pub proof fn law_a_listing_of_a_code_dump_is_a_phase(m: IndexModel, i: int, s: Seq<u8>)
    requires
        m.open == OpenModel::Code,
        m.compilations.len() > 0,
        says(s, 0, "Instructions ("@),
    ensures
        ({
            let was = m.compilations.last().phases;
            let now = m.on_code_line(i, s).compilations.last().phases;
            &&& now.len() == was.len() + 1
            &&& now.last().name == "Instructions"@
            &&& now.last().kind is Listing
            &&& now.last().start == i
        }),
{
    reveal_strlit("Instructions (");
    lemma_says(s, 0, "Instructions ("@);
}

} // verus!
