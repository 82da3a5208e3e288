//! The phases of a compilation partition its lines.

use vstd::prelude::*;
#[allow(unused_imports)]
use vstd::string::*;

#[allow(unused_imports)]
use crate::ansi::{law_stripping_keeps_the_first_byte, stripped};
#[allow(unused_imports)]
use crate::boundary::{boundary, code_object, BoundaryModel};
#[allow(unused_imports)]
use crate::index::{extended, fresh_index, with_phase, IndexModel, OpenModel};
#[allow(unused_imports)]
use crate::model::{Addr, CompilationModel, EventModel, PhaseKindModel, TierModel};
#[allow(unused_imports)]
use crate::partition::{
    law_closing_keeps_the_partition, law_every_line_keeps_the_partition, sound,
};
#[allow(unused_imports)]
use crate::source::LogModel;
#[allow(unused_imports)]
use crate::text::{occurs_at, trimmed_end, word_is};

verus! {

/// The parts of a compilation follow each other without a gap: the lines that
/// anchor it, its preamble and then its phases, of which the last reaches to
/// the end.
pub open spec fn phases_tile(c: CompilationModel) -> bool {
    &&& 0 <= c.start <= c.preamble_start <= c.preamble_end <= c.end
    &&& c.phases.len() == 0 ==> c.preamble_end == c.end
    &&& c.phases.len() > 0 ==> c.phases[0].start == c.preamble_end && c.phases.last().end == c.end
    &&& forall|k: int|
        0 <= k < c.phases.len() ==> (#[trigger] c.phases[k]).start <= c.phases[k].end
    &&& forall|j: int, k: int|
        0 <= j < c.phases.len() && k == j + 1 && k < c.phases.len() ==> (#[trigger] c.phases[j]).end
            == (#[trigger] c.phases[k]).start
}

/// All compilations of an index are whole. A code dump has no preamble.
pub open spec fn whole(m: IndexModel) -> bool {
    &&& forall|i: int| 0 <= i < m.compilations.len() ==> phases_tile(#[trigger] m.compilations[i])
    &&& m.open == OpenModel::Code ==> m.compilations.last().preamble_end
        == m.compilations.last().start && m.compilations.last().phases.len() > 0
}

proof fn lemma_extended(c: CompilationModel, n: int)
    requires
        phases_tile(c),
        c.end <= n,
    ensures
        phases_tile(extended(c, n)),
{
    let e = extended(c, n);
    if c.phases.len() > 0 {
        assert(e.phases[0].start == c.phases[0].start);
        assert forall|k: int| 0 <= k < e.phases.len() implies (#[trigger] e.phases[k]).start
            <= e.phases[k].end by {
            assert(c.phases[k].start <= c.phases[k].end);
        }
        assert forall|j: int, k: int|
            0 <= j < e.phases.len() && k == j + 1 && k < e.phases.len() implies (
        #[trigger] e.phases[j]).end == (#[trigger] e.phases[k]).start by {
            assert(c.phases[j].end == c.phases[k].start);
        }
    }
}

proof fn lemma_with_phase(c: CompilationModel, name: Seq<char>, kind: PhaseKindModel, i: int)
    requires
        phases_tile(c),
        c.end <= i,
    ensures
        phases_tile(with_phase(c, name, kind, i)),
{
    lemma_extended(c, i);
    let e = extended(c, i);
    let w = with_phase(c, name, kind, i);
    let n = e.phases.len() as int;
    assert(w.phases[n].start == i);
    if n > 0 {
        assert(w.phases[0] == e.phases[0]);
        assert(w.phases[n - 1] == e.phases[n - 1]);
    }
    assert forall|k: int| 0 <= k < w.phases.len() implies (#[trigger] w.phases[k]).start
        <= w.phases[k].end by {
        if k < n {
            assert(e.phases[k].start <= e.phases[k].end);
        }
    }
    assert forall|j: int, k: int|
        0 <= j < w.phases.len() && k == j + 1 && k < w.phases.len() implies (
    #[trigger] w.phases[j]).end == (#[trigger] w.phases[k]).start by {
        if k < n {
            assert(e.phases[j].end == e.phases[k].start);
        }
    }
}

proof fn lemma_joined(a: CompilationModel, b: CompilationModel)
    requires
        phases_tile(a),
        phases_tile(b),
        a.end == b.start,
        b.preamble_end == b.start,
        b.phases.len() > 0,
    ensures
        phases_tile(CompilationModel { end: b.end, phases: a.phases + b.phases, ..a }),
{
    let all = a.phases + b.phases;
    let n = a.phases.len() as int;
    assert(all.last() == b.phases.last());
    assert(all[n] == b.phases[0]);
    if n > 0 {
        assert(all[0] == a.phases[0]);
        assert(all[n - 1] == a.phases.last());
    }
    assert forall|k: int| 0 <= k < all.len() implies (#[trigger] all[k]).start <= all[k].end by {
        if k < n {
            assert(a.phases[k].start <= a.phases[k].end);
        } else {
            assert(b.phases[k - n].start <= b.phases[k - n].end);
        }
    }
    assert forall|j: int, k: int|
        0 <= j < all.len() && k == j + 1 && k < all.len() implies (#[trigger] all[j]).end == (
    #[trigger] all[k]).start by {
        if k < n {
            assert(a.phases[j].end == a.phases[k].start);
        } else if j >= n {
            assert(b.phases[j - n].end == b.phases[k - n].start);
        }
    }
}

proof fn lemma_with_last(m: IndexModel, c: CompilationModel)
    requires
        whole(m),
        m.compilations.len() > 0,
        phases_tile(c),
        m.open == OpenModel::Code ==> c.preamble_end == c.start && c.phases.len() > 0,
    ensures
        whole(m.with_last(c)),
{
    let out = m.with_last(c);
    assert forall|i: int| 0 <= i < out.compilations.len() implies phases_tile(
        #[trigger] out.compilations[i],
    ) by {
        if i < out.compilations.len() - 1 {
            assert(phases_tile(m.compilations[i]));
        }
    }
}

proof fn lemma_content(m: IndexModel, i: int, line: Seq<u8>)
    requires
        sound(m, i),
        whole(m),
    ensures
        whole(m.content(i, line)),
{
    let f = m.flushed();
    assert(whole(f));
    match f.open {
        OpenModel::Idle { .. } => {},
        _ => {
            let c = f.compilations.last();
            assert(phases_tile(f.compilations[f.compilations.len() - 1]));
            lemma_extended(c, i + 1);
            lemma_with_last(f, extended(c, i + 1));
        },
    }
}

proof fn lemma_settled(m: IndexModel)
    requires
        whole(m),
        m.open == OpenModel::Code,
        m.compilations.len() > 0,
    ensures
        forall|i: int|
            0 <= i < m.settled().compilations.len() ==> phases_tile(
                #[trigger] m.settled().compilations[i],
            ),
{
    let n = m.compilations.len() as int;
    let code = m.compilations[n - 1];
    assert(phases_tile(code));
    let out = m.settled();
    if m.joins() {
        assert(phases_tile(m.compilations[n - 2]));
        lemma_joined(m.compilations[n - 2], code);
    }
    assert forall|i: int| 0 <= i < out.compilations.len() implies phases_tile(
        #[trigger] out.compilations[i],
    ) by {
        assert(phases_tile(m.compilations[i]));
    }
}

proof fn lemma_closed(m: IndexModel, n: int)
    requires
        sound(m, n),
        whole(m),
    ensures
        whole(m.closed_at(n)),
        m.closed_at(n).open is Idle,
{
    let f = m.flushed();
    assert(whole(f));
    match f.open {
        OpenModel::Idle { .. } => {},
        _ => {
            let c = f.compilations.last();
            assert(phases_tile(f.compilations[f.compilations.len() - 1]));
            lemma_extended(c, n);
            lemma_with_last(f, extended(c, n));
            if f.open == OpenModel::Code {
                lemma_settled(f.with_last(extended(c, n)));
            }
        },
    }
}

proof fn lemma_cut(m: IndexModel, i: int)
    requires
        sound(m, i),
        whole(m),
    ensures
        whole(m.cut_at(i)),
        m.cut_at(i).open is Idle,
        0 <= m.cut(i) <= i,
{
    let p = IndexModel { pending: None, ..m };
    assert(sound(p, m.cut(i)));
    lemma_closed(p, m.cut(i));
}

proof fn lemma_opened(m: IndexModel, c: CompilationModel, code: bool)
    requires
        whole(m),
        phases_tile(c),
        code ==> c.preamble_end == c.start && c.phases.len() > 0,
    ensures
        whole(m.opened(c, code)),
{
    let out = m.opened(c, code);
    assert forall|i: int| 0 <= i < out.compilations.len() implies phases_tile(
        #[trigger] out.compilations[i],
    ) by {
        if i < m.compilations.len() {
            assert(phases_tile(m.compilations[i]));
        }
    }
}

proof fn lemma_phase_opened(m: IndexModel, i: int, name: Seq<char>)
    requires
        whole(m),
        m.open == OpenModel::Compilation,
        m.compilations.len() > 0,
        m.compilations.last().end <= i,
    ensures
        whole(m.phase_opened(i, name)),
{
    let c = m.compilations.last();
    assert(phases_tile(m.compilations[m.compilations.len() - 1]));
    let kind = crate::index::phase_kind(name);
    lemma_with_phase(c, name, kind, i);
    lemma_with_last(m, with_phase(c, name, kind, i));
}

proof fn lemma_banner(m: IndexModel, i: int, name: Seq<char>)
    requires
        sound(m, i),
        whole(m),
    ensures
        whole(m.on_banner(i, name)),
{
    if name == "Bytecode before MaglevGraphBuilding"@ {
        if m.open == OpenModel::Compilation && m.compilations.last().phases.len() == 0
            && m.compilations.last().tier == TierModel::Turbofan {
            let c = CompilationModel { tier: TierModel::Turbolev, ..m.compilations.last() };
            assert(phases_tile(m.compilations[m.compilations.len() - 1]));
            lemma_with_last(m, c);
            lemma_phase_opened(m.with_last(c), i, name);
        } else {
            lemma_cut(m, i);
            let k = m.cut_at(i);
            let c = CompilationModel {
                end: i,
                preamble_start: i,
                preamble_end: i,
                ..k.anchored_section(
                    m.cut(i),
                    i,
                    None,
                    Seq::empty(),
                    Addr(0),
                    TierModel::Turbolev,
                )
            };
            lemma_opened(k, c, false);
            lemma_phase_opened(k.opened(c, false), i, name);
        }
    } else if m.open == OpenModel::Compilation {
        lemma_phase_opened(m, i, name);
    } else {
        lemma_content(m, i, vstd::utf8::encode_utf8(name));
    }
}

proof fn lemma_compiling(
    m: IndexModel,
    i: int,
    addr: Option<Addr>,
    name: Seq<char>,
    sfi: Option<Addr>,
    tier: TierModel,
)
    requires
        sound(m, i),
        whole(m),
    ensures
        whole(m.on_compiling(i, addr, name, sfi, tier)),
{
    lemma_cut(m, i);
    let k = m.cut_at(i);
    lemma_opened(
        k,
        k.anchored_section(m.cut(i), i, addr, name, crate::index::sfi_or_zero(sfi), tier),
        false,
    );
}

proof fn lemma_code_banner(m: IndexModel, i: int, name: Seq<char>)
    requires
        sound(m, i),
        whole(m),
    ensures
        whole(m.on_code_banner(i, name)),
{
    if m.open == OpenModel::Code {
        let c = m.compilations.last();
        assert(phases_tile(m.compilations[m.compilations.len() - 1]));
        lemma_with_phase(c, name, PhaseKindModel::Listing, i);
        lemma_with_last(m, with_phase(c, name, PhaseKindModel::Listing, i));
    } else {
        lemma_closed(m, i);
        let c = CompilationModel {
            sfi: Addr(0),
            tier: TierModel::Other(Seq::empty()),
            ordinal: 0,
            name: Seq::empty(),
            function_addr: None,
            start: i,
            end: i,
            osr: None,
            phases: Seq::empty(),
            preamble_start: i,
            preamble_end: i,
            filtered_out: false,
        };
        lemma_with_phase(c, name, PhaseKindModel::Listing, i);
        lemma_opened(m.closed_at(i), with_phase(c, name, PhaseKindModel::Listing, i), true);
    }
}

proof fn lemma_event(m: IndexModel, i: int, event: EventModel, line: Seq<u8>)
    requires
        sound(m, i),
        whole(m),
    ensures
        whole(m.on_event(i, event, line)),
{
    let k = IndexModel { events: m.events.push((i, event)), ..m.noted(event) };
    assert(sound(k, i));
    assert(whole(k));
    match k.open {
        OpenModel::Idle { .. } => lemma_content(k, i, line),
        _ => {
            lemma_cut(k, i);
            let c = IndexModel { pending: k.pending, ..k.cut_at(i) };
            assert(c.content(i, line).compilations == c.compilations);
        },
    }
}

proof fn lemma_renamed(m: IndexModel, c: CompilationModel, i: int, line: Seq<u8>)
    requires
        sound(m, i),
        whole(m),
        !(m.open is Idle),
        c.start == m.compilations.last().start,
        c.end == m.compilations.last().end,
        c.preamble_start == m.compilations.last().preamble_start,
        c.preamble_end == m.compilations.last().preamble_end,
        c.phases == m.compilations.last().phases,
    ensures
        whole(m.with_last(c).content(i, line)),
{
    assert(phases_tile(m.compilations[m.compilations.len() - 1]));
    lemma_with_last(m, c);
    assert(m.with_last(c).compilations.drop_last() =~= m.compilations.drop_last());
    lemma_content(m.with_last(c), i, line);
}

proof fn lemma_code_line(m: IndexModel, i: int, s: Seq<u8>)
    requires
        sound(m, i),
        whole(m),
        m.open == OpenModel::Code,
    ensures
        whole(m.on_code_line(i, s)),
{
    let c = m.compilations.last();
    let e = crate::text::trimmed_end(s, 0, s.len() as int);
    if crate::index::listing_header(s) is Some {
        lemma_code_banner(m, i, crate::index::listing_header(s)->0);
    }
    lemma_renamed(
        m,
        CompilationModel {
            tier: crate::model::tier_of(s, "kind = ".spec_bytes().len() as int, e),
            ..c
        },
        i,
        s,
    );
    lemma_renamed(
        m,
        CompilationModel {
            name: crate::text::text_of(s, "name = ".spec_bytes().len() as int, e),
            ..c
        },
        i,
        s,
    );
    lemma_content(m, i, s);
}

proof fn lemma_function(
    m: IndexModel,
    i: int,
    addr: Option<Addr>,
    name: Seq<char>,
    sfi: Option<Addr>,
    line: Seq<u8>,
)
    requires
        sound(m, i),
        whole(m),
    ensures
        whole(m.on_function(i, addr, name, sfi, line)),
{
    let c = m.compilations.last();
    if m.open == OpenModel::Compilation && c.tier == TierModel::Turbolev && c.phases.len() == 1
        && c.sfi == Addr(0) {
        let others = m.compilations.drop_last();
        let a = crate::index::sfi_or_zero(sfi);
        let named = CompilationModel {
            sfi: a,
            ordinal: crate::index::ordinal_after(
                others,
                others.len() as int,
                a,
                TierModel::Turbolev,
            ),
            name,
            function_addr: addr,
            osr: m.osr_of(a, TierModel::Turbolev, name),
            filtered_out: crate::index::left_out(m.filter, name),
            ..c
        };
        lemma_renamed(m, named, i, line);
    } else {
        lemma_content(m, i, line);
    }
}

proof fn lemma_finished(m: IndexModel, i: int, line: Seq<u8>)
    requires
        sound(m, i),
        whole(m),
    ensures
        whole(m.on_finished(i, line)),
{
    if m.open == OpenModel::Compilation {
        let c = m.compilations.last();
        assert(phases_tile(m.compilations[m.compilations.len() - 1]));
        lemma_extended(c, i + 1);
        lemma_with_last(m, extended(c, i + 1));
    } else {
        lemma_content(m, i, line);
    }
}

proof fn lemma_code_start(m: IndexModel, i: int, name: Seq<char>)
    requires
        sound(m, i),
        whole(m),
    ensures
        whole(m.on_code_start(i, name)),
{
    lemma_closed(m, i);
    law_closing_keeps_the_partition(m, i);
    lemma_code_banner(m.closed_at(i), i, name);
    lemma_code_banner(m, i, name);
}

proof fn lemma_code_end(m: IndexModel, i: int, line: Seq<u8>)
    requires
        sound(m, i),
        whole(m),
    ensures
        whole(m.on_code_end(i, line)),
{
    lemma_content(m, i, line);
    if m.open == OpenModel::Code {
        let out = m.content(i, line);
        assert(out.compilations.drop_last() =~= m.compilations.drop_last());
        assert(sound(out, i + 1));
        lemma_closed(out, i + 1);
    }
}

/// Every line keeps the compilations whole.
pub proof fn law_every_line_keeps_the_phases(m: IndexModel, i: int, line: Seq<u8>)
    requires
        sound(m, i),
        whole(m),
    ensures
        whole(m.after_line(i, line)),
{
    reveal(IndexModel::after_line);
    let s = crate::ansi::stripped(line);
    if !vstd::utf8::valid_utf8(s) || (!crate::index::may_bound(line) && m.open != OpenModel::Code) {
        lemma_content(m, i, line);
    } else {
        match crate::boundary::boundary(s) {
            BoundaryModel::Banner { name } => lemma_banner(m, i, name),
            BoundaryModel::Rule => {},
            BoundaryModel::Compiling { addr, name, sfi, tier } => lemma_compiling(
                m,
                i,
                addr,
                name,
                sfi,
                tier,
            ),
            BoundaryModel::Begin { name, tier } => lemma_compiling(m, i, None, name, None, tier),
            BoundaryModel::Finished => lemma_finished(m, i, s),
            BoundaryModel::Event(event) => lemma_event(m, i, event, s),
            BoundaryModel::Function { addr, name, sfi } => lemma_function(m, i, addr, name, sfi, s),
            BoundaryModel::CodeBanner { name } => lemma_code_start(m, i, name),
            BoundaryModel::CodeEnd => lemma_code_end(m, i, s),
            BoundaryModel::Content => if m.open == OpenModel::Code {
                lemma_code_line(m, i, s);
            } else {
                lemma_content(m, i, s);
            },
        }
    }
}

proof fn lemma_advanced(m: IndexModel, buffer: LogModel, end: int)
    requires
        sound(m, m.next_line),
        whole(m),
    ensures
        sound(m.advanced(buffer, end), m.advanced(buffer, end).next_line),
        m.next_line <= end ==> m.advanced(buffer, end).next_line == end,
        whole(m.advanced(buffer, end)),
    decreases end - m.next_line,
{
    if m.next_line < end {
        let line = buffer.line_or_empty(m.next_line);
        law_every_line_keeps_the_partition(m, m.next_line, line);
        law_every_line_keeps_the_phases(m, m.next_line, line);
        let next = m.stepped(buffer);
        assert(sound(next, next.next_line));
        lemma_advanced(next, buffer, end);
    }
}

/// However often an index takes in lines, the parts of each compilation cover
/// its lines without a gap: no line of a compilation is outside its phases
/// and what stands before them.
pub proof fn law_phases_partition_their_compilation(
    m: IndexModel,
    buffer: LogModel,
    finished: bool,
)
    requires
        sound(m, m.next_line),
        whole(m),
        m.next_line <= buffer.starts.len(),
    ensures
        whole(m.ingested(buffer, finished)),
{
    let n = buffer.starts.len() as int;
    if finished {
        lemma_advanced(m, buffer, n);
        lemma_closed(m.advanced(buffer, n), n);
    } else {
        lemma_advanced(m, buffer, n - 1);
    }
}

/// A code dump joins the compilation in front of it only where the two are
/// adjacent and agree on tier and name; it then adds its phases and its lines
/// at the end. Otherwise it stays a section of its own.
pub proof fn law_a_code_dump_joins_only_its_pipeline(m: IndexModel)
    requires
        m.compilations.len() > 0,
    ensures
        ({
            let n = m.compilations.len() as int;
            let code = m.compilations.last();
            let out = m.settled().compilations;
            if n >= 2 && m.compilations[n - 2].end == code.start && m.compilations[n - 2].tier
                == code.tier && m.compilations[n - 2].name == code.name {
                let before = m.compilations[n - 2];
                &&& out.len() == n - 1
                &&& out.last().name == before.name
                &&& out.last().sfi == before.sfi
                &&& out.last().start == before.start
                &&& out.last().end == code.end
                &&& out.last().phases == before.phases + code.phases
                &&& out.drop_last() == m.compilations.take(n - 2)
            } else {
                &&& out.len() == n
                &&& out.last().start == code.start
                &&& out.last().end == code.end
                &&& out.last().phases == code.phases
                &&& out.drop_last() == m.compilations.drop_last()
            }
        }),
{
    let n = m.compilations.len() as int;
    let out = m.settled().compilations;
    if m.joins() {
        assert(out.drop_last() =~= m.compilations.take(n - 2));
    } else {
        assert(out.drop_last() =~= m.compilations.drop_last());
    }
}

/// A code dump can be printed in two forms, between `--- Optimized code ---` and
/// `--- End code ---` or as a bare `0x…: [Code]` object. Both open the same
/// section, which then settles by the same rule.
pub proof fn law_both_forms_open_a_code_dump(
    m: IndexModel,
    i: int,
    banner: Seq<u8>,
    object: Seq<u8>,
)
    requires
        vstd::utf8::valid_utf8(stripped(banner)),
        vstd::utf8::valid_utf8(stripped(object)),
        word_is(
            stripped(banner),
            0,
            trimmed_end(stripped(banner), 0, stripped(banner).len() as int),
            "--- Optimized code ---".spec_bytes(),
        ),
        code_object(stripped(object)),
    ensures
        m.after_line(i, object) == m.after_line(i, banner),
        m.after_line(i, object) == m.on_code_start(i, "Optimized code"@),
{
    reveal(IndexModel::after_line);
    lemma_object_line(stripped(object));
    law_stripping_keeps_the_first_byte(object);
    lemma_banner_line(stripped(banner));
    law_stripping_keeps_the_first_byte(banner);
}

/// Outside a code dump, and behind the code of another one, a banner opens a
/// section of its own at its line.
pub proof fn law_a_code_dump_starts_at_its_banner(m: IndexModel, i: int, name: Seq<char>)
    requires
        m.open != OpenModel::Code || !m.goes_on(name),
        sound(m, i),
    ensures
        ({
            let out = m.on_code_start(i, name);
            &&& out.open == OpenModel::Code
            &&& out.compilations.last().start == i
            &&& out.compilations.drop_last() == m.closed_at(i).compilations
        }),
{
    law_closing_keeps_the_partition(m, i);
    let k = m.closed_at(i);
    assert(k.closed_at(i) == k);
    let out = m.on_code_start(i, name);
    assert(out.compilations.drop_last() =~= k.compilations);
}

proof fn lemma_starts(s: Seq<u8>, word: Seq<char>)
    requires
        word.len() > 0,
        '\0' <= word[0] <= '\u{7f}',
    ensures
        occurs_at(s, 0, vstd::utf8::encode_utf8(word)) ==> s.len() > 0 && s[0] == word[0] as u8,
{
    let first = seq![word[0]];
    vstd::utf8::is_ascii_chars_encode_utf8(first);
    assert(first.drop_first() =~= Seq::<char>::empty());
    assert(vstd::utf8::encode_utf8(first) =~= vstd::utf8::encode_scalar(word[0] as u32));
    assert(first[0] == word[0]);
    let w = vstd::utf8::encode_utf8(word);
    assert(w[0] == word[0] as u8);
    if occurs_at(s, 0, w) {
        assert(s.subrange(0, w.len() as int)[0] == s[0]);
    }
}

proof fn lemma_object_line(s: Seq<u8>)
    requires
        code_object(s),
    ensures
        s.len() > 0,
        s[0] == 0x30,
        boundary(s) == (BoundaryModel::CodeBanner { name: "Optimized code"@ }),
{
    reveal_strlit("0x");
    lemma_starts(s, "0x"@);
    reveal_strlit("-----");
    lemma_starts(s, "-----"@);
    reveal_strlit("--- Raw source ---");
    lemma_starts(s, "--- Raw source ---"@);
}

proof fn lemma_banner_bytes()
    ensures
        "--- Optimized code ---".spec_bytes().len() == 22,
        "--- Optimized code ---".spec_bytes()[0] == 0x2d,
        "--- Optimized code ---".spec_bytes()[3] == 0x20,
        "--- Raw source ---".spec_bytes().len() == 18,
        "-----".spec_bytes().len() == 5,
        "-----".spec_bytes()[3] == 0x2d,
{
    reveal_strlit("--- Optimized code ---");
    assert forall|k: int| 0 <= k < "--- Optimized code ---"@.len() implies '\0' <= #[trigger] "--- Optimized code ---"@[k] <= '\u{7f}' by {}
    vstd::utf8::is_ascii_chars_encode_utf8("--- Optimized code ---"@);
    assert("--- Optimized code ---"@[0] == '-');
    assert("--- Optimized code ---"@[3] == ' ');
    reveal_strlit("--- Raw source ---");
    assert forall|k: int| 0 <= k < "--- Raw source ---"@.len() implies '\0' <= #[trigger] "--- Raw source ---"@[k] <= '\u{7f}' by {}
    vstd::utf8::is_ascii_chars_encode_utf8("--- Raw source ---"@);
    reveal_strlit("-----");
    assert forall|k: int| 0 <= k < "-----"@.len() implies '\0' <= #[trigger] "-----"@[k] <= '\u{7f}' by {}
    vstd::utf8::is_ascii_chars_encode_utf8("-----"@);
    assert("-----"@[3] == '-');
}

proof fn lemma_banner_line(s: Seq<u8>)
    requires
        word_is(
            s,
            0,
            trimmed_end(s, 0, s.len() as int),
            "--- Optimized code ---".spec_bytes(),
        ),
    ensures
        s.len() > 0,
        s[0] == 0x2d,
        boundary(s) == (BoundaryModel::CodeBanner { name: "Optimized code"@ }),
{
    lemma_banner_bytes();
    let w = "--- Optimized code ---".spec_bytes();
    assert(s.subrange(0, w.len() as int)[0] == s[0]);
    assert(s.subrange(0, w.len() as int)[3] == s[3]);
    if occurs_at(s, 0, "-----".spec_bytes()) {
        assert(s.subrange(0, 5)[3] == s[3]);
    }
}

/// An index that has seen nothing is whole.
pub proof fn law_a_fresh_index_is_whole(filter: Option<Seq<char>>)
    ensures
        whole(fresh_index(filter)),
{
}

} // verus!
