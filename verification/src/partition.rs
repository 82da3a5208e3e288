//! The sections of an index partition the lines.

use vstd::prelude::*;
#[allow(unused_imports)]
use vstd::string::*;

#[allow(unused_imports)]
use crate::boundary::BoundaryModel;
#[allow(unused_imports)]
use crate::index::{
    extended, fresh_index, with_phase, IndexModel, OpenModel,
};
#[allow(unused_imports)]
use crate::model::{Addr, CompilationModel, EventModel, PhaseKindModel, RawModel, TierModel};
#[allow(unused_imports)]
use crate::source::LogModel;

verus! {

/// Compilation `i` holds line `l`.
pub open spec fn compiled_at(compilations: Seq<CompilationModel>, i: int, l: int) -> bool {
    0 <= i < compilations.len() && compilations[i].start <= l < compilations[i].end
}

/// Raw section `i` holds line `l`.
pub open spec fn raw_at(raw: Seq<RawModel>, i: int, l: int) -> bool {
    0 <= i < raw.len() && raw[i].start <= l < raw[i].end
}

/// Some section holds line `l`.
pub open spec fn covered(
    compilations: Seq<CompilationModel>,
    raw: Seq<RawModel>,
    l: int,
) -> bool {
    (exists|i: int| #[trigger] compiled_at(compilations, i, l)) || (exists|i: int| #[trigger]
        raw_at(raw, i, l))
}

/// The sections partition the lines before `n`: none reaches past it, every
/// line is in one, and no two share a line.
pub open spec fn tiles(compilations: Seq<CompilationModel>, raw: Seq<RawModel>, n: int) -> bool {
    &&& forall|i: int|
        0 <= i < compilations.len() ==> 0 <= (#[trigger] compilations[i]).start
            <= compilations[i].end <= n
    &&& forall|i: int|
        0 <= i < raw.len() ==> 0 <= (#[trigger] raw[i]).start < raw[i].end <= n
    &&& forall|l: int| 0 <= l < n ==> #[trigger] covered(compilations, raw, l)
    &&& forall|i: int, j: int|
        0 <= i < j < compilations.len() ==> (#[trigger] compilations[i]).end <= (
        #[trigger] compilations[j]).start
    &&& forall|i: int, j: int|
        0 <= i < j < raw.len() ==> (#[trigger] raw[i]).end <= (#[trigger] raw[j]).start
    &&& forall|i: int, j: int|
        0 <= i < compilations.len() && 0 <= j < raw.len() ==> (#[trigger] compilations[i]).end <= (
        #[trigger] raw[j]).start || raw[j].end <= compilations[i].start
}

/// What holds of an index after `n` lines: the closed sections partition the
/// lines before the open one, and the open one reaches up to the lines held
/// back.
pub open spec fn sound(m: IndexModel, n: int) -> bool {
    let reach = match m.pending {
        Some(p) => p,
        None => n,
    };
    &&& 0 <= n
    &&& m.pending matches Some(p) ==> 0 <= p < n
    &&& match m.open {
        OpenModel::Idle { raw_since: None } => tiles(m.compilations, m.raw, reach),
        OpenModel::Idle { raw_since: Some(s) } => {
            &&& 0 <= s < reach
            &&& tiles(m.compilations, m.raw, s)
        },
        _ => {
            &&& m.compilations.len() > 0
            &&& m.compilations.last().end == reach
            &&& 0 <= m.compilations.last().start <= reach
            &&& tiles(m.compilations.drop_last(), m.raw, m.compilations.last().start)
        },
    }
}

proof fn lemma_add_compilation(
    compilations: Seq<CompilationModel>,
    raw: Seq<RawModel>,
    c: CompilationModel,
)
    requires
        tiles(compilations, raw, c.start),
        0 <= c.start <= c.end,
    ensures
        tiles(compilations.push(c), raw, c.end),
{
    let all = compilations.push(c);
    assert forall|l: int| 0 <= l < c.end implies #[trigger] covered(all, raw, l) by {
        if l < c.start {
            assert(covered(compilations, raw, l));
            if exists|i: int| #[trigger] compiled_at(compilations, i, l) {
                let i = choose|i: int| #[trigger] compiled_at(compilations, i, l);
                assert(compiled_at(all, i, l));
            }
        } else {
            assert(compiled_at(all, compilations.len() as int, l));
        }
    }
}

proof fn lemma_add_raw(compilations: Seq<CompilationModel>, raw: Seq<RawModel>, r: RawModel)
    requires
        tiles(compilations, raw, r.start),
        0 <= r.start < r.end,
    ensures
        tiles(compilations, raw.push(r), r.end),
{
    let all = raw.push(r);
    assert forall|l: int| 0 <= l < r.end implies #[trigger] covered(compilations, all, l) by {
        if l < r.start {
            assert(covered(compilations, raw, l));
            if exists|i: int| #[trigger] raw_at(raw, i, l) {
                let i = choose|i: int| #[trigger] raw_at(raw, i, l);
                assert(raw_at(all, i, l));
            }
        } else {
            assert(raw_at(all, raw.len() as int, l));
        }
    }
}

/// Two adjacent compilations at the end can be one.
proof fn lemma_join(
    compilations: Seq<CompilationModel>,
    raw: Seq<RawModel>,
    n: int,
    joined: CompilationModel,
)
    requires
        tiles(compilations, raw, n),
        compilations.len() >= 2,
        joined.start == compilations[compilations.len() - 2].start,
        joined.end == compilations.last().end,
        compilations[compilations.len() - 2].end == compilations.last().start,
    ensures
        tiles(compilations.drop_last().update(compilations.len() - 2, joined), raw, n),
{
    let k = compilations.len() - 2;
    let all = compilations.drop_last().update(k, joined);
    assert forall|l: int| 0 <= l < n implies #[trigger] covered(all, raw, l) by {
        assert(covered(compilations, raw, l));
        if exists|i: int| #[trigger] compiled_at(compilations, i, l) {
            let i = choose|i: int| #[trigger] compiled_at(compilations, i, l);
            if i < k {
                assert(compiled_at(all, i, l));
            } else {
                assert(compiled_at(all, k, l));
            }
        }
    }
    assert forall|i: int, j: int| 0 <= i < j < all.len() implies (#[trigger] all[i]).end <= (
    #[trigger] all[j]).start by {
        assert(compilations[i].end <= compilations[j].start);
    }
    assert forall|i: int, j: int| 0 <= i < all.len() && 0 <= j < raw.len() implies (
    #[trigger] all[i]).end <= (#[trigger] raw[j]).start || raw[j].end <= all[i].start by {
        assert(compilations[i].end <= raw[j].start || raw[j].end <= compilations[i].start);
        assert(compilations[k + 1].end <= raw[j].start || raw[j].end <= compilations[k + 1].start);
    }
}

/// Sections that keep their lines keep the partition.
proof fn lemma_same_ranges(
    a: Seq<CompilationModel>,
    b: Seq<CompilationModel>,
    raw: Seq<RawModel>,
    n: int,
)
    requires
        tiles(a, raw, n),
        a.len() == b.len(),
        forall|i: int|
            0 <= i < a.len() ==> (#[trigger] a[i]).start == b[i].start && a[i].end == b[i].end,
    ensures
        tiles(b, raw, n),
{
    assert forall|i: int| 0 <= i < b.len() implies 0 <= (#[trigger] b[i]).start <= b[i].end <= n by {
        assert(a[i].start == b[i].start);
    }
    assert forall|l: int| 0 <= l < n implies #[trigger] covered(b, raw, l) by {
        assert(covered(a, raw, l));
        if exists|i: int| #[trigger] compiled_at(a, i, l) {
            let i = choose|i: int| #[trigger] compiled_at(a, i, l);
            assert(a[i].start == b[i].start);
            assert(compiled_at(b, i, l));
        }
    }
    assert forall|i: int, j: int| 0 <= i < j < b.len() implies (#[trigger] b[i]).end <= (
    #[trigger] b[j]).start by {
        assert(a[i].end == b[i].end && a[j].start == b[j].start);
    }
    assert forall|i: int, j: int| 0 <= i < b.len() && 0 <= j < raw.len() implies (
    #[trigger] b[i]).end <= (#[trigger] raw[j]).start || raw[j].end <= b[i].start by {
        assert(a[i].end <= raw[j].start || raw[j].end <= a[i].start);
    }
}

/// Closing everything at the line reached leaves a partition.
proof fn lemma_closed(m: IndexModel, n: int)
    requires
        sound(m, n),
    ensures
        ({
            let out = m.closed_at(n);
            &&& out.open == (OpenModel::Idle { raw_since: None })
            &&& out.pending is None
            &&& tiles(out.compilations, out.raw, n)
            &&& out.next_line == m.next_line
        }),
{
    let f = m.flushed();
    match f.open {
        OpenModel::Idle { raw_since: Some(s) } => {
            let label = match f.raw_label {
                Some(l) => l,
                None => Seq::empty(),
            };
            lemma_add_raw(f.compilations, f.raw, RawModel { start: s, end: n, label });
        },
        OpenModel::Idle { raw_since: None } => {},
        _ => {
            let c = f.compilations.last();
            let e = extended(c, n);
            let w = f.with_last(e);
            lemma_add_compilation(f.compilations.drop_last(), f.raw, e);
            assert(w.compilations =~= f.compilations.drop_last().push(e));
            if f.open == OpenModel::Code {
                let k = w.compilations.len() as int;
                if w.joins() {
                    let before = w.compilations[k - 2];
                    lemma_join(
                        w.compilations,
                        w.raw,
                        n,
                        CompilationModel {
                            end: w.compilations[k - 1].end,
                            phases: before.phases + w.compilations[k - 1].phases,
                            ..before
                        },
                    );
                } else {
                    lemma_same_ranges(w.compilations, w.settled().compilations, w.raw, n);
                }
            }
        },
    }
}

/// Closing everything before the lines held back leaves a partition up to them.
proof fn lemma_cut(m: IndexModel, i: int)
    requires
        sound(m, i),
    ensures
        ({
            let out = m.cut_at(i);
            &&& 0 <= m.cut(i) <= i
            &&& out.open == (OpenModel::Idle { raw_since: None })
            &&& out.pending is None
            &&& tiles(out.compilations, out.raw, m.cut(i))
            &&& out.next_line == m.next_line
        }),
{
    let p = IndexModel { pending: None, ..m };
    assert(sound(p, m.cut(i)));
    lemma_closed(p, m.cut(i));
}

proof fn lemma_content(m: IndexModel, i: int, line: Seq<u8>)
    requires
        sound(m, i),
    ensures
        sound(m.content(i, line), i + 1),
        m.content(i, line).next_line == m.next_line,
{
    let f = m.flushed();
    match f.open {
        OpenModel::Idle { .. } => {},
        _ => {
            let out = m.content(i, line);
            assert(out.compilations.drop_last() =~= f.compilations.drop_last());
        },
    }
}

proof fn lemma_opened(m: IndexModel, c: CompilationModel, code: bool, n: int)
    requires
        m.pending is None,
        0 <= c.start <= c.end == n,
        tiles(m.compilations, m.raw, c.start),
    ensures
        sound(m.opened(c, code), n),
        m.opened(c, code).next_line == m.next_line,
{
    assert(m.opened(c, code).compilations.drop_last() =~= m.compilations);
}

proof fn lemma_phase_opened(m: IndexModel, i: int, name: Seq<char>)
    requires
        m.open == OpenModel::Compilation,
        m.compilations.len() > 0,
        0 <= m.compilations.last().start <= i,
        tiles(m.compilations.drop_last(), m.raw, m.compilations.last().start),
    ensures
        sound(m.phase_opened(i, name), i + 1),
        m.phase_opened(i, name).next_line == m.next_line,
{
    let out = m.phase_opened(i, name);
    assert(out.compilations.drop_last() =~= m.compilations.drop_last());
}

proof fn lemma_with_last(m: IndexModel, c: CompilationModel, n: int)
    requires
        sound(m, n),
        !(m.open is Idle),
        c.start == m.compilations.last().start,
        c.end == m.compilations.last().end,
    ensures
        sound(m.with_last(c), n),
        m.with_last(c).next_line == m.next_line,
{
    assert(m.with_last(c).compilations.drop_last() =~= m.compilations.drop_last());
}

proof fn lemma_compiling(
    m: IndexModel,
    i: int,
    addr: Option<Addr>,
    name: Seq<char>,
    sfi: Option<Addr>,
    tier: TierModel,
)
    requires
        sound(m, i),
    ensures
        sound(m.on_compiling(i, addr, name, sfi, tier), i + 1),
        m.on_compiling(i, addr, name, sfi, tier).next_line == m.next_line,
{
    lemma_cut(m, i);
    let k = m.cut_at(i);
    lemma_opened(
        k,
        k.anchored_section(m.cut(i), i, addr, name, crate::index::sfi_or_zero(sfi), tier),
        false,
        i + 1,
    );
}

proof fn lemma_banner(m: IndexModel, i: int, name: Seq<char>)
    requires
        sound(m, i),
    ensures
        sound(m.on_banner(i, name), i + 1),
        m.on_banner(i, name).next_line == m.next_line,
{
    if name == "Bytecode before MaglevGraphBuilding"@ {
        if m.open == OpenModel::Compilation && m.compilations.last().phases.len() == 0
            && m.compilations.last().tier == TierModel::Turbofan {
            let c = CompilationModel { tier: TierModel::Turbolev, ..m.compilations.last() };
            lemma_with_last(m, c, i);
            lemma_phase_opened(m.with_last(c), i, name);
        } else {
            lemma_cut(m, i);
            let k = m.cut_at(i);
            let c = CompilationModel {
                end: i,
                preamble_start: i,
                preamble_end: i,
                ..k.anchored_section(
                    m.cut(i),
                    i,
                    None,
                    Seq::empty(),
                    Addr(0),
                    TierModel::Turbolev,
                )
            };
            lemma_opened(k, c, false, i);
            lemma_phase_opened(k.opened(c, false), i, name);
        }
    } else if m.open == OpenModel::Compilation {
        lemma_phase_opened(m, i, name);
    } else {
        lemma_content(m, i, vstd::utf8::encode_utf8(name));
    }
}

proof fn lemma_code_banner(m: IndexModel, i: int, name: Seq<char>)
    requires
        sound(m, i),
    ensures
        sound(m.on_code_banner(i, name), i + 1),
        m.on_code_banner(i, name).next_line == m.next_line,
{
    if m.open == OpenModel::Code {
        let out = m.on_code_banner(i, name);
        assert(out.compilations.drop_last() =~= m.compilations.drop_last());
    } else {
        lemma_closed(m, i);
        let c = CompilationModel {
            sfi: Addr(0),
            tier: TierModel::Other(Seq::empty()),
            ordinal: 0,
            name: Seq::empty(),
            function_addr: None,
            start: i,
            end: i,
            osr: None,
            phases: Seq::empty(),
            preamble_start: i,
            preamble_end: i,
            filtered_out: false,
        };
        lemma_opened(
            m.closed_at(i),
            with_phase(c, name, PhaseKindModel::Listing, i),
            true,
            i + 1,
        );
    }
}

proof fn lemma_event(m: IndexModel, i: int, event: EventModel, line: Seq<u8>)
    requires
        sound(m, i),
    ensures
        sound(m.on_event(i, event, line), i + 1),
        m.on_event(i, event, line).next_line == m.next_line,
{
    let k = IndexModel { events: m.events.push((i, event)), ..m.noted(event) };
    assert(sound(k, i));
    match k.open {
        OpenModel::Idle { .. } => lemma_content(k, i, line),
        _ => {
            lemma_cut(k, i);
            let c = IndexModel { pending: k.pending, ..k.cut_at(i) };
            assert(sound(c, i));
            lemma_content(c, i, line);
        },
    }
}

proof fn lemma_code_line(m: IndexModel, i: int, s: Seq<u8>)
    requires
        sound(m, i),
        m.open == OpenModel::Code,
    ensures
        sound(m.on_code_line(i, s), i + 1),
        m.on_code_line(i, s).next_line == m.next_line,
{
    let c = m.compilations.last();
    let e = crate::text::trimmed_end(s, 0, s.len() as int);
    let tiered = CompilationModel {
        tier: crate::model::tier_of(s, "kind = ".spec_bytes().len() as int, e),
        ..c
    };
    let named = CompilationModel {
        name: crate::text::text_of(s, "name = ".spec_bytes().len() as int, e),
        ..c
    };
    if crate::index::listing_header(s) is Some {
        lemma_code_banner(m, i, crate::index::listing_header(s)->0);
    }
    lemma_with_last(m, tiered, i);
    lemma_content(m.with_last(tiered), i, s);
    lemma_with_last(m, named, i);
    lemma_content(m.with_last(named), i, s);
    lemma_content(m, i, s);
}

proof fn lemma_function(
    m: IndexModel,
    i: int,
    addr: Option<Addr>,
    name: Seq<char>,
    sfi: Option<Addr>,
    line: Seq<u8>,
)
    requires
        sound(m, i),
    ensures
        sound(m.on_function(i, addr, name, sfi, line), i + 1),
        m.on_function(i, addr, name, sfi, line).next_line == m.next_line,
{
    let c = m.compilations.last();
    if m.open == OpenModel::Compilation && c.tier == TierModel::Turbolev && c.phases.len() == 1
        && c.sfi == Addr(0) {
        let others = m.compilations.drop_last();
        let a = crate::index::sfi_or_zero(sfi);
        let named = CompilationModel {
            sfi: a,
            ordinal: crate::index::ordinal_after(
                others,
                others.len() as int,
                a,
                TierModel::Turbolev,
            ),
            name,
            function_addr: addr,
            osr: m.osr_of(a, TierModel::Turbolev, name),
            filtered_out: crate::index::left_out(m.filter, name),
            ..c
        };
        lemma_with_last(m, named, i);
        lemma_content(m.with_last(named), i, line);
    } else {
        lemma_content(m, i, line);
    }
}

proof fn lemma_finished(m: IndexModel, i: int, line: Seq<u8>)
    requires
        sound(m, i),
    ensures
        sound(m.on_finished(i, line), i + 1),
        m.on_finished(i, line).next_line == m.next_line,
{
    if m.open == OpenModel::Compilation {
        let e = extended(m.compilations.last(), i + 1);
        lemma_add_compilation(m.compilations.drop_last(), m.raw, e);
        assert(m.with_last(e).compilations =~= m.compilations.drop_last().push(e));
    } else {
        lemma_content(m, i, line);
    }
}

/// Closing what is open keeps the sections sound, and nothing is open then.
pub proof fn law_closing_keeps_the_partition(m: IndexModel, n: int)
    requires
        sound(m, n),
    ensures
        sound(m.closed_at(n), n),
        m.closed_at(n).open == (OpenModel::Idle { raw_since: None }),
{
    lemma_closed(m, n);
}

proof fn lemma_code_start(m: IndexModel, i: int, name: Seq<char>)
    requires
        sound(m, i),
    ensures
        sound(m.on_code_start(i, name), i + 1),
        m.on_code_start(i, name).next_line == m.next_line,
{
    lemma_closed(m, i);
    lemma_code_banner(m.closed_at(i), i, name);
    lemma_code_banner(m, i, name);
}

proof fn lemma_code_end(m: IndexModel, i: int, line: Seq<u8>)
    requires
        sound(m, i),
    ensures
        sound(m.on_code_end(i, line), i + 1),
        m.on_code_end(i, line).next_line == m.next_line,
{
    lemma_content(m, i, line);
    if m.open == OpenModel::Code {
        lemma_closed(m.content(i, line), i + 1);
    }
}

/// Every line keeps the sections sound.
pub proof fn law_every_line_keeps_the_partition(m: IndexModel, i: int, line: Seq<u8>)
    requires
        sound(m, i),
    ensures
        sound(m.after_line(i, line), i + 1),
        m.after_line(i, line).next_line == m.next_line,
{
    reveal(IndexModel::after_line);
    let s = crate::ansi::stripped(line);
    if !vstd::utf8::valid_utf8(s) || (!crate::index::may_bound(line) && m.open != OpenModel::Code) {
        lemma_content(m, i, line);
    } else {
        match crate::boundary::boundary(s) {
            BoundaryModel::Banner { name } => lemma_banner(m, i, name),
            BoundaryModel::Rule => {},
            BoundaryModel::Compiling { addr, name, sfi, tier } => lemma_compiling(
                m,
                i,
                addr,
                name,
                sfi,
                tier,
            ),
            BoundaryModel::Begin { name, tier } => lemma_compiling(m, i, None, name, None, tier),
            BoundaryModel::Finished => lemma_finished(m, i, s),
            BoundaryModel::Event(event) => lemma_event(m, i, event, s),
            BoundaryModel::Function { addr, name, sfi } => lemma_function(m, i, addr, name, sfi, s),
            BoundaryModel::CodeBanner { name } => lemma_code_start(m, i, name),
            BoundaryModel::CodeEnd => lemma_code_end(m, i, s),
            BoundaryModel::Content => if m.open == OpenModel::Code {
                lemma_code_line(m, i, s);
            } else {
                lemma_content(m, i, s);
            },
        }
    }
}

proof fn lemma_advanced(m: IndexModel, buffer: LogModel, end: int)
    requires
        sound(m, m.next_line),
    ensures
        sound(m.advanced(buffer, end), m.advanced(buffer, end).next_line),
        m.next_line <= end ==> m.advanced(buffer, end).next_line == end,
        m.next_line > end ==> m.advanced(buffer, end) == m,
    decreases end - m.next_line,
{
    if m.next_line < end {
        law_every_line_keeps_the_partition(m, m.next_line, buffer.line_or_empty(m.next_line));
        let next = m.stepped(buffer);
        let after = m.after_line(m.next_line, buffer.line_or_empty(m.next_line));
        assert(sound(next, next.next_line));
        lemma_advanced(next, buffer, end);
    }
}

/// However often an index takes in lines, its closed sections partition the
/// lines before the open one; once the input is finished, the sections
/// partition all lines: none is dropped, none is counted twice.
pub proof fn law_sections_partition_the_lines(m: IndexModel, buffer: LogModel, finished: bool)
    requires
        sound(m, m.next_line),
        m.next_line <= buffer.starts.len(),
    ensures
        sound(m.ingested(buffer, finished), m.ingested(buffer, finished).next_line),
        finished ==> tiles(
            m.ingested(buffer, finished).compilations,
            m.ingested(buffer, finished).raw,
            buffer.starts.len() as int,
        ),
{
    let n = buffer.starts.len() as int;
    if finished {
        lemma_advanced(m, buffer, n);
        lemma_closed(m.advanced(buffer, n), n);
    } else {
        lemma_advanced(m, buffer, n - 1);
    }
}

/// An index that has seen nothing is sound.
pub proof fn law_a_fresh_index_is_sound(filter: Option<Seq<char>>)
    ensures
        sound(fresh_index(filter), 0),
{
}

} // verus!
