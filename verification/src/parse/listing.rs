//! Listings without graph structure: machine code, tables, raw source.
//!
//! The structured rows are those of a disassembly,
//! `0xADDR  OFF  ENCODING  mnemonic operands…`. One architecture prints branch
//! targets as `(addr 0x…)` and comments behind `;;`, another prints `<+0x…>`.
//! Rows that some branch of the listing lands on are labelled: they are its
//! basic blocks.

use std::collections::HashSet;
use std::ops::Range;
use vstd::prelude::*;
#[allow(unused_imports)]
use vstd::string::*;

use crate::model::{count_up, span_of, LineInfo, ParsedPhase, Span};
#[allow(unused_imports)]
use crate::model::{
    empty_phase, line_model, line_models, next_count, span, LineModel, PhaseModel,
};
use crate::source::LogBuffer;
use crate::text;
#[allow(unused_imports)]
use crate::text::{find_from, hex_u32, hex_u64, occurs_at, run_end, trimmed_end, word_is, ByteClass};

verus! {

/// The `open…close` token that starts at or after `from` and ends within `to`.
pub open spec fn token_in(
    s: Seq<u8>,
    from: int,
    to: int,
    open: Seq<u8>,
    close: Seq<u8>,
) -> Option<(int, int)> {
    match find_from(s.subrange(0, to), from, open) {
        Some(a) => match find_from(s.subrange(0, to), a, close) {
            Some(b) => Some((a, b + close.len())),
            None => None,
        },
        None => None,
    }
}

/// Finds the first `open…close` token in `from..to`.
pub fn find_token(s: &[u8], from: usize, to: usize, open: &str, close: &str) -> (token: Option<
    (usize, usize),
>)
    requires
        from <= to <= s.len(),
    ensures
        match token_in(s@, from as int, to as int, open.spec_bytes(), close.spec_bytes()) {
            Some((a, b)) => token matches Some(t) && t.0 == a && t.1 == b && from <= a <= b <= to
                && occurs_at(s@, a, open.spec_bytes()),
            None => token is None,
        },
{
    let t = vstd::slice::slice_subrange(s, 0, to);
    match text::find(t, from, open) {
        None => None,
        Some(a) => {
            proof {
                let w = open.spec_bytes();
                assert(t@.subrange(a as int, a + w.len()) =~= s@.subrange(a as int, a + w.len()));
            }
            match text::find(t, a, close) {
                None => None,
                Some(b) => Some((a, b + close.len())),
            }
        },
    }
}

/// Where a branch goes, and the token that says so.
pub struct BranchModel {
    pub target: Option<Span>,
    pub offset: Option<u32>,
    pub addr: Option<u64>,
}

/// The branch target among the operands in `from..to`. An absolute address wins
/// over a code offset.
pub open spec fn branch_in(s: Seq<u8>, from: int, to: int) -> BranchModel {
    match token_in(s, from, to, "(addr 0x".spec_bytes(), ")".spec_bytes()) {
        Some((a, b)) => {
            let h = a + "(addr 0x".spec_bytes().len();
            BranchModel {
                target: Some(span(a, b)),
                offset: None,
                addr: hex_u64(s, h, run_end(s, h, ByteClass::Hex)),
            }
        },
        None => match token_in(s, from, to, "<+0x".spec_bytes(), ">".spec_bytes()) {
            Some((a, b)) => {
                let h = a + "<+0x".spec_bytes().len();
                BranchModel {
                    target: Some(span(a, b)),
                    offset: hex_u32(s, h, run_end(s, h, ByteClass::Hex)),
                    addr: None,
                }
            },
            None => BranchModel { target: None, offset: None, addr: None },
        },
    }
}

/// Three hexadecimal columns and then the instruction. Nothing is labelled
/// before the whole listing is read.
pub open spec fn disasm_row(s: Seq<u8>) -> Option<LineModel> {
    let h = "0x".spec_bytes().len() as int;
    let he = run_end(s, h, ByteClass::Hex);
    let o = run_end(s, he, ByteClass::Space);
    let oe = run_end(s, o, ByteClass::Hex);
    let c = run_end(s, oe, ByteClass::Space);
    let ce = run_end(s, c, ByteClass::Hex);
    let at = run_end(s, ce, ByteClass::Space);
    let comment = find_from(s, at, ";;".spec_bytes());
    let operands_end = match comment {
        Some(k) => k,
        None => s.len() as int,
    };
    let branch = branch_in(s, at, operands_end);
    if occurs_at(s, 0, "0x".spec_bytes()) && he > h && o > he && c > oe && ce - c >= 2 && at > ce
        && at < s.len() {
        match hex_u32(s, o, oe) {
            Some(offset) => Some(
                LineModel::Disasm {
                    offset,
                    offset_span: span(o, oe),
                    addr: match hex_u64(s, h, he) {
                        Some(a) => a,
                        None => 0,
                    },
                    mnemonic: span(at, run_end(s, at, ByteClass::Visible)),
                    target: branch.target,
                    target_offset: branch.offset,
                    target_addr: branch.addr,
                    labeled: false,
                    comment: match comment {
                        Some(k) => Some(span(k, trimmed_end(s, 0, s.len() as int))),
                        None => None,
                    },
                },
            ),
            None => None,
        }
    } else {
        None
    }
}

/// Where a branch goes, and the token that says so.
pub struct Branch {
    pub target: Option<Span>,
    pub offset: Option<u32>,
    pub addr: Option<u64>,
}

fn read_branch(s: &[u8], from: usize, to: usize) -> (branch: Branch)
    requires
        from <= to <= s.len(),
    ensures
        branch.target == branch_in(s@, from as int, to as int).target,
        branch.offset == branch_in(s@, from as int, to as int).offset,
        branch.addr == branch_in(s@, from as int, to as int).addr,
{
    match find_token(s, from, to, "(addr 0x", ")") {
        Some((a, b)) => {
            let h: usize = a + "(addr 0x".len();
            let e: usize = text::skip(s, h, ByteClass::Hex);
            Branch { target: Some(span_of(a, b)), offset: None, addr: text::parse_hex(s, h, e) }
        },
        None => match find_token(s, from, to, "<+0x", ">") {
            Some((a, b)) => {
                let h: usize = a + "<+0x".len();
                let e: usize = text::skip(s, h, ByteClass::Hex);
                Branch {
                    target: Some(span_of(a, b)),
                    offset: text::parse_hex_u32(s, h, e),
                    addr: None,
                }
            },
            None => Branch { target: None, offset: None, addr: None },
        },
    }
}

/// Reads a row of disassembly.
pub fn parse_disasm_row(s: &[u8]) -> (row: Option<LineInfo>)
    ensures
        line_model(row) == disasm_row(s@),
{
    if !text::starts_with_at(s, 0, "0x") {
        return None;
    }
    let h: usize = "0x".len();
    let he: usize = text::skip(s, h, ByteClass::Hex);
    let o: usize = text::skip(s, he, ByteClass::Space);
    if he == h || o == he {
        return None;
    }
    let oe: usize = text::skip(s, o, ByteClass::Hex);
    let c: usize = text::skip(s, oe, ByteClass::Space);
    if c == oe {
        return None;
    }
    let offset: u32 = match text::parse_hex_u32(s, o, oe) {
        Some(offset) => offset,
        None => {
            return None;
        },
    };
    let ce: usize = text::skip(s, c, ByteClass::Hex);
    let at: usize = text::skip(s, ce, ByteClass::Space);
    if ce - c < 2 || at == ce || at >= s.len() {
        return None;
    }
    let addr: u64 = match text::parse_hex(s, h, he) {
        Some(a) => a,
        None => 0,
    };
    let m: usize = text::skip(s, at, ByteClass::Visible);
    let found: Option<usize> = text::find(s, at, ";;");
    let operands_end: usize = match found {
        Some(k) => k,
        None => s.len(),
    };
    let comment: Option<Span> = match found {
        Some(k) => Some(span_of(k, text::trim_end(s, 0, s.len()))),
        None => None,
    };
    let branch = read_branch(s, at, operands_end);
    Some(
        LineInfo::Disasm {
            offset,
            offset_span: span_of(o, oe),
            addr,
            mnemonic: span_of(at, m),
            target: branch.target,
            target_offset: branch.offset,
            target_addr: branch.addr,
            labeled: false,
            comment,
        },
    )
}

/// One line of a listing. A line of an instruction listing that is no row says
/// so, rather than passing for furniture.
pub open spec fn listing_line(name: Seq<u8>, s: Seq<u8>) -> LineModel {
    if word_is(name, 0, name.len() as int, "Raw source".spec_bytes()) {
        if text::blank_from(s, 0) {
            LineModel::Control
        } else {
            LineModel::Source
        }
    } else if disasm_row(s) is Some {
        disasm_row(s)->0
    } else if word_is(name, 0, name.len() as int, "Instructions".spec_bytes())
        && !text::blank_from(s, 0) {
        LineModel::Annotation { after_node: None }
    } else {
        LineModel::Control
    }
}

fn classify_listing_line(name: &[u8], s: &[u8]) -> (info: LineInfo)
    ensures
        info@ == listing_line(name@, s@),
{
    if text::slice_is(name, 0, name.len(), "Raw source") {
        if text::is_blank(s, 0) {
            return LineInfo::Control;
        }
        return LineInfo::Source;
    }
    if let Some(info) = parse_disasm_row(s) {
        return info;
    }
    if text::slice_is(name, 0, name.len(), "Instructions") && !text::is_blank(s, 0) {
        return LineInfo::Annotation { after_node: None };
    }
    LineInfo::Control
}

/// The lines of a listing before its labels are known; line zero is the banner.
pub open spec fn listing_lines(name: Seq<u8>, lines: Seq<Seq<u8>>) -> Seq<LineModel> {
    Seq::new(
        lines.len(),
        |i: int|
            if i == 0 {
                LineModel::Banner
            } else {
                listing_line(name, lines[i])
            },
    )
}

/// How many of the first `n` lines are annotations, counted as a counter does.
pub open spec fn annotations(infos: Seq<LineModel>, n: int) -> u32
    decreases n,
{
    if n <= 0 {
        0
    } else if infos[n - 1] is Annotation {
        next_count(annotations(infos, n - 1))
    } else {
        annotations(infos, n - 1)
    }
}

/// Line `j` branches to line `i`.
pub open spec fn branches_to(infos: Seq<LineModel>, j: int, i: int) -> bool {
    match (infos[j], infos[i]) {
        (
            LineModel::Disasm { target_offset, target_addr, .. },
            LineModel::Disasm { offset, addr, .. },
        ) => target_offset == Some(offset) || target_addr == Some(addr),
        _ => false,
    }
}

/// A row with its label set.
pub open spec fn with_label(info: LineModel, yes: bool) -> LineModel {
    match info {
        LineModel::Disasm {
            offset,
            offset_span,
            addr,
            mnemonic,
            target,
            target_offset,
            target_addr,
            labeled,
            comment,
        } => LineModel::Disasm {
            offset,
            offset_span,
            addr,
            mnemonic,
            target,
            target_offset,
            target_addr,
            labeled: yes,
            comment,
        },
        _ => info,
    }
}

/// Some line branches to line `i`.
pub open spec fn is_leader(infos: Seq<LineModel>, i: int) -> bool {
    exists|j: int| 0 <= j < infos.len() && #[trigger] branches_to(infos, j, i)
}

/// A listing with its labels: a row is labelled exactly where some branch lands.
pub open spec fn labelled(infos: Seq<LineModel>) -> Seq<LineModel> {
    Seq::new(infos.len(), |i: int| with_label(infos[i], is_leader(infos, i)))
}

/// The parse of a listing.
pub open spec fn listing_phase(name: Seq<u8>, lines: Seq<Seq<u8>>) -> PhaseModel {
    let infos = listing_lines(name, lines);
    PhaseModel {
        infos: labelled(infos),
        annotation_count: annotations(infos, infos.len() as int),
        ..empty_phase()
    }
}

/// Line `j` of the listing names `offset` as its destination.
pub open spec fn names_offset(infos: Seq<LineModel>, j: int, offset: u32) -> bool {
    infos[j] matches LineModel::Disasm { target_offset, .. } && target_offset == Some(offset)
}

/// Line `j` of the listing names `addr` as its destination.
pub open spec fn names_addr(infos: Seq<LineModel>, j: int, addr: u64) -> bool {
    infos[j] matches LineModel::Disasm { target_addr, .. } && target_addr == Some(addr)
}

fn collect_targets(infos: &Vec<LineInfo>) -> (sets: (HashSet<u32>, HashSet<u64>))
    ensures
        forall|x: u32| #[trigger]
            sets.0@.contains(x) <==> exists|j: int|
                0 <= j < infos@.len() && names_offset(line_models(infos@), j, x),
        forall|x: u64| #[trigger]
            sets.1@.contains(x) <==> exists|j: int|
                0 <= j < infos@.len() && names_addr(line_models(infos@), j, x),
{
    broadcast use vstd::std_specs::hash::group_hash_axioms;

    let ghost models = line_models(infos@);
    let mut offsets: HashSet<u32> = HashSet::new();
    let mut addrs: HashSet<u64> = HashSet::new();
    let mut k: usize = 0;
    while k < infos.len()
        invariant
            k <= infos.len(),
            models == line_models(infos@),
            forall|x: u32| #[trigger]
                offsets@.contains(x) <==> exists|j: int| 0 <= j < k && names_offset(models, j, x),
            forall|x: u64| #[trigger]
                addrs@.contains(x) <==> exists|j: int| 0 <= j < k && names_addr(models, j, x),
        decreases infos.len() - k,
    {
        let ghost offsets_before = offsets@;
        let ghost addrs_before = addrs@;
        assert(models[k as int] == infos@[k as int]@);
        if let LineInfo::Disasm { target_offset, target_addr, .. } = &infos[k] {
            if let Some(x) = target_offset {
                offsets.insert(*x);
                assert(names_offset(models, k as int, *x));
            }
            if let Some(x) = target_addr {
                addrs.insert(*x);
                assert(names_addr(models, k as int, *x));
            }
        }
        assert forall|x: u32| #[trigger] offsets@.contains(x) <==> exists|j: int|
            0 <= j < k + 1 && names_offset(models, j, x) by {
            assert(offsets@.contains(x) <==> offsets_before.contains(x) || names_offset(
                models,
                k as int,
                x,
            ));
        }
        assert forall|x: u64| #[trigger] addrs@.contains(x) <==> exists|j: int|
            0 <= j < k + 1 && names_addr(models, j, x) by {
            assert(addrs@.contains(x) <==> addrs_before.contains(x) || names_addr(
                models,
                k as int,
                x,
            ));
        }
        k += 1;
    }
    (offsets, addrs)
}

fn set_label(info: LineInfo, yes: bool) -> (out: LineInfo)
    ensures
        out@ == with_label(info@, yes),
{
    match info {
        LineInfo::Disasm {
            offset,
            offset_span,
            addr,
            mnemonic,
            target,
            target_offset,
            target_addr,
            labeled: _,
            comment,
        } => LineInfo::Disasm {
            offset,
            offset_span,
            addr,
            mnemonic,
            target,
            target_offset,
            target_addr,
            labeled: yes,
            comment,
        },
        other => other,
    }
}

fn label_rows(infos: Vec<LineInfo>) -> (out: Vec<LineInfo>)
    ensures
        line_models(out@) == labelled(line_models(infos@)),
{
    let ghost models = line_models(infos@);
    let (offsets, addrs) = collect_targets(&infos);
    let mut rest: Vec<LineInfo> = infos;
    let mut reversed: Vec<LineInfo> = Vec::new();
    let ghost n = models.len();
    while rest.len() > 0
        invariant
            rest@.len() + reversed@.len() == n,
            n == models.len(),
            forall|k: int| 0 <= k < rest@.len() ==> #[trigger] rest@[k]@ == models[k],
            forall|k: int|
                0 <= k < reversed@.len() ==> #[trigger] reversed@[k]@ == labelled(
                    models,
                )[n - 1 - k],
            forall|x: u32| #[trigger]
                offsets@.contains(x) <==> exists|j: int| 0 <= j < n && names_offset(models, j, x),
            forall|x: u64| #[trigger]
                addrs@.contains(x) <==> exists|j: int| 0 <= j < n && names_addr(models, j, x),
        decreases rest@.len(),
    {
        broadcast use vstd::std_specs::hash::group_hash_axioms;

        let ghost at = rest@.len() - 1;
        let ghost before = rest@;
        if let Some(info) = rest.pop() {
            let mut yes: bool = false;
            if let LineInfo::Disasm { offset, addr, .. } = &info {
                yes = offsets.contains(offset) || addrs.contains(addr);
            }
            proof {
                assert(before[at]@ == models[at]);
                assert(info@ == models[at]);
                if let LineModel::Disasm { offset, addr, .. } = models[at] {
                    assert(is_leader(models, at) ==> yes) by {
                        if is_leader(models, at) {
                            let j = choose|j: int|
                                0 <= j < models.len() && #[trigger] branches_to(models, j, at);
                            assert(names_offset(models, j, offset) || names_addr(models, j, addr));
                        }
                    }
                    assert(yes ==> is_leader(models, at)) by {
                        if offsets@.contains(offset) {
                            let j = choose|j: int| 0 <= j < n && names_offset(models, j, offset);
                            assert(branches_to(models, j, at));
                        }
                        if addrs@.contains(addr) {
                            let j = choose|j: int| 0 <= j < n && names_addr(models, j, addr);
                            assert(branches_to(models, j, at));
                        }
                    }
                }
            }
            let ghost model = info@;
            let done = set_label(info, yes);
            assert(done@ == labelled(models)[at]);
            reversed.push(done);
        }
    }
    let mut out: Vec<LineInfo> = Vec::new();
    while reversed.len() > 0
        invariant
            out@.len() + reversed@.len() == n,
            n == models.len(),
            forall|k: int|
                0 <= k < reversed@.len() ==> #[trigger] reversed@[k]@ == labelled(
                    models,
                )[n - 1 - k],
            forall|k: int| 0 <= k < out@.len() ==> #[trigger] out@[k]@ == labelled(models)[k],
        decreases reversed@.len(),
    {
        let ghost before = reversed@;
        if let Some(info) = reversed.pop() {
            assert(before[before.len() - 1]@ == labelled(models)[n - before.len()]);
            out.push(info);
        }
    }
    assert(line_models(out@) =~= labelled(models));
    out
}

/// Parses a listing.
pub fn parse_listing_phase(buffer: &LogBuffer, lines: Range<usize>, name: &str) -> (phase:
    ParsedPhase)
    requires
        buffer.wf(),
    ensures
        phase@ == listing_phase(
            name.spec_bytes(),
            buffer@.texts(lines.start as int, lines.end as int),
        ),
{
    let ghost texts = buffer@.texts(lines.start as int, lines.end as int);
    let ghost goal = listing_lines(name.spec_bytes(), texts);
    let mut infos: Vec<LineInfo> = Vec::new();
    let mut count: u32 = 0;
    let mut line: usize = lines.start;
    while line < lines.end
        invariant
            buffer.wf(),
            texts == buffer@.texts(lines.start as int, lines.end as int),
            goal == listing_lines(name.spec_bytes(), texts),
            lines.start <= line,
            line <= lines.end || line == lines.start,
            infos@.len() == line - lines.start,
            forall|k: int| 0 <= k < infos@.len() ==> #[trigger] infos@[k]@ == goal[k],
            count == annotations(goal, line - lines.start),
        decreases lines.end - line,
    {
        let info = if line == lines.start {
            LineInfo::Banner
        } else {
            let chars = buffer.line_text(line);
            let s = chars.as_str().as_bytes();
            assert(texts[line - lines.start] == s@);
            classify_listing_line(name.as_bytes(), s)
        };
        assert(info@ == goal[line - lines.start]);
        if let LineInfo::Annotation { .. } = &info {
            count = count_up(count);
        }
        infos.push(info);
        line += 1;
    }
    assert(line_models(infos@) =~= goal);
    let mut phase = ParsedPhase::default();
    phase.infos = label_rows(infos);
    phase.annotation_count = count;
    assert(phase@ =~= listing_phase(name.spec_bytes(), texts));
    phase
}

/// A label stands exactly on the rows that some branch of the listing lands on.
pub proof fn law_labels_are_branch_destinations(infos: Seq<LineModel>, i: int)
    requires
        0 <= i < infos.len(),
        infos[i] is Disasm,
    ensures
        labelled(infos)[i]->labeled <==> exists|j: int|
            0 <= j < infos.len() && #[trigger] branches_to(infos, j, i),
{
}

} // verus!
