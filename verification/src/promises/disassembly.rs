//! Rows of disassembly and where their branches go.

use vstd::prelude::*;
#[allow(unused_imports)]
use vstd::string::*;

#[allow(unused_imports)]
use super::bytes::{
    hex_digit, hex_number, hex_run, lemma_hex, lemma_mentions, lemma_says, mentions, says,
};
#[allow(unused_imports)]
use crate::app::nav::{branch_step, StepModel};
#[allow(unused_imports)]
use crate::app::refs::{destination_from, insn_from};
#[allow(unused_imports)]
use crate::app::Anchor;
#[allow(unused_imports)]
use crate::model::{CompilationModel, LineModel, PhaseModel};
#[allow(unused_imports)]
use crate::parse::listing::{
    branch_in, disasm_row, labelled, listing_lines, listing_phase, token_in, BranchModel,
};
#[allow(unused_imports)]
use crate::text::{find_from, in_class, lemma_run_end, run_end, ByteClass};

verus! {

/// `word` is printed at `a`, within `from..to`, and nowhere before it in there.
pub open spec fn first_said(s: Seq<u8>, from: int, to: int, a: int, word: Seq<char>) -> bool {
    &&& from <= a
    &&& a + word.len() <= to
    &&& says(s, a, word)
    &&& forall|k: int| from <= k < a ==> !#[trigger] says(s, k, word)
}

/// `word` is not printed within `from..to`.
pub open spec fn not_said(s: Seq<u8>, from: int, to: int, word: Seq<char>) -> bool {
    forall|k: int| from <= k && k + word.len() <= to ==> !#[trigger] says(s, k, word)
}

pub(crate) proof fn lemma_said_in(s: Seq<u8>, to: int, k: int, word: Seq<char>)
    requires
        0 <= to <= s.len(),
    ensures
        says(s.subrange(0, to), k, word) == (says(s, k, word) && k + word.len() <= to),
{
    let t = s.subrange(0, to);
    if says(s, k, word) && k + word.len() <= to {
        assert forall|j: int| 0 <= j < word.len() implies t[k + j] as int == (
        #[trigger] word[j]) as int by {
            assert(t[k + j] == s[k + j]);
        }
    }
    if says(t, k, word) {
        assert forall|j: int| 0 <= j < word.len() implies s[k + j] as int == (
        #[trigger] word[j]) as int by {
            assert(t[k + j] == s[k + j]);
        }
    }
}

pub(crate) proof fn lemma_first(s: Seq<u8>, from: int, to: int, a: int, word: Seq<char>)
    requires
        vstd::utf8::is_ascii_chars(word),
        word.len() > 0,
        0 <= from <= to <= s.len(),
    ensures
        first_said(s, from, to, a, word) ==> find_from(
            s.subrange(0, to),
            from,
            vstd::utf8::encode_utf8(word),
        ) == Some(a),
        not_said(s, from, to, word) ==> find_from(
            s.subrange(0, to),
            from,
            vstd::utf8::encode_utf8(word),
        ) is None,
{
    let t = s.subrange(0, to);
    lemma_mentions(t, from, word);
    if first_said(s, from, to, a, word) {
        lemma_said_in(s, to, a, word);
        assert(mentions(t, from, word));
        let k = find_from(t, from, vstd::utf8::encode_utf8(word))->0;
        lemma_said_in(s, to, k, word);
    }
    if not_said(s, from, to, word) {
        assert forall|k: int| from <= k implies !#[trigger] says(t, k, word) by {
            lemma_said_in(s, to, k, word);
        }
    }
}

/// A token that opens with `word`, goes on with hexadecimal digits up to `e` and
/// closes there: where it closes.
proof fn lemma_token(s: Seq<u8>, from: int, to: int, a: int, e: int, word: Seq<char>, close: char)
    requires
        vstd::utf8::is_ascii_chars(word),
        word.len() > 0,
        '\0' <= close <= '\u{7f}',
        !hex_digit(close as u8),
        0 <= from <= to <= s.len(),
        first_said(s, from, to, a, word),
        hex_run(s, a + word.len(), e),
        e < to,
        s[e] == close as u8,
        forall|j: int| 0 <= j < word.len() ==> #[trigger] word[j] != close,
    ensures
        token_in(
            s,
            from,
            to,
            vstd::utf8::encode_utf8(word),
            vstd::utf8::encode_utf8(seq![close]),
        ) == Some((a, e + 1)),
        vstd::utf8::encode_utf8(word).len() == word.len(),
{
    lemma_first(s, from, to, a, word);
    let c = seq![close];
    lemma_says(s, a, word);
    lemma_says(s, e, c);
    assert(says(s, e, c));
    assert forall|k: int| a <= k < e implies !#[trigger] says(s, k, c) by {
        if says(s, k, c) {
            assert(s[k + 0] as int == c[0] as int);
            if k < a + word.len() {
                assert(s[a + (k - a)] as int == word[k - a] as int);
            } else {
                assert(hex_digit(s[k]));
            }
        }
    }
    lemma_first(s, a, to, e, c);
}

proof fn lemma_close(c: char, lit: Seq<char>)
    requires
        lit.len() == 1,
        lit[0] == c,
    ensures
        lit == seq![c],
{
    assert(lit =~= seq![c]);
}

/// A row that prints `(addr 0xH)` among its operands goes to the address `H`.
#[verifier::spinoff_prover]
#[verifier::rlimit(60)]
pub proof fn law_a_printed_address_is_the_target(
    s: Seq<u8>,
    from: int,
    to: int,
    a: int,
    e: int,
)
    requires
        0 <= from <= to <= s.len(),
        first_said(s, from, to, a, "(addr 0x"@),
        hex_run(s, a + 8, e),
        e < to,
        s[e] == 41,
        hex_number(s, a + 8, e) <= u64::MAX,
        e < u32::MAX,
    ensures
        ({
            let b = branch_in(s, from, to);
            &&& b.addr matches Some(x) && x == hex_number(s, a + 8, e)
            &&& b.offset is None
            &&& b.target matches Some(t) && t.start == a && t.end == e + 1
        }),
{
    reveal_strlit("(addr 0x");
    reveal_strlit(")");
    lemma_close(')', ")"@);
    lemma_token(s, from, to, a, e, "(addr 0x"@, ')');
    lemma_hex(s, a + 8, e);
}

/// A row that prints `<+0xH>` and no address goes to the code offset `H`.
#[verifier::spinoff_prover]
#[verifier::rlimit(60)]
pub proof fn law_a_printed_offset_is_the_target(s: Seq<u8>, from: int, to: int, a: int, e: int)
    requires
        0 <= from <= to <= s.len(),
        not_said(s, from, to, "(addr 0x"@),
        first_said(s, from, to, a, "<+0x"@),
        hex_run(s, a + 4, e),
        e < to,
        s[e] == 62,
        hex_number(s, a + 4, e) <= u32::MAX,
        e < u32::MAX,
    ensures
        ({
            let b = branch_in(s, from, to);
            &&& b.offset matches Some(x) && x == hex_number(s, a + 4, e)
            &&& b.addr is None
            &&& b.target matches Some(t) && t.start == a && t.end == e + 1
        }),
{
    reveal_strlit("(addr 0x");
    reveal_strlit("<+0x");
    reveal_strlit(">");
    lemma_close('>', ">"@);
    lemma_first(s, from, to, 0, "(addr 0x"@);
    lemma_token(s, from, to, a, e, "<+0x"@, '>');
    lemma_hex(s, a + 4, e);
}

/// A row that prints neither goes nowhere.
pub proof fn law_a_row_without_token_is_no_branch(s: Seq<u8>, from: int, to: int)
    requires
        0 <= from <= to <= s.len(),
        not_said(s, from, to, "(addr 0x"@),
        not_said(s, from, to, "<+0x"@),
    ensures
        branch_in(s, from, to) == (BranchModel { target: None, offset: None, addr: None }),
{
    reveal_strlit("(addr 0x");
    reveal_strlit("<+0x");
    lemma_first(s, from, to, 0, "(addr 0x"@);
    lemma_first(s, from, to, 0, "<+0x"@);
}

// ---------------------------------------------------------------------------
// The columns
// ---------------------------------------------------------------------------

/// `a..b` is a run of at least one space, and no space follows.
pub open spec fn spaces(s: Seq<u8>, a: int, b: int) -> bool {
    &&& 0 <= a < b <= s.len()
    &&& forall|k: int| a <= k < b ==> #[trigger] s[k] == 32
    &&& b < s.len() ==> s[b] != 32
}

/// The columns of a row: `0x`, an address up to `he`, spaces, an offset in
/// `o..oe`, spaces, the machine code in `c..ce`, spaces, and the instruction at
/// `at`.
pub open spec fn columns(
    s: Seq<u8>,
    he: int,
    o: int,
    oe: int,
    c: int,
    ce: int,
    at: int,
) -> bool {
    &&& says(s, 0, "0x"@)
    &&& hex_run(s, 2, he)
    &&& spaces(s, he, o)
    &&& hex_run(s, o, oe)
    &&& spaces(s, oe, c)
    &&& hex_run(s, c, ce)
    &&& ce - c >= 2
    &&& spaces(s, ce, at)
    &&& at < s.len()
}

pub(crate) proof fn lemma_spaces(s: Seq<u8>, a: int, b: int)
    requires
        spaces(s, a, b),
    ensures
        run_end(s, a, ByteClass::Space) == b,
{
    lemma_run_end(s, a, ByteClass::Space);
    let e = run_end(s, a, ByteClass::Space);
    if e < b {
        assert(s[e] == 32);
    }
    if b < e {
        assert(in_class(ByteClass::Space, s[b]));
    }
}

/// Three columns and an instruction are a row of disassembly: its address and
/// its offset are the numbers that the first two spell. Its branch is read from
/// the operands, which end where a `;;` comment starts.
#[verifier::spinoff_prover]
#[verifier::rlimit(60)]
pub proof fn law_a_row_of_disassembly_is_read(
    s: Seq<u8>,
    he: int,
    o: int,
    oe: int,
    c: int,
    ce: int,
    at: int,
    end: int,
)
    requires
        s.len() < u32::MAX,
        columns(s, he, o, oe, c, ce, at),
        hex_number(s, 2, he) <= u64::MAX,
        hex_number(s, o, oe) <= u32::MAX,
        first_said(s, at, s.len() as int, end, ";;"@) || (end == s.len() && not_said(
            s,
            at,
            s.len() as int,
            ";;"@,
        )),
    ensures
        disasm_row(s) matches Some(LineModel::Disasm {
            offset,
            offset_span,
            addr,
            target,
            target_offset,
            target_addr,
            labeled,
            comment,
            ..
        }) && {
            &&& offset == hex_number(s, o, oe)
            &&& addr == hex_number(s, 2, he)
            &&& offset_span.start == o && offset_span.end == oe
            &&& target == branch_in(s, at, end).target
            &&& target_offset == branch_in(s, at, end).offset
            &&& target_addr == branch_in(s, at, end).addr
            &&& !labeled
            &&& comment is Some <==> end < s.len()
            &&& comment matches Some(k) ==> k.start == end
        },
{
    reveal_strlit("0x");
    reveal_strlit(";;");
    lemma_says(s, 0, "0x"@);
    lemma_hex(s, 2, he);
    lemma_hex(s, o, oe);
    lemma_hex(s, c, ce);
    lemma_spaces(s, he, o);
    lemma_spaces(s, oe, c);
    lemma_spaces(s, ce, at);
    assert(s.subrange(0, s.len() as int) =~= s);
    lemma_first(s, at, s.len() as int, end, ";;"@);
}

// ---------------------------------------------------------------------------
// Labels and jumps
// ---------------------------------------------------------------------------

/// Row `j` of a listing goes to row `i`: it names the offset or the address of
/// that row.
pub open spec fn goes_to(infos: Seq<LineModel>, j: int, i: int) -> bool {
    infos[j] matches LineModel::Disasm { target_offset, target_addr, .. } && (
    infos[i] matches LineModel::Disasm { offset, addr, .. } && (target_offset == Some(offset)
        || target_addr == Some(addr)))
}

/// A row of a listing is labelled exactly where a row of it goes there. Labels
/// change nothing else.
pub proof fn law_a_destination_is_labelled(infos: Seq<LineModel>, i: int)
    requires
        0 <= i < infos.len(),
    ensures
        labelled(infos).len() == infos.len(),
        labelled(infos)[i] matches LineModel::Disasm { labeled, .. } ==> (labeled
            <==> exists|j: int| 0 <= j < infos.len() && #[trigger] goes_to(infos, j, i)),
        match infos[i] {
            LineModel::Disasm {
                offset,
                offset_span,
                addr,
                mnemonic,
                target,
                target_offset,
                target_addr,
                comment,
                ..
            } => labelled(infos)[i] matches LineModel::Disasm {
                offset: o2,
                offset_span: s2,
                addr: a2,
                mnemonic: m2,
                target: t2,
                target_offset: to2,
                target_addr: ta2,
                comment: c2,
                ..
            } && o2 == offset && s2 == offset_span && a2 == addr && m2 == mnemonic && t2 == target
                && to2 == target_offset && ta2 == target_addr && c2 == comment,
            other => labelled(infos)[i] == other,
        },
{
    if exists|j: int| 0 <= j < infos.len() && #[trigger] goes_to(infos, j, i) {
        let j = choose|j: int| 0 <= j < infos.len() && #[trigger] goes_to(infos, j, i);
        assert(crate::parse::listing::branches_to(infos, j, i));
    }
    if exists|j: int|
        0 <= j < infos.len() && #[trigger] crate::parse::listing::branches_to(infos, j, i) {
        let j = choose|j: int|
            0 <= j < infos.len() && #[trigger] crate::parse::listing::branches_to(infos, j, i);
        assert(goes_to(infos, j, i));
    }
}

/// Each line of an instruction listing that is a row of disassembly is kept as
/// one, line by line.
pub proof fn law_a_listing_keeps_its_rows(name: Seq<u8>, lines: Seq<Seq<u8>>, i: int)
    requires
        0 < i < lines.len(),
        says(name, 0, "Instructions"@),
        name.len() == 12,
        disasm_row(lines[i]) is Some,
    ensures
        listing_lines(name, lines)[i] == disasm_row(lines[i])->0,
        listing_phase(name, lines).infos == labelled(listing_lines(name, lines)),
{
    reveal_strlit("Raw source");
    reveal_strlit("Instructions");
    lemma_says(name, 0, "Raw source"@);
    lemma_says(name, 0, "Instructions"@);
}

proof fn lemma_insn(infos: Seq<LineModel>, offset: u32, i: int)
    requires
        0 <= i,
    ensures
        match insn_from(infos, offset, i) {
            Some(k) => i <= k < infos.len() && (infos[k] matches LineModel::Disasm {
                offset: o,
                ..
            } && o == offset) && forall|j: int|
                i <= j < k ==> !(#[trigger] infos[j] matches LineModel::Disasm { offset: o, .. }
                    && o == offset),
            None => forall|j: int|
                i <= j < infos.len() ==> !(#[trigger] infos[j] matches LineModel::Disasm {
                    offset: o,
                    ..
                } && o == offset),
        },
    decreases infos.len() - i,
{
    if i < infos.len() {
        lemma_insn(infos, offset, i + 1);
    }
}

/// A row has this offset or this address.
pub open spec fn is_place(info: LineModel, offset: Option<u32>, addr: Option<u64>) -> bool {
    info matches LineModel::Disasm { offset: o, addr: a, .. } && (offset == Some(o) || addr == Some(
        a,
    ))
}

proof fn lemma_destination(
    infos: Seq<LineModel>,
    offset: Option<u32>,
    addr: Option<u64>,
    i: int,
)
    requires
        0 <= i,
    ensures
        match destination_from(infos, offset, addr, i) {
            Some(k) => i <= k < infos.len() && is_place(infos[k], offset, addr) && forall|j: int|
                i <= j < k ==> !is_place(#[trigger] infos[j], offset, addr),
            None => forall|j: int|
                i <= j < infos.len() ==> !is_place(#[trigger] infos[j], offset, addr),
        },
    decreases infos.len() - i,
{
    if i < infos.len() {
        lemma_destination(infos, offset, addr, i + 1);
    }
}

/// The jump from a branch leads to the first row of its listing that it goes
/// to, if there is one; row `i` is the first with the offset of the branch.
pub proof fn law_a_branch_leads_to_its_destination(
    section: CompilationModel,
    phase: PhaseModel,
    p: int,
    i: int,
    d: int,
)
    requires
        0 <= i < phase.infos.len(),
        0 <= d < phase.infos.len(),
        0 <= section.phases[p].start,
        section.phases[p].start + phase.infos.len() <= usize::MAX,
        phase.infos[i] is Disasm,
        forall|j: int|
            0 <= j < i ==> !(#[trigger] phase.infos[j] matches LineModel::Disasm { offset, .. }
                && offset == phase.infos[i]->Disasm_offset),
        goes_to(phase.infos, i, d),
        forall|j: int| 0 <= j < d ==> !#[trigger] goes_to(phase.infos, i, j),
    ensures
        ({
            let o = phase.infos[i]->Disasm_offset;
            branch_step(section, phase, p, Anchor::Insn(o), o) matches StepModel::Go {
                anchor,
                targets,
                ..
            } && anchor == Anchor::Insn(o) && targets.len() == 1 && targets[0]
                == section.phases[p].start + d
        }),
{
    let infos = phase.infos;
    let o = infos[i]->Disasm_offset;
    lemma_insn(infos, o, 0);
    let (to, ta) = (infos[i]->target_offset, infos[i]->target_addr);
    lemma_destination(infos, to, ta, 0);
    let k = destination_from(infos, to, ta, 0);
    assert(is_place(infos[d], to, ta));
    if let Some(k) = k {
        assert(goes_to(infos, i, k));
    }
}

/// A row that goes to no row of its listing leads nowhere.
pub proof fn law_a_branch_without_destination_leads_nowhere(
    section: CompilationModel,
    phase: PhaseModel,
    p: int,
    i: int,
)
    requires
        0 <= i < phase.infos.len(),
        phase.infos[i] is Disasm,
        forall|j: int|
            0 <= j < i ==> !(#[trigger] phase.infos[j] matches LineModel::Disasm { offset, .. }
                && offset == phase.infos[i]->Disasm_offset),
        forall|j: int| 0 <= j < phase.infos.len() ==> !#[trigger] goes_to(phase.infos, i, j),
    ensures
        ({
            let o = phase.infos[i]->Disasm_offset;
            branch_step(section, phase, p, Anchor::Insn(o), o) is Say
        }),
{
    let infos = phase.infos;
    let o = infos[i]->Disasm_offset;
    lemma_insn(infos, o, 0);
    let (to, ta) = (infos[i]->target_offset, infos[i]->target_addr);
    lemma_destination(infos, to, ta, 0);
    if let Some(k) = destination_from(infos, to, ta, 0) {
        assert(goes_to(infos, i, k));
    }
}

} // verus!
