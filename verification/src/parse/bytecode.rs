//! Bytecode rows, constant-pool entries and feedback-slot headers.
//!
//! A row of a bytecode array reads
//! `0x31a010001b0 @    0 : 33 03 00 00   GetNamedProperty a0, [0:"v"], FBV[0]`.
//! Its operands refer to other rows, to feedback slots and to constant-pool
//! entries; those references are what is recorded here.

use vstd::prelude::*;
#[allow(unused_imports)]
use vstd::string::*;

use crate::model::{span_of, BytecodeRow, IcState, LineInfo, Span};
#[allow(unused_imports)]
use crate::model::{line_model, span, LineModel, RowModel};
use crate::text;
#[allow(unused_imports)]
use crate::text::{
    byte_is, class_is, decimal_u32, find_from, holds_word, occurs_at, run_end, trimmed_end,
    ByteClass,
};

verus! {

/// A two-digit encoding byte that is a token of its own stands at `at`.
pub open spec fn pair_at(s: Seq<u8>, at: int) -> bool {
    &&& class_is(s, at, ByteClass::Hex)
    &&& class_is(s, at + 1, ByteClass::Hex)
    &&& at + 2 == s.len() || byte_is(s, at + 2, 0x20)
}

/// The end of the encoding bytes that start at `at`.
pub open spec fn pairs_end(s: Seq<u8>, at: int) -> int
    decreases s.len() - at,
{
    if pair_at(s, at) {
        proof {
            text::lemma_run_end(s, at + 2, ByteClass::Space);
        }
        pairs_end(s, run_end(s, at + 2, ByteClass::Space))
    } else {
        at
    }
}

/// The end of the mnemonic that starts at `at`; `at` itself where none does.
pub open spec fn mnemonic_end(s: Seq<u8>, at: int) -> int {
    if 0 <= at < s.len() && text::is_alpha(s[at]) {
        run_end(s, at, ByteClass::Mnemonic)
    } else {
        at
    }
}

/// One past the bracket that closes the `depth` brackets open at `j`.
pub open spec fn bracket_close(s: Seq<u8>, j: int, depth: int) -> Option<int>
    decreases s.len() - j,
{
    if depth <= 0 {
        Some(j)
    } else if j < 0 || j >= s.len() {
        None
    } else if s[j] == 0x5b {
        bracket_close(s, j + 1, depth + 1)
    } else if s[j] == 0x5d {
        bracket_close(s, j + 1, depth - 1)
    } else {
        bracket_close(s, j + 1, depth)
    }
}

/// What one operand refers to.
pub enum Operand {
    /// Nothing that is followed.
    Plain,
    /// Another row, by its offset.
    Target(u32, Span),
    /// A feedback slot.
    Slot(u32, Span),
    /// A constant-pool entry.
    Pool(u32, Span),
}

/// The references of one row.
#[verifier::ext_equal]
pub struct OperandRefs {
    pub targets: Seq<(u32, Span)>,
    pub fbv: Seq<(u32, Span)>,
    pub pool: Seq<(u32, Span)>,
}

impl OperandRefs {
    /// With one more operand.
    pub open spec fn with(self, operand: Operand) -> OperandRefs {
        match operand {
            Operand::Plain => self,
            Operand::Target(n, at) => OperandRefs { targets: self.targets.push((n, at)), ..self },
            Operand::Slot(n, at) => OperandRefs { fbv: self.fbv.push((n, at)), ..self },
            Operand::Pool(n, at) => OperandRefs { pool: self.pool.push((n, at)), ..self },
        }
    }
}

/// `FBV[N]` at `i`: where it ends and the slot that it names.
pub open spec fn slot_operand(s: Seq<u8>, i: int) -> Option<(int, Operand)> {
    let d = i + "FBV[".spec_bytes().len();
    let e = run_end(s, d, ByteClass::Digit);
    if occurs_at(s, i, "FBV[".spec_bytes()) && e > d && byte_is(s, e, 0x5d) {
        Some(
            (
                e + 1,
                match decimal_u32(s, d, e) {
                    Some(n) => Operand::Slot(n, span(i, e + 1)),
                    None => Operand::Plain,
                },
            ),
        )
    } else {
        None
    }
}

/// `[N:…]` at `i`: where its matching bracket ends and the entry that it names.
pub open spec fn pool_operand(s: Seq<u8>, i: int) -> Option<(int, Operand)> {
    let e = run_end(s, i + 1, ByteClass::Digit);
    if byte_is(s, i, 0x5b) && e > i + 1 && byte_is(s, e, 0x3a) {
        match (bracket_close(s, i + 1, 1), decimal_u32(s, i + 1, e)) {
            (Some(j), Some(n)) => Some((j, Operand::Pool(n, span(i, j)))),
            _ => None,
        }
    } else {
        None
    }
}

/// `(0x… @ N)` at `i`: where it ends and the offset that it names.
pub open spec fn jump_operand(s: Seq<u8>, i: int) -> Option<(int, Operand)> {
    let h = i + "(0x".spec_bytes().len();
    let he = run_end(s, h, ByteClass::Hex);
    let d = he + " @ ".spec_bytes().len();
    let e = run_end(s, d, ByteClass::Digit);
    if occurs_at(s, i, "(0x".spec_bytes()) && he > h && occurs_at(s, he, " @ ".spec_bytes()) && e > d
        && byte_is(s, e, 0x29) {
        Some(
            (
                e + 1,
                match decimal_u32(s, d, e) {
                    Some(n) => Operand::Target(n, span(i, e + 1)),
                    None => Operand::Plain,
                },
            ),
        )
    } else {
        None
    }
}

/// `@N` at `i`, a case of a switch table.
pub open spec fn case_operand(s: Seq<u8>, i: int) -> Option<(int, Operand)> {
    let e = run_end(s, i + 1, ByteClass::Digit);
    if byte_is(s, i, 0x40) && e > i + 1 {
        Some(
            (
                e,
                match decimal_u32(s, i + 1, e) {
                    Some(n) => Operand::Target(n, span(i, e)),
                    None => Operand::Plain,
                },
            ),
        )
    } else {
        None
    }
}

/// The operand that starts at `i`, where one does. Switch cases count only
/// inside `braces` open braces.
pub open spec fn operand_at(s: Seq<u8>, i: int, braces: int) -> Option<(int, Operand)> {
    if occurs_at(s, i, "FBV[".spec_bytes()) {
        slot_operand(s, i)
    } else if byte_is(s, i, 0x5b) {
        pool_operand(s, i)
    } else if occurs_at(s, i, "(0x".spec_bytes()) {
        jump_operand(s, i)
    } else if braces > 0 {
        case_operand(s, i)
    } else {
        None
    }
}

/// How many braces are open after the byte at `i`.
pub open spec fn braces_after(s: Seq<u8>, i: int, braces: int) -> int {
    if byte_is(s, i, 0x7b) {
        braces + 1
    } else if byte_is(s, i, 0x7d) && braces > 0 {
        braces - 1
    } else {
        braces
    }
}

/// The references from `i` on, added to `refs`.
pub open spec fn operands_from(s: Seq<u8>, i: int, braces: int, refs: OperandRefs) -> OperandRefs
    decreases s.len() - i,
{
    if i < 0 || i >= s.len() {
        refs
    } else {
        match operand_at(s, i, braces) {
            Some((next, operand)) => {
                if i < next <= s.len() {
                    operands_from(s, next, braces, refs.with(operand))
                } else {
                    refs
                }
            },
            None => operands_from(s, i + 1, braces_after(s, i, braces), refs),
        }
    }
}

/// The row whose part after the colon starts at `at`.
pub open spec fn row_tail(
    s: Seq<u8>,
    at: int,
    offset: u32,
    offset_span: Span,
    primary: bool,
    src_pos: Option<u32>,
) -> Option<LineModel> {
    let first = run_end(s, at, ByteClass::Space);
    let m = pairs_end(s, first);
    let end = mnemonic_end(s, m);
    let refs = operands_from(
        s,
        end,
        0,
        OperandRefs { targets: Seq::empty(), fbv: Seq::empty(), pool: Seq::empty() },
    );
    if pair_at(s, first) {
        Some(
            LineModel::Bytecode(
                RowModel {
                    offset,
                    offset_span,
                    mnemonic: span(m, end),
                    targets: refs.targets,
                    fbv: refs.fbv,
                    pool: refs.pool,
                    primary,
                    src_pos,
                },
            ),
        )
    } else {
        None
    }
}

fn is_pair_at(s: &[u8], at: usize) -> (yes: bool)
    requires
        at <= s.len(),
    ensures
        yes == pair_at(s@, at as int),
        yes ==> at + 2 <= s.len(),
{
    text::class_at(s, at, ByteClass::Hex) && s.len() - at >= 2 && text::class_at(
        s,
        at + 1,
        ByteClass::Hex,
    ) && (s.len() - at == 2 || s[at + 2] == 0x20)
}

fn skip_pairs(s: &[u8], at: usize) -> (end: usize)
    requires
        at <= s.len(),
    ensures
        end == pairs_end(s@, at as int),
        at <= end <= s.len(),
{
    let mut k: usize = at;
    while is_pair_at(s, k)
        invariant
            at <= k <= s.len(),
            pairs_end(s@, at as int) == pairs_end(s@, k as int),
        decreases s.len() - k,
    {
        k = text::skip(s, k + 2, ByteClass::Space);
    }
    k
}

fn skip_mnemonic(s: &[u8], at: usize) -> (end: usize)
    requires
        at <= s.len(),
    ensures
        end == mnemonic_end(s@, at as int),
        at <= end <= s.len(),
{
    if at < s.len() && ((0x41 <= s[at] && s[at] <= 0x5a) || (0x61 <= s[at] && s[at] <= 0x7a)) {
        text::skip(s, at, ByteClass::Mnemonic)
    } else {
        at
    }
}

pub(crate) fn close_bracket(s: &[u8], from: usize) -> (end: Option<usize>)
    requires
        0 < from <= s.len(),
    ensures
        text::pos(end) == bracket_close(s@, from as int, 1),
        end matches Some(j) ==> from < j <= s.len(),
{
    let mut depth: usize = 1;
    let mut j: usize = from;
    while j < s.len() && depth > 0
        invariant
            0 < from <= j <= s.len(),
            depth <= 1 + j - from,
            depth == 0 ==> from < j,
            bracket_close(s@, from as int, 1) == bracket_close(s@, j as int, depth as int),
        decreases s.len() - j,
    {
        if s[j] == 0x5b {
            depth += 1;
        } else if s[j] == 0x5d {
            depth -= 1;
        }
        j += 1;
    }
    if depth == 0 {
        Some(j)
    } else {
        None
    }
}

/// The references of one row, while they are collected.
pub struct RowRefs {
    pub targets: Vec<(u32, Span)>,
    pub fbv: Vec<(u32, Span)>,
    pub pool: Vec<(u32, Span)>,
}

impl View for RowRefs {
    type V = OperandRefs;

    open spec fn view(&self) -> OperandRefs {
        OperandRefs { targets: self.targets@, fbv: self.fbv@, pool: self.pool@ }
    }
}

fn take_slot(s: &[u8], i: usize, refs: &mut RowRefs) -> (next: Option<usize>)
    requires
        i < s.len(),
    ensures
        match slot_operand(s@, i as int) {
            Some((e, operand)) => next == Some(e as usize) && e == next->0 && i < e <= s.len() && final(refs)@ == old(
                refs,
            )@.with(operand),
            None => next is None && final(refs)@ == old(refs)@,
        },
{
    if !text::starts_with_at(s, i, "FBV[") {
        return None;
    }
    let d: usize = i + "FBV[".len();
    let e: usize = text::skip(s, d, ByteClass::Digit);
    if e > d && text::byte_at(s, e, 0x5d) {
        if let Some(n) = text::parse_u32(s, d, e) {
            refs.fbv.push((n, span_of(i, e + 1)));
        }
        Some(e + 1)
    } else {
        None
    }
}

fn take_pool(s: &[u8], i: usize, refs: &mut RowRefs) -> (next: Option<usize>)
    requires
        i < s.len(),
    ensures
        match pool_operand(s@, i as int) {
            Some((e, operand)) => next == Some(e as usize) && e == next->0 && i < e <= s.len() && final(refs)@ == old(
                refs,
            )@.with(operand),
            None => next is None && final(refs)@ == old(refs)@,
        },
{
    if !text::byte_at(s, i, 0x5b) {
        return None;
    }
    let e: usize = text::skip(s, i + 1, ByteClass::Digit);
    if e > i + 1 && text::byte_at(s, e, 0x3a) {
        let close = close_bracket(s, i + 1);
        if let Some(j) = close {
            if let Some(n) = text::parse_u32(s, i + 1, e) {
                refs.pool.push((n, span_of(i, j)));
                return Some(j);
            }
        }
    }
    None
}

fn take_jump(s: &[u8], i: usize, refs: &mut RowRefs) -> (next: Option<usize>)
    requires
        i < s.len(),
    ensures
        match jump_operand(s@, i as int) {
            Some((e, operand)) => next == Some(e as usize) && e == next->0 && i < e <= s.len() && final(refs)@ == old(
                refs,
            )@.with(operand),
            None => next is None && final(refs)@ == old(refs)@,
        },
{
    if !text::starts_with_at(s, i, "(0x") {
        return None;
    }
    let h: usize = i + "(0x".len();
    let he: usize = text::skip(s, h, ByteClass::Hex);
    if he > h && text::starts_with_at(s, he, " @ ") {
        let d: usize = he + " @ ".len();
        let e: usize = text::skip(s, d, ByteClass::Digit);
        if e > d && text::byte_at(s, e, 0x29) {
            if let Some(n) = text::parse_u32(s, d, e) {
                refs.targets.push((n, span_of(i, e + 1)));
            }
            return Some(e + 1);
        }
    }
    None
}

fn take_case(s: &[u8], i: usize, refs: &mut RowRefs) -> (next: Option<usize>)
    requires
        i < s.len(),
    ensures
        match case_operand(s@, i as int) {
            Some((e, operand)) => next == Some(e as usize) && e == next->0 && i < e <= s.len() && final(refs)@ == old(
                refs,
            )@.with(operand),
            None => next is None && final(refs)@ == old(refs)@,
        },
{
    if !text::byte_at(s, i, 0x40) {
        return None;
    }
    let e: usize = text::skip(s, i + 1, ByteClass::Digit);
    if e > i + 1 {
        if let Some(n) = text::parse_u32(s, i + 1, e) {
            refs.targets.push((n, span_of(i, e)));
        }
        Some(e)
    } else {
        None
    }
}

/// Collects the references of the operands from `from` on.
fn scan_operands(s: &[u8], from: usize) -> (refs: RowRefs)
    requires
        from <= s.len(),
    ensures
        refs@ == operands_from(
            s@,
            from as int,
            0,
            OperandRefs { targets: Seq::empty(), fbv: Seq::empty(), pool: Seq::empty() },
        ),
{
    let mut refs = RowRefs { targets: Vec::new(), fbv: Vec::new(), pool: Vec::new() };
    let ghost goal = operands_from(
        s@,
        from as int,
        0,
        OperandRefs { targets: Seq::empty(), fbv: Seq::empty(), pool: Seq::empty() },
    );
    assert(refs@ =~= OperandRefs { targets: Seq::empty(), fbv: Seq::empty(), pool: Seq::empty() });
    let mut braces: usize = 0;
    let mut i: usize = from;
    while i < s.len()
        invariant
            from <= i <= s.len(),
            braces <= i,
            goal == operands_from(s@, i as int, braces as int, refs@),
        decreases s.len() - i,
    {
        let next: Option<usize> = if text::starts_with_at(s, i, "FBV[") {
            take_slot(s, i, &mut refs)
        } else if text::byte_at(s, i, 0x5b) {
            take_pool(s, i, &mut refs)
        } else if text::starts_with_at(s, i, "(0x") {
            take_jump(s, i, &mut refs)
        } else if braces > 0 {
            take_case(s, i, &mut refs)
        } else {
            None
        };
        match next {
            Some(e) => {
                i = e;
            },
            None => {
                if s[i] == 0x7b {
                    braces += 1;
                } else if s[i] == 0x7d && braces > 0 {
                    braces -= 1;
                }
                i += 1;
            },
        }
    }
    refs
}

/// Reads the part of a row after its colon: encoding bytes, mnemonic, operands.
///
/// The encoding bytes are required; they tell a row from prose with a colon.
pub fn parse_row_tail(
    s: &[u8],
    at: usize,
    offset: u32,
    offset_span: Span,
    primary: bool,
    src_pos: Option<u32>,
) -> (row: Option<LineInfo>)
    requires
        at <= s.len(),
    ensures
        line_model(row) == row_tail(s@, at as int, offset, offset_span, primary, src_pos),
{
    let first: usize = text::skip(s, at, ByteClass::Space);
    if !is_pair_at(s, first) {
        return None;
    }
    let m: usize = skip_pairs(s, first);
    let end: usize = skip_mnemonic(s, m);
    let refs = scan_operands(s, end);
    Some(
        LineInfo::Bytecode(
            BytecodeRow {
                offset,
                offset_span,
                mnemonic: span_of(m, end),
                targets: refs.targets,
                fbv: refs.fbv,
                pool: refs.pool,
                primary,
                src_pos,
            },
        ),
    )
}

// ---------------------------------------------------------------------------
// Rows of a bytecode array
// ---------------------------------------------------------------------------

/// The source-position marker at `at`, digits and then `S>` or `E>`: where the
/// row goes on and the position.
pub open spec fn source_marker(s: Seq<u8>, at: int) -> Option<(int, Option<u32>)> {
    let e = run_end(s, at, ByteClass::Digit);
    let m = run_end(s, e, ByteClass::Space);
    if class_is(s, at, ByteClass::Digit) && (occurs_at(s, m, "S>".spec_bytes()) || occurs_at(
        s,
        m,
        "E>".spec_bytes(),
    )) {
        Some((run_end(s, m + 2, ByteClass::Space), decimal_u32(s, at, e)))
    } else {
        None
    }
}

/// Where the address of a row starts and the position in front of it.
pub open spec fn row_address(s: Seq<u8>) -> (int, Option<u32>) {
    let at = run_end(s, 0, ByteClass::Space);
    match source_marker(s, at) {
        Some((next, position)) => (next, position),
        None => (at, None),
    }
}

/// A row of a bytecode array: `0x<addr> @ <offset> : <bytes> <mnemonic> …`.
pub open spec fn bytecode_row(s: Seq<u8>, primary: bool) -> Option<LineModel> {
    let (a, src_pos) = row_address(s);
    let h = a + "0x".spec_bytes().len();
    let he = run_end(s, h, ByteClass::Hex);
    let sign = run_end(s, he, ByteClass::Space);
    let d = run_end(s, sign + 1, ByteClass::Space);
    let de = run_end(s, d, ByteClass::Digit);
    let colon = run_end(s, de, ByteClass::Space);
    if occurs_at(s, a, "0x".spec_bytes()) && he > h && byte_is(s, sign, 0x40) && byte_is(
        s,
        colon,
        0x3a,
    ) {
        match decimal_u32(s, d, de) {
            Some(offset) => row_tail(s, colon + 1, offset, span(d, de), primary, src_pos),
            None => None,
        }
    } else {
        None
    }
}

fn find_row_address(s: &[u8]) -> (found: (usize, Option<u32>))
    ensures
        found.0 == row_address(s@).0,
        found.1 == row_address(s@).1,
        found.0 <= s.len(),
{
    let at: usize = text::skip(s, 0, ByteClass::Space);
    if text::class_at(s, at, ByteClass::Digit) {
        let e: usize = text::skip(s, at, ByteClass::Digit);
        let m: usize = text::skip(s, e, ByteClass::Space);
        if text::starts_with_at(s, m, "S>") || text::starts_with_at(s, m, "E>") {
            proof {
                reveal_strlit("S>");
                reveal_strlit("E>");
                vstd::utf8::is_ascii_chars_encode_utf8("S>"@);
                vstd::utf8::is_ascii_chars_encode_utf8("E>"@);
            }
            return (text::skip(s, m + 2, ByteClass::Space), text::parse_u32(s, at, e));
        }
    }
    (at, None)
}

/// Reads a row of a bytecode array.
pub fn parse_bytecode_row(s: &[u8], primary: bool) -> (row: Option<LineInfo>)
    ensures
        line_model(row) == bytecode_row(s@, primary),
{
    let (a, src_pos) = find_row_address(s);
    if !text::starts_with_at(s, a, "0x") {
        return None;
    }
    let h: usize = a + "0x".len();
    let he: usize = text::skip(s, h, ByteClass::Hex);
    if he == h {
        return None;
    }
    let sign: usize = text::skip(s, he, ByteClass::Space);
    if !text::byte_at(s, sign, 0x40) {
        return None;
    }
    let d: usize = text::skip(s, sign + 1, ByteClass::Space);
    let de: usize = text::skip(s, d, ByteClass::Digit);
    match text::parse_u32(s, d, de) {
        None => None,
        Some(offset) => {
            let colon: usize = text::skip(s, de, ByteClass::Space);
            if !text::byte_at(s, colon, 0x3a) {
                return None;
            }
            parse_row_tail(s, colon + 1, offset, span_of(d, de), primary, src_pos)
        },
    }
}

/// A bytecode row inside a graph: `<offset> : <bytes> <mnemonic> …`.
pub open spec fn interleaved_row(s: Seq<u8>, start: int) -> Option<LineModel> {
    match find_from(s, start, " : ".spec_bytes()) {
        Some(e) => match text::number_u32(s, start, e) {
            Some(offset) => row_tail(
                s,
                e + " : ".spec_bytes().len() - 1,
                offset,
                span(start, e),
                false,
                None,
            ),
            None => None,
        },
        None => None,
    }
}

/// Reads a bytecode row that stands inside a graph.
pub fn parse_interleaved_bytecode(s: &[u8], start: usize) -> (row: Option<LineInfo>)
    requires
        start <= s.len(),
    ensures
        line_model(row) == interleaved_row(s@, start as int),
{
    match text::find(s, start, " : ") {
        None => None,
        Some(e) => match text::parse_number(s, start, e) {
            None => None,
            Some(offset) => {
                proof {
                    reveal_strlit(" : ");
                    vstd::utf8::is_ascii_chars_encode_utf8(" : "@);
                }
                parse_row_tail(s, e + 2, offset, span_of(start, e), false, None)
            },
        },
    }
}

// ---------------------------------------------------------------------------
// Constant pool and feedback vector
// ---------------------------------------------------------------------------

/// An indented `N: …` line, an entry of the constant pool.
pub open spec fn pool_entry(s: Seq<u8>) -> Option<LineModel> {
    let start = run_end(s, 0, ByteClass::Space);
    let e = run_end(s, start, ByteClass::Digit);
    if start > 0 && byte_is(s, e, 0x3a) {
        match decimal_u32(s, start, e) {
            Some(index) => Some(LineModel::PoolEntry { index, def_span: span(start, e + 1) }),
            None => None,
        }
    } else {
        None
    }
}

/// Reads an entry of the constant pool.
pub fn parse_pool_entry(s: &[u8]) -> (entry: Option<LineInfo>)
    ensures
        line_model(entry) == pool_entry(s@),
{
    let start: usize = text::skip(s, 0, ByteClass::Space);
    if start == 0 {
        return None;
    }
    let e: usize = text::skip(s, start, ByteClass::Digit);
    if !text::byte_at(s, e, 0x3a) {
        return None;
    }
    match text::parse_u32(s, start, e) {
        Some(index) => Some(LineInfo::PoolEntry { index, def_span: span_of(start, e + 1) }),
        None => None,
    }
}

/// The state that the words in `from..to` name.
pub open spec fn ic_state(s: Seq<u8>, from: int, to: int) -> IcState {
    if holds_word(s, from, to, "MEGAMORPHIC".spec_bytes()) {
        IcState::Megamorphic
    } else if holds_word(s, from, to, "POLYMORPHIC".spec_bytes()) {
        IcState::Polymorphic
    } else if holds_word(s, from, to, "MONOMORPHIC".spec_bytes()) {
        IcState::Monomorphic
    } else if holds_word(s, from, to, "UNINITIALIZED".spec_bytes()) || holds_word(
        s,
        from,
        to,
        "PREMONOMORPHIC".spec_bytes(),
    ) {
        IcState::Uninitialized
    } else {
        IcState::Other
    }
}

/// The end of the state words: the end of the line without a trailing brace.
pub open spec fn state_end(s: Seq<u8>) -> int {
    let e = trimmed_end(s, 0, s.len() as int);
    if byte_is(s, e - 1, 0x7b) {
        trimmed_end(s, 0, e - 1)
    } else {
        e
    }
}

/// ` - slot #N Kind STATE {`, the header of a feedback slot.
pub open spec fn slot_header(s: Seq<u8>) -> Option<LineModel> {
    let start = run_end(s, 0, ByteClass::Space);
    let d = start + "- slot #".spec_bytes().len();
    let de = run_end(s, d, ByteClass::Digit);
    let k = run_end(s, de, ByteClass::Space);
    let ke = run_end(s, k, ByteClass::Visible);
    let st = run_end(s, ke, ByteClass::Space);
    let se = if state_end(s) > st {
        state_end(s)
    } else {
        st
    };
    if occurs_at(s, start, "- slot #".spec_bytes()) {
        match decimal_u32(s, d, de) {
            Some(index) => Some(
                LineModel::FeedbackSlot {
                    index,
                    def_span: span(start + 2, de),
                    kind: span(k, ke),
                    state: span(st, se),
                    ic: ic_state(s, st, se),
                },
            ),
            None => None,
        }
    } else {
        None
    }
}

fn find_state_end(s: &[u8]) -> (end: usize)
    ensures
        end == state_end(s@),
        end <= s.len(),
{
    let e: usize = text::trim_end(s, 0, s.len());
    if e > 0 && text::byte_at(s, e - 1, 0x7b) {
        text::trim_end(s, 0, e - 1)
    } else {
        e
    }
}

fn classify_state(s: &[u8], from: usize, to: usize) -> (ic: IcState)
    requires
        from <= to <= s.len(),
    ensures
        ic == ic_state(s@, from as int, to as int),
{
    if text::contains(s, from, to, "MEGAMORPHIC") {
        IcState::Megamorphic
    } else if text::contains(s, from, to, "POLYMORPHIC") {
        IcState::Polymorphic
    } else if text::contains(s, from, to, "MONOMORPHIC") {
        IcState::Monomorphic
    } else if text::contains(s, from, to, "UNINITIALIZED") || text::contains(
        s,
        from,
        to,
        "PREMONOMORPHIC",
    ) {
        IcState::Uninitialized
    } else {
        IcState::Other
    }
}

/// Reads the header of a feedback slot.
pub fn parse_slot_header(s: &[u8]) -> (slot: Option<LineInfo>)
    ensures
        line_model(slot) == slot_header(s@),
{
    let start: usize = text::skip(s, 0, ByteClass::Space);
    if !text::starts_with_at(s, start, "- slot #") {
        return None;
    }
    let d: usize = start + "- slot #".len();
    proof {
        reveal_strlit("- slot #");
        vstd::utf8::is_ascii_chars_encode_utf8("- slot #"@);
    }
    let de: usize = text::skip(s, d, ByteClass::Digit);
    match text::parse_u32(s, d, de) {
        None => None,
        Some(index) => {
            let k: usize = text::skip(s, de, ByteClass::Space);
            let ke: usize = text::skip(s, k, ByteClass::Visible);
            let st: usize = text::skip(s, ke, ByteClass::Space);
            let end: usize = find_state_end(s);
            let se: usize = if end > st {
                end
            } else {
                st
            };
            Some(
                LineInfo::FeedbackSlot {
                    index,
                    def_span: span_of(start + 2, de),
                    kind: span_of(k, ke),
                    state: span_of(st, se),
                    ic: classify_state(s, st, se),
                },
            )
        },
    }
}

} // verus!
