//! The lines of the viewport, painted.
//!
//! Each byte of a line has a class. The classes of the parse come first, what
//! the cursor node has to do with the line is painted over them, and matches
//! of the search over that.

use vstd::prelude::*;
#[allow(unused_imports)]
use vstd::string::*;
#[allow(unused_imports)]
use vstd::utf8::{encode_scalar, encode_utf8};

use super::links::{paint_links, RowLinks};
#[allow(unused_imports)]
use super::links::{lemma_links_len, links_painted, LinksModel};
use super::script::paint_script;
#[allow(unused_imports)]
use super::script::{lemma_script_len, script_painted};
#[allow(unused_imports)]
use crate::ansi::is_control;
use crate::diff::canon::{chars_of, find_gutter_end};
#[allow(unused_imports)]
use crate::diff::canon::gutter_end;
use crate::diff::RowStatus;
use crate::model::{
    BlockRef, BytecodeRow, IcState, LineInfo, NodeId, NodeRef, ParsedCompilation, Span,
};
#[allow(unused_imports)]
use crate::model::{LineModel, NodeModel, ParsedModel, RowModel};
use crate::pattern::Pattern;
#[allow(unused_imports)]
use crate::pattern::regex_spans;
use crate::text;
#[allow(unused_imports)]
use crate::text::{find_from, occurs_at, run_end, trimmed_start, ByteClass};
#[allow(unused_imports)]
use crate::view::{control_opcode, guard_opcode, info_model, phi_opcode};
use crate::view::{is_control_name, is_guard_name, is_phi_name};

verus! {

/// What a part of a line is.
#[derive(Debug, Clone, Copy, PartialEq, Eq, Structural)]
pub enum Class {
    Base,
    Dim,
    Annotation,
    Banner,
    BlockHeader,
    BytecodeLine,
    FrameLine,
    Opcode,
    Guard,
    ControlOp,
    ConstantOp,
    PhiOp,
    CallOp,
    NodeDef,
    NodeRef,
    BlockRef,
    /// The definition of the cursor node.
    DefHl,
    /// The definition of an input of the cursor node.
    InputHl,
    /// A use of the cursor node.
    ConsumerHl,
    SearchHl,
    /// A glyph of the gutter that draws the edges between blocks, by the
    /// colour of its column.
    Gutter(u8),
    /// Parts of JavaScript source.
    Keyword,
    Text,
    Number,
    Comment,
}

/// Which colours the terminal has.
#[derive(Debug, Clone, Copy, PartialEq, Eq, Structural)]
pub struct Palette {
    /// Colours by number, besides the named ones.
    pub indexed: bool,
}

/// The names of a terminal say that it has colours by number.
pub open spec fn has_indexed(term: Seq<u8>, colorterm: Seq<u8>) -> bool {
    find_from(term, 0, "256".spec_bytes()) is Some || find_from(term, 0, "color".spec_bytes())
        is Some || colorterm.len() > 0
}

/// The background of an aligned row, by its number: with named colours only
/// the marks tell the rows apart.
pub open spec fn tint_of(status: RowStatus, palette: Palette) -> Option<u8> {
    if !palette.indexed {
        None
    } else {
        match status {
            RowStatus::Same => None,
            RowStatus::Added => Some(22),
            RowStatus::Deleted => Some(52),
            RowStatus::Changed { .. } => Some(58),
            RowStatus::Replaced { .. } => Some(53),
            RowStatus::Moved { .. } => Some(23),
        }
    }
}

impl Palette {
    /// The colours of a terminal, by the two names that it goes by.
    pub fn detect(term: &str, colorterm: &str) -> (palette: Palette)
        ensures
            palette.indexed == has_indexed(term.spec_bytes(), colorterm.spec_bytes()),
    {
        let t = term.as_bytes();
        let c = colorterm.as_bytes();
        Palette {
            indexed: text::find(t, 0, "256").is_some() || text::find(t, 0, "color").is_some()
                || c.len() > 0,
        }
    }
}

/// The background of an aligned row.
pub fn diff_tint(status: &RowStatus, palette: &Palette) -> (tint: Option<u8>)
    ensures
        tint == tint_of(*status, *palette),
{
    if !palette.indexed {
        return None;
    }
    match status {
        RowStatus::Same => None,
        RowStatus::Added => Some(22),
        RowStatus::Deleted => Some(52),
        RowStatus::Changed { .. } => Some(58),
        RowStatus::Replaced { .. } => Some(53),
        RowStatus::Moved { .. } => Some(23),
    }
}

// ---------------------------------------------------------------------------
// Opcodes
// ---------------------------------------------------------------------------

/// The class of an opcode. The vocabulary is open, so the shape of the name
/// decides.
pub open spec fn class_of_opcode(name: Seq<u8>) -> Class {
    if occurs_at(name, 0, "GapMove".spec_bytes()) || occurs_at(
        name,
        0,
        "ConstantGapMove".spec_bytes(),
    ) {
        Class::Dim
    } else if phi_opcode(name) {
        Class::PhiOp
    } else if guard_opcode(name) {
        Class::Guard
    } else if control_opcode(name) {
        Class::ControlOp
    } else if find_from(name, 0, "Constant".spec_bytes()) is Some {
        Class::ConstantOp
    } else if occurs_at(name, 0, "Call".spec_bytes()) || occurs_at(
        name,
        0,
        "Construct".spec_bytes(),
    ) {
        Class::CallOp
    } else {
        Class::Opcode
    }
}

fn class_of_name(s: &[u8]) -> (class: Class)
    ensures
        class == class_of_opcode(s@),
{
    if text::starts_with_at(s, 0, "GapMove") || text::starts_with_at(s, 0, "ConstantGapMove") {
        Class::Dim
    } else if is_phi_name(s) {
        Class::PhiOp
    } else if is_guard_name(s) {
        Class::Guard
    } else if is_control_name(s) {
        Class::ControlOp
    } else if text::find(s, 0, "Constant").is_some() {
        Class::ConstantOp
    } else if text::starts_with_at(s, 0, "Call") || text::starts_with_at(s, 0, "Construct") {
        Class::CallOp
    } else {
        Class::Opcode
    }
}

/// The class of an opcode.
pub fn opcode_class(name: &str) -> (class: Class)
    ensures
        class == class_of_opcode(name.spec_bytes()),
{
    class_of_name(name.as_bytes())
}

// ---------------------------------------------------------------------------
// Lines that no parse has seen
// ---------------------------------------------------------------------------

/// A row of the input of a frame: a number, a colon and a value.
pub open spec fn is_input_row(s: Seq<u8>, t: int) -> bool {
    match find_from(s, t, ": ".spec_bytes()) {
        Some(at) => at > t && run_end(s, t, ByteClass::Digit) >= at && (occurs_at(
            s,
            at + 2,
            "0x".spec_bytes(),
        ) || occurs_at(s, at + 2, "(optimized out)".spec_bytes())),
        None => false,
    }
}

/// The class of a line that belongs to no compilation, by its shape.
pub open spec fn class_of_raw(s: Seq<u8>) -> Option<Class> {
    let t = trimmed_start(s, 0);
    if occurs_at(s, t, "[bailout (".spec_bytes()) {
        Some(Class::Guard)
    } else if occurs_at(s, t, "[bailout end".spec_bytes()) {
        Some(Class::FrameLine)
    } else if occurs_at(s, t, ";;; deoptimize at".spec_bytes()) {
        Some(Class::Annotation)
    } else if occurs_at(s, t, "reading input frame".spec_bytes()) || occurs_at(
        s,
        t,
        "reading output frame".spec_bytes(),
    ) || occurs_at(s, t, "translating ".spec_bytes()) || occurs_at(
        s,
        t,
        "materialization ".spec_bytes(),
    ) {
        Some(Class::Banner)
    } else if occurs_at(s, t, "[marking ".spec_bytes()) || occurs_at(
        s,
        t,
        "[compiling ".spec_bytes(),
    ) || occurs_at(s, t, "[completed ".spec_bytes()) || occurs_at(s, t, "[OSR ".spec_bytes()) {
        Some(Class::Dim)
    } else if is_input_row(s, t) {
        Some(Class::BytecodeLine)
    } else if occurs_at(s, t, "0x".spec_bytes()) && find_from(s, t, "] <- ".spec_bytes()) is Some {
        Some(Class::Dim)
    } else {
        None
    }
}

fn input_row(s: &[u8], t: usize) -> (yes: bool)
    requires
        t <= s@.len(),
    ensures
        yes == is_input_row(s@, t as int),
{
    proof {
        reveal_strlit(": ");
    }
    match text::find(s, t, ": ") {
        Some(at) => {
            let end: usize = text::skip(s, t, ByteClass::Digit);
            if at > t && end >= at {
                assert(": "@.len() == 2);
                let rest: u128 = at as u128 + 2;
                if rest <= s.len() as u128 {
                    text::starts_with_at(s, at + 2, "0x") || text::starts_with_at(
                        s,
                        at + 2,
                        "(optimized out)",
                    )
                } else {
                    proof {
                        reveal_strlit("0x");
                        reveal_strlit("(optimized out)");
                    }
                    false
                }
            } else {
                false
            }
        },
        None => false,
    }
}

/// The class of a line that belongs to no compilation.
pub fn raw_line_class(line: &str) -> (class: Option<Class>)
    ensures
        class == class_of_raw(line.spec_bytes()),
{
    let s = line.as_bytes();
    let t: usize = text::trim_start(s, 0);
    if text::starts_with_at(s, t, "[bailout (") {
        Some(Class::Guard)
    } else if text::starts_with_at(s, t, "[bailout end") {
        Some(Class::FrameLine)
    } else if text::starts_with_at(s, t, ";;; deoptimize at") {
        Some(Class::Annotation)
    } else if text::starts_with_at(s, t, "reading input frame") || text::starts_with_at(
        s,
        t,
        "reading output frame",
    ) || text::starts_with_at(s, t, "translating ") || text::starts_with_at(
        s,
        t,
        "materialization ",
    ) {
        Some(Class::Banner)
    } else if text::starts_with_at(s, t, "[marking ") || text::starts_with_at(s, t, "[compiling ")
        || text::starts_with_at(s, t, "[completed ") || text::starts_with_at(s, t, "[OSR ") {
        Some(Class::Dim)
    } else if input_row(s, t) {
        Some(Class::BytecodeLine)
    } else if text::starts_with_at(s, t, "0x") && text::find(s, t, "] <- ").is_some() {
        Some(Class::Dim)
    } else {
        None
    }
}

// ---------------------------------------------------------------------------
// Painting
// ---------------------------------------------------------------------------

/// A line of `n` bytes in one class.
pub open spec fn flat(n: nat, class: Class) -> Seq<Class> {
    Seq::new(n, |i: int| class)
}

/// The bytes in `start..end` painted.
pub open spec fn filled(paint: Seq<Class>, start: int, end: int, class: Class) -> Seq<Class> {
    Seq::new(
        paint.len(),
        |i: int|
            if start <= i < end {
                class
            } else {
                paint[i]
            },
    )
}

/// The first `n` references painted.
pub open spec fn refs_filled(
    paint: Seq<Class>,
    refs: Seq<NodeRef>,
    class: Class,
    n: int,
) -> Seq<Class>
    decreases n,
{
    if n <= 0 {
        paint
    } else {
        filled(
            refs_filled(paint, refs, class, n - 1),
            refs[n - 1].span.start as int,
            refs[n - 1].span.end as int,
            class,
        )
    }
}

/// The first `n` references that name a node painted.
pub open spec fn uses_filled(
    paint: Seq<Class>,
    refs: Seq<NodeRef>,
    node: NodeId,
    n: int,
) -> Seq<Class>
    decreases n,
{
    if n <= 0 {
        paint
    } else {
        let before = uses_filled(paint, refs, node, n - 1);
        if refs[n - 1].node == node {
            filled(
                before,
                refs[n - 1].span.start as int,
                refs[n - 1].span.end as int,
                Class::ConsumerHl,
            )
        } else {
            before
        }
    }
}

/// The first `n` references to blocks painted.
pub open spec fn blocks_filled(paint: Seq<Class>, refs: Seq<BlockRef>, n: int) -> Seq<Class>
    decreases n,
{
    if n <= 0 {
        paint
    } else {
        filled(
            blocks_filled(paint, refs, n - 1),
            refs[n - 1].span.start as int,
            refs[n - 1].span.end as int,
            Class::BlockRef,
        )
    }
}

/// The first `n` matches painted.
pub open spec fn matches_filled(paint: Seq<Class>, spans: Seq<(usize, usize)>, n: int) -> Seq<Class>
    decreases n,
{
    if n <= 0 {
        paint
    } else {
        filled(
            matches_filled(paint, spans, n - 1),
            spans[n - 1].0 as int,
            spans[n - 1].1 as int,
            Class::SearchHl,
        )
    }
}

/// The name of an opcode, empty where it is not known.
pub open spec fn opcode_name(parsed: Option<ParsedModel>, opcode: u32) -> Seq<u8> {
    match parsed {
        Some(p) => if (opcode as int) < p.opcodes.len() {
            encode_utf8(p.opcodes[opcode as int])
        } else {
            encode_utf8(""@)
        },
        None => encode_utf8(""@),
    }
}

/// A node line as the parse has it.
pub open spec fn node_painted(
    n: nat,
    node: NodeModel,
    parsed: Option<ParsedModel>,
) -> Seq<Class> {
    let defined = filled(
        flat(n, Class::Base),
        node.def_span.start as int,
        node.def_span.end as int,
        Class::NodeDef,
    );
    let named = filled(
        defined,
        node.opcode_span.start as int,
        node.opcode_span.end as int,
        class_of_opcode(opcode_name(parsed, node.opcode)),
    );
    blocks_filled(
        refs_filled(named, node.inputs, Class::NodeRef, node.inputs.len() as int),
        node.targets,
        node.targets.len() as int,
    )
}

/// The class of a feedback slot: the worse the inline cache does, the louder.
pub open spec fn class_of_state(ic: IcState) -> Class {
    match ic {
        IcState::Megamorphic => Class::Guard,
        IcState::Polymorphic => Class::PhiOp,
        IcState::Monomorphic => Class::NodeDef,
        _ => Class::BytecodeLine,
    }
}

fn state_class(ic: IcState) -> (class: Class)
    ensures
        class == class_of_state(ic),
{
    match ic {
        IcState::Megamorphic => Class::Guard,
        IcState::Polymorphic => Class::PhiOp,
        IcState::Monomorphic => Class::NodeDef,
        _ => Class::BytecodeLine,
    }
}

/// The first `n` operands painted.
pub open spec fn operands_filled(
    paint: Seq<Class>,
    refs: Seq<(u32, Span)>,
    class: Class,
    n: int,
) -> Seq<Class>
    decreases n,
{
    if n <= 0 {
        paint
    } else {
        filled(
            operands_filled(paint, refs, class, n - 1),
            refs[n - 1].1.start as int,
            refs[n - 1].1.end as int,
            class,
        )
    }
}

/// The bytes of a span, none where it does not fit.
pub open spec fn span_bytes(s: Seq<u8>, span: Span) -> Seq<u8> {
    if span.start <= span.end <= s.len() {
        s.subrange(span.start as int, span.end as int)
    } else {
        Seq::empty()
    }
}

/// A bytecode row. A row of a listing is painted like a node; the bytecode
/// between the nodes of a graph stays dim.
pub open spec fn bytecode_painted(s: Seq<u8>, row: RowModel) -> Seq<Class> {
    let n = s.len();
    if !row.primary {
        flat(n, Class::BytecodeLine)
    } else {
        let placed = filled(
            flat(n, Class::Base),
            row.offset_span.start as int,
            row.offset_span.end as int,
            Class::NodeDef,
        );
        let named = filled(
            placed,
            row.mnemonic.start as int,
            row.mnemonic.end as int,
            class_of_opcode(span_bytes(s, row.mnemonic)),
        );
        let aimed = operands_filled(named, row.targets, Class::BlockRef, row.targets.len() as int);
        let fed = operands_filled(aimed, row.fbv, Class::NodeRef, row.fbv.len() as int);
        operands_filled(fed, row.pool, Class::NodeRef, row.pool.len() as int)
    }
}

/// A line as the parse has it, or as its shape tells where there is none.
pub open spec fn base_painted(
    s: Seq<u8>,
    info: Option<LineModel>,
    parsed: Option<ParsedModel>,
) -> Seq<Class> {
    let n = s.len();
    match info {
        Some(LineModel::Node(node)) => node_painted(n, node, parsed),
        Some(LineModel::Frame { refs, .. }) => refs_filled(
            flat(n, Class::FrameLine),
            refs,
            Class::NodeRef,
            refs.len() as int,
        ),
        Some(LineModel::PhiMove { refs }) => refs_filled(
            flat(n, Class::Dim),
            refs,
            Class::NodeRef,
            refs.len() as int,
        ),
        Some(LineModel::Bytecode(row)) => bytecode_painted(s, row),
        Some(LineModel::FeedbackSlot { ic, .. }) => flat(n, class_of_state(ic)),
        Some(LineModel::PoolEntry { def_span, .. }) => filled(
            flat(n, Class::BytecodeLine),
            def_span.start as int,
            def_span.end as int,
            Class::NodeDef,
        ),
        Some(LineModel::BlockHeader { .. }) => flat(n, Class::BlockHeader),
        Some(LineModel::Banner) => flat(n, Class::Banner),
        Some(LineModel::SfiContext { .. }) => flat(n, Class::Dim),
        Some(LineModel::Control) => flat(n, Class::Dim),
        Some(LineModel::VirtualObjects) => flat(n, Class::Dim),
        Some(LineModel::Disasm { offset_span, mnemonic, target, labeled, comment, .. }) => {
            let coded = filled(flat(n, Class::Base), 0, mnemonic.start as int, Class::Dim);
            let placed = if labeled {
                filled(coded, offset_span.start as int, offset_span.end as int, Class::NodeDef)
            } else {
                coded
            };
            let named = filled(placed, mnemonic.start as int, mnemonic.end as int, Class::Opcode);
            let aimed = match target {
                Some(t) => filled(named, t.start as int, t.end as int, Class::BlockRef),
                None => named,
            };
            match comment {
                Some(c) => filled(aimed, c.start as int, c.end as int, Class::Annotation),
                None => aimed,
            }
        },
        Some(LineModel::Annotation { .. }) => flat(n, Class::Annotation),
        Some(LineModel::Source) => script_painted(s),
        None => match class_of_raw(s) {
            Some(class) => flat(n, class),
            None => flat(n, Class::Base),
        },
    }
}

/// The cursor node and its inputs.
#[derive(Debug)]
pub struct DefUse {
    pub node: NodeId,
    pub inputs: Vec<NodeId>,
}

/// A line with its part in the definitions and uses of the cursor node.
pub open spec fn defuse_painted(
    paint: Seq<Class>,
    info: Option<LineModel>,
    node: NodeId,
    inputs: Seq<NodeId>,
) -> Seq<Class> {
    match info {
        Some(LineModel::Node(n)) => {
            let start = n.def_span.start as int;
            let end = n.def_span.end as int;
            let defined = if n.id == node {
                filled(paint, start, end, Class::DefHl)
            } else if inputs.contains(n.id) {
                filled(paint, start, end, Class::InputHl)
            } else {
                paint
            };
            uses_filled(defined, n.inputs, node, n.inputs.len() as int)
        },
        Some(LineModel::Frame { refs, .. }) => uses_filled(paint, refs, node, refs.len() as int),
        Some(LineModel::PhiMove { refs }) => uses_filled(paint, refs, node, refs.len() as int),
        _ => paint,
    }
}

/// How many colours the columns of the gutter go through.
pub const GUTTER_COLOURS: u8 = 6;

/// The gutter among the first `k` characters painted: every glyph in the
/// colour of its column, whatever the line holds.
pub open spec fn gutter_painted(paint: Seq<Class>, line: Seq<char>, k: int) -> Seq<Class>
    decreases k,
{
    if k <= 0 {
        paint
    } else {
        let before = gutter_painted(paint, line, k - 1);
        if line[k - 1] == ' ' {
            before
        } else {
            filled(
                before,
                byte_of(line, k - 1),
                byte_of(line, k),
                Class::Gutter(((k - 1) % (GUTTER_COLOURS as int)) as u8),
            )
        }
    }
}

/// A line with its gutter painted. Only lines of a compilation have one.
pub open spec fn edges_painted(
    paint: Seq<Class>,
    line: Seq<char>,
    info: Option<LineModel>,
) -> Seq<Class> {
    if info is Some {
        gutter_painted(paint, line, gutter_end(line, 0))
    } else {
        paint
    }
}

/// The matches of a search painted over a line.
pub open spec fn search_painted(
    paint: Seq<Class>,
    line: Seq<char>,
    search: Option<Seq<char>>,
) -> Seq<Class> {
    match search {
        Some(pattern) => {
            let spans = regex_spans(pattern, line);
            matches_filled(paint, spans, spans.len() as int)
        },
        None => paint,
    }
}

/// The class of every byte of a line while the cursor is on a row of a
/// listing.
pub open spec fn painted_linked(
    line: Seq<char>,
    info: Option<LineModel>,
    parsed: Option<ParsedModel>,
    links: LinksModel,
    search: Option<Seq<char>>,
) -> Seq<Class> {
    let base = edges_painted(base_painted(encode_utf8(line), info, parsed), line, info);
    search_painted(links_painted(base, info, links), line, search)
}

/// The class of every byte of a line.
pub open spec fn painted(
    line: Seq<char>,
    info: Option<LineModel>,
    parsed: Option<ParsedModel>,
    cursor: Option<(NodeId, Seq<NodeId>)>,
    search: Option<Seq<char>>,
) -> Seq<Class> {
    let base = edges_painted(base_painted(encode_utf8(line), info, parsed), line, info);
    let used = match cursor {
        Some((node, inputs)) => defuse_painted(base, info, node, inputs),
        None => base,
    };
    search_painted(used, line, search)
}

/// Paints the bytes in `start..end`.
pub(crate) fn fill(paint: &mut Vec<Class>, start: usize, end: usize, class: Class)
    ensures
        final(paint)@ == filled(old(paint)@, start as int, end as int, class),
{
    let mut k: usize = start;
    while k < end && k < paint.len()
        invariant
            start <= k,
            k <= end || k == start,
            paint@.len() == old(paint)@.len(),
            forall|i: int|
                0 <= i < paint@.len() ==> #[trigger] paint@[i] == (if start <= i < k {
                    class
                } else {
                    old(paint)@[i]
                }),
        decreases paint@.len() - k,
    {
        paint.set(k, class);
        k += 1;
    }
    assert(paint@ =~= filled(old(paint)@, start as int, end as int, class));
}

pub(crate) fn paint_flat(n: usize, class: Class) -> (paint: Vec<Class>)
    ensures
        paint@ == flat(n as nat, class),
{
    let mut paint: Vec<Class> = Vec::new();
    let mut k: usize = 0;
    while k < n
        invariant
            k <= n,
            paint@ == flat(k as nat, class),
        decreases n - k,
    {
        paint.push(class);
        assert(paint@ =~= flat((k + 1) as nat, class));
        k += 1;
    }
    paint
}

fn fill_refs(paint: &mut Vec<Class>, refs: &Vec<NodeRef>, class: Class)
    ensures
        final(paint)@ == refs_filled(old(paint)@, refs@, class, refs@.len() as int),
{
    let mut n: usize = 0;
    while n < refs.len()
        invariant
            n <= refs@.len(),
            paint@ == refs_filled(old(paint)@, refs@, class, n as int),
        decreases refs.len() - n,
    {
        fill(paint, refs[n].span.start as usize, refs[n].span.end as usize, class);
        n += 1;
    }
}

fn fill_uses(paint: &mut Vec<Class>, refs: &Vec<NodeRef>, node: NodeId)
    ensures
        final(paint)@ == uses_filled(old(paint)@, refs@, node, refs@.len() as int),
{
    let mut n: usize = 0;
    while n < refs.len()
        invariant
            n <= refs@.len(),
            paint@ == uses_filled(old(paint)@, refs@, node, n as int),
        decreases refs.len() - n,
    {
        if refs[n].node == node {
            fill(paint, refs[n].span.start as usize, refs[n].span.end as usize, Class::ConsumerHl);
        }
        n += 1;
    }
}

fn fill_blocks(paint: &mut Vec<Class>, refs: &Vec<BlockRef>)
    ensures
        final(paint)@ == blocks_filled(old(paint)@, refs@, refs@.len() as int),
{
    let mut n: usize = 0;
    while n < refs.len()
        invariant
            n <= refs@.len(),
            paint@ == blocks_filled(old(paint)@, refs@, n as int),
        decreases refs.len() - n,
    {
        fill(paint, refs[n].span.start as usize, refs[n].span.end as usize, Class::BlockRef);
        n += 1;
    }
}

/// Paints the matches of a search.
pub fn fill_matches(paint: &mut Vec<Class>, spans: &Vec<(usize, usize)>)
    ensures
        final(paint)@ == matches_filled(old(paint)@, spans@, spans@.len() as int),
{
    let mut n: usize = 0;
    while n < spans.len()
        invariant
            n <= spans@.len(),
            paint@ == matches_filled(old(paint)@, spans@, n as int),
        decreases spans.len() - n,
    {
        fill(paint, spans[n].0, spans[n].1, Class::SearchHl);
        n += 1;
    }
}

/// The view of an optional parse.
pub open spec fn opt_parsed(parsed: Option<&ParsedCompilation>) -> Option<ParsedModel> {
    match parsed {
        Some(p) => Some(p@),
        None => None,
    }
}

/// The view of the cursor node and its inputs.
pub open spec fn opt_defuse(defuse: Option<&DefUse>) -> Option<(NodeId, Seq<NodeId>)> {
    match defuse {
        Some(d) => Some((d.node, d.inputs@)),
        None => None,
    }
}

/// The view of an optional search.
pub open spec fn opt_search(search: Option<&Pattern>) -> Option<Seq<char>> {
    match search {
        Some(p) => Some(p@),
        None => None,
    }
}

fn fill_operands(paint: &mut Vec<Class>, refs: &Vec<(u32, Span)>, class: Class)
    ensures
        final(paint)@ == operands_filled(old(paint)@, refs@, class, refs@.len() as int),
{
    let mut n: usize = 0;
    while n < refs.len()
        invariant
            n <= refs@.len(),
            paint@ == operands_filled(old(paint)@, refs@, class, n as int),
        decreases refs.len() - n,
    {
        fill(paint, refs[n].1.start as usize, refs[n].1.end as usize, class);
        n += 1;
    }
}

fn paint_bytecode(s: &[u8], row: &BytecodeRow) -> (paint: Vec<Class>)
    ensures
        paint@ == bytecode_painted(s@, row@),
{
    let n: usize = s.len();
    if !row.primary {
        return paint_flat(n, Class::BytecodeLine);
    }
    let mut paint = paint_flat(n, Class::Base);
    let a: usize = row.mnemonic.start as usize;
    let e: usize = row.mnemonic.end as usize;
    fill(
        &mut paint,
        row.offset_span.start as usize,
        row.offset_span.end as usize,
        Class::NodeDef,
    );
    let class: Class = if a <= e && e <= n {
        class_of_name(vstd::slice::slice_subrange(s, a, e))
    } else {
        let none: [u8; 0] = [];
        assert(none@ =~= Seq::<u8>::empty());
        class_of_name(none.as_slice())
    };
    fill(&mut paint, a, e, class);
    fill_operands(&mut paint, &row.targets, Class::BlockRef);
    fill_operands(&mut paint, &row.fbv, Class::NodeRef);
    fill_operands(&mut paint, &row.pool, Class::NodeRef);
    paint
}

fn paint_base(line: &str, info: Option<&LineInfo>, parsed: Option<&ParsedCompilation>) -> (paint:
    Vec<Class>)
    ensures
        paint@ == base_painted(encode_utf8(line@), info_model(info), opt_parsed(parsed)),
{
    let bytes = line.as_bytes();
    assert(bytes@.len() == bytes.len());
    let n: usize = bytes.len();
    match info {
        Some(LineInfo::Node(node)) => {
            let mut paint = paint_flat(n, Class::Base);
            fill(
                &mut paint,
                node.def_span.start as usize,
                node.def_span.end as usize,
                Class::NodeDef,
            );
            let name: &str = match parsed {
                Some(p) => {
                    assert(p@.opcodes.len() == p.opcodes@.len());
                    if (node.opcode as usize) < p.opcodes.len() {
                        assert(p@.opcodes[node.opcode as int] == p.opcodes@[node.opcode as int]@);
                        p.opcodes[node.opcode as usize].as_str()
                    } else {
                        ""
                    }
                },
                None => "",
            };
            fill(
                &mut paint,
                node.opcode_span.start as usize,
                node.opcode_span.end as usize,
                opcode_class(name),
            );
            fill_refs(&mut paint, &node.inputs, Class::NodeRef);
            fill_blocks(&mut paint, &node.targets);
            paint
        },
        Some(LineInfo::Frame { refs, .. }) => {
            let mut paint = paint_flat(n, Class::FrameLine);
            fill_refs(&mut paint, refs, Class::NodeRef);
            paint
        },
        Some(LineInfo::PhiMove { refs }) => {
            let mut paint = paint_flat(n, Class::Dim);
            fill_refs(&mut paint, refs, Class::NodeRef);
            paint
        },
        Some(LineInfo::Bytecode(row)) => paint_bytecode(bytes, row),
        Some(LineInfo::FeedbackSlot { ic, .. }) => paint_flat(n, state_class(*ic)),
        Some(LineInfo::PoolEntry { def_span, .. }) => {
            let mut paint = paint_flat(n, Class::BytecodeLine);
            fill(&mut paint, def_span.start as usize, def_span.end as usize, Class::NodeDef);
            paint
        },
        Some(LineInfo::BlockHeader { .. }) => paint_flat(n, Class::BlockHeader),
        Some(LineInfo::Banner) => paint_flat(n, Class::Banner),
        Some(LineInfo::SfiContext { .. }) => paint_flat(n, Class::Dim),
        Some(LineInfo::Control) => paint_flat(n, Class::Dim),
        Some(LineInfo::VirtualObjects) => paint_flat(n, Class::Dim),
        Some(LineInfo::Disasm { offset_span, mnemonic, target, labeled, comment, .. }) => {
            let mut paint = paint_flat(n, Class::Base);
            fill(&mut paint, 0, mnemonic.start as usize, Class::Dim);
            if *labeled {
                fill(
                    &mut paint,
                    offset_span.start as usize,
                    offset_span.end as usize,
                    Class::NodeDef,
                );
            }
            fill(&mut paint, mnemonic.start as usize, mnemonic.end as usize, Class::Opcode);
            if let Some(t) = target {
                fill(&mut paint, t.start as usize, t.end as usize, Class::BlockRef);
            }
            if let Some(c) = comment {
                fill(&mut paint, c.start as usize, c.end as usize, Class::Annotation);
            }
            paint
        },
        Some(LineInfo::Annotation { .. }) => paint_flat(n, Class::Annotation),
        Some(LineInfo::Source) => paint_script(bytes),
        None => match raw_line_class(line) {
            Some(class) => paint_flat(n, class),
            None => paint_flat(n, Class::Base),
        },
    }
}

fn is_input(inputs: &Vec<NodeId>, id: NodeId) -> (yes: bool)
    ensures
        yes == inputs@.contains(id),
{
    let mut k: usize = 0;
    while k < inputs.len()
        invariant
            k <= inputs@.len(),
            forall|m: int| 0 <= m < k ==> inputs@[m] != id,
        decreases inputs.len() - k,
    {
        if inputs[k] == id {
            return true;
        }
        k += 1;
    }
    false
}

fn paint_defuse(paint: &mut Vec<Class>, info: Option<&LineInfo>, defuse: &DefUse)
    ensures
        final(paint)@ == defuse_painted(
            old(paint)@,
            info_model(info),
            defuse.node,
            defuse.inputs@,
        ),
{
    match info {
        Some(LineInfo::Node(node)) => {
            let start: usize = node.def_span.start as usize;
            let end: usize = node.def_span.end as usize;
            if node.id == defuse.node {
                fill(paint, start, end, Class::DefHl);
            } else if is_input(&defuse.inputs, node.id) {
                fill(paint, start, end, Class::InputHl);
            }
            fill_uses(paint, &node.inputs, defuse.node);
        },
        Some(LineInfo::Frame { refs, .. }) => {
            fill_uses(paint, refs, defuse.node);
        },
        Some(LineInfo::PhiMove { refs }) => {
            fill_uses(paint, refs, defuse.node);
        },
        _ => {},
    }
}

// ---------------------------------------------------------------------------
// Pieces
// ---------------------------------------------------------------------------

/// The byte at which character `k` begins.
pub open spec fn byte_of(line: Seq<char>, k: int) -> int {
    encode_utf8(line.take(k)).len() as int
}

/// What stands on the screen for a character: a control character would
/// corrupt the terminal.
pub open spec fn safe_char(c: char) -> char {
    if is_control(c) {
        '\u{fffd}'
    } else {
        c
    }
}

/// The characters in `skip..k` in runs of one class.
pub open spec fn pieces(line: Seq<char>, paint: Seq<Class>, skip: int, k: int) -> Seq<
    (Class, Seq<char>),
>
    decreases k,
{
    if k <= skip || k <= 0 {
        Seq::empty()
    } else {
        let before = pieces(line, paint, skip, k - 1);
        let class = paint[byte_of(line, k - 1)];
        let c = safe_char(line[k - 1]);
        if before.len() > 0 && before.last().0 == class {
            before.drop_last().push((class, before.last().1.push(c)))
        } else {
            before.push((class, seq![c]))
        }
    }
}

/// The text of the first `n` pieces.
pub open spec fn pieces_text(list: Seq<(Class, Seq<char>)>, n: int) -> Seq<char>
    decreases n,
{
    if n <= 0 {
        Seq::empty()
    } else {
        pieces_text(list, n - 1) + list[n - 1].1
    }
}

proof fn lemma_pieces_prefix(a: Seq<(Class, Seq<char>)>, b: Seq<(Class, Seq<char>)>, n: int)
    requires
        0 <= n <= a.len(),
        n <= b.len(),
        forall|i: int| 0 <= i < n ==> a[i] == b[i],
    ensures
        pieces_text(a, n) == pieces_text(b, n),
    decreases n,
{
    if n > 0 {
        lemma_pieces_prefix(a, b, n - 1);
    }
}

proof fn lemma_pieces_text(line: Seq<char>, paint: Seq<Class>, skip: int, k: int)
    requires
        0 <= skip <= k <= line.len(),
    ensures
        pieces_text(
            pieces(line, paint, skip, k),
            pieces(line, paint, skip, k).len() as int,
        ) == line.subrange(skip, k).map_values(|c: char| safe_char(c)),
    decreases k,
{
    let safe = |c: char| safe_char(c);
    let list = pieces(line, paint, skip, k);
    let shown = line.subrange(skip, k).map_values(safe);
    if k > skip {
        lemma_pieces_text(line, paint, skip, k - 1);
        let before = pieces(line, paint, skip, k - 1);
        let n = before.len() as int;
        let c = safe_char(line[k - 1]);
        let earlier = line.subrange(skip, k - 1).map_values(safe);
        assert(shown =~= earlier.push(c));
        if n > 0 && before.last().0 == paint[byte_of(line, k - 1)] {
            lemma_pieces_prefix(before, list, n - 1);
            assert(pieces_text(list, n) =~= pieces_text(before, n).push(c));
        } else {
            lemma_pieces_prefix(before, list, n);
            assert(pieces_text(list, n + 1) =~= pieces_text(before, n).push(c));
        }
    } else {
        assert(shown =~= Seq::empty());
    }
}

/// Painting loses no character: the pieces of a line are the line behind what
/// is scrolled away, control characters replaced one for one.
pub proof fn law_painting_loses_no_character(line: Seq<char>, paint: Seq<Class>, skip: int)
    requires
        0 <= skip <= line.len(),
    ensures
        ({
            let list = pieces(line, paint, skip, line.len() as int);
            pieces_text(list, list.len() as int) == line.skip(skip).map_values(
                |c: char| safe_char(c),
            )
        }),
{
    lemma_pieces_text(line, paint, skip, line.len() as int);
    assert(line.subrange(skip, line.len() as int) =~= line.skip(skip));
}

proof fn lemma_encode_split(a: Seq<char>, b: Seq<char>)
    ensures
        encode_utf8(a + b).len() == encode_utf8(a).len() + encode_utf8(b).len(),
    decreases a.len(),
{
    if a.len() == 0 {
        assert(a + b =~= b);
    } else {
        lemma_encode_split(a.drop_first(), b);
        assert((a + b).drop_first() =~= a.drop_first() + b);
    }
}

proof fn lemma_byte_of(line: Seq<char>, k: int)
    requires
        0 <= k < line.len(),
    ensures
        byte_of(line, k + 1) == byte_of(line, k) + encode_scalar(line[k] as u32).len(),
        byte_of(line, k + 1) <= encode_utf8(line).len(),
        encode_scalar(line[k] as u32).len() > 0,
{
    let one = seq![line[k]];
    lemma_encode_split(line.take(k), one);
    assert(line.take(k + 1) =~= line.take(k) + one);
    assert(one.drop_first() =~= Seq::empty());
    reveal_with_fuel(encode_utf8, 2);
    assert(encode_utf8(one) =~= encode_scalar(line[k] as u32));
    lemma_encode_split(line.take(k + 1), line.skip(k + 1));
    assert(line =~= line.take(k + 1) + line.skip(k + 1));
}

fn width_of(c: char) -> (n: usize)
    ensures
        n == encode_scalar(c as u32).len(),
{
    broadcast use vstd::utf8::char_is_scalar;

    let v: u32 = c as u32;
    if v < 0x80 {
        1
    } else if v < 0x800 {
        2
    } else if v < 0x10000 {
        3
    } else {
        4
    }
}

fn make_safe(c: char) -> (out: char)
    ensures
        out == safe_char(c),
{
    let v: u32 = c as u32;
    if v < 0x20 || (0x7f <= v && v < 0xa0) {
        '\u{fffd}'
    } else {
        c
    }
}

/// The views of pieces.
pub open spec fn piece_models(list: Seq<(Class, String)>) -> Seq<(Class, Seq<char>)> {
    list.map_values(|p: (Class, String)| (p.0, p.1@))
}

fn add_char(list: &mut Vec<(Class, String)>, class: Class, c: char)
    ensures
        piece_models(final(list)@) == ({
            let before = piece_models(old(list)@);
            if before.len() > 0 && before.last().0 == class {
                before.drop_last().push((class, before.last().1.push(c)))
            } else {
                before.push((class, seq![c]))
            }
        }),
{
    let ghost before = list@;
    let n: usize = list.len();
    if n > 0 {
        assert(piece_models(before).last() == (before.last().0, before.last().1@));
        if list[n - 1].0 == class {
            if let Some((_, mut run)) = list.pop() {
                run.push(c);
                list.push((class, run));
            }
            assert(piece_models(list@) =~= piece_models(before).drop_last().push(
                (class, piece_models(before).last().1.push(c)),
            ));
            return ;
        }
    }
    let mut run: String = String::new();
    run.push(c);
    assert(run@ =~= seq![c]);
    list.push((class, run));
    assert(piece_models(list@) =~= piece_models(before).push((class, seq![c])));
}

fn cut(line: &str, paint: &Vec<Class>, skip: usize) -> (list: Vec<(Class, String)>)
    requires
        paint@.len() == encode_utf8(line@).len(),
    ensures
        piece_models(list@) == pieces(line@, paint@, skip as int, line@.len() as int),
{
    let chars = chars_of(line);
    let ghost all = line@;
    let mut list: Vec<(Class, String)> = Vec::new();
    let mut at: usize = 0;
    let mut k: usize = 0;
    assert(all.take(0) =~= Seq::empty());
    assert(piece_models(list@) =~= Seq::empty());
    while k < chars.len()
        invariant
            k <= chars@.len(),
            chars@ == all,
            paint@.len() == encode_utf8(all).len(),
            at == byte_of(all, k as int),
            piece_models(list@) == pieces(all, paint@, skip as int, k as int),
        decreases chars.len() - k,
    {
        proof {
            lemma_byte_of(all, k as int);
        }
        let c: char = chars[k];
        if k >= skip {
            add_char(&mut list, paint[at], make_safe(c));
        }
        assert(paint@.len() == paint.len());
        at += width_of(c);
        k += 1;
    }
    list
}

fn paint_edges(paint: &mut Vec<Class>, line: &str, info: Option<&LineInfo>)
    ensures
        final(paint)@ == edges_painted(old(paint)@, line@, info_model(info)),
{
    if info.is_none() {
        return ;
    }
    let chars = chars_of(line);
    let bytes = line.as_bytes();
    assert(bytes@.len() == bytes.len());
    let end: usize = find_gutter_end(&chars);
    let ghost all = line@;
    let mut at: usize = 0;
    let mut k: usize = 0;
    assert(all.take(0) =~= Seq::empty());
    while k < end
        invariant
            k <= end <= chars@.len(),
            chars@ == all,
            bytes@ == encode_utf8(all),
            bytes@.len() <= usize::MAX,
            at == byte_of(all, k as int),
            paint@ == gutter_painted(old(paint)@, all, k as int),
        decreases end - k,
    {
        proof {
            lemma_byte_of(all, k as int);
        }
        let c: char = chars[k];
        let next: usize = at + width_of(c);
        if c != ' ' {
            fill(paint, at, next, Class::Gutter((k % (GUTTER_COLOURS as usize)) as u8));
        }
        at = next;
        k += 1;
    }
}

/// Neighbouring columns of the gutter differ in colour, and a column has the
/// same colour on every line.
pub proof fn law_neighbouring_edges_differ(paint: Seq<Class>, line: Seq<char>, k: int, end: int)
    requires
        0 <= k,
        k + 1 < end <= line.len(),
        line[k] != ' ',
        line[k + 1] != ' ',
        paint.len() == encode_utf8(line).len(),
    ensures
        ({
            let out = gutter_painted(paint, line, end);
            &&& out[byte_of(line, k)] == Class::Gutter((k % (GUTTER_COLOURS as int)) as u8)
            &&& out[byte_of(line, k + 1)] != out[byte_of(line, k)]
        }),
{
    lemma_gutter_column(paint, line, k, end);
    lemma_gutter_column(paint, line, k + 1, end);
    assert((k + 1) % 6 != k % 6);
}

proof fn lemma_byte_order(line: Seq<char>, j: int, k: int)
    requires
        0 <= j <= k <= line.len(),
    ensures
        byte_of(line, j) <= byte_of(line, k),
    decreases k - j,
{
    if j < k {
        lemma_byte_order(line, j, k - 1);
        lemma_byte_of(line, k - 1);
    }
}

proof fn lemma_gutter_column(paint: Seq<Class>, line: Seq<char>, k: int, end: int)
    requires
        0 <= k < end <= line.len(),
        line[k] != ' ',
        paint.len() == encode_utf8(line).len(),
    ensures
        gutter_painted(paint, line, end).len() == paint.len(),
        gutter_painted(paint, line, end)[byte_of(line, k)] == Class::Gutter(
            (k % (GUTTER_COLOURS as int)) as u8,
        ),
    decreases end,
{
    lemma_byte_of(line, k);
    lemma_gutter_len(paint, line, end - 1);
    if k < end - 1 {
        lemma_gutter_column(paint, line, k, end - 1);
        lemma_byte_order(line, k + 1, end - 1);
    }
}

proof fn lemma_gutter_len(paint: Seq<Class>, line: Seq<char>, k: int)
    ensures
        gutter_painted(paint, line, k).len() == paint.len(),
    decreases k,
{
    if k > 0 {
        lemma_gutter_len(paint, line, k - 1);
    }
}

/// A line in pieces of one class each, without the first `skip` characters.
pub fn paint_line(
    line: &str,
    info: Option<&LineInfo>,
    parsed: Option<&ParsedCompilation>,
    defuse: Option<&DefUse>,
    search: Option<&Pattern>,
    skip: usize,
) -> (list: Vec<(Class, String)>)
    ensures
        piece_models(list@) == pieces(
            line@,
            painted(
                line@,
                info_model(info),
                opt_parsed(parsed),
                opt_defuse(defuse),
                opt_search(search),
            ),
            skip as int,
            line@.len() as int,
        ),
{
    let mut paint = paint_base(line, info, parsed);
    paint_edges(&mut paint, line, info);
    if let Some(d) = defuse {
        paint_defuse(&mut paint, info, d);
    }
    if let Some(p) = search {
        let spans = p.spans(line);
        fill_matches(&mut paint, &spans);
    }
    proof {
        lemma_painted_len(
            line@,
            info_model(info),
            opt_parsed(parsed),
            opt_defuse(defuse),
            opt_search(search),
        );
    }
    cut(line, &paint, skip)
}

/// The same while the cursor is on a row of a listing.
pub fn paint_linked(
    line: &str,
    info: Option<&LineInfo>,
    parsed: Option<&ParsedCompilation>,
    links: &RowLinks,
    search: Option<&Pattern>,
    skip: usize,
) -> (list: Vec<(Class, String)>)
    ensures
        piece_models(list@) == pieces(
            line@,
            painted_linked(
                line@,
                info_model(info),
                opt_parsed(parsed),
                links@,
                opt_search(search),
            ),
            skip as int,
            line@.len() as int,
        ),
{
    let mut paint = paint_base(line, info, parsed);
    paint_edges(&mut paint, line, info);
    paint_links(&mut paint, info, links);
    if let Some(p) = search {
        let spans = p.spans(line);
        fill_matches(&mut paint, &spans);
    }
    proof {
        let s = encode_utf8(line@);
        let base = base_painted(s, info_model(info), opt_parsed(parsed));
        lemma_base_len(s, info_model(info), opt_parsed(parsed));
        lemma_gutter_len(base, line@, gutter_end(line@, 0));
        let edged = edges_painted(base, line@, info_model(info));
        lemma_links_len(edged, info_model(info), links@);
        let linked = links_painted(edged, info_model(info), links@);
        if let Some(pattern) = opt_search(search) {
            let spans = regex_spans(pattern, line@);
            lemma_matches_len(linked, spans, spans.len() as int);
        }
    }
    cut(line, &paint, skip)
}

proof fn lemma_refs_len(paint: Seq<Class>, refs: Seq<NodeRef>, class: Class, node: NodeId, n: int)
    ensures
        refs_filled(paint, refs, class, n).len() == paint.len(),
        uses_filled(paint, refs, node, n).len() == paint.len(),
    decreases n,
{
    if n > 0 {
        lemma_refs_len(paint, refs, class, node, n - 1);
    }
}

proof fn lemma_blocks_len(paint: Seq<Class>, refs: Seq<BlockRef>, n: int)
    ensures
        blocks_filled(paint, refs, n).len() == paint.len(),
    decreases n,
{
    if n > 0 {
        lemma_blocks_len(paint, refs, n - 1);
    }
}

proof fn lemma_matches_len(paint: Seq<Class>, spans: Seq<(usize, usize)>, n: int)
    ensures
        matches_filled(paint, spans, n).len() == paint.len(),
    decreases n,
{
    if n > 0 {
        lemma_matches_len(paint, spans, n - 1);
    }
}

proof fn lemma_base_len(s: Seq<u8>, info: Option<LineModel>, parsed: Option<ParsedModel>)
    ensures
        base_painted(s, info, parsed).len() == s.len(),
{
    let n = s.len();
    match info {
        Some(LineModel::Node(node)) => {
            let defined = filled(
                flat(n, Class::Base),
                node.def_span.start as int,
                node.def_span.end as int,
                Class::NodeDef,
            );
            let named = filled(
                defined,
                node.opcode_span.start as int,
                node.opcode_span.end as int,
                class_of_opcode(opcode_name(parsed, node.opcode)),
            );
            lemma_refs_len(named, node.inputs, Class::NodeRef, 0, node.inputs.len() as int);
            lemma_blocks_len(
                refs_filled(named, node.inputs, Class::NodeRef, node.inputs.len() as int),
                node.targets,
                node.targets.len() as int,
            );
        },
        Some(LineModel::Frame { refs, .. }) => {
            lemma_refs_len(flat(n, Class::FrameLine), refs, Class::NodeRef, 0, refs.len() as int);
        },
        Some(LineModel::PhiMove { refs }) => {
            lemma_refs_len(flat(n, Class::Dim), refs, Class::NodeRef, 0, refs.len() as int);
        },
        Some(LineModel::Bytecode(row)) => {
            lemma_bytecode_len(s, row);
        },
        Some(LineModel::Source) => {
            lemma_script_len(s, 0, flat(n, Class::Base));
        },
        _ => {},
    }
}

proof fn lemma_operands_len(paint: Seq<Class>, refs: Seq<(u32, Span)>, class: Class, n: int)
    ensures
        operands_filled(paint, refs, class, n).len() == paint.len(),
    decreases n,
{
    if n > 0 {
        lemma_operands_len(paint, refs, class, n - 1);
    }
}

proof fn lemma_bytecode_len(s: Seq<u8>, row: RowModel)
    ensures
        bytecode_painted(s, row).len() == s.len(),
{
    let placed = filled(
        flat(s.len(), Class::Base),
        row.offset_span.start as int,
        row.offset_span.end as int,
        Class::NodeDef,
    );
    let named = filled(
        placed,
        row.mnemonic.start as int,
        row.mnemonic.end as int,
        class_of_opcode(span_bytes(s, row.mnemonic)),
    );
    let t = row.targets.len() as int;
    let f = row.fbv.len() as int;
    let aimed = operands_filled(named, row.targets, Class::BlockRef, t);
    let fed = operands_filled(aimed, row.fbv, Class::NodeRef, f);
    lemma_operands_len(named, row.targets, Class::BlockRef, t);
    lemma_operands_len(aimed, row.fbv, Class::NodeRef, f);
    lemma_operands_len(fed, row.pool, Class::NodeRef, row.pool.len() as int);
}

/// Every byte of a line has a class.
proof fn lemma_painted_len(
    line: Seq<char>,
    info: Option<LineModel>,
    parsed: Option<ParsedModel>,
    cursor: Option<(NodeId, Seq<NodeId>)>,
    search: Option<Seq<char>>,
)
    ensures
        painted(line, info, parsed, cursor, search).len() == encode_utf8(line).len(),
{
    let s = encode_utf8(line);
    lemma_base_len(s, info, parsed);
    lemma_gutter_len(base_painted(s, info, parsed), line, gutter_end(line, 0));
    let base = edges_painted(base_painted(s, info, parsed), line, info);
    let used = match cursor {
        Some((node, inputs)) => defuse_painted(base, info, node, inputs),
        None => base,
    };
    if let Some((node, inputs)) = cursor {
        match info {
            Some(LineModel::Node(n)) => {
                let start = n.def_span.start as int;
                let end = n.def_span.end as int;
                let defined = if n.id == node {
                    filled(base, start, end, Class::DefHl)
                } else if inputs.contains(n.id) {
                    filled(base, start, end, Class::InputHl)
                } else {
                    base
                };
                lemma_refs_len(defined, n.inputs, Class::Base, node, n.inputs.len() as int);
            },
            Some(LineModel::Frame { refs, .. }) => {
                lemma_refs_len(base, refs, Class::Base, node, refs.len() as int);
            },
            Some(LineModel::PhiMove { refs }) => {
                lemma_refs_len(base, refs, Class::Base, node, refs.len() as int);
            },
            _ => {},
        }
    }
    if let Some(pattern) = search {
        let spans = regex_spans(pattern, line);
        lemma_matches_len(used, spans, spans.len() as int);
    }
}

} // verus!
