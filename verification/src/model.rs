//! The data model.
//!
//! Two layers. The *index* types hold what one streaming pass over the lines
//! finds without looking into section bodies: line ranges and the fields of
//! the boundary lines. The *parse* types exist only for compilations that
//! someone viewed.
//!
//! A type that owns vectors or text has a mathematical counterpart, its view,
//! in which vectors are sequences and text is a sequence of characters.
//! Contracts speak of those.

use std::collections::HashMap;
use std::ops::Range;
use vstd::prelude::*;
#[allow(unused_imports)]
use vstd::string::*;

use crate::text;
#[allow(unused_imports)]
use crate::text::{all_in, byte_is, digits_value, occurs_at, ByteClass};

verus! {

// ---------------------------------------------------------------------------
// Addresses and tiers
// ---------------------------------------------------------------------------

/// A V8 heap address as printed (`0x9b80101e2cd`), stored as a number so that
/// two spellings that differ in zero padding are one address.
#[derive(Debug, Clone, Copy, PartialEq, Eq, Hash, PartialOrd, Ord, Structural)]
pub struct Addr(pub u64);

/// An address in hexadecimal.
pub open spec fn addr_text(addr: Addr) -> Seq<char> {
    "0x"@ + text::written(addr.0 as nat, 16)
}

impl Addr {
    /// The address in hexadecimal.
    pub fn to_text(self) -> (out: String)
        ensures
            out@ == addr_text(self),
    {
        let mut out = text::owned("0x");
        text::push_number(&mut out, self.0, 16);
        out
    }
}

/// The digits of an address start after an optional `0x`.
pub open spec fn addr_digits(s: Seq<u8>, from: int, to: int) -> int {
    if from + 2 <= to && occurs_at(s, from, "0x".spec_bytes()) && "0x".spec_bytes().len() == 2 {
        from + 2
    } else {
        from
    }
}

/// A sign is allowed in front of the digits, as in any number.
pub open spec fn after_plus(s: Seq<u8>, from: int, to: int) -> int {
    if from < to && byte_is(s, from, 0x2b) {
        from + 1
    } else {
        from
    }
}

/// The address written in `from..to`.
pub open spec fn addr_of(s: Seq<u8>, from: int, to: int) -> Option<Addr> {
    match text::hex_u64(s, after_plus(s, addr_digits(s, from, to), to), to) {
        Some(v) => Some(Addr(v)),
        None => None,
    }
}

/// Reads the address written in `s[from..to]`.
pub fn parse_addr(s: &[u8], from: usize, to: usize) -> (addr: Option<Addr>)
    requires
        from <= to <= s.len(),
    ensures
        addr == addr_of(s@, from as int, to as int),
{
    proof {
        reveal_strlit("0x");
        vstd::utf8::is_ascii_chars_encode_utf8("0x"@);
    }
    let mut at: usize = from;
    if to - from >= 2 && text::starts_with_at(s, from, "0x") {
        at = from + 2;
    }
    if at < to && text::byte_at(s, at, 0x2b) {
        at += 1;
    }
    match text::parse_hex(s, at, to) {
        Some(v) => Some(Addr(v)),
        None => None,
    }
}

/// The address that a text is.
pub open spec fn addr_in(hex: Seq<char>) -> Option<Addr> {
    let s = vstd::utf8::encode_utf8(hex);
    addr_of(s, 0, s.len() as int)
}

impl Addr {
    /// Reads an address, with or without `0x` and however it is padded.
    pub fn parse(hex: &str) -> (addr: Option<Addr>)
        ensures
            addr == addr_in(hex@),
    {
        let s = hex.as_bytes();
        parse_addr(s, 0, s.len())
    }
}

/// Zeros in front of an address do not change it.
pub proof fn law_addr_ignores_zero_padding(s: Seq<u8>, t: Seq<u8>)
    requires
        s.len() > 0,
        t == seq![0x30u8] + s,
        all_in(s, 0, s.len() as int, ByteClass::Hex),
    ensures
        text::hex_u64(t, 0, t.len() as int) == text::hex_u64(s, 0, s.len() as int),
{
    lemma_shifted_digits(s, t, s.len() as int);
    assert forall|k: int| 0 <= k < t.len() implies text::in_class(ByteClass::Hex, #[trigger] t[k]) by {
        if k > 0 {
            assert(t[k] == s[k - 1]);
        }
    }
}

proof fn lemma_shifted_digits(s: Seq<u8>, t: Seq<u8>, n: int)
    requires
        t == seq![0x30u8] + s,
        0 <= n <= s.len(),
    ensures
        digits_value(t, 0, n + 1, 16) == digits_value(s, 0, n, 16),
    decreases n,
{
    if n > 0 {
        lemma_shifted_digits(s, t, n - 1);
        assert(t[n] == s[n - 1]);
    } else {
        assert(digits_value(t, 0, 0, 16) == 0);
        assert(t[0] == 0x30);
    }
}

/// Compilation tier, from `with <Tier>` in a graph dump or from the upper-case
/// spelling of the timeline lines.
#[derive(Debug, PartialEq, Eq, Hash)]
pub enum Tier {
    Ignition,
    Sparkplug,
    Maglev,
    Turbofan,
    /// Maglev-style graphs that feed the TurboFan backend.
    Turbolev,
    /// An unrecognised tier, kept verbatim.
    Other(String),
}

/// The view of a `Tier`.
pub enum TierModel {
    Ignition,
    Sparkplug,
    Maglev,
    Turbofan,
    Turbolev,
    Other(Seq<char>),
}

impl View for Tier {
    type V = TierModel;

    open spec fn view(&self) -> TierModel {
        match self {
            Tier::Ignition => TierModel::Ignition,
            Tier::Sparkplug => TierModel::Sparkplug,
            Tier::Maglev => TierModel::Maglev,
            Tier::Turbofan => TierModel::Turbofan,
            Tier::Turbolev => TierModel::Turbolev,
            Tier::Other(s) => TierModel::Other(s@),
        }
    }
}

/// One byte with ASCII letters raised to upper case.
pub open spec fn upper(b: u8) -> u8 {
    if 0x61 <= b <= 0x7a {
        (b - 0x20) as u8
    } else {
        b
    }
}

/// `s[from..to]` spells `word` when ASCII case is ignored.
pub open spec fn spells(s: Seq<u8>, from: int, to: int, word: Seq<u8>) -> bool {
    to - from == word.len() && forall|k: int| 0 <= k < word.len() ==> upper(s[from + k]) == #[trigger] word[k]
}

fn is_spelled(s: &[u8], from: usize, to: usize, word: &str) -> (yes: bool)
    requires
        from <= to <= s.len(),
    ensures
        yes == spells(s@, from as int, to as int, word.spec_bytes()),
{
    let w = word.as_bytes();
    if to - from != w.len() {
        return false;
    }
    let mut k: usize = 0;
    while k < w.len()
        invariant
            from <= to <= s.len(),
            to - from == w.len(),
            w@ == word.spec_bytes(),
            k <= w.len(),
            forall|m: int| 0 <= m < k ==> upper(s@[from + m]) == #[trigger] w@[m],
        decreases w.len() - k,
    {
        let b: u8 = s[from + k];
        let u: u8 = if 0x61 <= b && b <= 0x7a {
            b - 0x20
        } else {
            b
        };
        if u != w[k] {
            assert(upper(s@[from + k]) != w@[k as int]);
            return false;
        }
        k += 1;
    }
    true
}

/// The tier that `s[from..to]` names.
pub open spec fn tier_of(s: Seq<u8>, from: int, to: int) -> TierModel {
    if spells(s, from, to, "IGNITION".spec_bytes()) {
        TierModel::Ignition
    } else if spells(s, from, to, "SPARKPLUG".spec_bytes()) || spells(s, from, to, "BASELINE".spec_bytes()) {
        TierModel::Sparkplug
    } else if spells(s, from, to, "MAGLEV".spec_bytes()) {
        TierModel::Maglev
    } else if spells(s, from, to, "TURBOFAN".spec_bytes()) || spells(s, from, to, "TURBOFAN_JS".spec_bytes()) {
        TierModel::Turbofan
    } else if spells(s, from, to, "TURBOLEV".spec_bytes()) {
        TierModel::Turbolev
    } else {
        TierModel::Other(text::text_of(s, from, to))
    }
}

/// Reads the tier that `s[from..to]` names.
pub fn parse_tier(s: &[u8], from: usize, to: usize) -> (tier: Tier)
    requires
        from <= to <= s.len(),
    ensures
        tier@ == tier_of(s@, from as int, to as int),
        ({
            let word = s@.subrange(from as int, to as int);
            tier@ is Other && vstd::utf8::valid_utf8(word) ==> tier@ == TierModel::Other(
                vstd::utf8::decode_utf8(word),
            )
        }),
{
    if is_spelled(s, from, to, "IGNITION") {
        Tier::Ignition
    } else if is_spelled(s, from, to, "SPARKPLUG") || is_spelled(s, from, to, "BASELINE") {
        Tier::Sparkplug
    } else if is_spelled(s, from, to, "MAGLEV") {
        Tier::Maglev
    } else if is_spelled(s, from, to, "TURBOFAN") || is_spelled(s, from, to, "TURBOFAN_JS") {
        Tier::Turbofan
    } else if is_spelled(s, from, to, "TURBOLEV") {
        Tier::Turbolev
    } else {
        Tier::Other(text::text_between(s, from, to))
    }
}

/// The display name of a tier.
pub open spec fn tier_label(tier: TierModel) -> Seq<char> {
    match tier {
        TierModel::Ignition => "Ignition"@,
        TierModel::Sparkplug => "Sparkplug"@,
        TierModel::Maglev => "Maglev"@,
        TierModel::Turbofan => "Turbofan"@,
        TierModel::Turbolev => "Turbolev"@,
        TierModel::Other(s) => s,
    }
}

/// The tier that a word names. A word that names none stands for itself.
pub open spec fn tier_named(word: Seq<char>) -> TierModel {
    let s = vstd::utf8::encode_utf8(word);
    match tier_of(s, 0, s.len() as int) {
        TierModel::Other(_) => TierModel::Other(word),
        tier => tier,
    }
}

impl Tier {
    /// The tier that a word names, in any of its spellings.
    pub fn parse(word: &str) -> (tier: Tier)
        ensures
            tier@ == tier_named(word@),
    {
        let s = word.as_bytes();
        proof {
            vstd::utf8::encode_utf8_valid_utf8(word@);
            vstd::utf8::encode_utf8_decode_utf8(word@);
            assert(s@.subrange(0, s@.len() as int) =~= s@);
        }
        parse_tier(s, 0, s.len())
    }

    /// The display name.
    pub fn label(&self) -> (name: &str)
        ensures
            name@ == tier_label(self@),
    {
        match self {
            Tier::Ignition => "Ignition",
            Tier::Sparkplug => "Sparkplug",
            Tier::Maglev => "Maglev",
            Tier::Turbofan => "Turbofan",
            Tier::Turbolev => "Turbolev",
            Tier::Other(s) => s.as_str(),
        }
    }

    /// Are two tiers the same?
    pub fn same(&self, other: &Tier) -> (yes: bool)
        ensures
            yes == (self@ == other@),
    {
        match (self, other) {
            (Tier::Ignition, Tier::Ignition) => true,
            (Tier::Sparkplug, Tier::Sparkplug) => true,
            (Tier::Maglev, Tier::Maglev) => true,
            (Tier::Turbofan, Tier::Turbofan) => true,
            (Tier::Turbolev, Tier::Turbolev) => true,
            (Tier::Other(a), Tier::Other(b)) => *a == *b,
            _ => false,
        }
    }

    /// A copy of the tier.
    pub fn duplicate(&self) -> (tier: Tier)
        ensures
            tier@ == self@,
    {
        match self {
            Tier::Ignition => Tier::Ignition,
            Tier::Sparkplug => Tier::Sparkplug,
            Tier::Maglev => Tier::Maglev,
            Tier::Turbofan => Tier::Turbofan,
            Tier::Turbolev => Tier::Turbolev,
            Tier::Other(s) => Tier::Other(s.clone()),
        }
    }
}

// ---------------------------------------------------------------------------
// Index-time types
// ---------------------------------------------------------------------------

/// Identity of one compilation: function names can be empty or repeated, so
/// the address of the shared function info is the key, and the ordinal counts
/// the instances of `(sfi, tier)` in stream order.
#[derive(Debug, PartialEq, Eq, Hash)]
pub struct CompilationKey {
    pub sfi: Addr,
    pub tier: Tier,
    /// Counts from one within the source.
    pub ordinal: u32,
}

/// How sure the indexer is that OSR data belongs to the compilation that it is
/// attached to.
#[derive(Debug, Clone, Copy, PartialEq, Eq, Structural)]
pub enum Confidence {
    /// Bracket lines with the same key, adjacent in a clean stream.
    Exact,
    /// Matched through a weak key, the function's name.
    Heuristic,
}

/// On-stack-replacement data of a compilation.
#[derive(Debug, Clone, Copy, PartialEq, Eq, Structural)]
pub struct OsrInfo {
    /// The offset of the `[OSR - compilation started …]` line, matched by
    /// function name.
    pub offset: Option<u32>,
    pub confidence: Confidence,
}

/// What a banner opened.
#[derive(Debug, PartialEq, Eq)]
pub enum PhaseKind {
    /// A pipeline phase. `known` says that some version uses its name.
    Graph { known: bool },
    /// The bytecode array that precedes the graphs.
    Bytecode,
    /// The bytecode of a callee at an inlining site.
    Inlining { sfi: Option<Addr>, callee: String },
    /// A listing without block structure: machine code, tables, raw source.
    Listing,
}

/// The view of a `PhaseKind`.
pub enum PhaseKindModel {
    Graph { known: bool },
    Bytecode,
    Inlining { sfi: Option<Addr>, callee: Seq<char> },
    Listing,
}

impl View for PhaseKind {
    type V = PhaseKindModel;

    open spec fn view(&self) -> PhaseKindModel {
        match self {
            PhaseKind::Graph { known } => PhaseKindModel::Graph { known: *known },
            PhaseKind::Bytecode => PhaseKindModel::Bytecode,
            PhaseKind::Inlining { sfi, callee } => PhaseKindModel::Inlining {
                sfi: *sfi,
                callee: callee@,
            },
            PhaseKind::Listing => PhaseKindModel::Listing,
        }
    }
}

/// One phase of a compilation.
#[derive(Debug)]
pub struct PhaseSection {
    pub name: String,
    pub kind: PhaseKind,
    /// From the banner up to the next boundary.
    pub lines: Range<usize>,
}

/// The view of a `PhaseSection`.
#[verifier::ext_equal]
pub struct PhaseSectionModel {
    pub name: Seq<char>,
    pub kind: PhaseKindModel,
    pub start: int,
    pub end: int,
}

impl View for PhaseSection {
    type V = PhaseSectionModel;

    open spec fn view(&self) -> PhaseSectionModel {
        PhaseSectionModel {
            name: self.name@,
            kind: self.kind@,
            start: self.lines.start as int,
            end: self.lines.end as int,
        }
    }
}

/// The views of a sequence of phases.
pub open spec fn phase_models(phases: Seq<PhaseSection>) -> Seq<PhaseSectionModel> {
    phases.map_values(|p: PhaseSection| p@)
}

/// One compilation: line ranges and everything that its anchor line says.
#[derive(Debug)]
pub struct CompilationSection {
    pub key: CompilationKey,
    /// From the anchor line; empty for the toplevel script function.
    pub name: String,
    pub function_addr: Option<Addr>,
    /// The preamble and the trailer belong to the range.
    pub lines: Range<usize>,
    pub osr: Option<OsrInfo>,
    pub phases: Vec<PhaseSection>,
    /// The lines between the anchor and the first banner.
    pub preamble: Range<usize>,
    /// A name filter left this compilation out: it keeps its place in the
    /// partition but is never shown or parsed.
    pub filtered_out: bool,
}

/// The view of a `CompilationSection`.
#[verifier::ext_equal]
pub struct CompilationModel {
    pub sfi: Addr,
    pub tier: TierModel,
    pub ordinal: u32,
    pub name: Seq<char>,
    pub function_addr: Option<Addr>,
    pub start: int,
    pub end: int,
    pub osr: Option<OsrInfo>,
    pub phases: Seq<PhaseSectionModel>,
    pub preamble_start: int,
    pub preamble_end: int,
    pub filtered_out: bool,
}

impl View for CompilationSection {
    type V = CompilationModel;

    open spec fn view(&self) -> CompilationModel {
        CompilationModel {
            sfi: self.key.sfi,
            tier: self.key.tier@,
            ordinal: self.key.ordinal,
            name: self.name@,
            function_addr: self.function_addr,
            start: self.lines.start as int,
            end: self.lines.end as int,
            osr: self.osr,
            phases: phase_models(self.phases@),
            preamble_start: self.preamble.start as int,
            preamble_end: self.preamble.end as int,
            filtered_out: self.filtered_out,
        }
    }
}

/// The views of a sequence of compilations.
pub open spec fn compilation_models(list: Seq<CompilationSection>) -> Seq<CompilationModel> {
    list.map_values(|c: CompilationSection| c@)
}

/// The name to show for a function: a stand-in where it has none.
pub open spec fn shown_name(name: Seq<char>) -> Seq<char> {
    if name.len() == 0 {
        "<toplevel>"@
    } else {
        name
    }
}

impl CompilationSection {
    /// The name that the sidebar shows.
    pub fn display_name(&self) -> (name: &str)
        ensures
            name@ == shown_name(self.name@),
    {
        if self.name.as_str().is_empty() {
            "<toplevel>"
        } else {
            self.name.as_str()
        }
    }
}

/// Lines that belong to no compilation.
#[derive(Debug)]
pub struct RawSection {
    pub lines: Range<usize>,
    /// The first line with text, as shown in the sidebar.
    pub label: String,
}

/// The view of a `RawSection`.
#[verifier::ext_equal]
pub struct RawModel {
    pub start: int,
    pub end: int,
    pub label: Seq<char>,
}

impl View for RawSection {
    type V = RawModel;

    open spec fn view(&self) -> RawModel {
        RawModel { start: self.lines.start as int, end: self.lines.end as int, label: self.label@ }
    }
}

/// The views of a sequence of raw sections.
pub open spec fn raw_models(list: Seq<RawSection>) -> Seq<RawModel> {
    list.map_values(|r: RawSection| r@)
}

/// A lifecycle event, one line of the trace.
#[derive(Debug)]
pub struct TimelineEvent {
    pub line: usize,
    pub kind: EventKind,
}

/// What a lifecycle line says.
#[derive(Debug, PartialEq)]
pub enum EventKind {
    /// `[marking <fn> for optimization to <TIER>, …, reason: <r>]`
    Marking { name: String, sfi: Option<Addr>, target: Tier, reason: String },
    /// `[compiling method <fn> (target <TIER>)[ OSR], mode: …]`
    CompileStart { name: String, sfi: Option<Addr>, target: Tier, osr: bool },
    /// `[completed compiling <fn> (target <TIER>)[ OSR] - took …]`
    CompileDone { name: String, sfi: Option<Addr>, target: Tier, osr: bool },
    /// `[bailout (kind: <k>, reason: <r>): begin. deoptimizing <fn>, …]`
    DeoptBegin {
        kind: String,
        reason: String,
        name: String,
        sfi: Option<Addr>,
        tier: Tier,
        opt_id: Option<u32>,
        bytecode_offset: Option<u32>,
    },
    /// `[bailout end. code_invalidation: <invalidated|unaffected>…]`
    DeoptEnd { invalidated: bool },
    /// `[OSR - <what>. function: <name>[, osr offset: N]…]`
    Osr { what: String, name: String, osr_offset: Option<u32> },
}

/// The view of an `EventKind`.
pub enum EventModel {
    Marking { name: Seq<char>, sfi: Option<Addr>, target: TierModel, reason: Seq<char> },
    CompileStart { name: Seq<char>, sfi: Option<Addr>, target: TierModel, osr: bool },
    CompileDone { name: Seq<char>, sfi: Option<Addr>, target: TierModel, osr: bool },
    DeoptBegin {
        kind: Seq<char>,
        reason: Seq<char>,
        name: Seq<char>,
        sfi: Option<Addr>,
        tier: TierModel,
        opt_id: Option<u32>,
        bytecode_offset: Option<u32>,
    },
    DeoptEnd { invalidated: bool },
    Osr { what: Seq<char>, name: Seq<char>, osr_offset: Option<u32> },
}

impl View for EventKind {
    type V = EventModel;

    open spec fn view(&self) -> EventModel {
        match self {
            EventKind::Marking { name, sfi, target, reason } => EventModel::Marking {
                name: name@,
                sfi: *sfi,
                target: target@,
                reason: reason@,
            },
            EventKind::CompileStart { name, sfi, target, osr } => EventModel::CompileStart {
                name: name@,
                sfi: *sfi,
                target: target@,
                osr: *osr,
            },
            EventKind::CompileDone { name, sfi, target, osr } => EventModel::CompileDone {
                name: name@,
                sfi: *sfi,
                target: target@,
                osr: *osr,
            },
            EventKind::DeoptBegin { kind, reason, name, sfi, tier, opt_id, bytecode_offset } => {
                EventModel::DeoptBegin {
                    kind: kind@,
                    reason: reason@,
                    name: name@,
                    sfi: *sfi,
                    tier: tier@,
                    opt_id: *opt_id,
                    bytecode_offset: *bytecode_offset,
                }
            },
            EventKind::DeoptEnd { invalidated } => EventModel::DeoptEnd { invalidated: *invalidated },
            EventKind::Osr { what, name, osr_offset } => EventModel::Osr {
                what: what@,
                name: name@,
                osr_offset: *osr_offset,
            },
        }
    }
}

/// The views of a sequence of events: lines and what they report.
pub open spec fn event_models(list: Seq<TimelineEvent>) -> Seq<(int, EventModel)> {
    list.map_values(|e: TimelineEvent| (e.line as int, e.kind@))
}

/// The badge of an event.
pub open spec fn event_label(event: EventModel) -> Seq<char> {
    match event {
        EventModel::Marking { .. } => "marking"@,
        EventModel::CompileStart { .. } => "compile-start"@,
        EventModel::CompileDone { .. } => "compile-done"@,
        EventModel::DeoptBegin { .. } => "deopt"@,
        EventModel::DeoptEnd { .. } => "deopt-end"@,
        EventModel::Osr { .. } => "osr"@,
    }
}

impl EventKind {
    /// The badge of the event.
    pub fn label(&self) -> (name: &'static str)
        ensures
            name@ == event_label(self@),
    {
        match self {
            EventKind::Marking { .. } => "marking",
            EventKind::CompileStart { .. } => "compile-start",
            EventKind::CompileDone { .. } => "compile-done",
            EventKind::DeoptBegin { .. } => "deopt",
            EventKind::DeoptEnd { .. } => "deopt-end",
            EventKind::Osr { .. } => "osr",
        }
    }
}

// ---------------------------------------------------------------------------
// Parse-time types
// ---------------------------------------------------------------------------

/// A node id `nN`: a node's identity across phases.
pub type NodeId = u32;

/// The id of lines that take a schedule position and define no node.
pub const SCHEDULE_ONLY: NodeId = 0xffff_ffff;

/// A basic-block id `bN`.
pub type BlockId = u32;

/// A byte range within one stripped line.
pub type Span = Range<u32>;

/// The span from `a` up to `b`.
pub open spec fn span(a: int, b: int) -> Span {
    Range { start: a as u32, end: b as u32 }
}

/// A span as the model records it.
pub fn span_of(a: usize, b: usize) -> (s: Span)
    ensures
        s == span(a as int, b as int),
{
    Range { start: a as u32, end: b as u32 }
}

/// A reference to a node, with the place of its token in the line.
#[derive(Debug, PartialEq, Eq)]
pub struct NodeRef {
    pub node: NodeId,
    pub span: Span,
}

/// A reference to a block, with the place of its token in the line.
#[derive(Debug, PartialEq, Eq)]
pub struct BlockRef {
    pub block: BlockId,
    pub span: Span,
}

/// How one phase renders one node. `id` is the identity; the rest varies from
/// phase to phase.
#[derive(Debug)]
pub struct IRNode {
    pub id: NodeId,
    /// The `A` of `A/B:`.
    pub schedule_pos: Option<u32>,
    /// The id token or tokens in front of the colon.
    pub def_span: Span,
    /// Index into `ParsedCompilation::opcodes`.
    pub opcode: u32,
    pub opcode_span: Span,
    pub inputs: Vec<NodeRef>,
    /// `, N uses`, where the phase prints it.
    pub uses: Option<u32>,
    /// Marked as having no uses left.
    pub dead: bool,
    pub targets: Vec<BlockRef>,
}

/// The view of an `IRNode`.
#[verifier::ext_equal]
pub struct NodeModel {
    pub id: NodeId,
    pub schedule_pos: Option<u32>,
    pub def_span: Span,
    pub opcode: u32,
    pub opcode_span: Span,
    pub inputs: Seq<NodeRef>,
    pub uses: Option<u32>,
    pub dead: bool,
    pub targets: Seq<BlockRef>,
}

impl View for IRNode {
    type V = NodeModel;

    open spec fn view(&self) -> NodeModel {
        NodeModel {
            id: self.id,
            schedule_pos: self.schedule_pos,
            def_span: self.def_span,
            opcode: self.opcode,
            opcode_span: self.opcode_span,
            inputs: self.inputs@,
            uses: self.uses,
            dead: self.dead,
            targets: self.targets@,
        }
    }
}

/// One row of interpreter bytecode. The references give a listing the
/// navigation that graphs have.
#[derive(Debug, PartialEq, Eq)]
pub struct BytecodeRow {
    pub offset: u32,
    pub offset_span: Span,
    pub mnemonic: Span,
    /// Jump targets: `(0x… @ N)` and the `@N` cases of a switch table.
    pub targets: Vec<(u32, Span)>,
    /// `FBV[N]` operands.
    pub fbv: Vec<(u32, Span)>,
    /// `[N:…]` operands. A bare `[N]` is an immediate.
    pub pool: Vec<(u32, Span)>,
    /// A row of a dump, as opposed to context inside a graph.
    pub primary: bool,
    /// The character offset of an `S>` or `E>` marker.
    pub src_pos: Option<u32>,
}

/// The view of a `BytecodeRow`.
#[verifier::ext_equal]
pub struct RowModel {
    pub offset: u32,
    pub offset_span: Span,
    pub mnemonic: Span,
    pub targets: Seq<(u32, Span)>,
    pub fbv: Seq<(u32, Span)>,
    pub pool: Seq<(u32, Span)>,
    pub primary: bool,
    pub src_pos: Option<u32>,
}

impl View for BytecodeRow {
    type V = RowModel;

    open spec fn view(&self) -> RowModel {
        RowModel {
            offset: self.offset,
            offset_span: self.offset_span,
            mnemonic: self.mnemonic,
            targets: self.targets@,
            fbv: self.fbv@,
            pool: self.pool@,
            primary: self.primary,
            src_pos: self.src_pos,
        }
    }
}

/// The inline-cache state of a feedback slot.
#[derive(Debug, Clone, Copy, PartialEq, Eq, Structural)]
pub enum IcState {
    Uninitialized,
    Monomorphic,
    Polymorphic,
    Megamorphic,
    /// Feedback whose state is no inline-cache state.
    Other,
}

/// The three kinds of deopt frame.
#[derive(Debug, Clone, Copy, PartialEq, Eq, Structural)]
pub enum FrameArrow {
    Eager,
    Lazy,
    Throw,
}

/// The name of a frame kind.
pub open spec fn arrow_name(arrow: FrameArrow) -> Seq<char> {
    match arrow {
        FrameArrow::Eager => "eager"@,
        FrameArrow::Lazy => "lazy"@,
        FrameArrow::Throw => "throw"@,
    }
}

impl FrameArrow {
    /// The name of the frame kind.
    pub fn label(self) -> (name: &'static str)
        ensures
            name@ == arrow_name(self),
    {
        match self {
            FrameArrow::Eager => "eager",
            FrameArrow::Lazy => "lazy",
            FrameArrow::Throw => "throw",
        }
    }
}

/// One distinct deopt frame.
#[derive(Debug, Clone, Copy, PartialEq, Eq, Structural)]
pub struct DeoptFrame {
    pub arrow: FrameArrow,
    /// `@N`; negative offsets occur.
    pub bytecode_offset: Option<i32>,
    /// The catch block of a throw frame.
    pub catch_block: Option<BlockId>,
    /// The host pointer, where one was printed.
    pub addr: Option<u64>,
    /// How many lines rendered this frame.
    pub occurrences: u32,
}

/// One classified line. Every line of a phase gets exactly one.
#[derive(Debug)]
pub enum LineInfo {
    /// The banner itself.
    Banner,
    /// Section furniture and blank lines.
    Control,
    /// A block header, possibly behind a control-flow gutter.
    BlockHeader { block: BlockId },
    /// A switch of the inlined-function context. The position is the function's
    /// definition; `0:0` means that none was printed.
    SfiContext { line: u32, col: u32, same_script: bool },
    Bytecode(BytecodeRow),
    /// The header of a feedback-vector slot.
    FeedbackSlot { index: u32, def_span: Span, kind: Span, state: Span, ic: IcState },
    /// An entry of the constant pool.
    PoolEntry { index: u32, def_span: Span },
    Node(IRNode),
    /// A deopt-frame line and the node that it hangs off.
    Frame { frame: u32, after_node: Option<NodeId>, refs: Vec<NodeRef> },
    VirtualObjects,
    /// A phi-input move at a block edge.
    PhiMove { refs: Vec<NodeRef> },
    /// One row of disassembly.
    Disasm {
        offset: u32,
        offset_span: Span,
        addr: u64,
        mnemonic: Span,
        target: Option<Span>,
        target_offset: Option<u32>,
        target_addr: Option<u64>,
        /// Some branch of the listing lands here.
        labeled: bool,
        comment: Option<Span>,
    },
    /// A line of JavaScript source.
    Source,
    /// Anything else, kept in place.
    Annotation { after_node: Option<NodeId> },
}

/// The view of a `LineInfo`.
#[verifier::ext_equal]
pub enum LineModel {
    Banner,
    Control,
    BlockHeader { block: BlockId },
    SfiContext { line: u32, col: u32, same_script: bool },
    Bytecode(RowModel),
    FeedbackSlot { index: u32, def_span: Span, kind: Span, state: Span, ic: IcState },
    PoolEntry { index: u32, def_span: Span },
    Node(NodeModel),
    Frame { frame: u32, after_node: Option<NodeId>, refs: Seq<NodeRef> },
    VirtualObjects,
    PhiMove { refs: Seq<NodeRef> },
    Disasm {
        offset: u32,
        offset_span: Span,
        addr: u64,
        mnemonic: Span,
        target: Option<Span>,
        target_offset: Option<u32>,
        target_addr: Option<u64>,
        labeled: bool,
        comment: Option<Span>,
    },
    Source,
    Annotation { after_node: Option<NodeId> },
}

impl View for LineInfo {
    type V = LineModel;

    open spec fn view(&self) -> LineModel {
        match self {
            LineInfo::Banner => LineModel::Banner,
            LineInfo::Control => LineModel::Control,
            LineInfo::BlockHeader { block } => LineModel::BlockHeader { block: *block },
            LineInfo::SfiContext { line, col, same_script } => LineModel::SfiContext {
                line: *line,
                col: *col,
                same_script: *same_script,
            },
            LineInfo::Bytecode(row) => LineModel::Bytecode(row@),
            LineInfo::FeedbackSlot { index, def_span, kind, state, ic } => LineModel::FeedbackSlot {
                index: *index,
                def_span: *def_span,
                kind: *kind,
                state: *state,
                ic: *ic,
            },
            LineInfo::PoolEntry { index, def_span } => LineModel::PoolEntry {
                index: *index,
                def_span: *def_span,
            },
            LineInfo::Node(node) => LineModel::Node(node@),
            LineInfo::Frame { frame, after_node, refs } => LineModel::Frame {
                frame: *frame,
                after_node: *after_node,
                refs: refs@,
            },
            LineInfo::VirtualObjects => LineModel::VirtualObjects,
            LineInfo::PhiMove { refs } => LineModel::PhiMove { refs: refs@ },
            LineInfo::Disasm {
                offset,
                offset_span,
                addr,
                mnemonic,
                target,
                target_offset,
                target_addr,
                labeled,
                comment,
            } => LineModel::Disasm {
                offset: *offset,
                offset_span: *offset_span,
                addr: *addr,
                mnemonic: *mnemonic,
                target: *target,
                target_offset: *target_offset,
                target_addr: *target_addr,
                labeled: *labeled,
                comment: *comment,
            },
            LineInfo::Source => LineModel::Source,
            LineInfo::Annotation { after_node } => LineModel::Annotation { after_node: *after_node },
        }
    }
}

/// The view of an optional line.
pub open spec fn line_model(info: Option<LineInfo>) -> Option<LineModel> {
    match info {
        Some(l) => Some(l@),
        None => None,
    }
}

/// The views of a sequence of lines.
pub open spec fn line_models(infos: Seq<LineInfo>) -> Seq<LineModel> {
    infos.map_values(|l: LineInfo| l@)
}

/// One parsed phase: a classification of every line, and where each node is
/// defined and used.
#[derive(Debug)]
pub struct ParsedPhase {
    /// `infos[i]` describes line `start + i` of the phase.
    pub infos: Vec<LineInfo>,
    /// Node id to the index of its definition.
    pub defs: HashMap<NodeId, u32>,
    /// Node id to the indices of the lines that use it, one per reference.
    pub users: HashMap<NodeId, Vec<u32>>,
    pub node_count: u32,
    pub block_count: u32,
    pub annotation_count: u32,
}

/// The view of a `ParsedPhase`.
#[verifier::ext_equal]
pub struct PhaseModel {
    pub infos: Seq<LineModel>,
    pub defs: Map<NodeId, u32>,
    pub users: Map<NodeId, Seq<u32>>,
    pub node_count: u32,
    pub block_count: u32,
    pub annotation_count: u32,
}

impl View for ParsedPhase {
    type V = PhaseModel;

    open spec fn view(&self) -> PhaseModel {
        PhaseModel {
            infos: line_models(self.infos@),
            defs: self.defs@,
            users: self.users@.map_values(|v: Vec<u32>| v@),
            node_count: self.node_count,
            block_count: self.block_count,
            annotation_count: self.annotation_count,
        }
    }
}

/// The phase without lines.
pub open spec fn empty_phase() -> PhaseModel {
    PhaseModel {
        infos: Seq::empty(),
        defs: Map::empty(),
        users: Map::empty(),
        node_count: 0,
        block_count: 0,
        annotation_count: 0,
    }
}

impl Default for ParsedPhase {
    fn default() -> (phase: ParsedPhase)
        ensures
            phase@ == empty_phase(),
    {
        broadcast use vstd::std_specs::hash::group_hash_axioms;

        let phase = ParsedPhase {
            infos: Vec::new(),
            defs: HashMap::new(),
            users: HashMap::new(),
            node_count: 0,
            block_count: 0,
            annotation_count: 0,
        };
        assert(phase@ =~= empty_phase());
        phase
    }
}

/// One more, where counting past the largest number starts over.
pub open spec fn next_count(n: u32) -> u32 {
    if n == u32::MAX {
        0
    } else {
        (n + 1) as u32
    }
}

/// One more, where counting past the largest number starts over.
pub fn count_up(n: u32) -> (m: u32)
    ensures
        m == next_count(n),
{
    if n == u32::MAX {
        0
    } else {
        n + 1
    }
}

/// `users` with one more use of `node` at `at`.
pub open spec fn with_use(users: Map<NodeId, Seq<u32>>, node: NodeId, at: u32) -> Map<NodeId, Seq<u32>> {
    if users.dom().contains(node) {
        users.insert(node, users[node].push(at))
    } else {
        users.insert(node, seq![at])
    }
}

/// `users` with a use at `at` for each of the first `n` references.
pub open spec fn with_uses(
    users: Map<NodeId, Seq<u32>>,
    refs: Seq<NodeRef>,
    n: int,
    at: u32,
) -> Map<NodeId, Seq<u32>>
    decreases n,
{
    if n <= 0 {
        users
    } else {
        with_use(with_uses(users, refs, n - 1, at), refs[n - 1].node, at)
    }
}

impl ParsedPhase {
    /// Records a line.
    pub(crate) fn push_info(&mut self, info: LineInfo)
        ensures
            final(self)@ == (PhaseModel { infos: old(self)@.infos.push(info@), ..old(self)@ }),
    {
        self.infos.push(info);
        assert(line_models(self.infos@) =~= line_models(old(self).infos@).push(info@));
    }

    /// Records one use of `node` at line `at`.
    pub(crate) fn add_use(&mut self, node: NodeId, at: u32)
        ensures
            final(self)@ == (PhaseModel { users: with_use(old(self)@.users, node, at), ..old(self)@ }),
    {
        broadcast use vstd::std_specs::hash::group_hash_axioms;

        let ghost before = self.users@;
        match self.users.remove(&node) {
            Some(mut list) => {
                list.push(at);
                self.users.insert(node, list);
                assert(self.users@.map_values(|v: Vec<u32>| v@) =~= with_use(
                    before.map_values(|v: Vec<u32>| v@),
                    node,
                    at,
                ));
            },
            None => {
                let mut list: Vec<u32> = Vec::new();
                list.push(at);
                self.users.insert(node, list);
                assert(list@ =~= seq![at]);
                assert(self.users@.map_values(|v: Vec<u32>| v@) =~= with_use(
                    before.map_values(|v: Vec<u32>| v@),
                    node,
                    at,
                ));
            },
        }
    }

    /// Records a use at line `at` for each reference.
    pub(crate) fn add_uses(&mut self, refs: &Vec<NodeRef>, at: u32)
        ensures
            final(self)@ == (PhaseModel {
                users: with_uses(old(self)@.users, refs@, refs@.len() as int, at),
                ..old(self)@
            }),
    {
        let mut k: usize = 0;
        while k < refs.len()
            invariant
                k <= refs.len(),
                self@ == (PhaseModel {
                    users: with_uses(old(self)@.users, refs@, k as int, at),
                    ..old(self)@
                }),
            decreases refs.len() - k,
        {
            self.add_use(refs[k].node, at);
            k += 1;
        }
    }

    /// Records that `node` is defined at line `at`.
    pub(crate) fn add_def(&mut self, node: NodeId, at: u32)
        ensures
            final(self)@ == (PhaseModel { defs: old(self)@.defs.insert(node, at), ..old(self)@ }),
    {
        broadcast use vstd::std_specs::hash::group_hash_axioms;

        self.defs.insert(node, at);
    }
}

/// An inlining decision.
#[derive(Debug, PartialEq, Eq)]
pub struct InlineDecision {
    pub line: usize,
    pub inlined: bool,
    pub callee: String,
    pub reason: String,
}

/// The view of an `InlineDecision`.
#[verifier::ext_equal]
pub struct DecisionModel {
    pub line: int,
    pub inlined: bool,
    pub callee: Seq<char>,
    pub reason: Seq<char>,
}

impl View for InlineDecision {
    type V = DecisionModel;

    open spec fn view(&self) -> DecisionModel {
        DecisionModel {
            line: self.line as int,
            inlined: self.inlined,
            callee: self.callee@,
            reason: self.reason@,
        }
    }
}

/// The views of a sequence of decisions.
pub open spec fn decision_models(list: Seq<InlineDecision>) -> Seq<DecisionModel> {
    list.map_values(|d: InlineDecision| d@)
}

/// The characters of each text of a list.
pub open spec fn texts(list: Seq<String>) -> Seq<Seq<char>> {
    list.map_values(|s: String| s@)
}

/// Everything that parsing one compilation gives.
#[derive(Debug)]
pub struct ParsedCompilation {
    /// `IRNode::opcode` indexes this.
    pub opcodes: Vec<String>,
    /// `LineInfo::Frame::frame` indexes this.
    pub frames: Vec<DeoptFrame>,
    /// One entry per phase section, in the same order.
    pub phases: Vec<ParsedPhase>,
    pub preamble: Vec<LineInfo>,
    pub inline_decisions: Vec<InlineDecision>,
    /// The script of the first function context.
    pub script: Option<String>,
    /// The line of the main function's definition.
    pub script_line: Option<u32>,
    /// The function's character offset in the script, from a code dump.
    pub source_position: Option<u32>,
}

/// The view of a `ParsedCompilation`.
#[verifier::ext_equal]
pub struct ParsedModel {
    pub opcodes: Seq<Seq<char>>,
    pub frames: Seq<DeoptFrame>,
    pub phases: Seq<PhaseModel>,
    pub preamble: Seq<LineModel>,
    pub inline_decisions: Seq<DecisionModel>,
    pub script: Option<Seq<char>>,
    pub script_line: Option<u32>,
    pub source_position: Option<u32>,
}

/// The view of an optional text.
pub open spec fn opt_text(s: Option<String>) -> Option<Seq<char>> {
    match s {
        Some(s) => Some(s@),
        None => None,
    }
}

/// The views of a sequence of parsed phases.
pub open spec fn parsed_phase_models(list: Seq<ParsedPhase>) -> Seq<PhaseModel> {
    list.map_values(|p: ParsedPhase| p@)
}

impl View for ParsedCompilation {
    type V = ParsedModel;

    open spec fn view(&self) -> ParsedModel {
        ParsedModel {
            opcodes: texts(self.opcodes@),
            frames: self.frames@,
            phases: parsed_phase_models(self.phases@),
            preamble: line_models(self.preamble@),
            inline_decisions: decision_models(self.inline_decisions@),
            script: opt_text(self.script),
            script_line: self.script_line,
            source_position: self.source_position,
        }
    }
}

/// The parse of nothing.
pub open spec fn empty_parse() -> ParsedModel {
    ParsedModel {
        opcodes: Seq::empty(),
        frames: Seq::empty(),
        phases: Seq::empty(),
        preamble: Seq::empty(),
        inline_decisions: Seq::empty(),
        script: None,
        script_line: None,
        source_position: None,
    }
}

impl Default for ParsedCompilation {
    fn default() -> (parsed: ParsedCompilation)
        ensures
            parsed@ == empty_parse(),
    {
        let parsed = ParsedCompilation {
            opcodes: Vec::new(),
            frames: Vec::new(),
            phases: Vec::new(),
            preamble: Vec::new(),
            inline_decisions: Vec::new(),
            script: None,
            script_line: None,
            source_position: None,
        };
        assert(parsed@ =~= empty_parse());
        parsed
    }
}

} // verus!
