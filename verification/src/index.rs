//! The streaming section indexer.
//!
//! One pass over the lines finds section boundaries without looking into
//! bodies, and takes up where it left off when more lines arrive.
//!
//! - `Compiling 0x… <JSFunction …> with <Tier>` anchors a compilation, and so
//!   does the begin line of a TurboFan section and the first banner of a
//!   Turbolev dump.
//! - Banners open phases within a compilation.
//! - Rules and begin lines are held back until the next line tells whether they
//!   close what is open or open what follows.
//! - A code dump is a compilation of its own until it closes. It then joins the
//!   compilation right before it, if tier and name agree.
//! - Lines of no compilation form raw sections. Lifecycle events are recorded
//!   wherever they stand; one inside a dump closes it.
//!
//! The sections partition the lines.

use std::ops::Range;
use vstd::prelude::*;
#[allow(unused_imports)]
use vstd::string::*;

use crate::ansi;
#[allow(unused_imports)]
use crate::ansi::display_chars;
use crate::boundary;
use crate::boundary::Boundary;
#[allow(unused_imports)]
use crate::boundary::{inlining_banner, BoundaryModel};
use crate::markers::{MarkerTable, VersionVotes};
#[allow(unused_imports)]
use crate::markers::{detected_version, markers_of, versions_of, with_votes, MARKERS_TOML};
#[allow(unused_imports)]
use crate::model::{
    compilation_models, event_models, next_count, opt_text, phase_models, raw_models, shown_name,
    tier_of, CompilationModel, EventModel, PhaseKindModel, PhaseSectionModel, RawModel, TierModel,
};
use crate::model::{
    count_up, parse_tier, Addr, CompilationKey, CompilationSection, Confidence, EventKind, OsrInfo,
    PhaseKind, PhaseSection, RawSection, Tier, TimelineEvent,
};
use crate::pattern::Pattern;
#[allow(unused_imports)]
use crate::pattern::{opt_pattern, regex_found};
use crate::source::LogBuffer;
#[allow(unused_imports)]
use crate::source::LogModel;
use crate::text;
#[allow(unused_imports)]
use crate::text::{occurs_at, text_of};

verus! {

// ---------------------------------------------------------------------------
// The state of the indexer
// ---------------------------------------------------------------------------

/// What is open.
#[derive(Clone, Copy, PartialEq, Eq, Structural)]
pub enum Open {
    /// Nothing, or a raw section since a line.
    Idle { raw_since: Option<usize> },
    /// The last compilation.
    Compilation,
    /// The last compilation, a code dump.
    Code,
}

/// The view of `Open`.
pub enum OpenModel {
    Idle { raw_since: Option<int> },
    Compilation,
    Code,
}

impl View for Open {
    type V = OpenModel;

    open spec fn view(&self) -> OpenModel {
        match self {
            Open::Idle { raw_since } => OpenModel::Idle { raw_since: text::pos(*raw_since) },
            Open::Compilation => OpenModel::Compilation,
            Open::Code => OpenModel::Code,
        }
    }
}

/// The view of a `TraceIndex`.
#[verifier::ext_equal]
pub struct IndexModel {
    pub compilations: Seq<CompilationModel>,
    pub raw: Seq<RawModel>,
    pub events: Seq<(int, EventModel)>,
    pub detected: Option<Seq<char>>,
    pub open: OpenModel,
    /// The first of the rule and begin lines that are held back.
    pub pending: Option<int>,
    pub raw_label: Option<Seq<char>>,
    pub next_line: int,
    pub votes: Seq<(Seq<char>, u32)>,
    /// The last compile-start event: function, tier and whether it was OSR.
    pub last_start: Option<(Addr, TierModel, bool)>,
    /// OSR offsets by function name, the latest last.
    pub osr_offsets: Seq<(Seq<char>, u32)>,
    /// The pattern that names must match.
    pub filter: Option<Seq<char>>,
}

/// The index of nothing.
pub open spec fn fresh_index(filter: Option<Seq<char>>) -> IndexModel {
    IndexModel {
        compilations: Seq::empty(),
        raw: Seq::empty(),
        events: Seq::empty(),
        detected: None,
        open: OpenModel::Idle { raw_since: None },
        pending: None,
        raw_label: None,
        next_line: 0,
        votes: Seq::empty(),
        last_start: None,
        osr_offsets: Seq::empty(),
        filter,
    }
}

// ---------------------------------------------------------------------------
// Labels
// ---------------------------------------------------------------------------

/// How many bytes the encoding of a character takes.
pub open spec fn char_width(c: char) -> int {
    if (c as int) < 0x80 {
        1
    } else if (c as int) < 0x800 {
        2
    } else if (c as int) < 0x10000 {
        3
    } else {
        4
    }
}

/// How many characters from `k` on fit, when `used` of 96 bytes are taken.
pub open spec fn fitting(chars: Seq<char>, k: int, used: int) -> int
    decreases chars.len() - k,
{
    if 0 <= k < chars.len() && used + char_width(chars[k]) <= 96 {
        fitting(chars, k + 1, used + char_width(chars[k]))
    } else {
        k
    }
}

/// The label of a raw section: its line as shown, cut where it takes more than
/// 96 bytes.
pub open spec fn label_of(line: Seq<u8>) -> Seq<char> {
    let chars = display_chars(line);
    let n = fitting(chars, 0, 0);
    if n >= chars.len() {
        chars
    } else {
        chars.take(n).push('…')
    }
}

/// A line shows nothing but white space.
pub open spec fn is_blank(line: Seq<u8>) -> bool {
    forall|k: int|
        0 <= k < display_chars(line).len() ==> text::is_white(#[trigger] display_chars(line)[k])
}

/// Does a line show nothing but white space?
pub fn shows_nothing(line: &[u8]) -> (yes: bool)
    ensures
        yes == is_blank(line@),
{
    let all: String = ansi::to_display_string(line);
    let mut yes: bool = true;
    for c in it: all.chars()
        invariant
            it.seq() == all@,
            all@ == display_chars(line@),
            yes == forall|k: int| 0 <= k < it.index() ==> text::is_white(#[trigger] all@[k]),
    {
        if !text::white_char(c) {
            assert(!text::is_white(all@[it.index() as int]));
            yes = false;
        }
    }
    yes
}

fn width_of(c: char) -> (w: u32)
    ensures
        w == char_width(c),
        1 <= w <= 4,
{
    let n: u32 = c as u32;
    if n < 0x80 {
        1
    } else if n < 0x800 {
        2
    } else if n < 0x10000 {
        3
    } else {
        4
    }
}

proof fn lemma_fitting(chars: Seq<char>, k: int, used: int)
    requires
        0 <= k <= chars.len(),
    ensures
        k <= fitting(chars, k, used) <= chars.len(),
    decreases chars.len() - k,
{
    if k < chars.len() && used + char_width(chars[k]) <= 96 {
        lemma_fitting(chars, k + 1, used + char_width(chars[k]));
    }
}

/// The label that a line gives to its raw section.
pub fn label_from(line: &[u8]) -> (label: String)
    ensures
        label@ == label_of(line@),
{
    let all: String = ansi::to_display_string(line);
    let mut out: String = String::new();
    let mut used: u32 = 0;
    let mut full: bool = false;
    let ghost chars = all@;
    for c in it: all.chars()
        invariant
            it.seq() == chars,
            used <= 96,
            !full ==> out@ == chars.take(it.index() as int) && fitting(chars, 0, 0) == fitting(
                chars,
                it.index() as int,
                used as int,
            ),
            full ==> out@ == chars.take(fitting(chars, 0, 0)) && fitting(chars, 0, 0) < chars.len(),
    {
        if !full {
            let w: u32 = width_of(c);
            if used + w <= 96 {
                out.push(c);
                used += w;
                assert(out@ =~= chars.take(it.index() + 1));
            } else {
                full = true;
            }
        }
    }
    proof {
        lemma_fitting(chars, 0, 0);
        assert(!full ==> out@ =~= chars);
    }
    if full {
        out.push('…');
    }
    out
}

// ---------------------------------------------------------------------------
// Sections
// ---------------------------------------------------------------------------

/// A compilation that reaches up to `end`; its last phase does too, or its
/// preamble where it has no phase.
pub open spec fn extended(c: CompilationModel, end: int) -> CompilationModel {
    if c.phases.len() > 0 {
        CompilationModel {
            end,
            phases: c.phases.update(
                c.phases.len() - 1,
                PhaseSectionModel { end, ..c.phases.last() },
            ),
            ..c
        }
    } else {
        CompilationModel { end, preamble_end: end, ..c }
    }
}

/// A compilation in which line `i` opens a phase.
pub open spec fn with_phase(
    c: CompilationModel,
    name: Seq<char>,
    kind: PhaseKindModel,
    i: int,
) -> CompilationModel {
    let closed = extended(c, i);
    CompilationModel {
        end: i + 1,
        phases: closed.phases.push(PhaseSectionModel { name, kind, start: i, end: i + 1 }),
        ..closed
    }
}

/// The ordinal of one more compilation of `(sfi, tier)` after the first `n`.
pub open spec fn ordinal_after(
    list: Seq<CompilationModel>,
    n: int,
    sfi: Addr,
    tier: TierModel,
) -> u32
    decreases n,
{
    if n <= 0 {
        1
    } else if list[n - 1].sfi == sfi && list[n - 1].tier == tier {
        next_count(ordinal_after(list, n - 1, sfi, tier))
    } else {
        ordinal_after(list, n - 1, sfi, tier)
    }
}

/// The name filter leaves a function out.
pub open spec fn left_out(filter: Option<Seq<char>>, name: Seq<char>) -> bool {
    match filter {
        Some(pattern) => !regex_found(pattern, shown_name(name)),
        None => false,
    }
}

/// The latest OSR offset of a function among the first `n`.
pub open spec fn offset_of(offsets: Seq<(Seq<char>, u32)>, name: Seq<char>, n: int) -> Option<u32>
    decreases n,
{
    if n <= 0 {
        None
    } else if offsets[n - 1].0 == name {
        Some(offsets[n - 1].1)
    } else {
        offset_of(offsets, name, n - 1)
    }
}

impl IndexModel {
    /// A held-back line turned out to precede content: it belongs to what is
    /// open, or opens a raw section.
    pub open spec fn flushed(self) -> IndexModel {
        match self.pending {
            None => self,
            Some(p) => match self.open {
                OpenModel::Idle { raw_since: None } => IndexModel {
                    open: OpenModel::Idle { raw_since: Some(p) },
                    raw_label: None,
                    pending: None,
                    ..self
                },
                _ => IndexModel { pending: None, ..self },
            },
        }
    }

    /// The last compilation replaced.
    pub open spec fn with_last(self, c: CompilationModel) -> IndexModel {
        IndexModel {
            compilations: self.compilations.update(self.compilations.len() - 1, c),
            ..self
        }
    }

    /// Line `i` is content; `line`, if it shows something, labels a raw section
    /// that has no label.
    pub open spec fn content(self, i: int, line: Seq<u8>) -> IndexModel {
        let m = self.flushed();
        match m.open {
            OpenModel::Idle { raw_since } => {
                let label = if raw_since is None {
                    None
                } else {
                    m.raw_label
                };
                IndexModel {
                    open: OpenModel::Idle {
                        raw_since: Some(
                            match raw_since {
                                Some(s) => s,
                                None => i,
                            },
                        ),
                    },
                    raw_label: if label is None && !is_blank(line) {
                        Some(label_of(line))
                    } else {
                        label
                    },
                    ..m
                }
            },
            _ => m.with_last(extended(m.compilations.last(), i + 1)),
        }
    }

    /// A code dump joins the compilation right before it, if the two agree on
    /// tier and name.
    pub open spec fn joins(self) -> bool {
        let n = self.compilations.len() as int;
        n >= 2 && {
            let before = self.compilations[n - 2];
            let code = self.compilations[n - 1];
            before.end == code.start && before.tier == code.tier && before.name == code.name
        }
    }

    /// The code dump at the end of the list settled: joined, or numbered.
    pub open spec fn settled(self) -> IndexModel {
        let n = self.compilations.len() as int;
        let code = self.compilations[n - 1];
        if self.joins() {
            let before = self.compilations[n - 2];
            IndexModel {
                compilations: self.compilations.drop_last().update(
                    n - 2,
                    CompilationModel {
                        end: code.end,
                        phases: before.phases + code.phases,
                        ..before
                    },
                ),
                ..self
            }
        } else {
            self.with_last(
                CompilationModel {
                    ordinal: ordinal_after(self.compilations, n - 1, code.sfi, code.tier),
                    filtered_out: left_out(self.filter, code.name),
                    ..code
                },
            )
        }
    }

    /// Whatever is open is closed, so that the sections cover the lines up to
    /// `end`.
    pub open spec fn closed_at(self, end: int) -> IndexModel {
        let m = self.flushed();
        let idle = OpenModel::Idle { raw_since: None };
        match m.open {
            OpenModel::Compilation => IndexModel {
                open: idle,
                ..m.with_last(extended(m.compilations.last(), end))
            },
            OpenModel::Code => IndexModel {
                open: idle,
                ..m.with_last(extended(m.compilations.last(), end)).settled()
            },
            OpenModel::Idle { raw_since: Some(s) } => {
                if s < end {
                    IndexModel {
                        open: idle,
                        raw: m.raw.push(
                            RawModel {
                                start: s,
                                end,
                                label: match m.raw_label {
                                    Some(l) => l,
                                    None => Seq::empty(),
                                },
                            },
                        ),
                        raw_label: None,
                        ..m
                    }
                } else {
                    IndexModel { open: idle, ..m }
                }
            },
            OpenModel::Idle { raw_since: None } => m,
        }
    }

    /// Where a section that line `i` opens starts: at the lines held back.
    pub open spec fn cut(self, i: int) -> int {
        match self.pending {
            Some(p) => p,
            None => i,
        }
    }

    /// Everything before the section that line `i` opens is closed.
    pub open spec fn cut_at(self, i: int) -> IndexModel {
        IndexModel { pending: None, ..self }.closed_at(self.cut(i))
    }

    /// The compile-start event that is still to be bound, after one that gave
    /// `osr` was.
    pub open spec fn start_after(self, osr: Option<OsrInfo>) -> Option<(Addr, TierModel, bool)> {
        if osr is Some {
            None
        } else {
            self.last_start
        }
    }

    /// A compilation is opened. A compile-start event is bound to one
    /// compilation alone.
    pub open spec fn opened(self, c: CompilationModel, code: bool) -> IndexModel {
        IndexModel {
            last_start: self.start_after(c.osr),
            compilations: self.compilations.push(c),
            open: if code {
                OpenModel::Code
            } else {
                OpenModel::Compilation
            },
            ..self
        }
    }

    /// The compilation that a function's anchor on line `i` opens.
    pub open spec fn anchored_section(
        self,
        cut: int,
        i: int,
        addr: Option<Addr>,
        name: Seq<char>,
        sfi: Addr,
        tier: TierModel,
    ) -> CompilationModel {
        CompilationModel {
            sfi,
            tier,
            ordinal: ordinal_after(self.compilations, self.compilations.len() as int, sfi, tier),
            name,
            function_addr: addr,
            start: cut,
            end: i + 1,
            osr: self.osr_of(sfi, tier, name),
            phases: Seq::empty(),
            preamble_start: i + 1,
            preamble_end: i + 1,
            filtered_out: left_out(self.filter, name),
        }
    }

    /// The OSR data of a function: the last compile-start event was its own and
    /// was OSR. The offset is matched by name, which is a guess.
    pub open spec fn osr_of(self, sfi: Addr, tier: TierModel, name: Seq<char>) -> Option<OsrInfo> {
        match self.last_start {
            Some((s, t, osr)) => if osr && s == sfi && t == tier {
                let offset = offset_of(self.osr_offsets, name, self.osr_offsets.len() as int);
                Some(
                    OsrInfo {
                        offset,
                        confidence: if offset is Some {
                            Confidence::Heuristic
                        } else {
                            Confidence::Exact
                        },
                    },
                )
            } else {
                None
            },
            None => None,
        }
    }
}

/// The address that stands for a function whose own is not printed.
pub open spec fn sfi_or_zero(sfi: Option<Addr>) -> Addr {
    match sfi {
        Some(a) => a,
        None => Addr(0),
    }
}

/// Banner names whose shape every version shares.
pub open spec fn stable_banner(name: Seq<u8>) -> bool {
    ||| occurs_at(name, 0, "Graph after V8.".spec_bytes())
    ||| text::word_is(name, 0, name.len() as int, "schedule".spec_bytes())
    ||| occurs_at(name, 0, "V8.TF".spec_bytes())
    ||| occurs_at(name, 0, "Instruction sequence".spec_bytes())
}

/// The phase that a banner opens.
pub open spec fn phase_kind(name: Seq<char>) -> PhaseKindModel {
    let bytes = vstd::utf8::encode_utf8(name);
    if name == "Bytecode array"@ || name == "Bytecode before MaglevGraphBuilding"@ {
        PhaseKindModel::Bytecode
    } else {
        match inlining_banner(bytes) {
            Some((sfi, callee)) => PhaseKindModel::Inlining { sfi, callee },
            None => PhaseKindModel::Graph {
                known: versions_of(markers_of(MARKERS_TOML@), name) is Some || stable_banner(bytes),
            },
        }
    }
}

/// The votes after a banner: a name of the table counts for its versions.
pub open spec fn banner_votes(
    votes: Seq<(Seq<char>, u32)>,
    name: Seq<char>,
) -> Seq<(Seq<char>, u32)> {
    match (phase_kind(name), versions_of(markers_of(MARKERS_TOML@), name)) {
        (PhaseKindModel::Graph { .. }, Some(versions)) => with_votes(
            votes,
            versions,
            versions.len() as int,
        ),
        _ => votes,
    }
}

impl IndexModel {
    /// Line `i` is a banner inside the open compilation.
    pub open spec fn phase_opened(self, i: int, name: Seq<char>) -> IndexModel {
        IndexModel {
            pending: None,
            votes: banner_votes(self.votes, name),
            ..self.with_last(with_phase(self.compilations.last(), name, phase_kind(name), i))
        }
    }

    /// The first banner of a Turbolev dump: the TurboFan section that was just
    /// begun is one, or a section of its own starts.
    pub open spec fn turbolev_opened(self, i: int, name: Seq<char>) -> IndexModel {
        if self.open == OpenModel::Compilation && self.compilations.last().phases.len() == 0
            && self.compilations.last().tier == TierModel::Turbofan {
            self.with_last(
                CompilationModel { tier: TierModel::Turbolev, ..self.compilations.last() },
            ).phase_opened(i, name)
        } else {
            let m = self.cut_at(i);
            m.opened(
                CompilationModel {
                    end: i,
                    preamble_start: i,
                    preamble_end: i,
                    ..m.anchored_section(
                        self.cut(i),
                        i,
                        None,
                        Seq::empty(),
                        Addr(0),
                        TierModel::Turbolev,
                    )
                },
                false,
            ).phase_opened(i, name)
        }
    }

    /// Line `i` is a banner.
    pub open spec fn on_banner(self, i: int, name: Seq<char>) -> IndexModel {
        if name == "Bytecode before MaglevGraphBuilding"@ {
            self.turbolev_opened(i, name)
        } else if self.open == OpenModel::Compilation {
            self.phase_opened(i, name)
        } else {
            self.content(i, vstd::utf8::encode_utf8(name))
        }
    }

    /// Line `i` is held back.
    pub open spec fn held_back(self, i: int) -> IndexModel {
        IndexModel {
            pending: Some(
                match self.pending {
                    Some(p) => p,
                    None => i,
                },
            ),
            ..self
        }
    }

    /// Line `i` anchors a compilation.
    pub open spec fn on_compiling(
        self,
        i: int,
        addr: Option<Addr>,
        name: Seq<char>,
        sfi: Option<Addr>,
        tier: TierModel,
    ) -> IndexModel {
        let m = self.cut_at(i);
        m.opened(m.anchored_section(self.cut(i), i, addr, name, sfi_or_zero(sfi), tier), false)
    }

    /// Line `i` begins a compilation: TurboFan prints no other anchor.
    pub open spec fn on_begin(self, i: int, name: Seq<char>, tier: TierModel) -> IndexModel {
        if tier == TierModel::Turbofan {
            self.on_compiling(i, None, name, None, tier)
        } else {
            self.held_back(i)
        }
    }

    /// Line `i` finishes a compilation.
    pub open spec fn on_finished(self, i: int, line: Seq<u8>) -> IndexModel {
        if self.open == OpenModel::Compilation {
            IndexModel {
                pending: None,
                open: OpenModel::Idle { raw_since: None },
                ..self.with_last(extended(self.compilations.last(), i + 1))
            }
        } else {
            self.content(i, line)
        }
    }

    /// What an event tells about compilations to come.
    pub open spec fn noted(self, event: EventModel) -> IndexModel {
        match event {
            EventModel::CompileStart { sfi: Some(sfi), target, osr, .. } => IndexModel {
                last_start: Some((sfi, target, osr)),
                ..self
            },
            EventModel::Osr { what, name, osr_offset: Some(offset) } => {
                if occurs_at(
                    vstd::utf8::encode_utf8(what),
                    0,
                    "compilation started".spec_bytes(),
                ) {
                    IndexModel { osr_offsets: self.osr_offsets.push((name, offset)), ..self }
                } else {
                    self
                }
            },
            _ => self,
        }
    }

    /// Line `i` is an event: it closes a dump, for events happen at run time.
    /// Lines held back before it are no part of the dump.
    pub open spec fn on_event(self, i: int, event: EventModel, line: Seq<u8>) -> IndexModel {
        let m = IndexModel { events: self.events.push((i, event)), ..self.noted(event) };
        match m.open {
            OpenModel::Idle { .. } => m.content(i, line),
            _ => IndexModel { pending: m.pending, ..m.cut_at(i) }.content(i, line),
        }
    }

    /// Line `i` names the function of a dump.
    pub open spec fn on_function(
        self,
        i: int,
        addr: Option<Addr>,
        name: Seq<char>,
        sfi: Option<Addr>,
        line: Seq<u8>,
    ) -> IndexModel {
        let c = self.compilations.last();
        if self.open == OpenModel::Compilation && c.tier == TierModel::Turbolev && c.phases.len()
            == 1 && c.sfi == Addr(0) {
            let others = self.compilations.drop_last();
            let osr = self.osr_of(sfi_or_zero(sfi), TierModel::Turbolev, name);
            IndexModel { last_start: self.start_after(osr), ..self }.with_last(
                CompilationModel {
                    sfi: sfi_or_zero(sfi),
                    ordinal: ordinal_after(
                        others,
                        others.len() as int,
                        sfi_or_zero(sfi),
                        TierModel::Turbolev,
                    ),
                    name,
                    function_addr: addr,
                    osr,
                    filtered_out: left_out(self.filter, name),
                    ..c
                },
            ).content(i, line)
        } else {
            self.content(i, line)
        }
    }

    /// Line `i` opens a section of a code dump.
    pub open spec fn on_code_banner(self, i: int, name: Seq<char>) -> IndexModel {
        if self.open == OpenModel::Code {
            IndexModel {
                pending: None,
                ..self.with_last(
                    with_phase(self.compilations.last(), name, PhaseKindModel::Listing, i),
                )
            }
        } else {
            let m = self.closed_at(i);
            m.opened(
                with_phase(
                    CompilationModel {
                        sfi: Addr(0),
                        tier: TierModel::Other(Seq::empty()),
                        ordinal: 0,
                        name: Seq::empty(),
                        function_addr: None,
                        start: i,
                        end: i,
                        osr: None,
                        phases: Seq::empty(),
                        preamble_start: i,
                        preamble_end: i,
                        filtered_out: false,
                    },
                    name,
                    PhaseKindModel::Listing,
                    i,
                ),
                true,
            )
        }
    }

    /// A banner called `name` goes on with the code dump that is open: the dump
    /// has shown its source and no more.
    pub open spec fn goes_on(self, name: Seq<char>) -> bool {
        let phases = self.compilations.last().phases;
        name == "Optimized code"@ && phases.len() > 0 && phases.last().name == "Raw source"@
    }

    /// Line `i` is a banner of a code dump: it opens a dump of its own, or goes
    /// on with the one that is open.
    pub open spec fn on_code_start(self, i: int, name: Seq<char>) -> IndexModel {
        if self.open == OpenModel::Code && !self.goes_on(name) {
            self.closed_at(i).on_code_banner(i, name)
        } else {
            self.on_code_banner(i, name)
        }
    }

    /// Line `i` ends a code dump.
    pub open spec fn on_code_end(self, i: int, line: Seq<u8>) -> IndexModel {
        if self.open == OpenModel::Code {
            self.content(i, line).closed_at(i + 1)
        } else {
            self.content(i, line)
        }
    }
}

/// The listing that a line of a code dump opens.
pub open spec fn listing_header(s: Seq<u8>) -> Option<Seq<char>> {
    if occurs_at(s, 0, "Instructions (".spec_bytes()) {
        Some("Instructions"@)
    } else if occurs_at(s, 0, "Deoptimization Input Data (".spec_bytes()) {
        Some("Deoptimization Input Data"@)
    } else if occurs_at(s, 0, "Safepoints (".spec_bytes()) {
        Some("Safepoints"@)
    } else if occurs_at(s, 0, "RelocInfo (".spec_bytes()) {
        Some("RelocInfo"@)
    } else {
        None
    }
}

impl IndexModel {
    /// Line `i` is content of a code dump: it may name the tier, name the
    /// function or open a listing.
    pub open spec fn on_code_line(self, i: int, s: Seq<u8>) -> IndexModel {
        let c = self.compilations.last();
        let e = text::trimmed_end(s, 0, s.len() as int);
        let k = "kind = ".spec_bytes().len() as int;
        let n = "name = ".spec_bytes().len() as int;
        if listing_header(s) is Some {
            self.on_code_banner(i, listing_header(s)->0)
        } else if occurs_at(s, 0, "kind = ".spec_bytes()) && k <= e {
            self.with_last(CompilationModel { tier: tier_of(s, k, e), ..c }).content(i, s)
        } else if occurs_at(s, 0, "name = ".spec_bytes()) && n <= e {
            self.with_last(CompilationModel { name: text_of(s, n, e), ..c }).content(i, s)
        } else {
            self.content(i, s)
        }
    }
}

/// Only lines that start with one of these bytes can be boundaries, and the
/// first lines of code objects.
pub open spec fn may_bound(line: Seq<u8>) -> bool {
    line.len() > 0 && (line[0] == 0x2d || line[0] == 0x42 || line[0] == 0x43 || line[0] == 0x46
        || line[0] == 0x5b || line[0] == 0x1b || (line[0] == 0x30 && crate::boundary::code_object(
        ansi::stripped(line),
    )))
}

impl IndexModel {
    /// The index after line `i`, apart from the count of lines.
    #[verifier::opaque]
    pub open spec fn after_line(self, i: int, line: Seq<u8>) -> IndexModel {
        let s = ansi::stripped(line);
        if !vstd::utf8::valid_utf8(s) || (!may_bound(line) && self.open != OpenModel::Code) {
            self.content(i, line)
        } else {
            match crate::boundary::boundary(s) {
                BoundaryModel::Banner { name } => self.on_banner(i, name),
                BoundaryModel::Rule => self.held_back(i),
                BoundaryModel::Compiling { addr, name, sfi, tier } => self.on_compiling(
                    i,
                    addr,
                    name,
                    sfi,
                    tier,
                ),
                BoundaryModel::Begin { name, tier } => self.on_begin(i, name, tier),
                BoundaryModel::Finished => self.on_finished(i, s),
                BoundaryModel::Event(event) => self.on_event(i, event, s),
                BoundaryModel::Function { addr, name, sfi } => self.on_function(
                    i,
                    addr,
                    name,
                    sfi,
                    s,
                ),
                BoundaryModel::CodeBanner { name } => self.on_code_start(i, name),
                BoundaryModel::CodeEnd => self.on_code_end(i, s),
                BoundaryModel::Content => if self.open == OpenModel::Code {
                    self.on_code_line(i, s)
                } else {
                    self.content(i, s)
                },
            }
        }
    }

    /// The index after the next line.
    pub open spec fn stepped(self, buffer: LogModel) -> IndexModel {
        IndexModel {
            next_line: self.next_line + 1,
            ..self.after_line(self.next_line, buffer.line_or_empty(self.next_line))
        }
    }

    /// The index after all lines before `end`.
    pub open spec fn advanced(self, buffer: LogModel, end: int) -> IndexModel
        decreases end - self.next_line,
    {
        if self.next_line >= end {
            self
        } else if self.stepped(buffer).next_line == self.next_line + 1 {
            self.stepped(buffer).advanced(buffer, end)
        } else {
            self
        }
    }

    /// The index after it saw what has arrived. The last line may still be
    /// incomplete, so it waits until the input is `finished`.
    pub open spec fn ingested(self, buffer: LogModel, finished: bool) -> IndexModel {
        let n = buffer.starts.len() as int;
        if finished {
            let m = self.advanced(buffer, n).closed_at(n);
            IndexModel { detected: detected_version(m.votes), ..m }
        } else {
            self.advanced(buffer, n - 1)
        }
    }
}

// ---------------------------------------------------------------------------
// The indexer
// ---------------------------------------------------------------------------

/// The index of one source: sections that partition its lines, and the events
/// found along the way.
pub struct TraceIndex {
    pub compilations: Vec<CompilationSection>,
    pub raw: Vec<RawSection>,
    pub events: Vec<TimelineEvent>,
    /// The best guess at the V8 version.
    pub detected_version: Option<String>,
    open: Open,
    pending: Option<usize>,
    raw_label: Option<String>,
    next_line: usize,
    votes: VersionVotes,
    markers: MarkerTable,
    last_start: Option<(Addr, Tier, bool)>,
    osr_offsets: Vec<(String, u32)>,
    filter: Option<Pattern>,
}

/// The views of OSR offsets.
pub open spec fn offset_models(list: Seq<(String, u32)>) -> Seq<(Seq<char>, u32)> {
    list.map_values(|o: (String, u32)| (o.0@, o.1))
}

impl View for TraceIndex {
    type V = IndexModel;

    closed spec fn view(&self) -> IndexModel {
        IndexModel {
            compilations: compilation_models(self.compilations@),
            raw: raw_models(self.raw@),
            events: event_models(self.events@),
            detected: opt_text(self.detected_version),
            open: self.open@,
            pending: text::pos(self.pending),
            raw_label: opt_text(self.raw_label),
            next_line: self.next_line as int,
            votes: self.votes@,
            last_start: match self.last_start {
                Some((sfi, tier, osr)) => Some((sfi, tier@, osr)),
                None => None,
            },
            osr_offsets: offset_models(self.osr_offsets@),
            filter: opt_pattern(self.filter),
        }
    }
}

impl CompilationSection {
    fn extend(&mut self, end: usize)
        ensures
            final(self)@ == extended(old(self)@, end as int),
    {
        self.lines = Range { start: self.lines.start, end };
        let n: usize = self.phases.len();
        if n > 0 {
            let ghost before = phase_models(self.phases@);
            if let Some(last) = self.phases.pop() {
                let PhaseSection { name, kind, lines } = last;
                let start: usize = lines.start;
                self.phases.push(PhaseSection { name, kind, lines: Range { start, end } });
            }
            assert(phase_models(self.phases@) =~= before.update(
                n - 1,
                PhaseSectionModel { end: end as int, ..before.last() },
            ));
        } else {
            self.preamble = Range { start: self.preamble.start, end };
        }
        assert(self@ =~= extended(old(self)@, end as int));
    }

    fn open_phase(&mut self, name: String, kind: PhaseKind, i: usize)
        requires
            i < usize::MAX,
        ensures
            final(self)@ == with_phase(old(self)@, name@, kind@, i as int),
    {
        self.extend(i);
        let ghost before = phase_models(self.phases@);
        self.lines = Range { start: self.lines.start, end: i + 1 };
        let phase = PhaseSection { name, kind, lines: Range { start: i, end: i + 1 } };
        self.phases.push(phase);
        assert(phase_models(self.phases@) =~= before.push(phase@));
        assert(self@ =~= with_phase(old(self)@, name@, kind@, i as int));
    }
}

impl TraceIndex {
    /// A compilation is open only where there is one.
    pub closed spec fn wf(self) -> bool {
        &&& (self@.open is Idle || self@.compilations.len() > 0)
        &&& self.markers@ == markers_of(MARKERS_TOML@)
    }

    /// An index of nothing. With a filter, functions that it does not match are
    /// marked.
    pub fn new(function_filter: Option<Pattern>) -> (index: TraceIndex)
        ensures
            index.wf(),
            index@ == fresh_index(opt_pattern(function_filter)),
    {
        let index = TraceIndex {
            compilations: Vec::new(),
            raw: Vec::new(),
            events: Vec::new(),
            detected_version: None,
            open: Open::Idle { raw_since: None },
            pending: None,
            raw_label: None,
            next_line: 0,
            votes: VersionVotes::new(),
            markers: MarkerTable::get(),
            last_start: None,
            osr_offsets: Vec::new(),
            filter: function_filter,
        };
        assert(index@ =~= fresh_index(opt_pattern(function_filter)));
        index
    }

    /// How many lines have been indexed.
    pub fn lines_indexed(&self) -> (n: usize)
        ensures
            n == self@.next_line,
    {
        self.next_line
    }

    /// How many compilations are indexed.
    pub fn compilation_count(&self) -> (n: usize)
        ensures
            n == self@.compilations.len(),
    {
        self.compilations.len()
    }

    /// Compilation `i`.
    pub fn compilation(&self, i: usize) -> (c: &CompilationSection)
        requires
            i < self@.compilations.len(),
        ensures
            c@ == self@.compilations[i as int],
    {
        &self.compilations[i]
    }

    /// How many raw sections are indexed.
    pub fn raw_count(&self) -> (n: usize)
        ensures
            n == self@.raw.len(),
    {
        self.raw.len()
    }

    /// Raw section `i`.
    pub fn raw_section(&self, i: usize) -> (r: &RawSection)
        requires
            i < self@.raw.len(),
        ensures
            r@ == self@.raw[i as int],
    {
        &self.raw[i]
    }

    /// How many events are indexed.
    pub fn event_count(&self) -> (n: usize)
        ensures
            n == self@.events.len(),
    {
        self.events.len()
    }

    /// Event `i`.
    pub fn event(&self, i: usize) -> (e: &TimelineEvent)
        requires
            i < self@.events.len(),
        ensures
            (e.line as int, e.kind@) == self@.events[i as int],
    {
        &self.events[i]
    }

    fn flush(&mut self)
        requires
            old(self).wf(),
        ensures
            final(self).wf(),
            final(self)@ == old(self)@.flushed(),
            final(self).next_line == old(self).next_line,
    {
        if let Some(p) = self.pending {
            self.pending = None;
            if let Open::Idle { raw_since: None } = self.open {
                self.open = Open::Idle { raw_since: Some(p) };
                self.raw_label = None;
            }
        }
        assert(self@ =~= old(self)@.flushed());
    }

    fn extend_last(&mut self, end: usize)
        requires
            old(self).wf(),
            old(self)@.compilations.len() > 0,
        ensures
            final(self).wf(),
            final(self)@ == old(self)@.with_last(extended(old(self)@.compilations.last(), end as int)),
            final(self).next_line == old(self).next_line,
    {
        let ghost before = self@.compilations;
        assert(before.len() == self.compilations@.len());
        if let Some(mut c) = self.compilations.pop() {
            assert(c@ == before.last());
            c.extend(end);
            self.compilations.push(c);
            assert(self@.compilations =~= before.update(before.len() - 1, c@));
        }
        assert(self@ =~= old(self)@.with_last(extended(before.last(), end as int)));
    }

    fn open_phase(&mut self, name: String, kind: PhaseKind, i: usize)
        requires
            old(self).wf(),
            old(self)@.compilations.len() > 0,
            i < usize::MAX,
        ensures
            final(self).wf(),
            final(self)@ == old(self)@.with_last(
                with_phase(old(self)@.compilations.last(), name@, kind@, i as int),
            ),
            final(self).next_line == old(self).next_line,
    {
        let ghost before = self@.compilations;
        assert(before.len() == self.compilations@.len());
        if let Some(mut c) = self.compilations.pop() {
            assert(c@ == before.last());
            c.open_phase(name, kind, i);
            self.compilations.push(c);
            assert(self@.compilations =~= before.update(before.len() - 1, c@));
        }
        assert(self@ =~= old(self)@.with_last(
            with_phase(before.last(), name@, kind@, i as int),
        ));
    }

    fn content(&mut self, i: usize, line: &[u8])
        requires
            old(self).wf(),
            i < usize::MAX,
        ensures
            final(self).wf(),
            final(self)@ == old(self)@.content(i as int, line@),
            final(self).next_line == old(self).next_line,
    {
        self.flush();
        let ghost m = self@;
        match self.open {
            Open::Idle { raw_since } => {
                if raw_since.is_none() {
                    self.open = Open::Idle { raw_since: Some(i) };
                    self.raw_label = None;
                }
                if self.raw_label.is_none() && !shows_nothing(line) {
                    self.raw_label = Some(label_from(line));
                }
                assert(self@ =~= old(self)@.content(i as int, line@));
            },
            _ => {
                self.extend_last(i + 1);
            },
        }
    }

    fn ordinal(&self, n: usize, sfi: Addr, tier: &Tier) -> (ordinal: u32)
        requires
            n <= self@.compilations.len(),
        ensures
            ordinal == ordinal_after(self@.compilations, n as int, sfi, tier@),
    {
        let ghost list = self@.compilations;
        let mut ordinal: u32 = 1;
        let mut k: usize = 0;
        while k < n
            invariant
                k <= n <= self.compilations@.len(),
                list == compilation_models(self.compilations@),
                ordinal == ordinal_after(list, k as int, sfi, tier@),
            decreases n - k,
        {
            let c = &self.compilations[k];
            assert(list[k as int] == c@);
            if c.key.sfi == sfi && c.key.tier.same(tier) {
                ordinal = count_up(ordinal);
            }
            k += 1;
        }
        ordinal
    }

    fn filters_out(&self, name: &String) -> (out: bool)
        ensures
            out == left_out(self@.filter, name@),
    {
        match &self.filter {
            Some(pattern) => {
                let shown: &str = if name.as_str().is_empty() {
                    "<toplevel>"
                } else {
                    name.as_str()
                };
                !pattern.is_match(shown)
            },
            None => false,
        }
    }

    fn osr_for(&self, sfi: Addr, tier: &Tier, name: &String) -> (osr: Option<OsrInfo>)
        ensures
            osr == self@.osr_of(sfi, tier@, name@),
    {
        match &self.last_start {
            Some((event_sfi, event_tier, event_osr)) => {
                if !(*event_osr && *event_sfi == sfi && event_tier.same(tier)) {
                    return None;
                }
            },
            None => {
                return None;
            },
        }
        let ghost offsets = self@.osr_offsets;
        let mut offset: Option<u32> = None;
        let mut n: usize = self.osr_offsets.len();
        assert(n == offsets.len());
        while n > 0 && offset.is_none()
            invariant
                n <= self.osr_offsets@.len(),
                offsets == offset_models(self.osr_offsets@),
                offset is None ==> offset_of(offsets, name@, offsets.len() as int) == offset_of(
                    offsets,
                    name@,
                    n as int,
                ),
                offset is Some ==> offset_of(offsets, name@, offsets.len() as int) == offset,
            decreases n,
        {
            let o = &self.osr_offsets[n - 1];
            assert(offsets[n - 1] == (o.0@, o.1));
            if o.0 == *name {
                offset = Some(o.1);
            }
            n -= 1;
        }
        Some(
            OsrInfo {
                offset,
                confidence: if offset.is_some() {
                    Confidence::Heuristic
                } else {
                    Confidence::Exact
                },
            },
        )
    }

    fn settle(&mut self)
        requires
            old(self).wf(),
            old(self)@.compilations.len() > 0,
        ensures
            final(self).wf(),
            final(self)@ == old(self)@.settled(),
            final(self).next_line == old(self).next_line,
    {
        let ghost list = self@.compilations;
        let n: usize = self.compilations.len();
        assert(n == list.len());
        let joins: bool = n >= 2 && {
            let before = &self.compilations[n - 2];
            let code = &self.compilations[n - 1];
            assert(list[n - 2] == before@ && list[n - 1] == code@);
            before.lines.end == code.lines.start && before.key.tier.same(&code.key.tier)
                && before.name == code.name
        };
        if joins {
            if let Some(code) = self.compilations.pop() {
                assert(code@ == list[n - 1]);
                if let Some(mut before) = self.compilations.pop() {
                    assert(before@ == list[n - 2]);
                    let ghost phases = phase_models(before.phases@);
                    let CompilationSection { phases: mut more, lines, .. } = code;
                    let ghost added = phase_models(more@);
                    before.lines = Range { start: before.lines.start, end: lines.end };
                    before.phases.append(&mut more);
                    assert(phase_models(before.phases@) =~= phases + added);
                    self.compilations.push(before);
                }
            }
            assert(self@.compilations =~= old(self)@.settled().compilations);
        } else {
            let ordinal: u32 = self.ordinal(
                n - 1,
                self.compilations[n - 1].key.sfi,
                &self.compilations[n - 1].key.tier,
            );
            let out: bool = self.filters_out(&self.compilations[n - 1].name);
            assert(list[n - 1] == self.compilations@[n - 1]@);
            if let Some(mut code) = self.compilations.pop() {
                code.key.ordinal = ordinal;
                code.filtered_out = out;
                self.compilations.push(code);
            }
            assert(self@.compilations =~= old(self)@.settled().compilations);
        }
        assert(self@ =~= old(self)@.settled());
    }

    fn close_all(&mut self, end: usize)
        requires
            old(self).wf(),
        ensures
            final(self).wf(),
            final(self)@ == old(self)@.closed_at(end as int),
            final(self).next_line == old(self).next_line,
            final(self)@.open is Idle,
    {
        self.flush();
        let ghost m = self@;
        match self.open {
            Open::Compilation => {
                self.extend_last(end);
                self.open = Open::Idle { raw_since: None };
                assert(self@ =~= old(self)@.closed_at(end as int));
            },
            Open::Code => {
                self.extend_last(end);
                self.settle();
                self.open = Open::Idle { raw_since: None };
                assert(self@ =~= old(self)@.closed_at(end as int));
            },
            Open::Idle { raw_since } => {
                if let Some(start) = raw_since {
                    self.open = Open::Idle { raw_since: None };
                    if start < end {
                        let label: String = match self.raw_label.take() {
                            Some(l) => l,
                            None => String::new(),
                        };
                        let section = RawSection { lines: Range { start, end }, label };
                        self.raw.push(section);
                        assert(self@.raw =~= m.raw.push(section@));
                    }
                }
                assert(self@ =~= old(self)@.closed_at(end as int));
            },
        }
    }

    fn cut(&mut self, i: usize) -> (at: usize)
        requires
            old(self).wf(),
        ensures
            final(self).wf(),
            at == old(self)@.cut(i as int),
            final(self)@ == old(self)@.cut_at(i as int),
            final(self).next_line == old(self).next_line,
    {
        let at: usize = match self.pending {
            Some(p) => p,
            None => i,
        };
        self.pending = None;
        assert(self@ =~= (IndexModel { pending: None, ..old(self)@ }));
        self.close_all(at);
        at
    }

    fn open_section(&mut self, c: CompilationSection, code: bool)
        requires
            old(self).wf(),
        ensures
            final(self).wf(),
            final(self)@ == old(self)@.opened(c@, code),
            final(self).next_line == old(self).next_line,
    {
        let ghost before = self@.compilations;
        if c.osr.is_some() {
            self.last_start = None;
        }
        self.compilations.push(c);
        assert(self@.compilations =~= before.push(c@));
        self.open = if code {
            Open::Code
        } else {
            Open::Compilation
        };
        assert(self@ =~= old(self)@.opened(c@, code));
    }

    fn anchored_section(
        &self,
        cut: usize,
        i: usize,
        addr: Option<Addr>,
        name: String,
        sfi: Addr,
        tier: Tier,
    ) -> (c: CompilationSection)
        requires
            i < usize::MAX,
        ensures
            c@ == self@.anchored_section(cut as int, i as int, addr, name@, sfi, tier@),
    {
        assert(self@.compilations.len() == self.compilations@.len());
        let ordinal: u32 = self.ordinal(self.compilations.len(), sfi, &tier);
        let osr = self.osr_for(sfi, &tier, &name);
        let filtered_out: bool = self.filters_out(&name);
        let c = CompilationSection {
            key: CompilationKey { sfi, tier, ordinal },
            name,
            function_addr: addr,
            lines: Range { start: cut, end: i + 1 },
            osr,
            phases: Vec::new(),
            preamble: Range { start: i + 1, end: i + 1 },
            filtered_out,
        };
        assert(phase_models(c.phases@) =~= Seq::empty());
        c
    }

    fn on_compiling(
        &mut self,
        i: usize,
        addr: Option<Addr>,
        name: String,
        sfi: Option<Addr>,
        tier: Tier,
    )
        requires
            old(self).wf(),
            i < usize::MAX,
        ensures
            final(self).wf(),
            final(self)@ == old(self)@.on_compiling(i as int, addr, name@, sfi, tier@),
            final(self).next_line == old(self).next_line,
    {
        let at: usize = self.cut(i);
        let sfi: Addr = match sfi {
            Some(a) => a,
            None => Addr(0),
        };
        let c = self.anchored_section(at, i, addr, name, sfi, tier);
        self.open_section(c, false);
    }

    fn on_begin(&mut self, i: usize, name: String, tier: Tier)
        requires
            old(self).wf(),
            i < usize::MAX,
        ensures
            final(self).wf(),
            final(self)@ == old(self)@.on_begin(i as int, name@, tier@),
            final(self).next_line == old(self).next_line,
    {
        if tier.same(&Tier::Turbofan) {
            self.on_compiling(i, None, name, None, tier);
        } else {
            self.on_rule(i);
        }
    }

    fn on_rule(&mut self, i: usize)
        requires
            old(self).wf(),
        ensures
            final(self).wf(),
            final(self)@ == old(self)@.held_back(i as int),
            final(self).next_line == old(self).next_line,
    {
        if self.pending.is_none() {
            self.pending = Some(i);
        }
        assert(self@ =~= old(self)@.held_back(i as int));
    }

    fn on_finished(&mut self, i: usize, line: &[u8])
        requires
            old(self).wf(),
            i < usize::MAX,
        ensures
            final(self).wf(),
            final(self)@ == old(self)@.on_finished(i as int, line@),
            final(self).next_line == old(self).next_line,
    {
        if let Open::Compilation = self.open {
            self.extend_last(i + 1);
            self.pending = None;
            self.open = Open::Idle { raw_since: None };
            assert(self@ =~= old(self)@.on_finished(i as int, line@));
        } else {
            self.content(i, line);
        }
    }

    fn phase_opened(&mut self, i: usize, name: String)
        requires
            old(self).wf(),
            old(self)@.compilations.len() > 0,
            i < usize::MAX,
        ensures
            final(self).wf(),
            final(self)@ == old(self)@.phase_opened(i as int, name@),
            final(self).next_line == old(self).next_line,
    {
        let bytes = name.as_str().as_bytes();
        let array: String = text::owned("Bytecode array");
        let before: String = text::owned("Bytecode before MaglevGraphBuilding");
        let ghost votes = self.votes@;
        let ghost kind_model = phase_kind(name@);
        let kind: PhaseKind = if name == array || name == before {
            PhaseKind::Bytecode
        } else if let Some((sfi, callee)) = boundary::parse_inlining_banner(bytes) {
            PhaseKind::Inlining { sfi, callee }
        } else {
            let mut known: bool = text::starts_with_at(bytes, 0, "Graph after V8.")
                || text::slice_is(bytes, 0, bytes.len(), "schedule") || text::starts_with_at(
                bytes,
                0,
                "V8.TF",
            ) || text::starts_with_at(bytes, 0, "Instruction sequence");
            if let Some(versions) = self.markers.phase_versions(name.as_str()) {
                self.votes.record(versions);
                known = true;
            }
            PhaseKind::Graph { known }
        };
        assert(kind@ == kind_model);
        assert(self.votes@ == banner_votes(votes, name@));
        self.pending = None;
        let ghost mid = self@;
        assert(mid =~= (IndexModel {
            pending: None,
            votes: banner_votes(votes, name@),
            ..old(self)@
        }));
        self.open_phase(name, kind, i);
        assert(self@ =~= old(self)@.phase_opened(i as int, name@));
    }

    fn turbolev_opened(&mut self, i: usize, name: String)
        requires
            old(self).wf(),
            i < usize::MAX,
        ensures
            final(self).wf(),
            final(self)@ == old(self)@.turbolev_opened(i as int, name@),
            final(self).next_line == old(self).next_line,
    {
        let n: usize = self.compilations.len();
        let ghost list = self@.compilations;
        let begun: bool = match self.open {
            Open::Compilation => {
                let c = &self.compilations[n - 1];
                assert(list.last() == c@);
                c.phases.len() == 0 && c.key.tier.same(&Tier::Turbofan)
            },
            _ => false,
        };
        if begun {
            if let Some(mut c) = self.compilations.pop() {
                c.key.tier = Tier::Turbolev;
                self.compilations.push(c);
            }
            assert(self@ =~= old(self)@.with_last(
                CompilationModel { tier: TierModel::Turbolev, ..list.last() },
            ));
            self.phase_opened(i, name);
        } else {
            let at: usize = self.cut(i);
            let mut c = self.anchored_section(at, i, None, String::new(), Addr(0), Tier::Turbolev);
            c.lines = Range { start: at, end: i };
            c.preamble = Range { start: i, end: i };
            self.open_section(c, false);
            self.phase_opened(i, name);
        }
    }

    fn on_banner(&mut self, i: usize, name: String)
        requires
            old(self).wf(),
            i < usize::MAX,
        ensures
            final(self).wf(),
            final(self)@ == old(self)@.on_banner(i as int, name@),
            final(self).next_line == old(self).next_line,
    {
        let turbolev: String = text::owned("Bytecode before MaglevGraphBuilding");
        if name == turbolev {
            self.turbolev_opened(i, name);
        } else if let Open::Compilation = self.open {
            self.phase_opened(i, name);
        } else {
            self.content(i, name.as_str().as_bytes());
        }
    }

    fn note(&mut self, kind: &EventKind)
        requires
            old(self).wf(),
        ensures
            final(self).wf(),
            final(self)@ == old(self)@.noted(kind@),
            final(self).next_line == old(self).next_line,
    {
        match kind {
            EventKind::CompileStart { sfi: Some(sfi), target, osr, .. } => {
                self.last_start = Some((*sfi, target.duplicate(), *osr));
            },
            EventKind::Osr { what, name, osr_offset: Some(offset) } => {
                if text::starts_with_at(what.as_str().as_bytes(), 0, "compilation started") {
                    let ghost before = self@.osr_offsets;
                    self.osr_offsets.push((name.clone(), *offset));
                    assert(self@.osr_offsets =~= before.push((name@, *offset)));
                }
            },
            _ => {},
        }
        assert(self@ =~= old(self)@.noted(kind@));
    }

    fn on_event(&mut self, i: usize, kind: EventKind, line: &[u8])
        requires
            old(self).wf(),
            i < usize::MAX,
        ensures
            final(self).wf(),
            final(self)@ == old(self)@.on_event(i as int, kind@, line@),
            final(self).next_line == old(self).next_line,
    {
        self.note(&kind);
        let ghost before = self@;
        self.events.push(TimelineEvent { line: i, kind });
        assert(self@.events =~= before.events.push((i as int, kind@)));
        assert(self@ =~= (IndexModel { events: self@.events, ..before }));
        match self.open {
            Open::Idle { .. } => {},
            _ => {
                let ghost m = self@;
                let held: Option<usize> = self.pending;
                let _ = self.cut(i);
                self.pending = held;
                assert(self@ =~= (IndexModel { pending: m.pending, ..m.cut_at(i as int) }));
            },
        }
        self.content(i, line);
    }

    fn on_function(
        &mut self,
        i: usize,
        addr: Option<Addr>,
        name: String,
        sfi: Option<Addr>,
        line: &[u8],
    )
        requires
            old(self).wf(),
            i < usize::MAX,
        ensures
            final(self).wf(),
            final(self)@ == old(self)@.on_function(i as int, addr, name@, sfi, line@),
            final(self).next_line == old(self).next_line,
    {
        let n: usize = self.compilations.len();
        let ghost list = self@.compilations;
        let fits: bool = match self.open {
            Open::Compilation => {
                let c = &self.compilations[n - 1];
                assert(list.last() == c@);
                c.key.tier.same(&Tier::Turbolev) && c.phases.len() == 1 && c.key.sfi == Addr(0)
            },
            _ => false,
        };
        if fits {
            let sfi: Addr = match sfi {
                Some(a) => a,
                None => Addr(0),
            };
            let ordinal: u32 = self.ordinal(n - 1, sfi, &Tier::Turbolev);
            proof {
                lemma_ordinal_prefix(list, list.drop_last(), n - 1, sfi, TierModel::Turbolev);
            }
            let osr = self.osr_for(sfi, &Tier::Turbolev, &name);
            if osr.is_some() {
                self.last_start = None;
            }
            let out: bool = self.filters_out(&name);
            let ghost name_model = name@;
            if let Some(mut c) = self.compilations.pop() {
                c.key = CompilationKey { sfi, tier: Tier::Turbolev, ordinal };
                c.name = name;
                c.function_addr = addr;
                c.osr = osr;
                c.filtered_out = out;
                self.compilations.push(c);
            }
            assert(self@.compilations =~= old(self)@.with_last(
                CompilationModel {
                    sfi,
                    ordinal,
                    name: name_model,
                    function_addr: addr,
                    osr,
                    filtered_out: out,
                    ..list.last()
                },
            ).compilations);
            assert(self@ =~= (IndexModel {
                compilations: self@.compilations,
                last_start: old(self)@.start_after(osr),
                ..old(self)@
            }));
        }
        self.content(i, line);
    }

    fn on_code_banner(&mut self, i: usize, name: String)
        requires
            old(self).wf(),
            i < usize::MAX,
        ensures
            final(self).wf(),
            final(self)@ == old(self)@.on_code_banner(i as int, name@),
            final(self).next_line == old(self).next_line,
    {
        if let Open::Code = self.open {
            self.open_phase(name, PhaseKind::Listing, i);
            self.pending = None;
            assert(self@ =~= old(self)@.on_code_banner(i as int, name@));
        } else {
            self.close_all(i);
            let mut c = CompilationSection {
                key: CompilationKey { sfi: Addr(0), tier: Tier::Other(String::new()), ordinal: 0 },
                name: String::new(),
                function_addr: None,
                lines: Range { start: i, end: i },
                osr: None,
                phases: Vec::new(),
                preamble: Range { start: i, end: i },
                filtered_out: false,
            };
            assert(phase_models(c.phases@) =~= Seq::empty());
            c.open_phase(name, PhaseKind::Listing, i);
            self.open_section(c, true);
        }
    }

    fn on_code_start(&mut self, i: usize, name: String)
        requires
            old(self).wf(),
            i < usize::MAX,
        ensures
            final(self).wf(),
            final(self)@ == old(self)@.on_code_start(i as int, name@),
            final(self).next_line == old(self).next_line,
    {
        let n: usize = self.compilations.len();
        let ghost list = self@.compilations;
        if let Open::Code = self.open {
            let c = &self.compilations[n - 1];
            assert(list.last() == c@);
            let p: usize = c.phases.len();
            assert(p > 0 ==> c@.phases.last() == c.phases@[p - 1]@);
            let goes_on: bool = name == text::owned("Optimized code") && p > 0 && c.phases[p
                - 1].name == text::owned("Raw source");
            if !goes_on {
                self.close_all(i);
            }
        }
        self.on_code_banner(i, name);
    }

    fn on_code_end(&mut self, i: usize, line: &[u8])
        requires
            old(self).wf(),
            i < usize::MAX,
        ensures
            final(self).wf(),
            final(self)@ == old(self)@.on_code_end(i as int, line@),
            final(self).next_line == old(self).next_line,
    {
        let code: bool = match self.open {
            Open::Code => true,
            _ => false,
        };
        self.content(i, line);
        if code {
            self.close_all(i + 1);
        }
    }

    fn on_code_line(&mut self, i: usize, s: &[u8])
        requires
            old(self).wf(),
            old(self)@.open == OpenModel::Code,
            i < usize::MAX,
        ensures
            final(self).wf(),
            final(self)@ == old(self)@.on_code_line(i as int, s@),
            final(self).next_line == old(self).next_line,
    {
        assert(s.len() == s@.len());
        if let Some(name) = find_listing_header(s) {
            self.on_code_banner(i, name);
            return;
        }
        let e: usize = text::trim_end(s, 0, s.len());
        let ghost list = self@.compilations;
        if text::starts_with_at(s, 0, "kind = ") && "kind = ".len() <= e {
            let tier = parse_tier(s, "kind = ".len(), e);
            let ghost model = tier@;
            if let Some(mut c) = self.compilations.pop() {
                assert(c@ == list.last());
                c.key = CompilationKey { sfi: c.key.sfi, tier, ordinal: c.key.ordinal };
                self.compilations.push(c);
            }
            assert(self@ =~= old(self)@.with_last(
                CompilationModel { tier: model, ..list.last() },
            ));
        } else if text::starts_with_at(s, 0, "name = ") && "name = ".len() <= e {
            let name = text::text_between(s, "name = ".len(), e);
            let ghost model = name@;
            if let Some(mut c) = self.compilations.pop() {
                assert(c@ == list.last());
                c.name = name;
                self.compilations.push(c);
            }
            assert(self@ =~= old(self)@.with_last(
                CompilationModel { name: model, ..list.last() },
            ));
        }
        self.content(i, s);
    }

    fn step(&mut self, i: usize, line: &[u8])
        requires
            old(self).wf(),
            i < usize::MAX,
        ensures
            final(self).wf(),
            final(self)@ == old(self)@.after_line(i as int, line@),
            final(self).next_line == old(self).next_line,
    {
        reveal(IndexModel::after_line);
        let code: bool = match self.open {
            Open::Code => true,
            _ => false,
        };
        if !starts_boundary(line) && !code {
            self.content(i, line);
            return;
        }
        let plain: Vec<u8> = ansi::strip_owned(line);
        let s = plain.as_slice();
        if !is_utf8(s) {
            self.content(i, line);
            return;
        }
        match boundary::classify(s) {
            Boundary::Banner { name } => self.on_banner(i, name),
            Boundary::Rule => self.on_rule(i),
            Boundary::Compiling { addr, name, sfi, tier } => self.on_compiling(
                i,
                addr,
                name,
                sfi,
                tier,
            ),
            Boundary::Begin { name, tier } => self.on_begin(i, name, tier),
            Boundary::Finished => self.on_finished(i, s),
            Boundary::Event(kind) => self.on_event(i, kind, s),
            Boundary::Function { addr, name, sfi } => self.on_function(i, addr, name, sfi, s),
            Boundary::CodeBanner { name } => self.on_code_start(i, name),
            Boundary::CodeEnd => self.on_code_end(i, s),
            Boundary::Content => if code {
                self.on_code_line(i, s)
            } else {
                self.content(i, s)
            },
        }
    }

    /// The version of V8 that most markers speak for.
    pub fn detected(&self) -> (version: Option<&str>)
        ensures
            match version {
                Some(v) => self@.detected == Some(v@),
                None => self@.detected is None,
            },
    {
        match &self.detected_version {
            Some(v) => Some(v.as_str()),
            None => None,
        }
    }

    /// Indexes the lines that arrived since the last call. While bytes arrive,
    /// the last line may be incomplete and is held back until `finished`.
    pub fn ingest(&mut self, buffer: &LogBuffer, finished: bool)
        requires
            old(self).wf(),
            buffer.wf(),
        ensures
            final(self).wf(),
            final(self)@ == old(self)@.ingested(buffer@, finished),
    {
        let count: usize = buffer.line_count();
        let end: usize = if finished || count == 0 {
            count
        } else {
            count - 1
        };
        while self.next_line < end
            invariant
                self.wf(),
                buffer.wf(),
                end <= buffer@.starts.len(),
                old(self)@.advanced(buffer@, end as int) == self@.advanced(buffer@, end as int),
            decreases end - self.next_line,
        {
            let i: usize = self.next_line;
            let ghost before = self@;
            assert(before.next_line == i);
            match buffer.line(i) {
                Some(line) => self.step(i, line),
                None => {},
            }
            let ghost mid = self@;
            self.next_line = i + 1;
            assert(self@ =~= (IndexModel { next_line: i + 1, ..mid }));
            assert(self@ == before.stepped(buffer@));
        }
        assert(self.next_line >= end);
        assert(self@.advanced(buffer@, end as int) == self@);
        if finished {
            self.close_all(count);
            let ghost m = self@;
            self.detected_version = match self.votes.detected() {
                Some(v) => Some(text::owned(v)),
                None => None,
            };
            assert(self@ =~= (IndexModel { detected: detected_version(m.votes), ..m }));
        } else if count == 0 {
            assert(old(self)@.advanced(buffer@, -1) == old(self)@);
        }
    }
}

proof fn lemma_ordinal_prefix(
    a: Seq<CompilationModel>,
    b: Seq<CompilationModel>,
    n: int,
    sfi: Addr,
    tier: TierModel,
)
    requires
        n <= a.len(),
        n <= b.len(),
        forall|k: int| 0 <= k < n ==> a[k] == b[k],
    ensures
        ordinal_after(a, n, sfi, tier) == ordinal_after(b, n, sfi, tier),
    decreases n,
{
    if n > 0 {
        lemma_ordinal_prefix(a, b, n - 1, sfi, tier);
    }
}

fn find_listing_header(s: &[u8]) -> (name: Option<String>)
    ensures
        opt_text(name) == listing_header(s@),
{
    if text::starts_with_at(s, 0, "Instructions (") {
        Some(text::owned("Instructions"))
    } else if text::starts_with_at(s, 0, "Deoptimization Input Data (") {
        Some(text::owned("Deoptimization Input Data"))
    } else if text::starts_with_at(s, 0, "Safepoints (") {
        Some(text::owned("Safepoints"))
    } else if text::starts_with_at(s, 0, "RelocInfo (") {
        Some(text::owned("RelocInfo"))
    } else {
        None
    }
}

fn starts_boundary(line: &[u8]) -> (yes: bool)
    ensures
        yes == may_bound(line@),
{
    line.len() > 0 && (line[0] == 0x2d || line[0] == 0x42 || line[0] == 0x43 || line[0] == 0x46
        || line[0] == 0x5b || line[0] == 0x1b || (line[0] == 0x30 && boundary::is_code_object(
        ansi::strip_owned(line).as_slice(),
    )))
}

/// `std::str::from_utf8` accepts exactly the bytes that are valid UTF-8.
#[verifier::external_body]
fn is_utf8(bytes: &[u8]) -> (yes: bool)
    ensures
        yes == vstd::utf8::valid_utf8(bytes@),
{
    std::str::from_utf8(bytes).is_ok()
}

} // verus!
