//! The bar at the top, the sidebar, the status line and the help.

use vstd::prelude::*;
#[allow(unused_imports)]
use vstd::string::*;

use crate::app::commands::{command_candidates, commands};
#[allow(unused_imports)]
use crate::app::commands::{candidates, command_models, command_table};
use crate::app::jumps::push_counted;
#[allow(unused_imports)]
use crate::app::rows::row_exists;
use crate::app::timeline::event_summary;
#[allow(unused_imports)]
use crate::app::timeline::event_text;
#[allow(unused_imports)]
use crate::app::views::node_shown;
#[allow(unused_imports)]
use crate::app::{AppModel, InputModel, SourceModel, StateModel};
use crate::app::{App, InputLine, Prompt, Row, Source, SourceState};
use crate::config::Action;
#[allow(unused_imports)]
use crate::config::{action_help, all_actions, chord_texts, help_for, help_models};
use crate::diff::canon::chars_of;
use crate::diff::DiffModel;
#[allow(unused_imports)]
use crate::diff::{row_text, summary_text, DiffView};
use crate::model::{CompilationSection, EventKind, PhaseKind, PhaseSection, Tier};
#[allow(unused_imports)]
use crate::model::{
    shown_name, tier_label, CompilationModel, EventModel, NodeModel, OsrInfo, ParsedModel,
    PhaseKindModel, PhaseSectionModel, TierModel,
};
use crate::text;
#[allow(unused_imports)]
use crate::text::decimal;
#[allow(unused_imports)]
use crate::view::{lens_name, ViewContents};
use crate::view::ViewModel;

verus! {

/// How a part of a line looks.
#[derive(Debug, Clone, Copy, PartialEq, Eq, Structural)]
pub enum Tone {
    Plain,
    Bold,
    Accent,
    Dim,
    Gray,
    Yellow,
    Green,
    Red,
    RedBold,
}

/// The views of the parts of a line.
pub open spec fn toned(list: Seq<(Tone, String)>) -> Seq<(Tone, Seq<char>)> {
    list.map_values(|p: (Tone, String)| (p.0, p.1@))
}

/// A line without parts.
pub open spec fn no_parts() -> Seq<(Tone, Seq<char>)> {
    Seq::empty()
}

fn start_line() -> (list: Vec<(Tone, String)>)
    ensures
        toned(list@) == no_parts(),
{
    let list: Vec<(Tone, String)> = Vec::new();
    assert(toned(list@) =~= no_parts());
    list
}

fn put(list: &mut Vec<(Tone, String)>, tone: Tone, part: String)
    ensures
        toned(final(list)@) == toned(old(list)@).push((tone, part@)),
{
    list.push((tone, part));
    assert(toned(list@) =~= toned(old(list)@).push((tone, part@)));
}

// ---------------------------------------------------------------------------
// The bar at the top
// ---------------------------------------------------------------------------

/// What a tier is counted as.
#[derive(Debug, Clone, Copy, PartialEq, Eq, Structural)]
pub enum Counted {
    Maglev,
    Turbolev,
    Turbofan,
    Ignition,
    Other,
}

/// What a tier is counted as.
pub open spec fn counted_as(tier: TierModel) -> Counted {
    match tier {
        TierModel::Maglev => Counted::Maglev,
        TierModel::Turbolev => Counted::Turbolev,
        TierModel::Turbofan => Counted::Turbofan,
        TierModel::Ignition => Counted::Ignition,
        _ => Counted::Other,
    }
}

fn count_as(tier: &Tier) -> (c: Counted)
    ensures
        c == counted_as(tier@),
{
    match tier {
        Tier::Maglev => Counted::Maglev,
        Tier::Turbolev => Counted::Turbolev,
        Tier::Turbofan => Counted::Turbofan,
        Tier::Ignition => Counted::Ignition,
        _ => Counted::Other,
    }
}

/// How many of the first `n` compilations count as `what`.
pub open spec fn tier_count(list: Seq<CompilationModel>, what: Counted, n: int) -> int
    decreases n,
{
    if n <= 0 {
        0
    } else {
        tier_count(list, what, n - 1) + if counted_as(list[n - 1].tier) == what {
            1int
        } else {
            0int
        }
    }
}

/// How many of the first `n` compilations entered a running loop.
pub open spec fn osr_count(list: Seq<CompilationModel>, n: int) -> int
    decreases n,
{
    if n <= 0 {
        0
    } else {
        osr_count(list, n - 1) + if list[n - 1].osr is Some {
            1int
        } else {
            0int
        }
    }
}

/// How many of the first `n` events are bailouts.
pub open spec fn deopt_count(events: Seq<(int, EventModel)>, n: int) -> int
    decreases n,
{
    if n <= 0 {
        0
    } else {
        deopt_count(events, n - 1) + if events[n - 1].1 is DeoptBegin {
            1int
        } else {
            0int
        }
    }
}

/// A list with one more count, where there is something to count.
pub open spec fn with_count(list: Seq<char>, n: int, name: Seq<char>) -> Seq<char> {
    if n > 0 {
        (if list.len() > 0 {
            list + ", "@
        } else {
            list
        }) + decimal(n) + name
    } else {
        list
    }
}

/// The compilations by tier.
pub open spec fn tiers_text(list: Seq<CompilationModel>) -> Seq<char> {
    let n = list.len() as int;
    with_count(
        with_count(
            with_count(
                with_count(
                    with_count(
                        Seq::empty(),
                        tier_count(list, Counted::Maglev, n),
                        " Maglev"@,
                    ),
                    tier_count(list, Counted::Turbolev, n),
                    " Turbolev"@,
                ),
                tier_count(list, Counted::Turbofan, n),
                " Turbofan"@,
            ),
            tier_count(list, Counted::Ignition, n),
            " Ignition"@,
        ),
        tier_count(list, Counted::Other, n),
        " other"@,
    )
}

/// What there is in a source, counted.
pub open spec fn stats_text(source: SourceModel) -> Seq<char> {
    let list = source.index.compilations;
    let n = list.len() as int;
    let deopts = deopt_count(source.index.events, source.index.events.len() as int);
    let tiers = tiers_text(list);
    let head = if n > 0 {
        let counted = " "@ + decimal(n) + " compilations"@;
        let tiered = if tiers.len() > 0 {
            counted + " ("@ + tiers + ")"@
        } else {
            counted
        };
        if osr_count(list, n) > 0 {
            tiered + " · "@ + decimal(osr_count(list, n)) + " OSR"@
        } else {
            tiered
        }
    } else {
        Seq::empty()
    };
    let fallen = if deopts > 0 {
        head + " · "@ + decimal(deopts) + " deopts"@
    } else {
        head
    };
    match source.index.detected {
        Some(v) => fallen + " · V8 "@ + v,
        None => fallen,
    }
}

/// How far a source was read.
pub open spec fn state_part(state: StateModel) -> (Tone, Seq<char>) {
    match state {
        StateModel::Loading => (Tone::Yellow, " reading "@),
        StateModel::Complete => (Tone::Green, " ok "@),
        StateModel::Failed(_) => (Tone::Red, " failed "@),
    }
}

impl AppModel {
    /// What the bar at the top says of the first `n` sources: each with its
    /// label, how far it was read and what there is in it. The label of the
    /// active one stands out.
    pub open spec fn run_parts(self, n: int) -> Seq<(Tone, Seq<char>)>
        decreases n,
    {
        if n <= 0 {
            no_parts().push((Tone::Bold, " garage "@))
        } else {
            let source = self.sources[n - 1];
            let before = if n > 1 {
                self.run_parts(n - 1).push((Tone::Dim, "  │ "@))
            } else {
                self.run_parts(n - 1)
            };
            before.push(
                (
                    if n - 1 == self.active {
                        Tone::Accent
                    } else {
                        Tone::Plain
                    },
                    source.label,
                ),
            ).push(state_part(source.state)).push((Tone::Plain, stats_text(source)))
        }
    }

    /// The bar at the top: all sources side by side.
    pub open spec fn bar_parts(self) -> Seq<(Tone, Seq<char>)> {
        let head = self.run_parts(self.sources.len() as int);
        let hints = chord_texts(self.keys, Action::NextSource, self.keys.len() as int);
        let n = self.sources.len() as int;
        if n > 1 {
            head.push(
                (
                    Tone::Dim,
                    "  ["@ + decimal(self.active + 1) + "/"@ + decimal(n) + " "@ + (if hints.len()
                        > 0 {
                        hints[0]
                    } else {
                        Seq::empty()
                    }) + "]"@,
                ),
            )
        } else {
            head
        }
    }
}

proof fn lemma_run_parts(app: AppModel, n: int)
    requires
        0 <= n <= app.sources.len(),
    ensures
        app.run_parts(n).len() == (if n == 0 {
            1
        } else {
            4 * n
        }),
        forall|k: int|
            0 <= k < n ==> {
                let parts = app.run_parts(n);
                let source = #[trigger] app.sources[k];
                &&& parts[4 * k + 1].1 == source.label
                &&& parts[4 * k + 2] == state_part(source.state)
                &&& parts[4 * k + 3] == (Tone::Plain, stats_text(source))
            },
    decreases n,
{
    if n > 0 {
        lemma_run_parts(app, n - 1);
    }
}

/// The bar at the top shows the numbers of every source side by side, each
/// behind its label.
pub proof fn law_the_bar_shows_every_run(app: AppModel, k: int)
    requires
        0 <= k < app.sources.len(),
    ensures
        ({
            let parts = app.bar_parts();
            let source = app.sources[k];
            &&& 4 * k + 3 < parts.len()
            &&& parts[4 * k + 1].1 == source.label
            &&& parts[4 * k + 2] == state_part(source.state)
            &&& parts[4 * k + 3] == (Tone::Plain, stats_text(source))
        }),
{
    lemma_run_parts(app, app.sources.len() as int);
}

fn add_count(list: &mut String, n: usize, name: &str)
    ensures
        final(list)@ == with_count(old(list)@, n as int, name@),
{
    if n > 0 {
        if !list.as_str().is_empty() {
            list.append(", ");
        }
        text::push_decimal(list, n);
        list.append(name);
    }
}

/// What there is in a source, counted.
fn count_stats(source: &Source) -> (out: String)
    ensures
        out@ == stats_text(source@),
{
    let index = &source.index;
    let ghost list = index@.compilations;
    let ghost events = index@.events;
    let n: usize = index.compilation_count();
    let mut maglev: usize = 0;
    let mut turbolev: usize = 0;
    let mut turbofan: usize = 0;
    let mut ignition: usize = 0;
    let mut other: usize = 0;
    let mut osr: usize = 0;
    let mut k: usize = 0;
    while k < n
        invariant
            k <= n,
            n == list.len(),
            list == index@.compilations,
            maglev <= k,
            turbolev <= k,
            turbofan <= k,
            ignition <= k,
            other <= k,
            osr <= k,
            maglev == tier_count(list, Counted::Maglev, k as int),
            turbolev == tier_count(list, Counted::Turbolev, k as int),
            turbofan == tier_count(list, Counted::Turbofan, k as int),
            ignition == tier_count(list, Counted::Ignition, k as int),
            other == tier_count(list, Counted::Other, k as int),
            osr == osr_count(list, k as int),
        decreases n - k,
    {
        let c = index.compilation(k);
        match count_as(&c.key.tier) {
            Counted::Maglev => {
                maglev += 1;
            },
            Counted::Turbolev => {
                turbolev += 1;
            },
            Counted::Turbofan => {
                turbofan += 1;
            },
            Counted::Ignition => {
                ignition += 1;
            },
            Counted::Other => {
                other += 1;
            },
        }
        if c.osr.is_some() {
            osr += 1;
        }
        k += 1;
    }
    let total: usize = index.event_count();
    let mut deopts: usize = 0;
    let mut e: usize = 0;
    while e < total
        invariant
            e <= total,
            total == events.len(),
            events == index@.events,
            deopts <= e,
            deopts == deopt_count(events, e as int),
        decreases total - e,
    {
        let bailout: bool = match &index.event(e).kind {
            EventKind::DeoptBegin { .. } => true,
            _ => false,
        };
        if bailout {
            deopts += 1;
        }
        e += 1;
    }
    let mut out = String::new();
    assert(out@ =~= Seq::<char>::empty());
    if n > 0 {
        let mut tiers = String::new();
        assert(tiers@ =~= Seq::<char>::empty());
        add_count(&mut tiers, maglev, " Maglev");
        add_count(&mut tiers, turbolev, " Turbolev");
        add_count(&mut tiers, turbofan, " Turbofan");
        add_count(&mut tiers, ignition, " Ignition");
        add_count(&mut tiers, other, " other");
        out = text::owned(" ");
        text::push_decimal(&mut out, n);
        out.append(" compilations");
        if !tiers.as_str().is_empty() {
            out.append(" (");
            out.append(tiers.as_str());
            out.append(")");
        }
        if osr > 0 {
            out.append(" · ");
            text::push_decimal(&mut out, osr);
            out.append(" OSR");
        }
    }
    if deopts > 0 {
        out.append(" · ");
        text::push_decimal(&mut out, deopts);
        out.append(" deopts");
    }
    if let Some(v) = index.detected() {
        out.append(" · V8 ");
        out.append(v);
    }
    out
}

fn put_run(app: &App, k: usize, list: &mut Vec<(Tone, String)>)
    requires
        app.wf(),
        k < app@.sources.len(),
        toned(old(list)@) == app@.run_parts(k as int),
    ensures
        toned(final(list)@) == app@.run_parts(k + 1),
{
    proof {
        app.lemma_fields();
    }
    let source = app.source_at(k);
    if k > 0 {
        put(list, Tone::Dim, text::owned("  │ "));
    }
    let tone = if k == app.active {
        Tone::Accent
    } else {
        Tone::Plain
    };
    put(list, tone, text::owned(source.label.as_str()));
    match &source.state {
        SourceState::Loading => put(list, Tone::Yellow, text::owned(" reading ")),
        SourceState::Complete => put(list, Tone::Green, text::owned(" ok ")),
        SourceState::Failed(_) => put(list, Tone::Red, text::owned(" failed ")),
    }
    put(list, Tone::Plain, count_stats(source));
}

/// The bar at the top.
pub fn telemetry_bar(app: &App) -> (list: Vec<(Tone, String)>)
    requires
        app.wf(),
    ensures
        toned(list@) == app@.bar_parts(),
{
    proof {
        app.lemma_fields();
    }
    let mut list = start_line();
    put(&mut list, Tone::Bold, text::owned(" garage "));
    let n: usize = app.source_count();
    let mut k: usize = 0;
    while k < n
        invariant
            app.wf(),
            k <= n,
            n == app@.sources.len(),
            toned(list@) == app@.run_parts(k as int),
        decreases n - k,
    {
        put_run(app, k, &mut list);
        k += 1;
    }
    if n > 1 {
        let mut part = text::owned("  [");
        push_counted(&mut part, app.active);
        part.append("/");
        text::push_decimal(&mut part, n);
        part.append(" ");
        let ghost before = part@;
        match app.keys.chord_hint(Action::NextSource) {
            Some(hint) => {
                part.append(hint.as_str());
            },
            None => {
                assert(before + Seq::<char>::empty() =~= before);
            },
        }
        part.append("]");
        put(&mut list, Tone::Dim, part);
    }
    list
}

// ---------------------------------------------------------------------------
// The sidebar
// ---------------------------------------------------------------------------

/// A number with zeros in front, at least three digits long.
pub open spec fn three_digits(n: int) -> Seq<char> {
    if n < 10 {
        "00"@ + decimal(n)
    } else if n < 100 {
        "0"@ + decimal(n)
    } else {
        decimal(n)
    }
}

/// The mark of something that can be opened.
pub open spec fn open_mark(open: bool) -> Seq<char> {
    if open {
        "▾"@
    } else {
        "▸"@
    }
}

/// A phase was not recognised.
pub open spec fn has_unknown(phases: Seq<PhaseSectionModel>) -> bool {
    exists|k: int|
        0 <= k < phases.len() && (#[trigger] phases[k]).kind == (PhaseKindModel::Graph {
            known: false,
        })
}

/// How a phase looks: its mark and its tone.
pub open spec fn phase_mark(kind: PhaseKindModel) -> (Tone, Seq<char>) {
    match kind {
        PhaseKindModel::Graph { known } => if known {
            (Tone::Plain, "· "@)
        } else {
            (Tone::Red, "? "@)
        },
        PhaseKindModel::Bytecode => (Tone::Dim, "≡ "@),
        PhaseKindModel::Inlining { .. } => (Tone::Dim, "↳ "@),
        PhaseKindModel::Listing => (Tone::Dim, "≣ "@),
    }
}

/// The name of a phase in the sidebar.
pub open spec fn phase_label(phase: PhaseSectionModel) -> Seq<char> {
    match phase.kind {
        PhaseKindModel::Inlining { callee, .. } => "inline "@ + callee,
        _ => phase.name,
    }
}

/// How an event looks: by how serious it is.
pub open spec fn event_tone(event: EventModel) -> Tone {
    match event {
        EventModel::DeoptBegin { .. } => Tone::RedBold,
        EventModel::DeoptEnd { invalidated } => if invalidated {
            Tone::Red
        } else {
            Tone::Dim
        },
        EventModel::CompileDone { .. } => Tone::Green,
        EventModel::Osr { .. } => Tone::Yellow,
        _ => Tone::Dim,
    }
}

/// The compilation that entered a running loop, in words.
pub open spec fn osr_text(osr: OsrInfo) -> Seq<char> {
    match osr.offset {
        Some(offset) => " OSR@"@ + decimal(offset as int),
        None => " OSR"@,
    }
}

impl AppModel {
    /// The row of a compilation.
    pub open spec fn comp_parts(self, i: usize) -> Seq<(Tone, Seq<char>)> {
        let c = self.compilations()[i as int];
        let open = self.expanded.contains((self.active, i as u64));
        let head = no_parts().push(
            (
                Tone::Plain,
                (if self.grouped {
                    "  "@
                } else {
                    ""@
                }) + open_mark(open) + " "@,
            ),
        ).push((Tone::Plain, shown_name(c.name))).push(
            (Tone::Dim, " "@ + tier_label(c.tier) + " #"@ + decimal(c.ordinal as int)),
        );
        let entered = match c.osr {
            Some(osr) => head.push((Tone::Yellow, osr_text(osr))),
            None => head,
        };
        if has_unknown(c.phases) {
            entered.push((Tone::Red, " [unparsed]"@))
        } else {
            entered
        }
    }

    /// A row of the sidebar.
    pub open spec fn row_parts(self, row: Row) -> Seq<(Tone, Seq<char>)> {
        let index = self.source().index;
        match row {
            Row::Function { sfi, name_comp, count } => no_parts().push(
                (
                    Tone::Plain,
                    open_mark(self.expanded_groups.contains((self.active, sfi.0))) + " "@,
                ),
            ).push((Tone::Bold, shown_name(index.compilations[name_comp as int].name))).push(
                (Tone::Dim, " ×"@ + decimal(count as int)),
            ),
            Row::Compilation(i) => self.comp_parts(i),
            Row::Phase { comp, phase } => {
                let p = index.compilations[comp as int].phases[phase as int];
                let (tone, mark) = phase_mark(p.kind);
                no_parts().push(
                    (
                        Tone::Plain,
                        if self.grouped {
                            "      "@
                        } else {
                            "    "@
                        },
                    ),
                ).push((tone, mark + phase_label(p)))
            },
            Row::Raw(i) => {
                let r = index.raw[i as int];
                no_parts().push((Tone::Dim, "~ "@)).push(
                    (
                        Tone::Dim,
                        if r.label.len() == 0 {
                            "(raw, "@ + decimal(
                                if r.start < r.end {
                                    r.end - r.start
                                } else {
                                    0
                                },
                            ) + " lines)"@
                        } else {
                            r.label
                        },
                    ),
                )
            },
            Row::Event(i) => {
                let event = index.events[i as int].1;
                no_parts().push((Tone::Dim, "#"@ + three_digits(i + 1) + " "@)).push(
                    (event_tone(event), event_text(event)),
                )
            },
        }
    }

    /// What the sidebar says when it has no rows.
    pub open spec fn empty_sidebar(self) -> Seq<char> {
        if self.sidebar_filter is Some {
            " (nothing matches the filter)"@
        } else if self.source().state is Loading {
            " waiting for input…"@
        } else {
            " (no sections)"@
        }
    }
}

fn mark_of(open: bool) -> (mark: &'static str)
    ensures
        mark@ == open_mark(open),
{
    if open {
        "▾"
    } else {
        "▸"
    }
}

fn find_unknown(c: &CompilationSection) -> (yes: bool)
    ensures
        yes == has_unknown(c@.phases),
{
    let mut k: usize = 0;
    assert(c@.phases.len() == c.phases@.len());
    while k < c.phases.len()
        invariant
            k <= c.phases@.len(),
            c@.phases.len() == c.phases@.len(),
            forall|m: int|
                0 <= m < k ==> (#[trigger] c@.phases[m]).kind != (PhaseKindModel::Graph {
                    known: false,
                }),
        decreases c.phases.len() - k,
    {
        assert(c@.phases[k as int] == c.phases@[k as int]@);
        if let PhaseKind::Graph { known } = &c.phases[k].kind {
            if !*known {
                return true;
            }
        }
        k += 1;
    }
    false
}

fn comp_row(app: &App, i: usize) -> (list: Vec<(Tone, String)>)
    requires
        app.wf(),
        i < app@.compilations().len(),
    ensures
        toned(list@) == app@.comp_parts(i),
{
    proof {
        app.lemma_fields();
    }
    let c = app.active_source().index.compilation(i);
    let mut list = start_line();
    let mut head = text::owned(
        if app.grouped {
            "  "
        } else {
            ""
        },
    );
    head.append(mark_of(app.compilation_expanded(i)));
    head.append(" ");
    put(&mut list, Tone::Plain, head);
    put(&mut list, Tone::Plain, text::owned(c.display_name()));
    let mut tier = text::owned(" ");
    tier.append(c.key.tier.label());
    tier.append(" #");
    text::push_decimal(&mut tier, c.key.ordinal as usize);
    put(&mut list, Tone::Dim, tier);
    if let Some(osr) = &c.osr {
        let part: String = match osr.offset {
            Some(offset) => {
                let mut s = text::owned(" OSR@");
                text::push_decimal(&mut s, offset as usize);
                s
            },
            None => text::owned(" OSR"),
        };
        put(&mut list, Tone::Yellow, part);
    }
    if find_unknown(c) {
        put(&mut list, Tone::Red, text::owned(" [unparsed]"));
    }
    list
}

fn phase_part(p: &PhaseSection) -> (part: (Tone, String))
    ensures
        part.0 == phase_mark(p@.kind).0,
        part.1@ == phase_mark(p@.kind).1 + phase_label(p@),
{
    match &p.kind {
        PhaseKind::Graph { known } => {
            let mut out = text::owned(
                if *known {
                    "· "
                } else {
                    "? "
                },
            );
            out.append(p.name.as_str());
            (
                if *known {
                    Tone::Plain
                } else {
                    Tone::Red
                },
                out,
            )
        },
        PhaseKind::Bytecode => {
            let mut out = text::owned("≡ ");
            out.append(p.name.as_str());
            (Tone::Dim, out)
        },
        PhaseKind::Inlining { callee, .. } => {
            let mut label = text::owned("inline ");
            label.append(callee.as_str());
            let mut out = text::owned("↳ ");
            out.append(label.as_str());
            (Tone::Dim, out)
        },
        PhaseKind::Listing => {
            let mut out = text::owned("≣ ");
            out.append(p.name.as_str());
            (Tone::Dim, out)
        },
    }
}

fn push_three_digits(out: &mut String, i: usize)
    ensures
        final(out)@ == old(out)@ + three_digits(i + 1),
{
    let ghost before = out@;
    if i < 9 {
        out.append("00");
    } else if i < 99 {
        out.append("0");
    }
    let ghost mid = out@;
    push_counted(out, i);
    assert(out@ =~= before + three_digits(i + 1));
}

fn tone_of_event(kind: &EventKind) -> (tone: Tone)
    ensures
        tone == event_tone(kind@),
{
    match kind {
        EventKind::DeoptBegin { .. } => Tone::RedBold,
        EventKind::DeoptEnd { invalidated } => if *invalidated {
            Tone::Red
        } else {
            Tone::Dim
        },
        EventKind::CompileDone { .. } => Tone::Green,
        EventKind::Osr { .. } => Tone::Yellow,
        _ => Tone::Dim,
    }
}

/// A row of the sidebar.
pub fn sidebar_row(app: &App, row: &Row) -> (list: Vec<(Tone, String)>)
    requires
        app.wf(),
        row_exists(app@.source(), *row),
    ensures
        toned(list@) == app@.row_parts(*row),
{
    proof {
        app.lemma_fields();
    }
    let index = &app.active_source().index;
    let mut list = start_line();
    match row {
        Row::Function { sfi, name_comp, count } => {
            let mut head = text::owned(mark_of(app.group_expanded(sfi.0)));
            head.append(" ");
            put(&mut list, Tone::Plain, head);
            let c = index.compilation(*name_comp);
            put(&mut list, Tone::Bold, text::owned(c.display_name()));
            let mut times = text::owned(" ×");
            text::push_decimal(&mut times, *count);
            put(&mut list, Tone::Dim, times);
        },
        Row::Compilation(i) => {
            list = comp_row(app, *i);
        },
        Row::Phase { comp, phase } => {
            let c = index.compilation(*comp);
            assert(c@.phases[*phase as int] == c.phases@[*phase as int]@);
            put(
                &mut list,
                Tone::Plain,
                text::owned(
                    if app.grouped {
                        "      "
                    } else {
                        "    "
                    },
                ),
            );
            let (tone, part): (Tone, String) = phase_part(&c.phases[*phase]);
            put(&mut list, tone, part);
        },
        Row::Raw(i) => {
            let r = index.raw_section(*i);
            put(&mut list, Tone::Dim, text::owned("~ "));
            let label: String = if r.label.as_str().is_empty() {
                let mut out = text::owned("(raw, ");
                text::push_decimal(
                    &mut out,
                    if r.lines.start < r.lines.end {
                        r.lines.end - r.lines.start
                    } else {
                        0
                    },
                );
                out.append(" lines)");
                out
            } else {
                text::owned(r.label.as_str())
            };
            put(&mut list, Tone::Dim, label);
        },
        Row::Event(i) => {
            let event = index.event(*i);
            let mut number = text::owned("#");
            push_three_digits(&mut number, *i);
            number.append(" ");
            put(&mut list, Tone::Dim, number);
            put(&mut list, tone_of_event(&event.kind), event_summary(&event.kind));
        },
    }
    list
}

/// What the sidebar says when it has no rows.
pub fn empty_sidebar(app: &App) -> (out: &'static str)
    requires
        app.wf(),
    ensures
        out@ == app@.empty_sidebar(),
{
    proof {
        app.lemma_fields();
    }
    if app.sidebar_filter.is_some() {
        " (nothing matches the filter)"
    } else {
        match &app.active_source().state {
            SourceState::Loading => " waiting for input…",
            _ => " (no sections)",
        }
    }
}

// ---------------------------------------------------------------------------
// The status line
// ---------------------------------------------------------------------------

/// What the input line begins with.
pub open spec fn prompt_text(prompt: Prompt) -> Seq<char> {
    match prompt {
        Prompt::Search => "/"@,
        Prompt::Filter => "filter: "@,
        Prompt::Export => "export to: "@,
        Prompt::Command => ":"@,
    }
}

/// The names of the first `n` commands of a list.
pub open spec fn names_text(list: Seq<(Seq<char>, Seq<char>)>, n: int) -> Seq<char>
    decreases n,
{
    if n <= 0 {
        Seq::empty()
    } else if n == 1 {
        list[0].0
    } else {
        names_text(list, n - 1) + " "@ + list[n - 1].0
    }
}

/// What can still be typed: the commands that fit, or what the only one does.
pub open spec fn command_hint(typed: Seq<char>) -> Seq<char> {
    let list = candidates(typed);
    if list.len() == 0 {
        "no such command"@
    } else if list.len() == 1 {
        list[0].0 + " — "@ + list[0].1
    } else {
        names_text(list, list.len() as int)
    }
}

/// The status line while something is typed.
pub open spec fn input_parts(input: InputModel) -> Seq<(Tone, Seq<char>)> {
    let head = no_parts().push((Tone::Bold, " "@ + prompt_text(input.prompt) + input.buffer)).push(
        (Tone::Accent, "█"@),
    );
    (if input.prompt == Prompt::Command && !input.buffer.contains(' ') {
        head.push((Tone::Dim, "  "@ + command_hint(input.buffer)))
    } else {
        head
    }).push((Tone::Dim, "  Enter apply · Esc cancel"@))
}

/// What happened on the row under the cursor of a comparison.
pub open spec fn diff_detail(view: DiffView, at: usize) -> Option<Seq<char>> {
    if at < view.rows.len() {
        row_text(view.left, view.right, view.rows[at as int])
    } else {
        None
    }
}

/// The status line of a comparison.
pub open spec fn diff_parts(view: DiffView, at: usize) -> Seq<(Tone, Seq<char>)> {
    let head = no_parts().push((Tone::Bold, " DIFF  "@ + summary_text(view.summary)));
    (match diff_detail(view, at) {
        Some(detail) => head.push((Tone::Accent, "   "@ + detail)),
        None => head,
    }).push((Tone::Dim, "   d exits · Ctrl+W other side"@))
}

/// The cursor node in words.
pub open spec fn node_text(node: NodeModel, parsed: ParsedModel) -> Seq<char> {
    let named = "n"@ + decimal(node.id as int) + " "@ + (if (node.opcode as int)
        < parsed.opcodes.len() {
        parsed.opcodes[node.opcode as int]
    } else {
        "?"@
    }) + " · "@ + decimal(node.inputs.len() as int) + " in"@;
    (match node.uses {
        Some(uses) => named + " · "@ + decimal(uses as int) + " uses"@,
        None => named,
    }) + "   "@
}

/// What is said of the cursor node of a view.
pub open spec fn cursor_text(vm: ViewContents, at: int) -> Seq<char> {
    match (vm, node_shown(vm, at)) {
        (ViewContents::Modeled { parsed, .. }, Some(node)) => node_text(node, parsed),
        _ => Seq::empty(),
    }
}

impl AppModel {
    /// Where the cursor is and what is switched on.
    pub open spec fn place_text(self, vm: ViewContents) -> Seq<char> {
        let line = if self.cursor < vm.rows_len() {
            vm.row_at(self.cursor as int).line
        } else {
            0
        };
        let at = " L"@ + decimal(line + 1);
        let listed = if self.timeline {
            if self.timeline_deopts_only {
                at + "  TIMELINE"@ + ":deopts"@
            } else {
                at + "  TIMELINE"@
            }
        } else {
            at
        };
        let lensed = match self.lens {
            Some(lens) => listed + "  lens::"@ + lens_name(lens),
            None => listed,
        };
        let followed = if self.follow {
            lensed + "  FOLLOW"@
        } else {
            lensed
        };
        let wrapped = if self.wrap {
            followed + "  WRAP"@
        } else {
            followed
        };
        let filtered = match self.sidebar_filter {
            Some(p) => wrapped + "  filter:"@ + p,
            None => wrapped,
        };
        match self.search {
            Some(p) => filtered + "  /"@ + p,
            None => filtered,
        }
    }

    /// The status line: what is typed, or the comparison, or the place of the
    /// cursor and the last message.
    pub open spec fn status_parts(
        self,
        vm: ViewContents,
        diff: Option<DiffView>,
    ) -> Seq<(Tone, Seq<char>)> {
        match (self.input, diff) {
            (Some(input), _) => input_parts(input),
            (None, Some(view)) => diff_parts(view, self.cursor),
            (None, None) => no_parts().push((Tone::Bold, self.place_text(vm))).push(
                (Tone::Plain, "   "@),
            ).push((Tone::Accent, cursor_text(vm, self.cursor as int))).push(
                (Tone::Gray, self.status),
            ),
        }
    }
}

fn join_names(list: &Vec<(&'static str, &'static str)>) -> (out: String)
    ensures
        out@ == names_text(command_models(list@), list@.len() as int),
{
    let ghost all = command_models(list@);
    let mut out = String::new();
    let mut n: usize = 0;
    assert(out@ =~= names_text(all, 0));
    while n < list.len()
        invariant
            n <= list@.len(),
            all == command_models(list@),
            out@ == names_text(all, n as int),
        decreases list.len() - n,
    {
        assert(all[n as int] == (list@[n as int].0@, list@[n as int].1@));
        if n > 0 {
            out.append(" ");
        }
        out.append(list[n].0);
        assert(out@ =~= names_text(all, n + 1));
        n += 1;
    }
    out
}

fn find_hint(typed: &str) -> (out: String)
    ensures
        out@ == command_hint(typed@),
{
    let list = command_candidates(typed);
    assert(command_models(list@).len() == list@.len());
    if list.len() == 0 {
        text::owned("no such command")
    } else if list.len() == 1 {
        assert(command_models(list@)[0] == (list@[0].0@, list@[0].1@));
        let mut out = text::owned(list[0].0);
        out.append(" — ");
        out.append(list[0].1);
        out
    } else {
        join_names(&list)
    }
}

fn has_space(s: &String) -> (yes: bool)
    ensures
        yes == s@.contains(' '),
{
    let chars = chars_of(s.as_str());
    let mut k: usize = 0;
    while k < chars.len()
        invariant
            k <= chars@.len(),
            chars@ == s@,
            forall|m: int| 0 <= m < k ==> chars@[m] != ' ',
        decreases chars.len() - k,
    {
        if chars[k] == ' ' {
            return true;
        }
        k += 1;
    }
    false
}

fn input_line(input: &InputLine) -> (list: Vec<(Tone, String)>)
    ensures
        toned(list@) == input_parts(input@),
{
    let mut list = start_line();
    let mut head = text::owned(" ");
    head.append(
        match input.prompt {
            Prompt::Search => "/",
            Prompt::Filter => "filter: ",
            Prompt::Export => "export to: ",
            Prompt::Command => ":",
        },
    );
    head.append(input.buffer.as_str());
    put(&mut list, Tone::Bold, head);
    put(&mut list, Tone::Accent, text::owned("█"));
    if input.prompt == Prompt::Command && !has_space(&input.buffer) {
        let mut hint = text::owned("  ");
        hint.append(find_hint(input.buffer.as_str()).as_str());
        put(&mut list, Tone::Dim, hint);
    }
    put(&mut list, Tone::Dim, text::owned("  Enter apply · Esc cancel"));
    list
}

fn diff_line(model: &DiffModel, at: usize) -> (list: Vec<(Tone, String)>)
    ensures
        toned(list@) == diff_parts(model@, at),
{
    let mut list = start_line();
    let mut head = text::owned(" DIFF  ");
    head.append(model.summary.describe().as_str());
    put(&mut list, Tone::Bold, head);
    if let Some(detail) = model.describe_row(at) {
        let mut part = text::owned("   ");
        part.append(detail.as_str());
        put(&mut list, Tone::Accent, part);
    }
    put(&mut list, Tone::Dim, text::owned("   d exits · Ctrl+W other side"));
    list
}

fn place_line(app: &App, vm: &ViewModel) -> (out: String)
    ensures
        out@ == app@.place_text(vm@),
{
    proof {
        app.lemma_fields();
    }
    let line: usize = match vm.line_at(app.cursor) {
        Some(line) => line,
        None => 0,
    };
    let mut out = text::owned(" L");
    push_counted(&mut out, line);
    if app.timeline {
        out.append("  TIMELINE");
        if app.timeline_deopts_only {
            out.append(":deopts");
        }
    }
    if let Some(lens) = app.lens {
        out.append("  lens::");
        out.append(lens.name());
    }
    if app.follow {
        out.append("  FOLLOW");
    }
    if app.wrap {
        out.append("  WRAP");
    }
    if let Some(p) = &app.sidebar_filter {
        out.append("  filter:");
        out.append(p.as_str());
    }
    if let Some(p) = &app.search {
        out.append("  /");
        out.append(p.as_str());
    }
    out
}

fn cursor_line(app: &App, vm: &ViewModel) -> (out: String)
    ensures
        out@ == cursor_text(vm@, app@.cursor as int),
{
    proof {
        app.lemma_fields();
    }
    match (vm, app.cursor_node(vm)) {
        (ViewModel::Modeled { parsed, .. }, Some(node)) => {
            let mut out = text::owned("n");
            text::push_decimal(&mut out, node.id as usize);
            out.append(" ");
            assert((**parsed)@.opcodes.len() == parsed.opcodes@.len());
            if (node.opcode as usize) < parsed.opcodes.len() {
                assert((**parsed)@.opcodes[node.opcode as int]
                    == parsed.opcodes@[node.opcode as int]@);
                out.append(parsed.opcodes[node.opcode as usize].as_str());
            } else {
                out.append("?");
            }
            out.append(" · ");
            assert(node@.inputs.len() == node.inputs.len());
            text::push_decimal(&mut out, node.inputs.len());
            out.append(" in");
            if let Some(uses) = node.uses {
                out.append(" · ");
                text::push_decimal(&mut out, uses as usize);
                out.append(" uses");
            }
            out.append("   ");
            out
        },
        _ => {
            let out = String::new();
            assert(out@ =~= Seq::<char>::empty());
            out
        },
    }
}

/// The view of an optional comparison.
pub open spec fn opt_diff(diff: Option<&DiffModel>) -> Option<DiffView> {
    match diff {
        Some(m) => Some(m@),
        None => None,
    }
}

/// The status line.
pub fn status_line(app: &App, vm: &ViewModel, diff: Option<&DiffModel>) -> (list: Vec<
    (Tone, String),
>)
    ensures
        toned(list@) == app@.status_parts(vm@, opt_diff(diff)),
{
    proof {
        app.lemma_fields();
    }
    if let Some(input) = &app.input {
        return input_line(input);
    }
    if let Some(model) = diff {
        return diff_line(model, app.cursor);
    }
    let mut list = start_line();
    put(&mut list, Tone::Bold, place_line(app, vm));
    put(&mut list, Tone::Plain, text::owned("   "));
    put(&mut list, Tone::Accent, cursor_line(app, vm));
    put(&mut list, Tone::Gray, text::owned(app.status.as_str()));
    list
}

// ---------------------------------------------------------------------------
// The help
// ---------------------------------------------------------------------------

/// `n` spaces.
pub open spec fn spaces(n: int) -> Seq<char> {
    Seq::new(
        (if n > 0 {
            n
        } else {
            0
        }) as nat,
        |i: int| ' ',
    )
}

/// A text of at most `n` characters, filled up with spaces to `width`.
pub open spec fn in_column(s: Seq<char>, n: int, width: int) -> Seq<char> {
    let cut = if s.len() > n {
        s.take(n)
    } else {
        s
    };
    cut + spaces(width - cut.len())
}

/// The length of the longest of the first `n` key names; at least `least`.
pub open spec fn keys_width(rows: Seq<(Seq<char>, Action)>, n: int) -> int
    decreases n,
{
    if n <= 0 {
        0
    } else if rows[n - 1].0.len() > keys_width(rows, n - 1) {
        rows[n - 1].0.len() as int
    } else {
        keys_width(rows, n - 1)
    }
}

/// One column of the help: the keys of an action and what it does.
pub open spec fn help_column(keys: Seq<char>, action: Action, width: int) -> Seq<
    (Tone, Seq<char>),
> {
    no_parts().push((Tone::Accent, " "@ + spaces(width - keys.len()) + keys + " "@)).push(
        (Tone::Plain, in_column(action_help(action), 32, 33)),
    )
}

/// Line `i` of the help, which has two columns.
pub open spec fn help_line(rows: Seq<(Seq<char>, Action)>, i: int) -> Seq<(Tone, Seq<char>)> {
    let n = rows.len() as int;
    let half = (n + 1) / 2;
    let width = keys_width(rows, n);
    let left = help_column(rows[i].0, rows[i].1, width);
    if half + i < n {
        left + help_column(rows[half + i].0, rows[half + i].1, width)
    } else {
        left
    }
}

/// The lines of the help: the bindings in two columns, the mouse and the
/// commands.
pub open spec fn help_lines(rows: Seq<(Seq<char>, Action)>) -> Seq<Seq<(Tone, Seq<char>)>> {
    let table = command_table();
    Seq::new(((rows.len() + 1) / 2) as nat, |i: int| help_line(rows, i)).push(
        no_parts().push((Tone::Dim, " mouse: wheel scrolls · click places the cursor"@)),
    ).push(
        no_parts().push((Tone::Dim, " : commands — "@)).push(
            (Tone::Accent, names_text(table, table.len() as int)),
        ),
    ).push(no_parts().push((Tone::Dim, " any key to close"@)))
}

pub(crate) fn push_spaces(out: &mut String, n: usize)
    ensures
        final(out)@ == old(out)@ + spaces(n as int),
{
    let ghost before = out@;
    let mut k: usize = 0;
    assert(out@ =~= before + spaces(0));
    while k < n
        invariant
            k <= n,
            out@ == before + spaces(k as int),
        decreases n - k,
    {
        out.push(' ');
        assert(out@ =~= before + spaces(k + 1));
        k += 1;
    }
}

fn column_text(s: &str, n: usize, width: usize) -> (out: String)
    ensures
        out@ == in_column(s@, n as int, width as int),
{
    let chars = chars_of(s);
    let end: usize = if chars.len() > n {
        n
    } else {
        chars.len()
    };
    let mut out = text::from_chars(&chars, 0, end);
    assert(chars@.subrange(0, end as int) =~= (if s@.len() > n {
        s@.take(n as int)
    } else {
        s@
    }));
    if width > end {
        push_spaces(&mut out, width - end);
    } else {
        assert(out@ + spaces(width - end) =~= out@);
    }
    out
}

/// The views of lines of parts.
pub open spec fn toned_lines(list: Seq<Vec<(Tone, String)>>) -> Seq<Seq<(Tone, Seq<char>)>> {
    list.map_values(|l: Vec<(Tone, String)>| toned(l@))
}

fn put_column(list: &mut Vec<(Tone, String)>, keys: &String, action: Action, width: usize)
    ensures
        toned(final(list)@) == toned(old(list)@) + help_column(keys@, action, width as int),
{
    let ghost before = toned(list@);
    let chars = chars_of(keys.as_str());
    let mut part = text::owned(" ");
    if width > chars.len() {
        push_spaces(&mut part, width - chars.len());
    } else {
        assert(part@ + spaces(width - chars@.len()) =~= part@);
    }
    part.append(keys.as_str());
    part.append(" ");
    put(list, Tone::Accent, part);
    put(list, Tone::Plain, column_text(action.describe(), 32, 33));
    assert(toned(list@) =~= before + help_column(keys@, action, width as int));
}

fn find_keys_width(rows: &Vec<(String, Action)>) -> (width: usize)
    ensures
        width == keys_width(help_models(rows@), rows@.len() as int),
{
    let ghost all = help_models(rows@);
    let mut width: usize = 0;
    let mut n: usize = 0;
    while n < rows.len()
        invariant
            n <= rows@.len(),
            all == help_models(rows@),
            width == keys_width(all, n as int),
        decreases rows.len() - n,
    {
        assert(all[n as int] == (rows@[n as int].0@, rows@[n as int].1));
        let chars = chars_of(rows[n].0.as_str());
        if chars.len() > width {
            width = chars.len();
        }
        n += 1;
    }
    width
}

/// The lines of the help.
pub fn help_text(app: &App) -> (lines: Vec<Vec<(Tone, String)>>)
    ensures
        toned_lines(lines@) == help_lines(help_for(app@.keys, all_actions().len() as int)),
{
    proof {
        app.lemma_fields();
    }
    let rows = app.keys.help_rows();
    let ghost all = help_models(rows@);
    let n: usize = rows.len();
    let half: usize = n / 2 + n % 2;
    let width: usize = find_keys_width(&rows);
    let ghost columns = Seq::new(((all.len() + 1) / 2) as nat, |i: int| help_line(all, i));
    let mut lines: Vec<Vec<(Tone, String)>> = Vec::new();
    let mut i: usize = 0;
    assert(all.len() == n);
    assert(half == (n + 1) / 2);
    assert(toned_lines(lines@) =~= columns.take(0));
    while i < half
        invariant
            i <= half <= n,
            half == (n + 1) / 2,
            n == rows@.len(),
            all == help_models(rows@),
            all.len() == n,
            width == keys_width(all, n as int),
            columns == Seq::new(((all.len() + 1) / 2) as nat, |i: int| help_line(all, i)),
            toned_lines(lines@) == columns.take(i as int),
        decreases half - i,
    {
        let ghost before = lines@;
        assert(all[i as int] == (rows@[i as int].0@, rows@[i as int].1));
        let mut list = start_line();
        put_column(&mut list, &rows[i].0, rows[i].1, width);
        assert(toned(list@) =~= help_column(all[i as int].0, all[i as int].1, width as int));
        if half + i < n {
            assert(all[half + i] == (rows@[half + i].0@, rows@[half + i].1));
            put_column(&mut list, &rows[half + i].0, rows[half + i].1, width);
        }
        assert(toned(list@) == help_line(all, i as int));
        lines.push(list);
        assert(toned_lines(lines@) =~= toned_lines(before).push(columns[i as int]));
        assert(toned_lines(lines@) =~= columns.take(i + 1));
        i += 1;
    }
    assert(columns.take(half as int) =~= columns);
    let mut mouse = start_line();
    put(&mut mouse, Tone::Dim, text::owned(" mouse: wheel scrolls · click places the cursor"));
    let mut offered = start_line();
    put(&mut offered, Tone::Dim, text::owned(" : commands — "));
    let table = commands();
    assert(command_models(table@).len() == table@.len());
    put(&mut offered, Tone::Accent, join_names(&table));
    let mut close = start_line();
    put(&mut close, Tone::Dim, text::owned(" any key to close"));
    let ghost before = lines@;
    let ghost tail = seq![toned(mouse@), toned(offered@), toned(close@)];
    lines.push(mouse);
    lines.push(offered);
    lines.push(close);
    assert(toned_lines(lines@) =~= toned_lines(before).push(tail[0]).push(tail[1]).push(tail[2]));
    lines
}

} // verus!
