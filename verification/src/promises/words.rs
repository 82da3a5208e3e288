//! What is said in words holds what it is about.

use vstd::prelude::*;
#[allow(unused_imports)]
use vstd::string::*;

#[allow(unused_imports)]
use crate::app::output::{comp_title, row_text};
#[allow(unused_imports)]
use crate::app::panel::decision_text;
#[allow(unused_imports)]
use crate::app::timeline::{at_offset, event_text};
#[allow(unused_imports)]
use crate::app::{AppModel, Row};
#[allow(unused_imports)]
use crate::diff::{line_counts, node_counts, summary_text, with_count, Summary};
#[allow(unused_imports)]
use crate::model::{shown_name, tier_label, DecisionModel, EventModel, NodeModel, ParsedModel};
#[allow(unused_imports)]
use crate::source::LogModel;
#[allow(unused_imports)]
use crate::text::{decimal, digit_char, written};
#[allow(unused_imports)]
use crate::ui::bars::{in_column, node_text, spaces};
#[allow(unused_imports)]
use crate::ui::frame::number_text;
#[allow(unused_imports)]
use crate::view::{RowKind, ViewRow};

verus! {

/// A text holds another.
pub open spec fn holds(s: Seq<char>, part: Seq<char>) -> bool {
    exists|i: int| #[trigger] stands_at(s, i, part)
}

/// `part` stands in a text at `i`.
pub open spec fn stands_at(s: Seq<char>, i: int, part: Seq<char>) -> bool {
    0 <= i && i + part.len() <= s.len() && s.subrange(i, i + part.len()) == part
}

pub(crate) proof fn lemma_holds(s: Seq<char>, a: Seq<char>, part: Seq<char>, b: Seq<char>)
    requires
        s == a + part + b,
    ensures
        holds(s, part),
{
    let i = a.len() as int;
    assert(s.subrange(i, i + part.len()) =~= part);
    assert(stands_at(s, i, part));
}

pub(crate) proof fn lemma_keeps(s: Seq<char>, a: Seq<char>, t: Seq<char>, b: Seq<char>, part: Seq<char>)
    requires
        s == a + t + b,
        holds(t, part),
    ensures
        holds(s, part),
{
    let i = choose|i: int| #[trigger] stands_at(t, i, part);
    let j = a.len() + i;
    assert(s.subrange(j, j + part.len()) =~= t.subrange(i, i + part.len()));
    assert(stands_at(s, j, part));
}

// ---------------------------------------------------------------------------
// Numbers
// ---------------------------------------------------------------------------

/// The number that decimal digits spell.
pub open spec fn spelled(s: Seq<char>) -> int
    decreases s.len(),
{
    if s.len() == 0 {
        0
    } else {
        10 * spelled(s.drop_last()) + (s.last() as int - 48)
    }
}

/// A number is written in the digits that spell it, without a zero in front.
pub proof fn law_a_number_is_written_in_decimal(n: nat)
    ensures
        spelled(decimal(n as int)) == n,
        decimal(n as int).len() > 0,
        forall|k: int|
            0 <= k < decimal(n as int).len() ==> 48 <= (#[trigger] decimal(n as int)[k]) as int
                <= 57,
        n > 0 ==> decimal(n as int)[0] != '0',
    decreases n,
{
    let s = decimal(n as int);
    if n < 10 {
        assert(s =~= seq![digit_char(n as int)]);
        assert(s.drop_last() =~= Seq::<char>::empty());
        assert(spelled(s.drop_last()) == 0);
        assert(s.last() as int == 48 + n);
    } else {
        let m = (n / 10) as nat;
        law_a_number_is_written_in_decimal(m);
        let head = decimal(m as int);
        assert(s =~= head.push(digit_char((n % 10) as int)));
        assert(s.drop_last() =~= head);
        assert(s.last() as int == 48 + n % 10);
        assert(s[0] == head[0]);
    }
}

/// A line number ends its column and is counted from one; a number that fits
/// makes the column as wide as the others.
pub proof fn law_line_numbers_are_counted_from_one(line: usize, width: int)
    ensures
        holds(number_text(line, width), decimal(line + 1)),
        decimal(line + 1).len() <= width ==> number_text(line, width).len() == width + 1,
        spelled(decimal(line + 1)) == line + 1,
{
    reveal_strlit(" ");
    let pad = spaces(width - decimal(line + 1).len());
    lemma_holds(number_text(line, width), pad, decimal(line + 1), " "@);
    law_a_number_is_written_in_decimal((line + 1) as nat);
}

/// A text in a column takes the width of the column where it may take no more,
/// and begins with as much of the text as fits.
pub proof fn law_a_column_has_its_width(s: Seq<char>, n: int, width: int)
    requires
        0 <= n <= width,
    ensures
        in_column(s, n, width).len() == width,
        s.len() <= n ==> s.is_prefix_of(in_column(s, n, width)),
        s.len() > n ==> s.take(n).is_prefix_of(in_column(s, n, width)),
{
    let cut = if s.len() > n {
        s.take(n)
    } else {
        s
    };
    assert(cut.is_prefix_of(in_column(s, n, width))) by {
        assert(in_column(s, n, width).take(cut.len() as int) =~= cut);
    }
}

// ---------------------------------------------------------------------------
// Events, titles, decisions
// ---------------------------------------------------------------------------

/// What is said of a deoptimization names its kind, its function, the tier that
/// was left, its reason, and the offset where it is known.
pub proof fn law_a_deoptimization_is_told(event: EventModel)
    requires
        event is DeoptBegin,
    ensures
        holds(event_text(event), event->DeoptBegin_kind),
        holds(event_text(event), shown_name(event->DeoptBegin_name)),
        holds(event_text(event), tier_label(event->DeoptBegin_tier)),
        holds(event_text(event), event->DeoptBegin_reason),
        event->DeoptBegin_bytecode_offset matches Some(o) ==> holds(
            event_text(event),
            " @"@ + decimal(o as int),
        ),
{
    if let EventModel::DeoptBegin { kind, reason, name, tier, bytecode_offset, .. } = event {
        let s = event_text(event);
        let t = shown_name(name);
        let l = tier_label(tier);
        let o = at_offset(bytecode_offset);
        let none = Seq::<char>::empty();
        assert(s =~= none + kind + (" "@ + t + " "@ + l + o + " — "@ + reason));
        lemma_holds(s, none, kind, " "@ + t + " "@ + l + o + " — "@ + reason);
        assert(s =~= (kind + " "@) + t + (" "@ + l + o + " — "@ + reason));
        lemma_holds(s, kind + " "@, t, " "@ + l + o + " — "@ + reason);
        assert(s =~= (kind + " "@ + t + " "@) + l + (o + " — "@ + reason));
        lemma_holds(s, kind + " "@ + t + " "@, l, o + " — "@ + reason);
        assert(s =~= (kind + " "@ + t + " "@ + l) + o + (" — "@ + reason));
        lemma_holds(s, kind + " "@ + t + " "@ + l, o, " — "@ + reason);
        assert(s =~= (kind + " "@ + t + " "@ + l + o + " — "@) + reason + none);
        lemma_holds(s, kind + " "@ + t + " "@ + l + o + " — "@, reason, none);
    }
}

/// What is said of a marking names its function, the tier that it is for and its
/// reason.
pub proof fn law_a_marking_is_told(event: EventModel)
    requires
        event is Marking,
    ensures
        holds(event_text(event), shown_name(event->Marking_name)),
        holds(event_text(event), tier_label(event->Marking_target)),
        holds(event_text(event), event->Marking_reason),
{
    if let EventModel::Marking { name, target, reason, .. } = event {
        let s = event_text(event);
        let t = shown_name(name);
        let l = tier_label(target);
        assert(s =~= "mark "@ + t + (" → "@ + l + " ("@ + reason + ")"@));
        lemma_holds(s, "mark "@, t, " → "@ + l + " ("@ + reason + ")"@);
        assert(s =~= ("mark "@ + t + " → "@) + l + (" ("@ + reason + ")"@));
        lemma_holds(s, "mark "@ + t + " → "@, l, " ("@ + reason + ")"@);
        assert(s =~= ("mark "@ + t + " → "@ + l + " ("@) + reason + ")"@);
        lemma_holds(s, "mark "@ + t + " → "@ + l + " ("@, reason, ")"@);
    }
}

/// A compilation is titled by its name, its tier and its number; a phase by those
/// and its own name.
pub proof fn law_a_title_names_what_is_shown(app: AppModel, comp: usize, phase: usize)
    ensures
        ({
            let c = app.compilations()[comp as int];
            let title = app.row_title(Some(Row::Compilation(comp)));
            let inner = app.row_title(Some(Row::Phase { comp, phase }));
            &&& holds(title, shown_name(c.name))
            &&& holds(title, tier_label(c.tier))
            &&& holds(title, " #"@ + decimal(c.ordinal as int))
            &&& holds(inner, shown_name(c.name))
            &&& holds(inner, c.phases[phase as int].name)
        }),
{
    let c = app.compilations()[comp as int];
    let title = comp_title(c);
    let name = shown_name(c.name);
    let tier = tier_label(c.tier);
    let number = " #"@ + decimal(c.ordinal as int);
    let none = Seq::<char>::empty();
    assert(title =~= none + name + (" · "@ + tier + number));
    lemma_holds(title, none, name, " · "@ + tier + number);
    assert(title =~= (name + " · "@) + tier + number);
    lemma_holds(title, name + " · "@, tier, number);
    assert(title =~= (name + " · "@ + tier) + number + none);
    lemma_holds(title, name + " · "@ + tier, number, none);
    let inner = app.row_title(Some(Row::Phase { comp, phase }));
    let last = c.phases[phase as int].name;
    assert(inner =~= none + title + (" · "@ + last));
    lemma_keeps(inner, none, title, " · "@ + last, name);
    assert(inner =~= (title + " · "@) + last + none);
    lemma_holds(inner, title + " · "@, last, none);
}

/// A fold says how many lines it hides, and a decision names its callee and its
/// reason.
pub proof fn law_folds_and_decisions_are_told(buffer: LogModel, row: ViewRow, d: DecisionModel)
    ensures
        row.kind matches RowKind::BlockFold { block, hidden } ==> holds(
            row_text(buffer, row),
            decimal(hidden as int),
        ) && holds(row_text(buffer, row), "b"@ + decimal(block as int)),
        row.kind matches RowKind::AnnotationFold { count } ==> holds(
            row_text(buffer, row),
            decimal(count as int),
        ),
        row.kind is Text ==> row_text(buffer, row) == buffer.line_chars(row.line as int),
        holds(decision_text(d), d.callee),
        holds(decision_text(d), d.reason),
{
    reveal_strlit("[+] b");
    reveal_strlit("[+] ");
    reveal_strlit("b");
    let s = row_text(buffer, row);
    match row.kind {
        RowKind::BlockFold { block, hidden } => {
            let a = decimal(block as int);
            let b = decimal(hidden as int);
            assert(s =~= ("[+] b"@ + a + " — "@) + b + " lines hidden"@);
            lemma_holds(s, "[+] b"@ + a + " — "@, b, " lines hidden"@);
            assert("[+] b"@ =~= "[+] "@ + "b"@);
            assert(s =~= "[+] "@ + ("b"@ + a) + (" — "@ + b + " lines hidden"@));
            lemma_holds(s, "[+] "@, "b"@ + a, " — "@ + b + " lines hidden"@);
        },
        RowKind::AnnotationFold { count } => {
            lemma_holds(s, "[+] "@, decimal(count as int), " trace lines"@);
        },
        RowKind::Text => {},
    }
    let t = decision_text(d);
    let verdict = if d.inlined {
        "INLINE"@
    } else {
        "SKIP"@
    };
    assert(t =~= (verdict + " "@) + d.callee + (" — "@ + d.reason));
    lemma_holds(t, verdict + " "@, d.callee, " — "@ + d.reason);
    let none = Seq::<char>::empty();
    assert(t =~= (verdict + " "@ + d.callee + " — "@) + d.reason + none);
    lemma_holds(t, verdict + " "@ + d.callee + " — "@, d.reason, none);
}

/// What is said of the cursor node names its id, its opcode and how many inputs it
/// has, and how often it is used where that is printed.
pub proof fn law_the_cursor_node_is_told(node: NodeModel, parsed: ParsedModel)
    requires
        node.opcode < parsed.opcodes.len(),
    ensures
        holds(node_text(node, parsed), "n"@ + decimal(node.id as int)),
        holds(node_text(node, parsed), parsed.opcodes[node.opcode as int]),
        holds(node_text(node, parsed), decimal(node.inputs.len() as int) + " in"@),
        node.uses matches Some(uses) ==> holds(
            node_text(node, parsed),
            decimal(uses as int) + " uses"@,
        ),
{
    let s = node_text(node, parsed);
    let id = "n"@ + decimal(node.id as int);
    let opcode = parsed.opcodes[node.opcode as int];
    let inputs = decimal(node.inputs.len() as int) + " in"@;
    let none = Seq::<char>::empty();
    let tail = match node.uses {
        Some(uses) => " · "@ + (decimal(uses as int) + " uses"@) + "   "@,
        None => "   "@,
    };
    assert(s =~= none + id + (" "@ + opcode + " · "@ + inputs + tail));
    lemma_holds(s, none, id, " "@ + opcode + " · "@ + inputs + tail);
    assert(s =~= (id + " "@) + opcode + (" · "@ + inputs + tail));
    lemma_holds(s, id + " "@, opcode, " · "@ + inputs + tail);
    assert(s =~= (id + " "@ + opcode + " · "@) + inputs + tail);
    lemma_holds(s, id + " "@ + opcode + " · "@, inputs, tail);
    if let Some(uses) = node.uses {
        let u = decimal(uses as int) + " uses"@;
        let head = id + " "@ + opcode + " · "@ + inputs + " · "@;
        assert(s =~= head + u + "   "@);
        lemma_holds(s, head, u, "   "@);
    }
}

// ---------------------------------------------------------------------------
// Summaries
// ---------------------------------------------------------------------------

proof fn lemma_count(out: Seq<char>, mark: char, n: int, part: Seq<char>)
    ensures
        n != 0 ==> holds(with_count(out, mark, n), seq![mark] + decimal(n)),
        holds(out, part) ==> holds(with_count(out, mark, n), part),
        n != 0 ==> with_count(out, mark, n).len() > 0,
        n == 0 ==> with_count(out, mark, n) == out,
        out.len() > 0 ==> with_count(out, mark, n).len() > 0,
{
    let s = with_count(out, mark, n);
    let none = Seq::<char>::empty();
    let counted = seq![mark] + decimal(n);
    if n != 0 {
        if out.len() == 0 {
            assert(s =~= none + counted + none);
            lemma_holds(s, none, counted, none);
            if holds(out, part) {
                let i = choose|i: int| #[trigger] stands_at(out, i, part);
                assert(part.len() == 0);
                assert(s.subrange(0, 0) =~= part);
                assert(stands_at(s, 0, part));
            }
        } else {
            assert(s =~= (out + seq![' ']) + counted + none);
            lemma_holds(s, out + seq![' '], counted, none);
            assert(s =~= none + out + (seq![' ', mark] + decimal(n)));
            if holds(out, part) {
                lemma_keeps(s, none, out, seq![' ', mark] + decimal(n), part);
            }
        }
    }
}

/// The summary in words shows every number that is not zero, behind its mark.
pub proof fn law_every_number_is_shown(s: Summary)
    ensures
        s.nodes_added != 0 ==> holds(node_counts(s), seq!['+'] + decimal(s.nodes_added as int)),
        s.nodes_deleted != 0 ==> holds(node_counts(s), seq!['−'] + decimal(s.nodes_deleted as int)),
        s.nodes_changed != 0 ==> holds(node_counts(s), seq!['~'] + decimal(s.nodes_changed as int)),
        s.nodes_replaced != 0 ==> holds(
            node_counts(s),
            seq!['→'] + decimal(s.nodes_replaced as int),
        ),
        s.nodes_moved != 0 ==> holds(node_counts(s), seq!['≈'] + decimal(s.nodes_moved as int)),
        s.lines_added != 0 ==> holds(line_counts(s), seq!['+'] + decimal(s.lines_added as int)),
        s.lines_deleted != 0 ==> holds(line_counts(s), seq!['−'] + decimal(s.lines_deleted as int)),
        node_counts(s).len() == 0 <==> s.nodes_added == 0 && s.nodes_deleted == 0
            && s.nodes_changed == 0 && s.nodes_replaced == 0 && s.nodes_moved == 0,
        line_counts(s).len() == 0 <==> s.lines_added == 0 && s.lines_deleted == 0,
{
    let none = Seq::<char>::empty();
    let a = seq!['+'] + decimal(s.nodes_added as int);
    let b = seq!['−'] + decimal(s.nodes_deleted as int);
    let c = seq!['~'] + decimal(s.nodes_changed as int);
    let d = seq!['→'] + decimal(s.nodes_replaced as int);
    let one = with_count(none, '+', s.nodes_added as int);
    let two = with_count(one, '−', s.nodes_deleted as int);
    let three = with_count(two, '~', s.nodes_changed as int);
    let four = with_count(three, '→', s.nodes_replaced as int);
    lemma_count(none, '+', s.nodes_added as int, a);
    lemma_count(one, '−', s.nodes_deleted as int, a);
    lemma_count(two, '~', s.nodes_changed as int, a);
    lemma_count(two, '~', s.nodes_changed as int, b);
    lemma_count(three, '→', s.nodes_replaced as int, a);
    lemma_count(three, '→', s.nodes_replaced as int, b);
    lemma_count(three, '→', s.nodes_replaced as int, c);
    lemma_count(four, '≈', s.nodes_moved as int, a);
    lemma_count(four, '≈', s.nodes_moved as int, b);
    lemma_count(four, '≈', s.nodes_moved as int, c);
    lemma_count(four, '≈', s.nodes_moved as int, d);
    let x = seq!['+'] + decimal(s.lines_added as int);
    let first = with_count(none, '+', s.lines_added as int);
    lemma_count(none, '+', s.lines_added as int, x);
    lemma_count(first, '−', s.lines_deleted as int, x);
}

/// The summary in words holds what was counted of the nodes and of the lines, and
/// says so where nothing changed.
pub proof fn law_the_summary_is_told(s: Summary)
    ensures
        node_counts(s).len() > 0 ==> holds(summary_text(s), node_counts(s) + " nodes"@),
        line_counts(s).len() > 0 ==> holds(summary_text(s), line_counts(s) + " lines"@),
        node_counts(s).len() == 0 && line_counts(s).len() == 0 ==> summary_text(s)
            == "no changes"@,
{
    let none = Seq::<char>::empty();
    let nodes = node_counts(s) + " nodes"@;
    let lines = line_counts(s) + " lines"@;
    let t = summary_text(s);
    if node_counts(s).len() > 0 && line_counts(s).len() > 0 {
        assert(t =~= none + nodes + (" · "@ + lines));
        lemma_holds(t, none, nodes, " · "@ + lines);
        assert(t =~= (nodes + " · "@) + lines + none);
        lemma_holds(t, nodes + " · "@, lines, none);
    } else if node_counts(s).len() > 0 {
        assert(t =~= none + nodes + none);
        lemma_holds(t, none, nodes, none);
    } else if line_counts(s).len() > 0 {
        assert(t =~= none + lines + none);
        lemma_holds(t, none, lines, none);
    }
}

} // verus!
