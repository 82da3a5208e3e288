//! What the sidebar lists.

use vstd::prelude::*;

#[allow(unused_imports)]
use crate::app::rows::{group_of, SidebarModel};
#[allow(unused_imports)]
use crate::app::compare::row_place;
#[allow(unused_imports)]
use crate::app::{AppModel, Row};
#[allow(unused_imports)]
use crate::model::{shown_name, Addr};
#[allow(unused_imports)]
use crate::pattern::regex_found;

verus! {

/// The filter, if there is one, is found in the name.
pub open spec fn passes(bar: SidebarModel, name: Seq<char>) -> bool {
    bar.filter is None || regex_found(bar.filter->0, name)
}

/// Compilation `c` is to be listed: no name filter left it out when it was met,
/// and the sidebar's filter is found in its name.
pub open spec fn listed(bar: SidebarModel, c: int) -> bool {
    &&& 0 <= c < bar.source.index.compilations.len()
    &&& !bar.source.index.compilations[c].filtered_out
    &&& passes(bar, shown_name(bar.source.index.compilations[c].name))
}

/// Phase `p` of compilation `c` is to be listed where `c` is: `c` is expanded.
pub open spec fn unfolded(bar: SidebarModel, c: int, p: int) -> bool {
    &&& bar.expanded.contains((bar.active, c as u64))
    &&& 0 <= p < bar.source.index.compilations[c].phases.len()
}

/// Raw section `j` is to be listed.
pub open spec fn raw_listed(bar: SidebarModel, j: int) -> bool {
    &&& 0 <= j < bar.source.index.raw.len()
    &&& passes(bar, bar.source.index.raw[j].label)
}

proof fn lemma_both(a: Seq<Row>, b: Seq<Row>, row: Row)
    ensures
        (a + b).contains(row) <==> a.contains(row) || b.contains(row),
{
    if a.contains(row) {
        let k = choose|k: int| 0 <= k < a.len() && a[k] == row;
        assert((a + b)[k] == row);
    }
    if b.contains(row) {
        let k = choose|k: int| 0 <= k < b.len() && b[k] == row;
        assert((a + b)[a.len() + k] == row);
    }
    if (a + b).contains(row) {
        let k = choose|k: int| 0 <= k < (a + b).len() && (a + b)[k] == row;
        if k >= a.len() {
            assert(b[k - a.len()] == row);
        } else {
            assert(a[k] == row);
        }
    }
}

proof fn lemma_comp_rows(bar: SidebarModel, c: int, row: Row)
    requires
        0 <= c < bar.source.index.compilations.len() <= usize::MAX,
        bar.source.index.compilations[c].phases.len() <= usize::MAX,
    ensures
        bar.comp_rows(c).contains(row) <==> (row == Row::Compilation(c as usize) || (
        row matches Row::Phase { comp, phase } && comp == c && unfolded(bar, c, phase as int))),
{
    let n = bar.source.index.compilations[c].phases.len();
    let phases = Seq::new(n, |p: int| Row::Phase { comp: c as usize, phase: p as usize });
    let tail = if bar.expanded.contains((bar.active, c as u64)) {
        phases
    } else {
        Seq::empty()
    };
    let head = seq![Row::Compilation(c as usize)];
    lemma_both(head, tail, row);
    assert(head[0] == Row::Compilation(c as usize));
    if let Row::Phase { comp, phase } = row {
        if comp == c && unfolded(bar, c, phase as int) {
            assert(tail[phase as int] == row);
        }
    }
    if tail.contains(row) {
        let k = choose|k: int| 0 <= k < tail.len() && tail[k] == row;
        assert(phases[k] == row);
    }
}

/// Every number of sections can be counted.
pub open spec fn countable(bar: SidebarModel) -> bool {
    &&& bar.source.index.compilations.len() <= usize::MAX
    &&& bar.source.index.raw.len() <= usize::MAX
    &&& bar.source.index.events.len() <= usize::MAX
    &&& forall|c: int|
        0 <= c < bar.source.index.compilations.len() ==> (
        #[trigger] bar.source.index.compilations[c]).phases.len() <= usize::MAX
}

/// The row is of a section from compilation `i` and raw section `j` on that is to
/// be listed.
spec fn belongs(bar: SidebarModel, row: Row, i: int, j: int) -> bool {
    match row {
        Row::Compilation(c) => i <= c && listed(bar, c as int),
        Row::Phase { comp, phase } => i <= comp && listed(bar, comp as int) && unfolded(
            bar,
            comp as int,
            phase as int,
        ),
        Row::Raw(k) => j <= k && raw_listed(bar, k as int),
        _ => false,
    }
}

proof fn lemma_merged(bar: SidebarModel, i: int, j: int, row: Row)
    requires
        countable(bar),
        0 <= i <= bar.source.index.compilations.len(),
        0 <= j <= bar.source.index.raw.len(),
    ensures
        bar.merged_rows(i, j).contains(row) <==> belongs(bar, row, i, j),
    decreases bar.source.index.compilations.len() - i, bar.source.index.raw.len() - j,
{
    let comps = bar.source.index.compilations;
    let raw = bar.source.index.raw;
    if i >= comps.len() && j >= raw.len() {
        assert(bar.merged_rows(i, j) =~= Seq::empty());
    } else if i < comps.len() && (j >= raw.len() || comps[i].start <= raw[j].start) {
        let head = if bar.comp_visible(i) {
            bar.comp_rows(i)
        } else {
            Seq::empty()
        };
        assert(comps[i].phases.len() <= usize::MAX);
        lemma_comp_rows(bar, i, row);
        lemma_merged(bar, i + 1, j, row);
        lemma_both(head, bar.merged_rows(i + 1, j), row);
        assert(bar.comp_visible(i) == listed(bar, i));
    } else {
        lemma_merged(bar, i, j + 1, row);
        lemma_both(bar.raw_rows(j), bar.merged_rows(i, j + 1), row);
        if raw_listed(bar, j) {
            assert(bar.raw_rows(j)[0] == Row::Raw(j as usize));
        }
    }
}

/// The plain list holds every compilation that passes the filters, its phases
/// where it is expanded, and every raw section that passes, and nothing else.
pub proof fn law_the_list_holds_what_passes(bar: SidebarModel, row: Row)
    requires
        countable(bar),
        !bar.grouped,
    ensures
        bar.rows_in(false).contains(row) <==> match row {
            Row::Compilation(c) => listed(bar, c as int),
            Row::Phase { comp, phase } => listed(bar, comp as int) && unfolded(
                bar,
                comp as int,
                phase as int,
            ),
            Row::Raw(k) => raw_listed(bar, k as int),
            _ => false,
        },
{
    lemma_merged(bar, 0, 0, row);
}

/// Where the section of a row starts.
pub open spec fn starts_at(bar: SidebarModel, row: Row) -> int {
    match row {
        Row::Compilation(c) => bar.source.index.compilations[c as int].start,
        Row::Phase { comp, .. } => bar.source.index.compilations[comp as int].start,
        Row::Raw(k) => bar.source.index.raw[k as int].start,
        _ => 0,
    }
}

/// The sections are in the order in which they start.
pub open spec fn in_order(bar: SidebarModel) -> bool {
    let comps = bar.source.index.compilations;
    let raw = bar.source.index.raw;
    &&& forall|a: int, b: int|
        0 <= a <= b < comps.len() ==> (#[trigger] comps[a]).start <= (#[trigger] comps[b]).start
    &&& forall|a: int, b: int|
        0 <= a <= b < raw.len() ==> (#[trigger] raw[a]).start <= (#[trigger] raw[b]).start
}

spec fn sorted(bar: SidebarModel, rows: Seq<Row>) -> bool {
    forall|a: int, b: int|
        0 <= a <= b < rows.len() ==> starts_at(bar, #[trigger] rows[a]) <= starts_at(
            bar,
            #[trigger] rows[b],
        )
}

proof fn lemma_sorted(bar: SidebarModel, i: int, j: int)
    requires
        countable(bar),
        in_order(bar),
        0 <= i <= bar.source.index.compilations.len(),
        0 <= j <= bar.source.index.raw.len(),
    ensures
        sorted(bar, bar.merged_rows(i, j)),
    decreases bar.source.index.compilations.len() - i, bar.source.index.raw.len() - j,
{
    let comps = bar.source.index.compilations;
    let raw = bar.source.index.raw;
    let rows = bar.merged_rows(i, j);
    if i >= comps.len() && j >= raw.len() {
        assert(rows =~= Seq::empty());
    } else {
        let first = i < comps.len() && (j >= raw.len() || comps[i].start <= raw[j].start);
        let at = if first {
            comps[i].start
        } else {
            raw[j].start
        };
        let head = if first {
            if bar.comp_visible(i) {
                bar.comp_rows(i)
            } else {
                Seq::empty()
            }
        } else {
            bar.raw_rows(j)
        };
        let (i2, j2) = if first {
            (i + 1, j)
        } else {
            (i, j + 1)
        };
        let tail = bar.merged_rows(i2, j2);
        lemma_sorted(bar, i2, j2);
        assert(rows == head + tail);
        assert forall|a: int| 0 <= a < head.len() implies starts_at(bar, #[trigger] head[a])
            == at by {
            if first {
                assert(comps[i].phases.len() <= usize::MAX);
                lemma_comp_rows(bar, i, head[a]);
                assert(bar.comp_rows(i).contains(head[a]));
            }
        }
        assert forall|b: int| 0 <= b < tail.len() implies at <= starts_at(
            bar,
            #[trigger] tail[b],
        ) by {
            lemma_merged(bar, i2, j2, tail[b]);
            assert(tail.contains(tail[b]));
            match tail[b] {
                Row::Compilation(c) => {
                    assert(comps[c as int].start >= at) by {
                        if first {
                            assert(comps[i].start <= comps[c as int].start);
                        } else {
                            assert(comps[i].start <= comps[c as int].start);
                        }
                    }
                },
                Row::Phase { comp, .. } => {
                    assert(comps[i].start <= comps[comp as int].start);
                },
                Row::Raw(k) => {
                    assert(raw[j].start <= raw[k as int].start);
                },
                _ => {},
            }
        }
        assert forall|a: int, b: int| 0 <= a <= b < rows.len() implies starts_at(
            bar,
            #[trigger] rows[a],
        ) <= starts_at(bar, #[trigger] rows[b]) by {
            if b < head.len() {
                assert(rows[a] == head[a] && rows[b] == head[b]);
            } else if a < head.len() {
                assert(rows[a] == head[a] && rows[b] == tail[b - head.len()]);
            } else {
                assert(rows[a] == tail[a - head.len()] && rows[b] == tail[b - head.len()]);
            }
        }
    }
}

/// The plain list is in the order of the trace.
pub proof fn law_the_list_is_in_the_order_of_the_trace(bar: SidebarModel, a: int, b: int)
    requires
        countable(bar),
        in_order(bar),
        !bar.grouped,
        0 <= a <= b < bar.rows_in(false).len(),
    ensures
        starts_at(bar, bar.rows_in(false)[a]) <= starts_at(bar, bar.rows_in(false)[b]),
{
    lemma_sorted(bar, 0, 0);
}

proof fn lemma_events(bar: SidebarModel, n: int)
    requires
        countable(bar),
        0 <= n <= bar.source.index.events.len(),
    ensures
        forall|k: int|
            0 <= k < bar.event_rows(n).len() ==> (#[trigger] bar.event_rows(n)[k] matches Row::Event(
                e,
            ) && e < n && (bar.deopts_only ==> bar.source.index.events[e as int].1 is DeoptBegin)),
        forall|e: int|
            0 <= e < n && (bar.deopts_only ==> (
            #[trigger] bar.source.index.events[e]).1 is DeoptBegin) ==> bar.event_rows(n).contains(
                Row::Event(e as usize),
            ),
        forall|a: int, b: int|
            0 <= a < b < bar.event_rows(n).len() ==> (#[trigger] bar.event_rows(n)[a])->Event_0 < (
            #[trigger] bar.event_rows(n)[b])->Event_0,
    decreases n,
{
    if n > 0 {
        lemma_events(bar, n - 1);
        let before = bar.event_rows(n - 1);
        let rows = bar.event_rows(n);
        assert forall|e: int|
            0 <= e < n && (bar.deopts_only ==> (
            #[trigger] bar.source.index.events[e]).1 is DeoptBegin) implies rows.contains(
            Row::Event(e as usize),
        ) by {
            if e < n - 1 {
                assert(before.contains(Row::Event(e as usize)));
                let k = choose|k: int|
                    0 <= k < before.len() && before[k] == Row::Event(e as usize);
                assert(rows[k] == before[k]);
            } else {
                assert(rows[before.len() as int] == Row::Event(e as usize));
            }
        }
        assert forall|k: int| 0 <= k < before.len() implies #[trigger] rows[k] == before[k] by {}
    }
}

/// The timeline holds every event, or every deoptimization where only those are
/// wanted, in the order of the trace.
pub proof fn law_the_timeline_holds_the_events(bar: SidebarModel, row: Row, a: int, b: int)
    requires
        countable(bar),
    ensures
        bar.rows_in(true).contains(row) <==> (row matches Row::Event(e) && e
            < bar.source.index.events.len() && (bar.deopts_only
            ==> bar.source.index.events[e as int].1 is DeoptBegin)),
        0 <= a < b < bar.rows_in(true).len() ==> (bar.rows_in(true)[a] matches Row::Event(x) && (
        bar.rows_in(true)[b] matches Row::Event(y) && x < y)),
{
    let n = bar.source.index.events.len() as int;
    lemma_events(bar, n);
    let rows = bar.event_rows(n);
    if rows.contains(row) {
        let k = choose|k: int| 0 <= k < rows.len() && rows[k] == row;
        assert(rows[k] == row);
    }
    if let Row::Event(e) = row {
        if e < n && (bar.deopts_only ==> bar.source.index.events[e as int].1 is DeoptBegin) {
            assert(bar.source.index.events[e as int] == bar.source.index.events[e as int]);
        }
    }
    if 0 <= a < b < rows.len() {
        assert(rows[a]->Event_0 < rows[b]->Event_0);
    }
}

// ---------------------------------------------------------------------------
// Groups
// ---------------------------------------------------------------------------

/// Compilation `c` is one of the function `sfi` and to be listed.
pub open spec fn listed_of(bar: SidebarModel, c: int, sfi: Addr) -> bool {
    listed(bar, c) && bar.source.index.compilations[c].sfi == sfi
}

/// `list` holds the compilations of `sfi` among the first `n`, in order.
pub open spec fn members(bar: SidebarModel, list: Seq<usize>, sfi: Addr, n: int) -> bool {
    &&& forall|k: int|
        0 <= k < list.len() ==> (#[trigger] list[k]) < n && listed_of(bar, list[k] as int, sfi)
    &&& forall|a: int, b: int| 0 <= a < b < list.len() ==> #[trigger] list[a] < #[trigger] list[b]
    &&& forall|c: int|
        0 <= c < n && #[trigger] listed_of(bar, c, sfi) ==> exists|k: int|
            0 <= k < list.len() && #[trigger] list[k] == c
}

/// The groups are the functions of the first `n` compilations: each once, with
/// its compilations, in the order in which they are first met.
pub open spec fn groups_ok(bar: SidebarModel, groups: Seq<(Addr, Seq<usize>)>, n: int) -> bool {
    &&& forall|g: int|
        0 <= g < groups.len() ==> (#[trigger] groups[g]).0 != Addr(0) && groups[g].1.len() > 0
            && members(bar, groups[g].1, groups[g].0, n)
    &&& forall|g: int, h: int|
        0 <= g < h < groups.len() ==> (#[trigger] groups[g]).0 != (#[trigger] groups[h]).0
            && groups[g].1[0] < groups[h].1[0]
    &&& forall|c: int|
        #![trigger listed(bar, c)]
        0 <= c < n && listed(bar, c) && bar.source.index.compilations[c].sfi != Addr(0)
            ==> exists|g: int|
            0 <= g < groups.len() && (#[trigger] groups[g]).0
                == bar.source.index.compilations[c].sfi
}

proof fn lemma_group_found(groups: Seq<(Addr, Seq<usize>)>, sfi: Addr, i: int)
    requires
        0 <= i,
    ensures
        group_of(groups, sfi, i) matches Some(g) ==> i <= g < groups.len() && groups[g].0 == sfi,
        group_of(groups, sfi, i) is None ==> forall|g: int|
            i <= g < groups.len() ==> (#[trigger] groups[g]).0 != sfi,
    decreases groups.len() - i,
{
    if i < groups.len() && groups[i].0 != sfi {
        lemma_group_found(groups, sfi, i + 1);
    }
}

proof fn lemma_members_skip(bar: SidebarModel, list: Seq<usize>, sfi: Addr, n: int)
    requires
        members(bar, list, sfi, n),
        !listed_of(bar, n, sfi),
    ensures
        members(bar, list, sfi, n + 1),
{
}

proof fn lemma_members_push(bar: SidebarModel, list: Seq<usize>, sfi: Addr, n: int)
    requires
        members(bar, list, sfi, n),
        listed_of(bar, n, sfi),
        0 <= n <= usize::MAX,
    ensures
        members(bar, list.push(n as usize), sfi, n + 1),
{
    let out = list.push(n as usize);
    assert(out[list.len() as int] == n);
    assert forall|c: int| 0 <= c < n + 1 && #[trigger] listed_of(bar, c, sfi) implies exists|k: int|
        0 <= k < out.len() && #[trigger] out[k] == c by {
        if c < n {
            let k = choose|k: int| 0 <= k < list.len() && #[trigger] list[k] == c;
            assert(out[k] == c);
        } else {
            assert(out[list.len() as int] == c);
        }
    }
    assert forall|k: int| 0 <= k < list.len() implies #[trigger] out[k] == list[k] by {}
}

proof fn lemma_groups(bar: SidebarModel, n: int)
    requires
        countable(bar),
        0 <= n <= bar.source.index.compilations.len(),
    ensures
        groups_ok(bar, bar.groups(n), n),
    decreases n,
{
    if n > 0 {
        lemma_groups(bar, n - 1);
        let before = bar.groups(n - 1);
        let after = bar.groups(n);
        let sfi = bar.source.index.compilations[n - 1].sfi;
        let c = n - 1;
        assert(bar.comp_visible(c) == listed(bar, c));
        if !listed(bar, c) || sfi == Addr(0) {
            assert forall|g: int| 0 <= g < after.len() implies (#[trigger] after[g]).0 != Addr(0)
                && after[g].1.len() > 0 && members(bar, after[g].1, after[g].0, n) by {
                assert(before[g].0 != Addr(0));
                lemma_members_skip(bar, before[g].1, before[g].0, c);
            }
        } else {
            lemma_group_found(before, sfi, 0);
            match group_of(before, sfi, 0) {
                Some(x) => {
                    assert forall|g: int| 0 <= g < after.len() implies (#[trigger] after[g]).0
                        != Addr(0) && after[g].1.len() > 0 && members(
                        bar,
                        after[g].1,
                        after[g].0,
                        n,
                    ) by {
                        assert(before[g].0 != Addr(0));
                        if g == x {
                            lemma_members_push(bar, before[g].1, sfi, c);
                        } else {
                            assert(before[g].0 != sfi);
                            lemma_members_skip(bar, before[g].1, before[g].0, c);
                        }
                    }
                    assert forall|g: int, h: int| 0 <= g < h < after.len() implies (
                    #[trigger] after[g]).0 != (#[trigger] after[h]).0 && after[g].1[0]
                        < after[h].1[0] by {
                        assert(before[g].0 != before[h].0 && before[g].1[0] < before[h].1[0]);
                        assert(before[g].1.len() > 0 && before[h].1.len() > 0);
                    }
                    assert forall|d: int|
                        #![trigger listed(bar, d)]
                        0 <= d < n && listed(bar, d) && bar.source.index.compilations[d].sfi
                            != Addr(0) implies exists|g: int|
                        0 <= g < after.len() && (#[trigger] after[g]).0
                            == bar.source.index.compilations[d].sfi by {
                        if d < c {
                            let g = choose|g: int|
                                0 <= g < before.len() && (#[trigger] before[g]).0
                                    == bar.source.index.compilations[d].sfi;
                            assert(after[g].0 == before[g].0);
                        } else {
                            assert(after[x].0 == sfi);
                        }
                    }
                },
                None => {
                    let k = before.len() as int;
                    assert forall|d: int| 0 <= d < c implies !#[trigger] listed_of(
                        bar,
                        d,
                        sfi,
                    ) by {
                        if listed_of(bar, d, sfi) {
                            assert(listed(bar, d));
                            let g = choose|g: int|
                                0 <= g < before.len() && (#[trigger] before[g]).0
                                    == bar.source.index.compilations[d].sfi;
                            assert(before[g].0 == sfi);
                        }
                    }
                    let none = Seq::<usize>::empty();
                    assert(members(bar, none, sfi, c));
                    lemma_members_push(bar, none, sfi, c);
                    assert(none.push(c as usize) =~= seq![c as usize]);
                    assert(after[k] == (sfi, seq![c as usize]));
                    assert forall|g: int| 0 <= g < after.len() implies (#[trigger] after[g]).0
                        != Addr(0) && after[g].1.len() > 0 && members(
                        bar,
                        after[g].1,
                        after[g].0,
                        n,
                    ) by {
                        if g < k {
                            assert(after[g] == before[g]);
                            assert(before[g].0 != sfi);
                            lemma_members_skip(bar, before[g].1, before[g].0, c);
                        }
                    }
                    assert forall|g: int, h: int| 0 <= g < h < after.len() implies (
                    #[trigger] after[g]).0 != (#[trigger] after[h]).0 && after[g].1[0]
                        < after[h].1[0] by {
                        assert(after[g] == before[g]);
                        assert(before[g].0 != sfi);
                        assert(members(bar, before[g].1, before[g].0, c));
                        assert(before[g].1[0] < c);
                        if h < k {
                            assert(after[h] == before[h]);
                        }
                    }
                    assert forall|d: int|
                        #![trigger listed(bar, d)]
                        0 <= d < n && listed(bar, d) && bar.source.index.compilations[d].sfi
                            != Addr(0) implies exists|g: int|
                        0 <= g < after.len() && (#[trigger] after[g]).0
                            == bar.source.index.compilations[d].sfi by {
                        if d < c {
                            let g = choose|g: int|
                                0 <= g < before.len() && (#[trigger] before[g]).0
                                    == bar.source.index.compilations[d].sfi;
                            assert(after[g].0 == before[g].0);
                        } else {
                            assert(after[k].0 == sfi);
                        }
                    }
                },
            }
        }
    }
}

/// Grouped by function, every function with a compilation that is to be listed
/// is a group, once, in the order in which the functions are first met; it holds
/// all those compilations in order, and no others.
pub proof fn law_a_group_holds_the_compilations_of_its_function(bar: SidebarModel)
    requires
        countable(bar),
    ensures
        groups_ok(
            bar,
            bar.groups(bar.source.index.compilations.len() as int),
            bar.source.index.compilations.len() as int,
        ),
{
    lemma_groups(bar, bar.source.index.compilations.len() as int);
}

/// The row of a group names its first compilation and counts all of them; its
/// compilations follow where the group is expanded.
pub proof fn law_a_group_is_headed_by_its_first_compilation(
    bar: SidebarModel,
    group: (Addr, Seq<usize>),
)
    requires
        0 < group.1.len() <= usize::MAX,
    ensures
        bar.group_rows(group).len() > 0,
        bar.group_rows(group)[0] matches Row::Function { sfi, name_comp, count } && sfi == group.0
            && name_comp == group.1[0] && count == group.1.len(),
        !bar.expanded_groups.contains((bar.active, group.0.0)) ==> bar.group_rows(group).len() == 1,
        bar.expanded_groups.contains((bar.active, group.0.0)) ==> forall|k: int|
            0 <= k < group.1.len() ==> bar.group_rows(group).contains(
                Row::Compilation(#[trigger] group.1[k]),
            ),
{
    let rows = bar.group_rows(group);
    if bar.expanded_groups.contains((bar.active, group.0.0)) {
        assert forall|k: int| 0 <= k < group.1.len() implies rows.contains(
            Row::Compilation(#[trigger] group.1[k]),
        ) by {
            lemma_list_rows(bar, group.1, group.1.len() as int, k);
            let tail = bar.list_rows(group.1, group.1.len() as int);
            let j = choose|j: int|
                0 <= j < tail.len() && tail[j] == Row::Compilation(group.1[k]);
            assert(rows[j + 1] == tail[j]);
        }
    }
}

proof fn lemma_list_rows(bar: SidebarModel, list: Seq<usize>, n: int, k: int)
    requires
        0 <= k < n <= list.len(),
    ensures
        bar.list_rows(list, n).contains(Row::Compilation(list[k])),
    decreases n,
{
    let head = bar.list_rows(list, n - 1);
    let tail = bar.comp_rows(list[n - 1] as int);
    lemma_both(head, tail, Row::Compilation(list[k]));
    if k < n - 1 {
        lemma_list_rows(bar, list, n - 1, k);
    } else {
        assert(tail[0] == Row::Compilation(list[k]));
    }
}

proof fn lemma_groups_rows(bar: SidebarModel, groups: Seq<(Addr, Seq<usize>)>, n: int, g: int, row: Row)
    requires
        0 <= g < n <= groups.len(),
        bar.group_rows(groups[g]).contains(row),
    ensures
        bar.groups_rows(groups, n).contains(row),
    decreases n,
{
    let head = bar.groups_rows(groups, n - 1);
    let tail = bar.group_rows(groups[n - 1]);
    lemma_both(head, tail, row);
    if g < n - 1 {
        lemma_groups_rows(bar, groups, n - 1, g, row);
    }
}

proof fn lemma_ungrouped(bar: SidebarModel, n: int, c: int)
    requires
        countable(bar),
        0 <= c < n <= bar.source.index.compilations.len(),
        listed(bar, c),
        bar.source.index.compilations[c].sfi == Addr(0),
    ensures
        exists|k: int| 0 <= k < bar.ungrouped(n).len() && #[trigger] bar.ungrouped(n)[k] == c,
    decreases n,
{
    let now = bar.ungrouped(n);
    let before = bar.ungrouped(n - 1);
    assert(bar.comp_visible(c) == listed(bar, c));
    if c < n - 1 {
        lemma_ungrouped(bar, n - 1, c);
        let k = choose|k: int| 0 <= k < before.len() && #[trigger] before[k] == c;
        assert(now[k] == c);
    } else {
        assert(now[before.len() as int] == c);
    }
}

/// Grouped by function, a compilation that is to be listed has a row where its
/// group is expanded, and where its function is unknown in any case.
pub proof fn law_an_open_group_shows_its_compilations(bar: SidebarModel, c: int)
    requires
        countable(bar),
        bar.grouped,
        listed(bar, c),
        bar.source.index.compilations[c].sfi == Addr(0) || bar.expanded_groups.contains(
            (bar.active, bar.source.index.compilations[c].sfi.0),
        ),
    ensures
        bar.rows_in(false).contains(Row::Compilation(c as usize)),
{
    let n = bar.source.index.compilations.len() as int;
    let groups = bar.groups(n);
    let rest = bar.ungrouped(n);
    let row = Row::Compilation(c as usize);
    let first = bar.groups_rows(groups, groups.len() as int);
    let second = bar.list_rows(rest, rest.len() as int);
    lemma_both(first, second, row);
    lemma_both(first + second, bar.raws_rows(bar.source.index.raw.len() as int), row);
    let sfi = bar.source.index.compilations[c].sfi;
    if sfi == Addr(0) {
        lemma_ungrouped(bar, n, c);
        let k = choose|k: int| 0 <= k < rest.len() && #[trigger] rest[k] == c;
        lemma_list_rows(bar, rest, rest.len() as int, k);
    } else {
        lemma_groups(bar, n);
        let g = choose|g: int| 0 <= g < groups.len() && (#[trigger] groups[g]).0 == sfi;
        let list = groups[g].1;
        assert(members(bar, list, sfi, n));
        assert(listed_of(bar, c, sfi));
        let k = choose|k: int| 0 <= k < list.len() && #[trigger] list[k] == c;
        lemma_list_rows(bar, list, list.len() as int, k);
        let tail = bar.list_rows(list, list.len() as int);
        let head = seq![
            Row::Function { sfi: groups[g].0, name_comp: list[0], count: list.len() as usize },
        ];
        lemma_both(head, tail, row);
        assert(bar.group_rows(groups[g]) == head + tail);
        lemma_groups_rows(bar, groups, groups.len() as int, g, row);
    }
}

proof fn lemma_row_place(rows: Seq<Row>, row: Row, i: int)
    requires
        0 <= i,
    ensures
        row_place(rows, row, i) matches Some(at) ==> i <= at < rows.len() && rows[at] == row,
        row_place(rows, row, i) is None ==> forall|k: int|
            i <= k < rows.len() ==> #[trigger] rows[k] != row,
    decreases rows.len() - i,
{
    if i < rows.len() && rows[i] != row {
        lemma_row_place(rows, row, i + 1);
    }
}

/// A compilation that an event leads to is selected in the list: its group is
/// opened, and a filter that hides it is cleared.
pub proof fn law_the_compilation_that_is_followed_is_selected(app: AppModel, comp: int)
    requires
        countable(app.sidebar()),
        !app.timeline,
        0 <= comp < app.compilations().len(),
        !app.compilations()[comp].filtered_out,
    ensures
        ({
            let after = app.group_opened(app.compilations()[comp].sfi).comp_selected(comp);
            (after.rows().len() <= usize::MAX) ==> after.selected < after.rows().len() && after.rows()[
            after.selected as int] == Row::Compilation(comp as usize)
        }),
{
    reveal(AppModel::with_expanded_groups);
    reveal(AppModel::with_selected);
    reveal(AppModel::with_sidebar_filter);
    reveal(AppModel::say);
    let open = app.group_opened(app.compilations()[comp].sfi);
    let row = Row::Compilation(comp as usize);
    lemma_row_place(open.rows(), row, 0);
    assert(countable(open.sidebar()));
    match row_place(open.rows(), row, 0) {
        Some(at) => {
            assert(open.with_selected(at as usize).sidebar() == open.sidebar());
        },
        None => {
            if open.sidebar_filter is Some {
                let cleared = open.with_sidebar_filter(None).say(
                    "sidebar filter cleared to show the jump target"@,
                );
                let bar = cleared.sidebar();
                assert(countable(bar));
                assert(listed(bar, comp));
                lemma_has_row(bar, comp);
                lemma_row_place(cleared.rows(), row, 0);
                let k = choose|k: int| 0 <= k < cleared.rows().len() && cleared.rows()[k] == row;
                assert(cleared.rows()[k] == row);
                let at = row_place(cleared.rows(), row, 0)->0;
                assert(cleared.with_selected(at as usize).sidebar() == bar);
            } else {
                let bar = open.sidebar();
                assert(listed(bar, comp));
                lemma_has_row(bar, comp);
                let k = choose|k: int| 0 <= k < open.rows().len() && open.rows()[k] == row;
                assert(open.rows()[k] == row);
            }
        },
    }
}

proof fn lemma_has_row(bar: SidebarModel, c: int)
    requires
        countable(bar),
        listed(bar, c),
        bar.grouped ==> bar.expanded_groups.contains(
            (bar.active, bar.source.index.compilations[c].sfi.0),
        ),
    ensures
        bar.rows_in(false).contains(Row::Compilation(c as usize)),
{
    if bar.grouped {
        law_an_open_group_shows_its_compilations(bar, c);
    } else {
        law_the_list_holds_what_passes(bar, Row::Compilation(c as usize));
    }
}

} // verus!
