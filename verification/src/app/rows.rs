//! The rows of the sidebar.

use std::collections::HashMap;
use vstd::prelude::*;

use super::{App, Row};
#[allow(unused_imports)]
use super::{AppModel, SourceModel};
#[allow(unused_imports)]
use crate::model::shown_name;
use crate::model::{Addr, EventKind};
#[allow(unused_imports)]
use crate::pattern::regex_found;

verus! {

/// A row names something that exists.
pub open spec fn row_exists(source: SourceModel, row: Row) -> bool {
    match row {
        Row::Function { name_comp, .. } => name_comp < source.index.compilations.len(),
        Row::Compilation(i) => i < source.index.compilations.len(),
        Row::Phase { comp, phase } => comp < source.index.compilations.len() && phase
            < source.index.compilations[comp as int].phases.len(),
        Row::Raw(i) => i < source.index.raw.len(),
        Row::Event(i) => i < source.index.events.len(),
    }
}

/// Every row names something that exists.
pub open spec fn rows_exist(source: SourceModel, rows: Seq<Row>) -> bool {
    forall|k: int| 0 <= k < rows.len() ==> row_exists(source, #[trigger] rows[k])
}

/// The place of a function among the groups.
pub open spec fn group_of(groups: Seq<(Addr, Seq<usize>)>, sfi: Addr, i: int) -> Option<int>
    decreases groups.len() - i,
{
    if i < 0 || i >= groups.len() {
        None
    } else if groups[i].0 == sfi {
        Some(i)
    } else {
        group_of(groups, sfi, i + 1)
    }
}

/// What decides the rows of the sidebar.
#[verifier::ext_equal]
pub struct SidebarModel {
    pub source: SourceModel,
    pub active: usize,
    pub grouped: bool,
    pub expanded: Set<(usize, u64)>,
    pub expanded_groups: Set<(usize, u64)>,
    pub filter: Option<Seq<char>>,
    pub deopts_only: bool,
}

impl SidebarModel {
    /// The filter of the sidebar keeps a name.
    pub open spec fn filter_keeps(self, name: Seq<char>) -> bool {
        match self.filter {
            Some(pattern) => regex_found(pattern, name),
            None => true,
        }
    }

    /// A compilation is listed.
    pub open spec fn comp_visible(self, i: int) -> bool {
        let c = self.source.index.compilations[i];
        !c.filtered_out && self.filter_keeps(shown_name(c.name))
    }

    /// The rows of one compilation: itself and, where it is expanded, its
    /// phases.
    pub open spec fn comp_rows(self, comp: int) -> Seq<Row> {
        seq![Row::Compilation(comp as usize)] + (if self.expanded.contains(
            (self.active, comp as u64),
        ) {
            Seq::new(
                self.source.index.compilations[comp].phases.len(),
                |p: int| Row::Phase { comp: comp as usize, phase: p as usize },
            )
        } else {
            Seq::empty()
        })
    }

    /// The rows of one raw section, where it is listed.
    pub open spec fn raw_rows(self, i: int) -> Seq<Row> {
        if self.filter_keeps(self.source.index.raw[i].label) {
            seq![Row::Raw(i as usize)]
        } else {
            Seq::empty()
        }
    }

    /// The rows of the first `n` events.
    pub open spec fn event_rows(self, n: int) -> Seq<Row>
        decreases n,
    {
        if n <= 0 {
            Seq::empty()
        } else if self.deopts_only && !(self.source.index.events[n
            - 1].1 is DeoptBegin) {
            self.event_rows(n - 1)
        } else {
            self.event_rows(n - 1).push(Row::Event((n - 1) as usize))
        }
    }

    /// The rows from compilation `i` and raw section `j` on, in the order in
    /// which they start.
    pub open spec fn merged_rows(self, i: int, j: int) -> Seq<Row>
        decreases self.source.index.compilations.len() - i, self.source.index.raw.len() - j,
    {
        let comps = self.source.index.compilations;
        let raw = self.source.index.raw;
        if i < 0 || j < 0 || (i >= comps.len() && j >= raw.len()) {
            Seq::empty()
        } else if i < comps.len() && (j >= raw.len() || comps[i].start <= raw[j].start) {
            (if self.comp_visible(i) {
                self.comp_rows(i)
            } else {
                Seq::empty()
            }) + self.merged_rows(i + 1, j)
        } else if j < raw.len() {
            self.raw_rows(j) + self.merged_rows(i, j + 1)
        } else {
            Seq::empty()
        }
    }

    /// The functions among the first `n` compilations, in the order in which
    /// they first occur, each with its compilations. Where the function is
    /// unknown there is nothing to group by.
    pub open spec fn groups(self, n: int) -> Seq<(Addr, Seq<usize>)>
        decreases n,
    {
        if n <= 0 {
            Seq::empty()
        } else {
            let before = self.groups(n - 1);
            let sfi = self.source.index.compilations[n - 1].sfi;
            if !self.comp_visible(n - 1) || sfi == Addr(0) {
                before
            } else {
                match group_of(before, sfi, 0) {
                    Some(g) => before.update(g, (sfi, before[g].1.push((n - 1) as usize))),
                    None => before.push((sfi, seq![(n - 1) as usize])),
                }
            }
        }
    }

    /// The compilations among the first `n` whose function is unknown.
    pub open spec fn ungrouped(self, n: int) -> Seq<usize>
        decreases n,
    {
        if n <= 0 {
            Seq::empty()
        } else if self.comp_visible(n - 1) && self.source.index.compilations[n - 1].sfi == Addr(0) {
            self.ungrouped(n - 1).push((n - 1) as usize)
        } else {
            self.ungrouped(n - 1)
        }
    }

    /// The rows of the first `k` compilations of a list.
    pub open spec fn list_rows(self, list: Seq<usize>, k: int) -> Seq<Row>
        decreases k,
    {
        if k <= 0 {
            Seq::empty()
        } else {
            self.list_rows(list, k - 1) + self.comp_rows(list[k - 1] as int)
        }
    }

    /// The rows of one function.
    pub open spec fn group_rows(self, group: (Addr, Seq<usize>)) -> Seq<Row> {
        seq![
            Row::Function {
                sfi: group.0,
                name_comp: group.1[0],
                count: group.1.len() as usize,
            },
        ] + (if self.expanded_groups.contains((self.active, group.0.0)) {
            self.list_rows(group.1, group.1.len() as int)
        } else {
            Seq::empty()
        })
    }

    /// The rows of the first `k` functions.
    pub open spec fn groups_rows(self, groups: Seq<(Addr, Seq<usize>)>, k: int) -> Seq<Row>
        decreases k,
    {
        if k <= 0 {
            Seq::empty()
        } else {
            self.groups_rows(groups, k - 1) + self.group_rows(groups[k - 1])
        }
    }

    /// The rows of the first `k` raw sections.
    pub open spec fn raws_rows(self, k: int) -> Seq<Row>
        decreases k,
    {
        if k <= 0 {
            Seq::empty()
        } else {
            self.raws_rows(k - 1) + self.raw_rows(k - 1)
        }
    }

    /// The rows where compilations are grouped by function.
    pub open spec fn grouped_rows(self) -> Seq<Row> {
        let n = self.source.index.compilations.len() as int;
        let groups = self.groups(n);
        let rest = self.ungrouped(n);
        self.groups_rows(groups, groups.len() as int) + self.list_rows(rest, rest.len() as int)
            + self.raws_rows(self.source.index.raw.len() as int)
    }

    /// The rows of one of the two lists that the sidebar can show.
    pub open spec fn rows_in(self, timeline: bool) -> Seq<Row> {
        if timeline {
            self.event_rows(self.source.index.events.len() as int)
        } else if self.grouped {
            self.grouped_rows()
        } else {
            self.merged_rows(0, 0)
        }
    }
}

impl AppModel {
    /// What decides the rows of the sidebar.
    pub open spec fn sidebar(self) -> SidebarModel {
        SidebarModel {
            source: self.source(),
            active: self.active,
            grouped: self.grouped,
            expanded: self.expanded,
            expanded_groups: self.expanded_groups,
            filter: self.sidebar_filter,
            deopts_only: self.timeline_deopts_only,
        }
    }

    /// The rows of one of the two lists that the sidebar can show.
    pub open spec fn rows_in(self, timeline: bool) -> Seq<Row> {
        self.sidebar().rows_in(timeline)
    }

    /// The rows of the sidebar.
    pub open spec fn rows(self) -> Seq<Row> {
        self.rows_in(self.timeline)
    }

    /// A row of the sidebar, where there is one.
    pub open spec fn row_at(self, k: int) -> Option<Row> {
        if 0 <= k < self.rows().len() {
            Some(self.rows()[k])
        } else {
            None
        }
    }
}

/// The views of groups.
pub open spec fn group_models(groups: Seq<(Addr, Vec<usize>)>) -> Seq<(Addr, Seq<usize>)> {
    groups.map_values(|g: (Addr, Vec<usize>)| (g.0, g.1@))
}

/// `places` says where each function stands among the groups.
spec fn places_of(groups: Seq<(Addr, Seq<usize>)>, places: Map<u64, usize>) -> bool {
    &&& forall|sfi: u64|
        #[trigger] places.dom().contains(sfi) ==> group_of(groups, Addr(sfi), 0) == Some(
            places[sfi] as int,
        )
    &&& forall|sfi: u64|
        !(#[trigger] places.dom().contains(sfi)) ==> group_of(groups, Addr(sfi), 0) is None
}

proof fn lemma_group_of(groups: Seq<(Addr, Seq<usize>)>, sfi: Addr, i: int)
    requires
        0 <= i,
    ensures
        group_of(groups, sfi, i) matches Some(g) ==> i <= g < groups.len() && groups[g].0 == sfi,
    decreases groups.len() - i,
{
    if i < groups.len() && groups[i].0 != sfi {
        lemma_group_of(groups, sfi, i + 1);
    }
}

proof fn lemma_group_update(
    groups: Seq<(Addr, Seq<usize>)>,
    g: int,
    list: Seq<usize>,
    sfi: Addr,
    i: int,
)
    requires
        0 <= g < groups.len(),
        0 <= i,
    ensures
        group_of(groups.update(g, (groups[g].0, list)), sfi, i) == group_of(groups, sfi, i),
    decreases groups.len() - i,
{
    if i < groups.len() {
        lemma_group_update(groups, g, list, sfi, i + 1);
    }
}

proof fn lemma_group_push(
    groups: Seq<(Addr, Seq<usize>)>,
    new: (Addr, Seq<usize>),
    sfi: Addr,
    i: int,
)
    requires
        0 <= i <= groups.len(),
    ensures
        group_of(groups.push(new), sfi, i) == match group_of(groups, sfi, i) {
            Some(g) => Some(g),
            None => if new.0 == sfi {
                Some(groups.len() as int)
            } else {
                None
            },
        },
    decreases groups.len() - i,
{
    let after = groups.push(new);
    if i < groups.len() {
        assert(after[i] == groups[i]);
        lemma_group_push(groups, new, sfi, i + 1);
    } else {
        assert(after[i] == new);
        assert(group_of(after, sfi, i + 1) is None);
    }
}

/// Every member of every group is a compilation, and no group is empty.
spec fn groups_exist(groups: Seq<(Addr, Seq<usize>)>, n: int) -> bool {
    forall|g: int|
        0 <= g < groups.len() ==> (#[trigger] groups[g]).1.len() > 0 && forall|k: int|
            0 <= k < groups[g].1.len() ==> (#[trigger] groups[g].1[k]) < n
}

impl App {
    fn filter_matches(&self, name: &str) -> (yes: bool)
        ensures
            yes == self@.sidebar().filter_keeps(name@),
    {
        proof {
            self.lemma_fields();
        }
        match &self.sidebar_filter {
            Some(pattern) => pattern.is_match(name),
            None => true,
        }
    }

    fn comp_is_visible(&self, i: usize) -> (yes: bool)
        requires
            self.wf(),
            i < self@.compilations().len(),
        ensures
            yes == self@.sidebar().comp_visible(i as int),
    {
        let c = self.active_source().index.compilation(i);
        !c.filtered_out && self.filter_matches(c.display_name())
    }

    /// Appends the rows of one compilation.
    fn push_compilation_rows(&self, rows: &mut Vec<Row>, comp: usize)
        requires
            self.wf(),
            comp < self@.compilations().len(),
            rows_exist(self@.source(), old(rows)@),
        ensures
            final(rows)@ == old(rows)@ + self@.sidebar().comp_rows(comp as int),
            rows_exist(self@.source(), final(rows)@),
    {
        let ghost before = rows@;
        rows.push(Row::Compilation(comp));
        let ghost head = rows@;
        if self.compilation_expanded(comp) {
            let phases = &self.active_source().index.compilation(comp).phases;
            let ghost all = Seq::new(
                phases@.len(),
                |p: int| Row::Phase { comp, phase: p as usize },
            );
            let mut p: usize = 0;
            assert(rows@ =~= head + all.take(0));
            while p < phases.len()
                invariant
                    p <= phases@.len(),
                    comp < self@.compilations().len(),
                    self@.compilations()[comp as int].phases.len() == phases@.len(),
                    all == Seq::new(phases@.len(), |p: int| Row::Phase { comp, phase: p as usize }),
                    rows@ == head + all.take(p as int),
                    rows_exist(self@.source(), rows@),
                decreases phases.len() - p,
            {
                rows.push(Row::Phase { comp, phase: p });
                assert(rows@ =~= head + all.take(p + 1));
                p += 1;
            }
            assert(all.take(p as int) =~= all);
        }
        assert(rows@ =~= before + self@.sidebar().comp_rows(comp as int));
    }

    fn push_raw_row(&self, rows: &mut Vec<Row>, i: usize)
        requires
            self.wf(),
            i < self@.source().index.raw.len(),
            rows_exist(self@.source(), old(rows)@),
        ensures
            final(rows)@ == old(rows)@ + self@.sidebar().raw_rows(i as int),
            rows_exist(self@.source(), final(rows)@),
    {
        let ghost before = rows@;
        let label = &self.active_source().index.raw_section(i).label;
        if self.filter_matches(label.as_str()) {
            rows.push(Row::Raw(i));
        }
        assert(rows@ =~= before + self@.sidebar().raw_rows(i as int));
    }

    fn list_events(&self) -> (rows: Vec<Row>)
        requires
            self.wf(),
        ensures
            rows@ == self@.sidebar().event_rows(self@.source().index.events.len() as int),
            rows_exist(self@.source(), rows@),
    {
        let index = &self.active_source().index;
        let n: usize = index.event_count();
        let mut rows: Vec<Row> = Vec::new();
        let mut i: usize = 0;
        while i < n
            invariant
                self.wf(),
                i <= n,
                n == self@.source().index.events.len(),
                index@ == self@.source().index,
                rows@ == self@.sidebar().event_rows(i as int),
                rows_exist(self@.source(), rows@),
            decreases n - i,
        {
            let deopt: bool = match &index.event(i).kind {
                EventKind::DeoptBegin { .. } => true,
                _ => false,
            };
            proof {
                self.lemma_fields();
            }
            if deopt || !self.timeline_deopts_only {
                rows.push(Row::Event(i));
            }
            i += 1;
        }
        rows
    }

    fn list_merged(&self) -> (rows: Vec<Row>)
        requires
            self.wf(),
        ensures
            rows@ == self@.sidebar().merged_rows(0, 0),
            rows_exist(self@.source(), rows@),
    {
        let index = &self.active_source().index;
        let n: usize = index.compilation_count();
        let m: usize = index.raw_count();
        let mut rows: Vec<Row> = Vec::new();
        let mut i: usize = 0;
        let mut j: usize = 0;
        assert(rows@ + self@.sidebar().merged_rows(0, 0) =~= self@.sidebar().merged_rows(0, 0));
        while i < n || j < m
            invariant
                self.wf(),
                i <= n,
                j <= m,
                n == self@.compilations().len(),
                m == self@.source().index.raw.len(),
                index@ == self@.source().index,
                rows@ + self@.sidebar().merged_rows(i as int, j as int) == self@.sidebar().merged_rows(0, 0),
                rows_exist(self@.source(), rows@),
            decreases n - i + m - j,
        {
            let ghost before = rows@;
            let take_comp: bool = i < n && (j >= m || index.compilation(i).lines.start
                <= index.raw_section(j).lines.start);
            if take_comp {
                if self.comp_is_visible(i) {
                    self.push_compilation_rows(&mut rows, i);
                    assert(rows@ + self@.sidebar().merged_rows(i + 1, j as int) =~= before + (
                    self@.sidebar().comp_rows(i as int) + self@.sidebar().merged_rows(i + 1, j as int)));
                } else {
                    assert(rows@ + self@.sidebar().merged_rows(i + 1, j as int) =~= before + (Seq::<
                        Row,
                    >::empty() + self@.sidebar().merged_rows(i + 1, j as int)));
                }
                i += 1;
            } else {
                self.push_raw_row(&mut rows, j);
                assert(rows@ + self@.sidebar().merged_rows(i as int, j + 1) =~= before + (self@.sidebar().raw_rows(
                    j as int,
                ) + self@.sidebar().merged_rows(i as int, j + 1)));
                j += 1;
            }
        }
        assert(rows@ + self@.sidebar().merged_rows(i as int, j as int) =~= rows@);
        rows
    }

    fn push_list(&self, rows: &mut Vec<Row>, list: &Vec<usize>)
        requires
            self.wf(),
            forall|k: int| 0 <= k < list@.len() ==> (#[trigger] list@[k])
                < self@.compilations().len(),
            rows_exist(self@.source(), old(rows)@),
        ensures
            final(rows)@ == old(rows)@ + self@.sidebar().list_rows(list@, list@.len() as int),
            rows_exist(self@.source(), final(rows)@),
    {
        let ghost before = rows@;
        let mut k: usize = 0;
        assert(rows@ =~= before + self@.sidebar().list_rows(list@, 0));
        while k < list.len()
            invariant
                self.wf(),
                k <= list@.len(),
                forall|k: int| 0 <= k < list@.len() ==> (#[trigger] list@[k])
                    < self@.compilations().len(),
                rows@ == before + self@.sidebar().list_rows(list@, k as int),
                rows_exist(self@.source(), rows@),
            decreases list.len() - k,
        {
            self.push_compilation_rows(rows, list[k]);
            assert(rows@ =~= before + self@.sidebar().list_rows(list@, k + 1));
            k += 1;
        }
    }

    /// Sorts the compilations into functions and those without one.
    fn sort_into_groups(&self) -> (out: (Vec<(Addr, Vec<usize>)>, Vec<usize>))
        requires
            self.wf(),
        ensures
            group_models(out.0@) == self@.sidebar().groups(self@.compilations().len() as int),
            groups_exist(group_models(out.0@), self@.compilations().len() as int),
            out.1@ == self@.sidebar().ungrouped(self@.compilations().len() as int),
            forall|k: int| 0 <= k < out.1@.len() ==> (#[trigger] out.1@[k])
                < self@.compilations().len(),
    {
        broadcast use vstd::std_specs::hash::group_hash_axioms;

        let index = &self.active_source().index;
        let count: usize = index.compilation_count();
        let mut groups: Vec<(Addr, Vec<usize>)> = Vec::new();
        let mut places: HashMap<u64, usize> = HashMap::new();
        let mut rest: Vec<usize> = Vec::new();
        let mut n: usize = 0;
        assert(group_models(groups@) =~= Seq::<(Addr, Seq<usize>)>::empty());
        while n < count
            invariant
                self.wf(),
                n <= count,
                count == self@.compilations().len(),
                index@ == self@.source().index,
                group_models(groups@) == self@.sidebar().groups(n as int),
                groups_exist(group_models(groups@), n as int),
                places_of(group_models(groups@), places@),
                rest@ == self@.sidebar().ungrouped(n as int),
                forall|k: int| 0 <= k < rest@.len() ==> (#[trigger] rest@[k]) < n,
            decreases count - n,
        {
            let ghost before = group_models(groups@);
            let ghost old_places = places@;
            let sfi: Addr = index.compilation(n).key.sfi;
            if self.comp_is_visible(n) {
                if sfi.0 == 0 {
                    rest.push(n);
                } else {
                    let known: Option<usize> = match places.get(&sfi.0) {
                        Some(g) => Some(*g),
                        None => None,
                    };
                    proof {
                        lemma_group_of(before, sfi, 0);
                        assert(Addr(sfi.0) == sfi);
                    }
                    match known {
                        Some(g) => {
                            assert(before[g as int] == (groups@[g as int].0, groups@[g as int].1@));
                            let mut list: Vec<usize> = Vec::new();
                            std::mem::swap(&mut groups[g].1, &mut list);
                            list.push(n);
                            groups[g].1 = list;
                            let ghost updated = before.update(
                                g as int,
                                (sfi, before[g as int].1.push(n)),
                            );
                            assert(group_models(groups@) =~= updated);
                            assert forall|s: u64| #[trigger] group_of(updated, Addr(s), 0)
                                == group_of(before, Addr(s), 0) by {
                                lemma_group_update(
                                    before,
                                    g as int,
                                    before[g as int].1.push(n),
                                    Addr(s),
                                    0,
                                );
                            }
                        },
                        None => {
                            let mut list: Vec<usize> = Vec::new();
                            list.push(n);
                            assert(list@ =~= seq![n]);
                            places.insert(sfi.0, groups.len());
                            groups.push((sfi, list));
                            let ghost new = (sfi, seq![n]);
                            assert(group_models(groups@) =~= before.push(new));
                            assert forall|s: u64| #[trigger] group_of(
                                before.push(new),
                                Addr(s),
                                0,
                            ) == match group_of(before, Addr(s), 0) {
                                Some(g) => Some(g),
                                None => if sfi == Addr(s) {
                                    Some(before.len() as int)
                                } else {
                                    None
                                },
                            } by {
                                lemma_group_push(before, new, Addr(s), 0);
                            }
                        },
                    }
                }
            }
            n += 1;
        }
        (groups, rest)
    }

    fn list_grouped(&self) -> (rows: Vec<Row>)
        requires
            self.wf(),
        ensures
            rows@ == self@.sidebar().grouped_rows(),
            rows_exist(self@.source(), rows@),
    {
        let (groups, rest) = self.sort_into_groups();
        let ghost all = group_models(groups@);
        let mut rows: Vec<Row> = Vec::new();
        let mut g: usize = 0;
        assert(rows@ =~= self@.sidebar().groups_rows(all, 0));
        while g < groups.len()
            invariant
                self.wf(),
                g <= groups@.len(),
                all == group_models(groups@),
                groups_exist(all, self@.compilations().len() as int),
                rows@ == self@.sidebar().groups_rows(all, g as int),
                rows_exist(self@.source(), rows@),
            decreases groups.len() - g,
        {
            let ghost before = rows@;
            let group = &groups[g];
            assert(all[g as int] == (group.0, group.1@));
            rows.push(
                Row::Function { sfi: group.0, name_comp: group.1[0], count: group.1.len() },
            );
            assert(rows@ =~= before + seq![rows@.last()]);
            if self.group_expanded(group.0.0) {
                self.push_list(&mut rows, &group.1);
            }
            assert(rows@ =~= before + self@.sidebar().group_rows(all[g as int]));
            g += 1;
        }
        self.push_list(&mut rows, &rest);
        let ghost front = rows@;
        let raw: usize = self.active_source().index.raw_count();
        let mut k: usize = 0;
        assert(rows@ =~= front + self@.sidebar().raws_rows(0));
        while k < raw
            invariant
                self.wf(),
                k <= raw,
                raw == self@.source().index.raw.len(),
                rows@ == front + self@.sidebar().raws_rows(k as int),
                rows_exist(self@.source(), rows@),
            decreases raw - k,
        {
            self.push_raw_row(&mut rows, k);
            assert(rows@ =~= front + self@.sidebar().raws_rows(k + 1));
            k += 1;
        }
        rows
    }

    /// The rows of one of the two lists that the sidebar can show.
    pub fn rows_in(&self, timeline: bool) -> (rows: Vec<Row>)
        requires
            self.wf(),
        ensures
            rows@ == self@.rows_in(timeline),
            rows_exist(self@.source(), rows@),
    {
        proof {
            self.lemma_fields();
        }
        if timeline {
            self.list_events()
        } else if self.grouped {
            self.list_grouped()
        } else {
            self.list_merged()
        }
    }

    /// The rows of the sidebar.
    pub fn rows(&self) -> (rows: Vec<Row>)
        requires
            self.wf(),
        ensures
            rows@ == self@.rows(),
            rows_exist(self@.source(), rows@),
    {
        proof {
            self.lemma_fields();
        }
        self.rows_in(self.timeline)
    }

    /// A row of the sidebar, where there is one.
    pub(crate) fn row_at(&self, k: usize) -> (row: Option<Row>)
        requires
            self.wf(),
        ensures
            row == self@.row_at(k as int),
            row matches Some(r) ==> row_exists(self@.source(), r),
    {
        let rows = self.rows();
        if k < rows.len() {
            Some(rows[k])
        } else {
            None
        }
    }
}

} // verus!
