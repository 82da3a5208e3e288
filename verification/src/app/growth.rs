//! What arrives from the sources.
//!
//! The rows of the sidebar shift as a trace grows, so that each selection is
//! found again by what it selects, not by its place.

use vstd::prelude::*;

#[allow(unused_imports)]
use super::moves::less_one;
#[allow(unused_imports)]
use super::{diff_faithful, source_models, AppModel, SourceModel, StateModel, ViewState};
use super::{App, Row, Source, SourceState};
use crate::event::SourceEvent;
#[allow(unused_imports)]
use crate::event::{SourceChange, SourceEventModel};
use crate::parse::cache::ParseCache;
#[allow(unused_imports)]
use crate::source::{streaming_starts, LogModel};
use crate::text;

verus! {

/// A buffer with what arrived.
pub open spec fn buffer_after(buffer: LogModel, change: SourceChange) -> LogModel {
    match change {
        SourceChange::Mapped(map) => LogModel {
            bytes: map,
            starts: streaming_starts(map),
            mapped: true,
        },
        SourceChange::Chunk(bytes) => buffer.appended(bytes),
        SourceChange::Eof => buffer.finished(),
        SourceChange::Failed(_) => buffer,
    }
}

/// A source with what arrived.
pub open spec fn source_after(source: SourceModel, change: SourceChange) -> SourceModel {
    let buffer = buffer_after(source.buffer, change);
    SourceModel {
        label: source.label,
        buffer,
        state: match change {
            SourceChange::Eof => StateModel::Complete,
            SourceChange::Failed(e) => StateModel::Failed(e),
            _ => source.state,
        },
        index: match change {
            SourceChange::Failed(_) => source.index,
            _ => source.index.ingested(buffer, change is Eof),
        },
    }
}

impl Source {
    /// Takes what arrived. No parse is kept.
    fn change(&mut self, event: SourceEvent)
        requires
            old(self).wf(),
        ensures
            final(self).wf(),
            final(self)@ == source_after(old(self)@, event@.change),
    {
        self.parses = ParseCache::new();
        match event {
            SourceEvent::Mapped { map, .. } => {
                self.buffer.adopt_map(map);
                self.index.ingest(&self.buffer, false);
            },
            SourceEvent::Chunk { bytes, .. } => {
                self.buffer.append(bytes.as_slice());
                self.index.ingest(&self.buffer, false);
            },
            SourceEvent::Eof { .. } => {
                self.buffer.finish();
                self.index.ingest(&self.buffer, true);
                self.state = SourceState::Complete;
            },
            SourceEvent::Failed { error, .. } => {
                self.state = SourceState::Failed(error);
            },
        }
    }
}

/// Two rows select the same thing. The rows of a function do, however many
/// compilations it has.
pub open spec fn same_row(a: Row, b: Row) -> bool {
    match (a, b) {
        (Row::Function { sfi: x, .. }, Row::Function { sfi: y, .. }) => x == y,
        _ => a == b,
    }
}

fn is_same_row(a: Row, b: Row) -> (yes: bool)
    ensures
        yes == same_row(a, b),
{
    match (a, b) {
        (Row::Function { sfi: x, .. }, Row::Function { sfi: y, .. }) => x.0 == y.0,
        _ => a == b,
    }
}

/// The first row at or after `i` that selects the same thing.
pub open spec fn found_again(rows: Seq<Row>, row: Row, i: int) -> Option<int>
    decreases rows.len() - i,
{
    if i < 0 || i >= rows.len() {
        None
    } else if same_row(rows[i], row) {
        Some(i)
    } else {
        found_again(rows, row, i + 1)
    }
}

/// Where a selection is in the rows as they are now.
pub open spec fn relocated(rows: Seq<Row>, was: Option<Row>, selected: usize) -> usize {
    let at = match was {
        Some(row) => match found_again(rows, row, 0) {
            Some(k) => k,
            None => selected as int,
        },
        None => selected as int,
    };
    (if at < less_one(rows.len() as int) {
        at
    } else {
        less_one(rows.len() as int)
    }) as usize
}

fn relocate(rows: &Vec<Row>, was: Option<Row>, selected: usize) -> (at: usize)
    ensures
        at == relocated(rows@, was, selected),
{
    let mut at: usize = selected;
    if let Some(row) = was {
        let mut k: usize = 0;
        let mut open: bool = true;
        while open && k < rows.len()
            invariant
                k <= rows@.len(),
                open ==> found_again(rows@, row, 0) == found_again(rows@, row, k as int) && at
                    == selected,
                !open ==> found_again(rows@, row, 0) == Some(at as int),
            decreases rows.len() - k,
        {
            if is_same_row(rows[k], row) {
                at = k;
                open = false;
            }
            k += 1;
        }
    }
    let last: usize = if rows.len() > 0 {
        rows.len() - 1
    } else {
        0
    };
    if at < last {
        at
    } else {
        last
    }
}

/// Row `k` of a list, where there is one.
pub open spec fn row_of(rows: Seq<Row>, k: usize) -> Option<Row> {
    if k < rows.len() {
        Some(rows[k as int])
    } else {
        None
    }
}

fn get_row(rows: &Vec<Row>, k: usize) -> (row: Option<Row>)
    ensures
        row == row_of(rows@, k),
{
    if k < rows.len() {
        Some(rows[k])
    } else {
        None
    }
}

impl AppModel {
    /// A source holds what arrived. A failure is said.
    pub open spec fn source_changed(self, event: SourceEventModel) -> AppModel {
        let k = event.source as int;
        let changed = self.with_sources(
            self.sources.update(k, source_after(self.sources[k], event.change)),
        );
        match event.change {
            SourceChange::Failed(e) => changed.say(e),
            _ => changed,
        }
    }

    /// Every selection is where it was in `before`. A stream that is followed
    /// stays at its end.
    pub open spec fn reselected(self, before: AppModel) -> AppModel {
        let rows = self.rows();
        let parked = self.rows_in(!self.timeline);
        let pane = if before.split is Some {
            row_of(before.rows(), before.other_view.selected)
        } else {
            None
        };
        let placed = self.with_selected(
            relocated(rows, row_of(before.rows(), before.selected), self.selected),
        ).with_timeline_selected(
            relocated(
                parked,
                row_of(before.rows_in(!before.timeline), before.timeline_selected),
                self.timeline_selected,
            ),
        ).with_other_view(
            ViewState {
                selected: relocated(rows, pane, self.other_view.selected),
                ..self.other_view
            },
        );
        if self.follow && !self.grouped && !self.timeline {
            placed.with_selected(less_one(rows.len() as int) as usize)
        } else {
            placed
        }
    }

    /// What a source event does. One for a source that is not there does
    /// nothing.
    pub open spec fn source_handled(self, event: SourceEventModel) -> AppModel {
        if event.source >= self.sources.len() {
            self
        } else if event.source == self.active {
            self.source_changed(event).reselected(self)
        } else {
            self.source_changed(event)
        }
    }
}

impl App {
    fn change_source(&mut self, k: usize, event: SourceEvent)
        requires
            old(self).wf(),
            k < old(self)@.sources.len(),
        ensures
            final(self).wf(),
            final(self)@ == old(self)@.with_sources(
                old(self)@.sources.update(
                    k as int,
                    source_after(old(self)@.sources[k as int], event@.change),
                ),
            ),
    {
        reveal(App::wf);
        reveal(App::model);
        reveal(AppModel::with_sources);
        let ghost before = self.sources@;
        self.diff_cache = None;
        self.sources[k].change(event);
        proof {
            reveal(diff_faithful);
            assert(source_models(self.sources@) =~= source_models(before).update(
                k as int,
                source_after(before[k as int]@, event@.change),
            ));
            assert forall|j: int| 0 <= j < self.sources@.len() implies (
            #[trigger] self.sources@[j]).wf() by {
                assert(before[j].wf());
            }
        }
    }

    fn reselect(
        &mut self,
        row: Option<Row>,
        parked: Option<Row>,
        pane: Option<Row>,
        Ghost(before): Ghost<AppModel>,
    )
        requires
            old(self).wf(),
            row == row_of(before.rows(), before.selected),
            parked == row_of(before.rows_in(!before.timeline), before.timeline_selected),
            pane == (if before.split is Some {
                row_of(before.rows(), before.other_view.selected)
            } else {
                None
            }),
        ensures
            final(self).wf(),
            final(self)@ == old(self)@.reselected(before),
    {
        proof {
            self.lemma_fields();
        }
        let rows = self.rows();
        let others = self.rows_in(!self.timeline);
        let pinned: bool = self.follow && !self.grouped && !self.timeline;
        let selected: usize = relocate(&rows, row, self.selected);
        let timeline_selected: usize = relocate(&others, parked, self.timeline_selected);
        let other: usize = relocate(&rows, pane, self.other_view.selected);
        let view = ViewState {
            selected: other,
            cursor: self.other_view.cursor,
            top: self.other_view.top,
            scroll_x: self.other_view.scroll_x,
        };
        self.set_selected(selected);
        self.set_timeline_selected(timeline_selected);
        self.set_other_view(view);
        if pinned {
            let last: usize = if rows.len() > 0 {
                rows.len() - 1
            } else {
                0
            };
            self.set_selected(last);
        }
    }

    /// Takes what arrived from a source.
    pub(crate) fn handle_source(&mut self, event: SourceEvent)
        requires
            old(self).wf(),
        ensures
            final(self).wf(),
            final(self)@ == old(self)@.source_handled(event@),
    {
        proof {
            self.lemma_fields();
        }
        let k: usize = match &event {
            SourceEvent::Mapped { source, .. } => *source,
            SourceEvent::Chunk { source, .. } => *source,
            SourceEvent::Eof { source } => *source,
            SourceEvent::Failed { source, .. } => *source,
        };
        if k >= self.source_count() {
            return ;
        }
        let active: bool = k == self.active;
        let rows = self.rows();
        let others = self.rows_in(!self.timeline);
        let row = get_row(&rows, self.selected);
        let parked = get_row(&others, self.timeline_selected);
        let pane = if self.split.is_some() {
            get_row(&rows, self.other_view.selected)
        } else {
            None
        };
        let ghost before = self@;
        let failed: Option<String> = match &event {
            SourceEvent::Failed { error, .. } => Some(text::owned(error.as_str())),
            _ => None,
        };
        self.change_source(k, event);
        if let Some(e) = failed {
            self.say_text(e);
        }
        if active {
            self.reselect(row, parked, pane, Ghost(before));
        }
    }
}

} // verus!
