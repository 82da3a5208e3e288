//! Version markers, links between the rows of a listing, and what arrives.

use vstd::prelude::*;

#[allow(unused_imports)]
use super::paints::lies_in;
#[allow(unused_imports)]
use crate::app::growth::source_after;
#[allow(unused_imports)]
use crate::app::{Anchor, SourceModel, StateModel};
#[allow(unused_imports)]
use crate::event::SourceChange;
#[allow(unused_imports)]
use crate::markers::{row_named, versions_of, with_marker, with_markers};
#[allow(unused_imports)]
use crate::model::{LineModel, RowModel, Span};
#[allow(unused_imports)]
use crate::ui::links::{links_of, operands_lit, referents, Operand};
#[allow(unused_imports)]
use crate::ui::paint::Class;

verus! {

// ---------------------------------------------------------------------------
// Versions
// ---------------------------------------------------------------------------

/// A version uses a phase name.
pub open spec fn uses(
    table: Seq<(Seq<char>, Seq<Seq<char>>)>,
    name: Seq<char>,
    version: Seq<char>,
) -> bool {
    versions_of(table, name) matches Some(list) && list.contains(version)
}

proof fn lemma_row(table: Seq<(Seq<char>, Seq<Seq<char>>)>, name: Seq<char>, i: int)
    requires
        0 <= i,
    ensures
        row_named(table, name, i) matches Some(k) ==> i <= k < table.len() && table[k].0 == name
            && forall|j: int| i <= j < k ==> (#[trigger] table[j]).0 != name,
        row_named(table, name, i) is None ==> forall|j: int|
            i <= j < table.len() ==> (#[trigger] table[j]).0 != name,
    decreases table.len() - i,
{
    if i < table.len() && table[i].0 != name {
        lemma_row(table, name, i + 1);
    }
}

proof fn lemma_marker(
    table: Seq<(Seq<char>, Seq<Seq<char>>)>,
    name: Seq<char>,
    version: Seq<char>,
    other: Seq<char>,
    v: Seq<char>,
)
    ensures
        uses(with_marker(table, name, version), other, v) <==> uses(table, other, v) || (other
            == name && v == version),
{
    let out = with_marker(table, name, version);
    lemma_row(table, name, 0);
    lemma_row(table, other, 0);
    lemma_row(out, other, 0);
    let at = match row_named(table, name, 0) {
        Some(k) => k,
        None => table.len() as int,
    };
    let old_list = if at < table.len() {
        table[at].1
    } else {
        Seq::empty()
    };
    let list = old_list.push(version);
    assert(out[at].0 == name);
    assert(out[at].1 =~= list);
    assert forall|j: int| 0 <= j < table.len() && j != at implies #[trigger] out[j]
        == table[j] by {}
    if other == name {
        let k = row_named(out, other, 0);
        assert(k is Some) by {
            if k is None {
                assert(out[at].0 != other);
            }
        }
        if k->0 < at {
            assert(out[k->0] == table[k->0]);
            assert(table[k->0].0 != name);
        }
        if at < k->0 {
            assert(out[at].0 != other);
        }
        assert(k == Some(at));
        if old_list.contains(v) {
            let j = choose|j: int| 0 <= j < old_list.len() && old_list[j] == v;
            assert(list[j] == v);
        }
        if v == version {
            assert(list[old_list.len() as int] == v);
        }
        if list.contains(v) && v != version {
            let j = choose|j: int| 0 <= j < list.len() && list[j] == v;
            assert(old_list[j] == v);
        }
    } else {
        match row_named(table, other, 0) {
            Some(k) => {
                assert(k != at);
                assert(out[k] == table[k]);
                let m = row_named(out, other, 0);
                if m is None {
                    assert(out[k].0 != other);
                }
                if m->0 < k {
                    assert(m->0 != at);
                    assert(out[m->0] == table[m->0]);
                    assert(table[m->0].0 != other);
                }
                if k < m->0 {
                    assert(out[k].0 != other);
                }
            },
            None => {
                let m = row_named(out, other, 0);
                if let Some(x) = m {
                    assert(x != at);
                    assert(out[x] == table[x]);
                }
            },
        }
    }
}

/// A version uses the names in its list, and those that it used before; another
/// version uses what it did.
pub proof fn law_a_version_uses_the_names_in_its_list(
    table: Seq<(Seq<char>, Seq<Seq<char>>)>,
    names: Seq<Option<Seq<char>>>,
    n: int,
    version: Seq<char>,
    name: Seq<char>,
    v: Seq<char>,
)
    requires
        0 <= n <= names.len(),
    ensures
        uses(with_markers(table, names, n, version), name, v) <==> uses(table, name, v) || (v
            == version && exists|k: int| 0 <= k < n && #[trigger] names[k] == Some(name)),
    decreases n,
{
    if n > 0 {
        law_a_version_uses_the_names_in_its_list(table, names, n - 1, version, name, v);
        let before = with_markers(table, names, n - 1, version);
        if let Some(x) = names[n - 1] {
            lemma_marker(before, x, version, name, v);
        }
        if exists|k: int| 0 <= k < n - 1 && #[trigger] names[k] == Some(name) {
            let k = choose|k: int| 0 <= k < n - 1 && #[trigger] names[k] == Some(name);
            assert(0 <= k < n && names[k] == Some(name));
        }
        if names[n - 1] == Some(name) {
            assert(0 <= n - 1 < n && names[n - 1] == Some(name));
        }
    }
}

// ---------------------------------------------------------------------------
// Links
// ---------------------------------------------------------------------------

/// A bytecode row links to the rows of its targets, to its slots and to its pool
/// entries, and to nothing else.
pub proof fn law_a_row_links_to_its_operands(row: RowModel, n: u32)
    ensures
        links_of(Some(LineModel::Bytecode(row))) matches Some(links) && {
            &&& links.anchor == Anchor::Offset(row.offset)
            &&& links.refs.contains(Anchor::Offset(n)) <==> exists|k: int|
                0 <= k < row.targets.len() && (#[trigger] row.targets[k]).0 == n
            &&& links.refs.contains(Anchor::Slot(n)) <==> exists|k: int|
                0 <= k < row.fbv.len() && (#[trigger] row.fbv[k]).0 == n
            &&& links.refs.contains(Anchor::Pool(n)) <==> exists|k: int|
                0 <= k < row.pool.len() && (#[trigger] row.pool[k]).0 == n
        },
{
    let a = referents(Operand::Target, row.targets);
    let b = referents(Operand::Slot, row.fbv);
    let c = referents(Operand::Pool, row.pool);
    let all = a + b + c;
    if exists|k: int| 0 <= k < row.targets.len() && (#[trigger] row.targets[k]).0 == n {
        let k = choose|k: int| 0 <= k < row.targets.len() && (#[trigger] row.targets[k]).0 == n;
        assert(all[k] == Anchor::Offset(n));
    }
    if exists|k: int| 0 <= k < row.fbv.len() && (#[trigger] row.fbv[k]).0 == n {
        let k = choose|k: int| 0 <= k < row.fbv.len() && (#[trigger] row.fbv[k]).0 == n;
        assert(all[a.len() + k] == Anchor::Slot(n));
    }
    if exists|k: int| 0 <= k < row.pool.len() && (#[trigger] row.pool[k]).0 == n {
        let k = choose|k: int| 0 <= k < row.pool.len() && (#[trigger] row.pool[k]).0 == n;
        assert(all[a.len() + b.len() + k] == Anchor::Pool(n));
    }
    assert forall|x: Anchor| all.contains(x) implies ({
        ||| exists|k: int| 0 <= k < a.len() && a[k] == x
        ||| exists|k: int| 0 <= k < b.len() && b[k] == x
        ||| exists|k: int| 0 <= k < c.len() && c[k] == x
    }) by {
        let k = choose|k: int| 0 <= k < all.len() && all[k] == x;
        if k < a.len() {
            assert(a[k] == x);
        } else if k < a.len() + b.len() {
            assert(b[k - a.len()] == x);
        } else {
            assert(c[k - a.len() - b.len()] == x);
        }
    }
    if all.contains(Anchor::Offset(n)) {
        let k = choose|k: int| 0 <= k < a.len() && a[k] == Anchor::Offset(n);
        assert(row.targets[k].0 == n);
    }
    if all.contains(Anchor::Slot(n)) {
        let k = choose|k: int| 0 <= k < b.len() && b[k] == Anchor::Slot(n);
        assert(row.fbv[k].0 == n);
    }
    if all.contains(Anchor::Pool(n)) {
        let k = choose|k: int| 0 <= k < c.len() && c[k] == Anchor::Pool(n);
        assert(row.pool[k].0 == n);
    }
}

/// Byte `k` lies in one of the first `n` operands with the number `x`.
pub open spec fn in_operands_to(refs: Seq<(u32, Span)>, x: u32, n: int, k: int) -> bool {
    exists|j: int| 0 <= j < n && (#[trigger] refs[j]).0 == x && lies_in(k, refs[j].1)
}

/// While the cursor is on a row, the operands that lead to it stand out, and no
/// others.
pub proof fn law_operands_that_lead_to_the_cursor_stand_out(
    paint: Seq<Class>,
    refs: Seq<(u32, Span)>,
    x: u32,
    n: int,
    k: int,
)
    requires
        0 <= n <= refs.len(),
        0 <= k < paint.len(),
    ensures
        operands_lit(paint, Operand::Target, refs, Anchor::Offset(x), n)[k] == (
        if in_operands_to(refs, x, n, k) {
            Class::ConsumerHl
        } else {
            paint[k]
        }),
        operands_lit(paint, Operand::Slot, refs, Anchor::Slot(x), n)[k] == (if in_operands_to(
            refs,
            x,
            n,
            k,
        ) {
            Class::ConsumerHl
        } else {
            paint[k]
        }),
        operands_lit(paint, Operand::Pool, refs, Anchor::Pool(x), n)[k] == (if in_operands_to(
            refs,
            x,
            n,
            k,
        ) {
            Class::ConsumerHl
        } else {
            paint[k]
        }),
        operands_lit(paint, Operand::Target, refs, Anchor::Offset(x), n).len() == paint.len(),
        operands_lit(paint, Operand::Slot, refs, Anchor::Slot(x), n).len() == paint.len(),
        operands_lit(paint, Operand::Pool, refs, Anchor::Pool(x), n).len() == paint.len(),
    decreases n,
{
    if n > 0 {
        law_operands_that_lead_to_the_cursor_stand_out(paint, refs, x, n - 1, k);
        if in_operands_to(refs, x, n - 1, k) {
            let j = choose|j: int|
                0 <= j < n - 1 && (#[trigger] refs[j]).0 == x && lies_in(k, refs[j].1);
            assert(0 <= j < n && refs[j].0 == x && lies_in(k, refs[j].1));
        }
        if refs[n - 1].0 == x && lies_in(k, refs[n - 1].1) {
            assert(in_operands_to(refs, x, n, k));
        }
    }
}

// ---------------------------------------------------------------------------
// Arrivals
// ---------------------------------------------------------------------------

/// What arrives is put behind what was there; the end completes a source, and a
/// failure leaves what was read as it is. A source keeps its label.
pub proof fn law_what_arrives_is_kept(source: SourceModel, bytes: Seq<u8>, error: Seq<char>)
    requires
        !source.buffer.mapped,
    ensures
        source_after(source, SourceChange::Chunk(bytes)).buffer.bytes == source.buffer.bytes
            + bytes,
        source_after(source, SourceChange::Chunk(bytes)).state == source.state,
        source_after(source, SourceChange::Chunk(bytes)).label == source.label,
        source_after(source, SourceChange::Eof).state is Complete,
        source_after(source, SourceChange::Eof).buffer.bytes == source.buffer.bytes,
        source_after(source, SourceChange::Eof).label == source.label,
        source_after(source, SourceChange::Failed(error)).buffer == source.buffer,
        source_after(source, SourceChange::Failed(error)).index == source.index,
        source_after(source, SourceChange::Failed(error)).state == StateModel::Failed(error),
{
}

} // verus!
