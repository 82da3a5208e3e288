//! What the row under the cursor refers to, and what refers to it.
//!
//! In listings the links are offsets, feedback slots, pool entries and
//! destinations of branches; they are painted as those between nodes are.

use vstd::prelude::*;

use super::paint::{fill, Class};
#[allow(unused_imports)]
use super::paint::filled;
use crate::app::Anchor;
use crate::model::{LineInfo, Span};
#[allow(unused_imports)]
use crate::model::LineModel;
#[allow(unused_imports)]
use crate::view::info_model;

verus! {

/// The links of the row under the cursor.
#[derive(Debug)]
pub struct RowLinks {
    /// What the row is known by.
    pub anchor: Anchor,
    /// The address of a row of disassembly.
    pub addr: Option<u64>,
    /// What the row refers to.
    pub refs: Vec<Anchor>,
    /// The address that it branches to.
    pub to: Option<u64>,
}

/// The view of `RowLinks`.
#[verifier::ext_equal]
pub struct LinksModel {
    pub anchor: Anchor,
    pub addr: Option<u64>,
    pub refs: Seq<Anchor>,
    pub to: Option<u64>,
}

impl View for RowLinks {
    type V = LinksModel;

    open spec fn view(&self) -> LinksModel {
        LinksModel { anchor: self.anchor, addr: self.addr, refs: self.refs@, to: self.to }
    }
}

/// The view of optional links.
pub open spec fn opt_links(links: Option<&RowLinks>) -> Option<LinksModel> {
    match links {
        Some(l) => Some(l@),
        None => None,
    }
}

/// What operands are references to.
#[derive(Debug, Clone, Copy, PartialEq, Eq, Structural)]
pub enum Operand {
    Target,
    Slot,
    Pool,
}

/// What an operand refers to.
pub open spec fn referent(kind: Operand, n: u32) -> Anchor {
    match kind {
        Operand::Target => Anchor::Offset(n),
        Operand::Slot => Anchor::Slot(n),
        Operand::Pool => Anchor::Pool(n),
    }
}

fn make_referent(kind: Operand, n: u32) -> (anchor: Anchor)
    ensures
        anchor == referent(kind, n),
{
    match kind {
        Operand::Target => Anchor::Offset(n),
        Operand::Slot => Anchor::Slot(n),
        Operand::Pool => Anchor::Pool(n),
    }
}

/// What the operands of one kind refer to.
pub open spec fn referents(kind: Operand, refs: Seq<(u32, Span)>) -> Seq<Anchor> {
    refs.map_values(|r: (u32, Span)| referent(kind, r.0))
}

/// The links of a row, where it is one of a listing.
pub open spec fn links_of(info: Option<LineModel>) -> Option<LinksModel> {
    match info {
        Some(LineModel::Bytecode(row)) => Some(
            LinksModel {
                anchor: Anchor::Offset(row.offset),
                addr: None,
                refs: referents(Operand::Target, row.targets) + referents(Operand::Slot, row.fbv)
                    + referents(Operand::Pool, row.pool),
                to: None,
            },
        ),
        Some(LineModel::FeedbackSlot { index, .. }) => Some(
            LinksModel { anchor: Anchor::Slot(index), addr: None, refs: Seq::empty(), to: None },
        ),
        Some(LineModel::PoolEntry { index, .. }) => Some(
            LinksModel { anchor: Anchor::Pool(index), addr: None, refs: Seq::empty(), to: None },
        ),
        Some(LineModel::Disasm { offset, addr, target_offset, target_addr, .. }) => Some(
            LinksModel {
                anchor: Anchor::Insn(offset),
                addr: Some(addr),
                refs: match target_offset {
                    Some(o) => seq![Anchor::Insn(o)],
                    None => Seq::empty(),
                },
                to: target_addr,
            },
        ),
        _ => None,
    }
}

/// The place of an anchor, painted where the links lead to it.
pub open spec fn place_painted(
    paint: Seq<Class>,
    span: Span,
    anchor: Anchor,
    addr: Option<u64>,
    links: LinksModel,
) -> Seq<Class> {
    if anchor == links.anchor {
        filled(paint, span.start as int, span.end as int, Class::DefHl)
    } else if links.refs.contains(anchor) || (addr is Some && addr == links.to) {
        filled(paint, span.start as int, span.end as int, Class::InputHl)
    } else {
        paint
    }
}

/// The first `n` operands that refer to the row under the cursor painted.
pub open spec fn operands_lit(
    paint: Seq<Class>,
    kind: Operand,
    refs: Seq<(u32, Span)>,
    anchor: Anchor,
    n: int,
) -> Seq<Class>
    decreases n,
{
    if n <= 0 {
        paint
    } else {
        let before = operands_lit(paint, kind, refs, anchor, n - 1);
        if referent(kind, refs[n - 1].0) == anchor {
            filled(
                before,
                refs[n - 1].1.start as int,
                refs[n - 1].1.end as int,
                Class::ConsumerHl,
            )
        } else {
            before
        }
    }
}

/// A branch goes to the row under the cursor.
pub open spec fn goes_to(
    target_offset: Option<u32>,
    target_addr: Option<u64>,
    links: LinksModel,
) -> bool {
    (target_offset matches Some(o) && links.anchor == Anchor::Insn(o)) || (target_addr is Some
        && target_addr == links.addr)
}

/// A line with its part in the links of the row under the cursor.
pub open spec fn links_painted(
    paint: Seq<Class>,
    info: Option<LineModel>,
    links: LinksModel,
) -> Seq<Class> {
    match info {
        Some(LineModel::Bytecode(row)) => {
            let placed = place_painted(
                paint,
                row.offset_span,
                Anchor::Offset(row.offset),
                None,
                links,
            );
            let aimed = operands_lit(
                placed,
                Operand::Target,
                row.targets,
                links.anchor,
                row.targets.len() as int,
            );
            let fed = operands_lit(
                aimed,
                Operand::Slot,
                row.fbv,
                links.anchor,
                row.fbv.len() as int,
            );
            operands_lit(fed, Operand::Pool, row.pool, links.anchor, row.pool.len() as int)
        },
        Some(LineModel::FeedbackSlot { index, def_span, .. }) => place_painted(
            paint,
            def_span,
            Anchor::Slot(index),
            None,
            links,
        ),
        Some(LineModel::PoolEntry { index, def_span }) => place_painted(
            paint,
            def_span,
            Anchor::Pool(index),
            None,
            links,
        ),
        Some(
            LineModel::Disasm {
                offset,
                offset_span,
                addr,
                target,
                target_offset,
                target_addr,
                ..
            },
        ) => {
            let placed = place_painted(
                paint,
                offset_span,
                Anchor::Insn(offset),
                Some(addr),
                links,
            );
            match target {
                Some(t) => if goes_to(target_offset, target_addr, links) {
                    filled(placed, t.start as int, t.end as int, Class::ConsumerHl)
                } else {
                    placed
                },
                None => placed,
            }
        },
        _ => paint,
    }
}

proof fn lemma_lit_len(
    paint: Seq<Class>,
    kind: Operand,
    refs: Seq<(u32, Span)>,
    anchor: Anchor,
    n: int,
)
    ensures
        operands_lit(paint, kind, refs, anchor, n).len() == paint.len(),
    decreases n,
{
    if n > 0 {
        lemma_lit_len(paint, kind, refs, anchor, n - 1);
    }
}

pub(crate) proof fn lemma_links_len(
    paint: Seq<Class>,
    info: Option<LineModel>,
    links: LinksModel,
)
    ensures
        links_painted(paint, info, links).len() == paint.len(),
{
    if let Some(LineModel::Bytecode(row)) = info {
        let a = links.anchor;
        let t = row.targets.len() as int;
        let f = row.fbv.len() as int;
        let placed = place_painted(
            paint,
            row.offset_span,
            Anchor::Offset(row.offset),
            None,
            links,
        );
        let aimed = operands_lit(placed, Operand::Target, row.targets, a, t);
        let fed = operands_lit(aimed, Operand::Slot, row.fbv, a, f);
        lemma_lit_len(placed, Operand::Target, row.targets, a, t);
        lemma_lit_len(aimed, Operand::Slot, row.fbv, a, f);
        lemma_lit_len(fed, Operand::Pool, row.pool, a, row.pool.len() as int);
    }
}

fn push_referents(out: &mut Vec<Anchor>, kind: Operand, refs: &Vec<(u32, Span)>)
    ensures
        final(out)@ == old(out)@ + referents(kind, refs@),
{
    let mut n: usize = 0;
    assert(out@ =~= old(out)@ + referents(kind, refs@).take(0));
    while n < refs.len()
        invariant
            n <= refs@.len(),
            out@ == old(out)@ + referents(kind, refs@).take(n as int),
        decreases refs.len() - n,
    {
        out.push(make_referent(kind, refs[n].0));
        assert(out@ =~= old(out)@ + referents(kind, refs@).take(n + 1));
        n += 1;
    }
    assert(referents(kind, refs@).take(n as int) =~= referents(kind, refs@));
}

/// The links of a row.
pub(crate) fn find_links(info: Option<&LineInfo>) -> (links: Option<RowLinks>)
    ensures
        match links {
            Some(l) => links_of(info_model(info)) == Some(l@),
            None => links_of(info_model(info)) is None,
        },
{
    match info {
        Some(LineInfo::Bytecode(row)) => {
            let mut refs: Vec<Anchor> = Vec::new();
            push_referents(&mut refs, Operand::Target, &row.targets);
            assert(refs@ =~= referents(Operand::Target, row.targets@));
            push_referents(&mut refs, Operand::Slot, &row.fbv);
            push_referents(&mut refs, Operand::Pool, &row.pool);
            Some(RowLinks { anchor: Anchor::Offset(row.offset), addr: None, refs, to: None })
        },
        Some(LineInfo::FeedbackSlot { index, .. }) => {
            let refs: Vec<Anchor> = Vec::new();
            assert(refs@ =~= Seq::empty());
            Some(RowLinks { anchor: Anchor::Slot(*index), addr: None, refs, to: None })
        },
        Some(LineInfo::PoolEntry { index, .. }) => {
            let refs: Vec<Anchor> = Vec::new();
            assert(refs@ =~= Seq::empty());
            Some(RowLinks { anchor: Anchor::Pool(*index), addr: None, refs, to: None })
        },
        Some(LineInfo::Disasm { offset, addr, target_offset, target_addr, .. }) => {
            let mut refs: Vec<Anchor> = Vec::new();
            if let Some(o) = target_offset {
                refs.push(Anchor::Insn(*o));
                assert(refs@ =~= seq![Anchor::Insn(*o)]);
            } else {
                assert(refs@ =~= Seq::empty());
            }
            Some(
                RowLinks {
                    anchor: Anchor::Insn(*offset),
                    addr: Some(*addr),
                    refs,
                    to: *target_addr,
                },
            )
        },
        _ => None,
    }
}

fn holds(refs: &Vec<Anchor>, anchor: Anchor) -> (yes: bool)
    ensures
        yes == refs@.contains(anchor),
{
    let mut k: usize = 0;
    while k < refs.len()
        invariant
            k <= refs@.len(),
            forall|m: int| 0 <= m < k ==> refs@[m] != anchor,
        decreases refs.len() - k,
    {
        if refs[k] == anchor {
            return true;
        }
        k += 1;
    }
    false
}

fn same_place(a: Option<u64>, b: Option<u64>) -> (yes: bool)
    ensures
        yes == (a is Some && a == b),
{
    match (a, b) {
        (Some(x), Some(y)) => x == y,
        _ => false,
    }
}

fn paint_place(
    paint: &mut Vec<Class>,
    span: &Span,
    anchor: Anchor,
    addr: Option<u64>,
    links: &RowLinks,
)
    ensures
        final(paint)@ == place_painted(old(paint)@, *span, anchor, addr, links@),
{
    if anchor == links.anchor {
        fill(paint, span.start as usize, span.end as usize, Class::DefHl);
    } else if holds(&links.refs, anchor) || same_place(addr, links.to) {
        fill(paint, span.start as usize, span.end as usize, Class::InputHl);
    }
}

fn light_operands(
    paint: &mut Vec<Class>,
    kind: Operand,
    refs: &Vec<(u32, Span)>,
    anchor: Anchor,
)
    ensures
        final(paint)@ == operands_lit(old(paint)@, kind, refs@, anchor, refs@.len() as int),
{
    let mut n: usize = 0;
    while n < refs.len()
        invariant
            n <= refs@.len(),
            paint@ == operands_lit(old(paint)@, kind, refs@, anchor, n as int),
        decreases refs.len() - n,
    {
        if make_referent(kind, refs[n].0) == anchor {
            fill(paint, refs[n].1.start as usize, refs[n].1.end as usize, Class::ConsumerHl);
        }
        n += 1;
    }
}

/// Paints the part of a line in the links of the row under the cursor.
pub(crate) fn paint_links(paint: &mut Vec<Class>, info: Option<&LineInfo>, links: &RowLinks)
    ensures
        final(paint)@ == links_painted(old(paint)@, info_model(info), links@),
{
    match info {
        Some(LineInfo::Bytecode(row)) => {
            paint_place(paint, &row.offset_span, Anchor::Offset(row.offset), None, links);
            light_operands(paint, Operand::Target, &row.targets, links.anchor);
            light_operands(paint, Operand::Slot, &row.fbv, links.anchor);
            light_operands(paint, Operand::Pool, &row.pool, links.anchor);
        },
        Some(LineInfo::FeedbackSlot { index, def_span, .. }) => {
            paint_place(paint, def_span, Anchor::Slot(*index), None, links);
        },
        Some(LineInfo::PoolEntry { index, def_span }) => {
            paint_place(paint, def_span, Anchor::Pool(*index), None, links);
        },
        Some(
            LineInfo::Disasm {
                offset,
                offset_span,
                addr,
                target,
                target_offset,
                target_addr,
                ..
            },
        ) => {
            paint_place(paint, offset_span, Anchor::Insn(*offset), Some(*addr), links);
            if let Some(t) = target {
                let by_offset: bool = match target_offset {
                    Some(o) => links.anchor == Anchor::Insn(*o),
                    None => false,
                };
                if by_offset || same_place(*target_addr, links.addr) {
                    fill(paint, t.start as usize, t.end as usize, Class::ConsumerHl);
                }
            }
        },
        _ => {},
    }
}

} // verus!
