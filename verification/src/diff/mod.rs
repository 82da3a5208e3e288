//! Comparison of two phases.
//!
//! A plain line comparison of two dumps marks nearly everything as changed,
//! because registers, schedule ids and value numbers differ from phase to
//! phase. So each row gets a key: a node by its id within one compilation,
//! by its structure across two, any other line by its canonical text. The
//! two sequences of keys are aligned, and each pair of nodes that belong
//! together is judged by what it says. The result names for each row its
//! left half, its right half or both.

pub mod align;
pub mod canon;
pub mod itself;
pub mod shape;
pub mod side;

use vstd::prelude::*;
#[allow(unused_imports)]
use vstd::string::*;

use crate::model::NodeId;
use crate::text;
#[allow(unused_imports)]
use crate::text::decimal;
use align::{align_keys, Step};
#[allow(unused_imports)]
use align::{key_steps, leads_through, left_numbers, right_numbers};
pub use canon::canonicalize;
use shape::{list_ids, same_ids, NodeShape};
#[allow(unused_imports)]
use shape::{body_change_of, id_list, operands_change, ShapeModel};
#[allow(unused_imports)]
use side::{node_id_of, resolved, side_of, KeyModel, SideModel, MAX_IDENTITY_HOPS};
use side::{row_node, Key};
pub use side::{DiffSide, SideInput};

verus! {

/// What an aligned row means.
#[derive(Debug, Clone, Copy, PartialEq, Eq, Structural)]
pub enum RowStatus {
    Same,
    /// On the right only.
    Added,
    /// On the left only.
    Deleted,
    /// The same node on both sides, which says something else.
    Changed {
        opcode: bool,
        inputs: bool,
        /// Parameters, heap objects, branch targets, the truncation verdict
        /// or the dead mark.
        operands: bool,
        /// The inputs differ only in that values go through `Identity` nodes.
        rerouted: bool,
    },
    /// The node became an `Identity` that stands for `by`.
    Replaced { by: NodeId },
    /// The node is on both sides at another place.
    Moved { changed: bool },
}

/// One aligned row.
#[derive(Debug, Clone, Copy, PartialEq, Eq, Structural)]
pub struct DiffRow {
    /// The row on the left.
    pub left: Option<usize>,
    /// The row on the right.
    pub right: Option<usize>,
    pub status: RowStatus,
}

/// What a comparison found, counted.
#[derive(Debug, Clone, Copy, PartialEq, Eq, Structural)]
pub struct Summary {
    pub nodes_added: usize,
    pub nodes_deleted: usize,
    pub nodes_changed: usize,
    pub nodes_replaced: usize,
    pub nodes_moved: usize,
    pub lines_added: usize,
    pub lines_deleted: usize,
}

/// The summary of a comparison that found nothing.
pub open spec fn no_changes() -> Summary {
    Summary {
        nodes_added: 0,
        nodes_deleted: 0,
        nodes_changed: 0,
        nodes_replaced: 0,
        nodes_moved: 0,
        lines_added: 0,
        lines_deleted: 0,
    }
}

impl Default for Summary {
    fn default() -> (summary: Summary)
        ensures
            summary == no_changes(),
    {
        Summary {
            nodes_added: 0,
            nodes_deleted: 0,
            nodes_changed: 0,
            nodes_replaced: 0,
            nodes_moved: 0,
            lines_added: 0,
            lines_deleted: 0,
        }
    }
}

/// One more, where counting past the largest number starts over.
pub open spec fn one_more(n: usize) -> usize {
    if n == usize::MAX {
        0
    } else {
        (n + 1) as usize
    }
}

fn bump(n: usize) -> (m: usize)
    ensures
        m == one_more(n),
{
    if n == usize::MAX {
        0
    } else {
        n + 1
    }
}

// ---------------------------------------------------------------------------
// Summary
// ---------------------------------------------------------------------------

/// `out` with `mark` and `n` behind it, where `n` is not zero; a space keeps
/// it apart from what stands before.
pub open spec fn with_count(out: Seq<char>, mark: char, n: int) -> Seq<char> {
    if n == 0 {
        out
    } else if out.len() == 0 {
        seq![mark] + decimal(n)
    } else {
        out + seq![' ', mark] + decimal(n)
    }
}

/// The counts of nodes, zeros left out.
pub open spec fn node_counts(s: Summary) -> Seq<char> {
    with_count(
        with_count(
            with_count(
                with_count(
                    with_count(Seq::empty(), '+', s.nodes_added as int),
                    '−',
                    s.nodes_deleted as int,
                ),
                '~',
                s.nodes_changed as int,
            ),
            '→',
            s.nodes_replaced as int,
        ),
        '≈',
        s.nodes_moved as int,
    )
}

/// The counts of lines, zeros left out.
pub open spec fn line_counts(s: Summary) -> Seq<char> {
    with_count(
        with_count(Seq::empty(), '+', s.lines_added as int),
        '−',
        s.lines_deleted as int,
    )
}

/// The summary in words.
pub open spec fn summary_text(s: Summary) -> Seq<char> {
    let counts = node_counts(s);
    let nodes = if counts.len() > 0 {
        counts + " nodes"@
    } else {
        Seq::empty()
    };
    let changes = line_counts(s);
    let lines = if changes.len() > 0 {
        changes + " lines"@
    } else {
        Seq::empty()
    };
    if nodes.len() == 0 && lines.len() == 0 {
        "no changes"@
    } else if nodes.len() > 0 && lines.len() > 0 {
        nodes + " · "@ + lines
    } else {
        nodes + lines
    }
}

fn add_count(out: &mut String, first: bool, mark: char, n: usize) -> (still_first: bool)
    requires
        first == (old(out)@.len() == 0),
    ensures
        final(out)@ == with_count(old(out)@, mark, n as int),
        still_first == (final(out)@.len() == 0),
{
    if n == 0 {
        return first;
    }
    let ghost before = out@;
    if !first {
        out.push(' ');
    }
    out.push(mark);
    text::push_decimal(out, n);
    proof {
        if first {
            assert(out@ =~= seq![mark] + decimal(n as int));
        } else {
            assert(out@ =~= before + seq![' ', mark] + decimal(n as int));
        }
    }
    false
}

impl Summary {
    /// The summary in words, as in `+3 −1 ~2 →1 nodes · +4 −4 lines`, with
    /// zeros left out.
    pub fn describe(&self) -> (out: String)
        ensures
            out@ == summary_text(*self),
    {
        let mut out = String::new();
        assert(out@ =~= Seq::<char>::empty());
        let a: bool = add_count(&mut out, true, '+', self.nodes_added);
        let b: bool = add_count(&mut out, a, '−', self.nodes_deleted);
        let c: bool = add_count(&mut out, b, '~', self.nodes_changed);
        let d: bool = add_count(&mut out, c, '→', self.nodes_replaced);
        let none: bool = add_count(&mut out, d, '≈', self.nodes_moved);
        let mut changes = String::new();
        assert(changes@ =~= Seq::<char>::empty());
        let e: bool = add_count(&mut changes, true, '+', self.lines_added);
        let still: bool = add_count(&mut changes, e, '−', self.lines_deleted);
        proof {
            reveal_strlit(" nodes");
            reveal_strlit(" lines");
        }
        if none && still {
            return text::owned("no changes");
        }
        if !none {
            out.append(" nodes");
        }
        let ghost nodes = out@;
        if !still {
            if !none {
                out.append(" · ");
            }
            let ghost front = out@;
            out.append(changes.as_str());
            out.append(" lines");
            assert(out@ =~= front + (changes@ + " lines"@));
        } else {
            assert(out@ =~= nodes + Seq::<char>::empty());
        }
        out
    }
}

// ---------------------------------------------------------------------------
// Judging pairs
// ---------------------------------------------------------------------------

/// Inputs with every `Identity` followed.
pub open spec fn resolved_all(identity: Map<NodeId, NodeId>, inputs: Seq<NodeId>) -> Seq<NodeId> {
    inputs.map_values(|n: NodeId| resolved(identity, n, MAX_IDENTITY_HOPS as int))
}

/// The inputs agree once the `Identity` nodes of one side are followed.
pub open spec fn same_flow(identity: Map<NodeId, NodeId>, l: ShapeModel, r: ShapeModel) -> bool {
    resolved_all(identity, l.inputs) == resolved_all(identity, r.inputs)
}

/// The inputs were only rerouted through `Identity` nodes.
pub open spec fn rerouted(left: SideModel, right: SideModel, l: ShapeModel, r: ShapeModel) -> bool {
    same_flow(right.identity, l, r) || same_flow(left.identity, l, r)
}

/// What a pair with the same node id means, and what it adds to the summary.
pub open spec fn pair_judged(
    id: NodeId,
    left: SideModel,
    right: SideModel,
    summary: Summary,
) -> (RowStatus, Summary) {
    if !left.nodes.dom().contains(id) || !right.nodes.dom().contains(id) {
        (RowStatus::Same, summary)
    } else {
        let l = left.nodes[id];
        let r = right.nodes[id];
        let opcode = l.opcode != r.opcode;
        let inputs = l.inputs != r.inputs;
        let operands = body_change_of(l, r) is Some && !opcode;
        if r.opcode == "Identity"@ && l.opcode != "Identity"@ {
            (
                RowStatus::Replaced { by: resolved(right.identity, id, MAX_IDENTITY_HOPS as int) },
                Summary { nodes_replaced: one_more(summary.nodes_replaced), ..summary },
            )
        } else if !opcode && !inputs && !operands {
            (RowStatus::Same, summary)
        } else {
            (
                RowStatus::Changed {
                    opcode,
                    inputs,
                    operands,
                    rerouted: inputs && !opcode && rerouted(left, right, l, r),
                },
                Summary { nodes_changed: one_more(summary.nodes_changed), ..summary },
            )
        }
    }
}

/// The node on row `at`.
pub open spec fn node_on(side: SideModel, at: int) -> Option<NodeId> {
    if 0 <= at < side.row_nodes.len() {
        side.row_nodes[at]
    } else {
        None
    }
}

/// What a pair with the same structure means. Opcode and inputs agree, so
/// only operands and targets can differ.
pub open spec fn structures_judged(
    left: SideModel,
    l: int,
    right: SideModel,
    r: int,
    summary: Summary,
) -> (RowStatus, Summary) {
    match (node_on(left, l), node_on(right, r)) {
        (Some(l_id), Some(r_id)) => {
            if !left.nodes.dom().contains(l_id) || !right.nodes.dom().contains(r_id) {
                (RowStatus::Same, summary)
            } else if operands_change(left.nodes[l_id].operands, right.nodes[r_id].operands) is None
                && left.nodes[l_id].targets == right.nodes[r_id].targets {
                (RowStatus::Same, summary)
            } else {
                (
                    RowStatus::Changed {
                        opcode: false,
                        inputs: false,
                        operands: true,
                        rerouted: false,
                    },
                    Summary { nodes_changed: one_more(summary.nodes_changed), ..summary },
                )
            }
        },
        _ => (RowStatus::Same, summary),
    }
}

/// Two shapes differ in anything.
pub open spec fn shapes_differ(a: ShapeModel, b: ShapeModel) -> bool {
    a.opcode != b.opcode || a.inputs != b.inputs || body_change_of(a, b) is Some
}

/// What a row without a partner means. A node that the other side has too
/// moved; it counts once, on its left row.
pub open spec fn single_judged(
    key: KeyModel,
    own: SideModel,
    other: SideModel,
    summary: Summary,
    added: bool,
) -> (RowStatus, Summary) {
    let alone = if added {
        RowStatus::Added
    } else {
        RowStatus::Deleted
    };
    let node_alone = if added {
        Summary { nodes_added: one_more(summary.nodes_added), ..summary }
    } else {
        Summary { nodes_deleted: one_more(summary.nodes_deleted), ..summary }
    };
    match key {
        KeyModel::Node(id) => if other.nodes.dom().contains(id) {
            let changed = own.nodes.dom().contains(id) && shapes_differ(
                own.nodes[id],
                other.nodes[id],
            );
            let moved = if added {
                summary
            } else {
                Summary {
                    nodes_moved: one_more(summary.nodes_moved),
                    nodes_changed: if changed {
                        one_more(summary.nodes_changed)
                    } else {
                        summary.nodes_changed
                    },
                    ..summary
                }
            };
            (RowStatus::Moved { changed }, moved)
        } else {
            (alone, node_alone)
        },
        KeyModel::Structure(_, _) => (alone, node_alone),
        _ => (
            alone,
            if added {
                Summary { lines_added: one_more(summary.lines_added), ..summary }
            } else {
                Summary { lines_deleted: one_more(summary.lines_deleted), ..summary }
            },
        ),
    }
}

fn resolve_all(side: &DiffSide, inputs: &Vec<NodeId>) -> (out: Vec<NodeId>)
    ensures
        out@ == resolved_all(side@.identity, inputs@),
{
    let mut out: Vec<NodeId> = Vec::new();
    let mut k: usize = 0;
    while k < inputs.len()
        invariant
            k <= inputs@.len(),
            out@ == resolved_all(side@.identity, inputs@).take(k as int),
        decreases inputs.len() - k,
    {
        out.push(side.resolve_identity(inputs[k]));
        assert(out@ =~= resolved_all(side@.identity, inputs@).take(k + 1));
        k += 1;
    }
    assert(out@ =~= resolved_all(side@.identity, inputs@));
    out
}

fn flows_agree(side: &DiffSide, l: &NodeShape, r: &NodeShape) -> (yes: bool)
    ensures
        yes == same_flow(side@.identity, l@, r@),
{
    let a = resolve_all(side, &l.inputs);
    let b = resolve_all(side, &r.inputs);
    same_ids(&a, &b)
}

fn only_rerouted(left: &DiffSide, right: &DiffSide, l: &NodeShape, r: &NodeShape) -> (yes: bool)
    ensures
        yes == rerouted(left@, right@, l@, r@),
{
    flows_agree(right, l, r) || flows_agree(left, l, r)
}

fn shape_in<'a>(side: &'a DiffSide, id: NodeId) -> (shape: Option<&'a NodeShape>)
    ensures
        shape is Some <==> side@.nodes.dom().contains(id),
        shape matches Some(s) ==> s@ == side@.nodes[id],
{
    broadcast use vstd::std_specs::hash::group_hash_axioms;

    side.nodes.get(&id)
}

fn judge_pair(id: NodeId, left: &DiffSide, right: &DiffSide, summary: &mut Summary) -> (status:
    RowStatus)
    ensures
        (status, *final(summary)) == pair_judged(id, left@, right@, *old(summary)),
{
    let l = match shape_in(left, id) {
        Some(l) => l,
        None => {
            return RowStatus::Same;
        },
    };
    let r = match shape_in(right, id) {
        Some(r) => r,
        None => {
            return RowStatus::Same;
        },
    };
    let identity = text::owned("Identity");
    if r.opcode == identity && l.opcode != identity {
        summary.nodes_replaced = bump(summary.nodes_replaced);
        return RowStatus::Replaced { by: right.resolve_identity(id) };
    }
    let opcode: bool = l.opcode != r.opcode;
    let inputs: bool = !same_ids(&l.inputs, &r.inputs);
    let operands: bool = l.body_change(r).is_some() && !opcode;
    if !opcode && !inputs && !operands {
        return RowStatus::Same;
    }
    let rerouted: bool = inputs && !opcode && only_rerouted(left, right, l, r);
    summary.nodes_changed = bump(summary.nodes_changed);
    RowStatus::Changed { opcode, inputs, operands, rerouted }
}

fn node_at(side: &DiffSide, at: usize) -> (id: Option<NodeId>)
    ensures
        id == node_on(side@, at as int),
{
    if at < side.row_nodes.len() {
        side.row_nodes[at]
    } else {
        None
    }
}

fn judge_struct_pair(
    left: &DiffSide,
    l: usize,
    right: &DiffSide,
    r: usize,
    summary: &mut Summary,
) -> (status: RowStatus)
    ensures
        (status, *final(summary)) == structures_judged(
            left@,
            l as int,
            right@,
            r as int,
            *old(summary),
        ),
{
    if let Some(l_id) = node_at(left, l) {
        if let Some(r_id) = node_at(right, r) {
            if let Some(a) = shape_in(left, l_id) {
                if let Some(b) = shape_in(right, r_id) {
                    if a.operands.differs(&b.operands).is_none() && same_ids(
                        &a.targets,
                        &b.targets,
                    ) {
                        return RowStatus::Same;
                    }
                    summary.nodes_changed = bump(summary.nodes_changed);
                    return RowStatus::Changed {
                        opcode: false,
                        inputs: false,
                        operands: true,
                        rerouted: false,
                    };
                }
            }
        }
    }
    RowStatus::Same
}

fn differ_in_shape(a: &NodeShape, b: &NodeShape) -> (yes: bool)
    ensures
        yes == shapes_differ(a@, b@),
{
    a.opcode != b.opcode || !same_ids(&a.inputs, &b.inputs) || a.body_change(b).is_some()
}

fn leave_status(
    key: &Key,
    own: &DiffSide,
    other: &DiffSide,
    summary: &mut Summary,
    added: bool,
) -> (status: RowStatus)
    ensures
        (status, *final(summary)) == single_judged(key@, own@, other@, *old(summary), added),
{
    let node: bool = match key {
        Key::Node(id) => {
            if let Some(b) = shape_in(other, *id) {
                let changed: bool = match shape_in(own, *id) {
                    Some(a) => differ_in_shape(a, b),
                    None => false,
                };
                if !added {
                    summary.nodes_moved = bump(summary.nodes_moved);
                    if changed {
                        summary.nodes_changed = bump(summary.nodes_changed);
                    }
                }
                return RowStatus::Moved { changed };
            }
            true
        },
        Key::Structure(_, _) => true,
        _ => false,
    };
    if added {
        if node {
            summary.nodes_added = bump(summary.nodes_added);
        } else {
            summary.lines_added = bump(summary.lines_added);
        }
        RowStatus::Added
    } else {
        if node {
            summary.nodes_deleted = bump(summary.nodes_deleted);
        } else {
            summary.lines_deleted = bump(summary.lines_deleted);
        }
        RowStatus::Deleted
    }
}

// ---------------------------------------------------------------------------
// Aligned rows
// ---------------------------------------------------------------------------

/// Aligned rows and the summary while they are built.
#[verifier::ext_equal]
pub struct Aligned {
    pub rows: Seq<DiffRow>,
    pub summary: Summary,
}

impl Aligned {
    /// With a row more.
    pub open spec fn with(self, left: Option<usize>, right: Option<usize>, judged: (
        RowStatus,
        Summary,
    )) -> Aligned {
        Aligned {
            rows: self.rows.push(DiffRow { left, right, status: judged.0 }),
            summary: judged.1,
        }
    }
}

/// What the rows `l` and `r` mean as a pair.
pub open spec fn judged(left: SideModel, l: int, right: SideModel, r: int, summary: Summary) -> (
    RowStatus,
    Summary,
) {
    match left.keys[l] {
        KeyModel::Node(id) => pair_judged(id, left, right, summary),
        KeyModel::Structure(_, _) => structures_judged(left, l, right, r, summary),
        _ => (RowStatus::Same, summary),
    }
}

/// The state after `n` pairs from `l` and `r` on.
pub open spec fn with_pairs(
    st: Aligned,
    left: SideModel,
    l: int,
    right: SideModel,
    r: int,
    n: int,
) -> Aligned
    decreases n,
{
    if n <= 0 {
        st
    } else {
        let before = with_pairs(st, left, l, right, r, n - 1);
        before.with(
            Some((l + n - 1) as usize),
            Some((r + n - 1) as usize),
            judged(left, l + n - 1, right, r + n - 1, before.summary),
        )
    }
}

/// The state after `n` rows of the left side alone, from `l` on.
pub open spec fn with_deleted(
    st: Aligned,
    left: SideModel,
    l: int,
    right: SideModel,
    n: int,
) -> Aligned
    decreases n,
{
    if n <= 0 {
        st
    } else {
        let before = with_deleted(st, left, l, right, n - 1);
        before.with(
            Some((l + n - 1) as usize),
            None,
            single_judged(left.keys[l + n - 1], left, right, before.summary, false),
        )
    }
}

/// The state after `n` rows of the right side alone, from `r` on.
pub open spec fn with_added(
    st: Aligned,
    left: SideModel,
    right: SideModel,
    r: int,
    n: int,
) -> Aligned
    decreases n,
{
    if n <= 0 {
        st
    } else {
        let before = with_added(st, left, right, r, n - 1);
        before.with(
            None,
            Some((r + n - 1) as usize),
            single_judged(right.keys[r + n - 1], right, left, before.summary, true),
        )
    }
}

/// The state after one step.
pub open spec fn with_step(st: Aligned, left: SideModel, right: SideModel, step: Step) -> Aligned {
    match step {
        Step::Equal { old, new, len } => with_pairs(
            st,
            left,
            old as int,
            right,
            new as int,
            len as int,
        ),
        Step::Delete { old, len } => with_deleted(st, left, old as int, right, len as int),
        Step::Insert { new, len } => with_added(st, left, right, new as int, len as int),
        Step::Replace { old, old_len, new, new_len } => with_added(
            with_deleted(st, left, old as int, right, old_len as int),
            left,
            right,
            new as int,
            new_len as int,
        ),
    }
}

/// The state after the first `k` steps.
pub open spec fn with_steps(left: SideModel, right: SideModel, steps: Seq<Step>, k: int) -> Aligned
    decreases k,
{
    if k <= 0 {
        Aligned { rows: Seq::empty(), summary: no_changes() }
    } else {
        with_step(with_steps(left, right, steps, k - 1), left, right, steps[k - 1])
    }
}

/// The aligned rows of two sides and their summary, given the steps.
pub open spec fn aligned(left: SideModel, right: SideModel, steps: Seq<Step>) -> Aligned {
    with_steps(left, right, steps, steps.len() as int)
}

/// A step stays within both sides.
pub open spec fn step_within(step: Step, left: int, right: int) -> bool {
    match step {
        Step::Equal { old, new, len } => old + len <= left && new + len <= right,
        Step::Delete { old, len } => old + len <= left,
        Step::Insert { new, len } => new + len <= right,
        Step::Replace { old, old_len, new, new_len } => old + old_len <= left && new + new_len
            <= right,
    }
}

/// Every step stays within both sides.
pub open spec fn steps_within(steps: Seq<Step>, left: int, right: int) -> bool {
    forall|k: int| 0 <= k < steps.len() ==> step_within(#[trigger] steps[k], left, right)
}

/// Rows while they are built.
struct Aligner<'a> {
    left: &'a DiffSide,
    right: &'a DiffSide,
    rows: Vec<DiffRow>,
    summary: Summary,
}

impl<'a> Aligner<'a> {
    spec fn state(self) -> Aligned {
        Aligned { rows: self.rows@, summary: self.summary }
    }

    fn pairs(&mut self, l: usize, r: usize, n: usize)
        requires
            l + n <= old(self).left.keys@.len(),
            r + n <= old(self).right.keys@.len(),
        ensures
            final(self).left == old(self).left,
            final(self).right == old(self).right,
            final(self).state() == with_pairs(
                old(self).state(),
                old(self).left@,
                l as int,
                old(self).right@,
                r as int,
                n as int,
            ),
    {
        let mut k: usize = 0;
        while k < n
            invariant
                k <= n,
                l + n <= self.left.keys@.len(),
                r + n <= self.right.keys@.len(),
                self.left == old(self).left,
                self.right == old(self).right,
                self.state() == with_pairs(
                    old(self).state(),
                    self.left@,
                    l as int,
                    self.right@,
                    r as int,
                    k as int,
                ),
            decreases n - k,
        {
            assert(self.left.keys@.len() == self.left.keys.len());
            assert(self.right.keys@.len() == self.right.keys.len());
            let a: usize = l + k;
            let b: usize = r + k;
            let mut summary: Summary = self.summary;
            assert(self.left@.keys[a as int] == self.left.keys@[a as int]@);
            let status = match &self.left.keys[a] {
                Key::Node(id) => judge_pair(*id, self.left, self.right, &mut summary),
                Key::Structure(_, _) => judge_struct_pair(
                    self.left,
                    a,
                    self.right,
                    b,
                    &mut summary,
                ),
                _ => RowStatus::Same,
            };
            self.summary = summary;
            self.rows.push(DiffRow { left: Some(a), right: Some(b), status });
            k += 1;
        }
    }

    fn deleted(&mut self, l: usize, n: usize)
        requires
            l + n <= old(self).left.keys@.len(),
        ensures
            final(self).left == old(self).left,
            final(self).right == old(self).right,
            final(self).state() == with_deleted(
                old(self).state(),
                old(self).left@,
                l as int,
                old(self).right@,
                n as int,
            ),
    {
        let mut k: usize = 0;
        while k < n
            invariant
                k <= n,
                l + n <= self.left.keys@.len(),
                self.left == old(self).left,
                self.right == old(self).right,
                self.state() == with_deleted(
                    old(self).state(),
                    self.left@,
                    l as int,
                    self.right@,
                    k as int,
                ),
            decreases n - k,
        {
            assert(self.left.keys@.len() == self.left.keys.len());
            let a: usize = l + k;
            let mut summary: Summary = self.summary;
            assert(self.left@.keys[a as int] == self.left.keys@[a as int]@);
            let status = leave_status(
                &self.left.keys[a],
                self.left,
                self.right,
                &mut summary,
                false,
            );
            self.summary = summary;
            self.rows.push(DiffRow { left: Some(a), right: None, status });
            k += 1;
        }
    }

    fn added(&mut self, r: usize, n: usize)
        requires
            r + n <= old(self).right.keys@.len(),
        ensures
            final(self).left == old(self).left,
            final(self).right == old(self).right,
            final(self).state() == with_added(
                old(self).state(),
                old(self).left@,
                old(self).right@,
                r as int,
                n as int,
            ),
    {
        let mut k: usize = 0;
        while k < n
            invariant
                k <= n,
                r + n <= self.right.keys@.len(),
                self.left == old(self).left,
                self.right == old(self).right,
                self.state() == with_added(
                    old(self).state(),
                    self.left@,
                    self.right@,
                    r as int,
                    k as int,
                ),
            decreases n - k,
        {
            assert(self.right.keys@.len() == self.right.keys.len());
            let b: usize = r + k;
            let mut summary: Summary = self.summary;
            assert(self.right@.keys[b as int] == self.right.keys@[b as int]@);
            let status = leave_status(
                &self.right.keys[b],
                self.right,
                self.left,
                &mut summary,
                true,
            );
            self.summary = summary;
            self.rows.push(DiffRow { left: None, right: Some(b), status });
            k += 1;
        }
    }
}

/// The aligned rows of two sides and their summary, given the steps.
pub fn aligned_rows(left: &DiffSide, right: &DiffSide, steps: &Vec<Step>) -> (out: (
    Vec<DiffRow>,
    Summary,
))
    requires
        steps_within(steps@, left@.keys.len() as int, right@.keys.len() as int),
    ensures
        out.0@ == aligned(left@, right@, steps@).rows,
        out.1 == aligned(left@, right@, steps@).summary,
{
    let mut st = Aligner { left, right, rows: Vec::new(), summary: Summary::default() };
    let mut k: usize = 0;
    assert(left@.keys.len() == left.keys@.len());
    assert(right@.keys.len() == right.keys@.len());
    while k < steps.len()
        invariant
            k <= steps@.len(),
            steps_within(steps@, left.keys@.len() as int, right.keys@.len() as int),
            st.left == left,
            st.right == right,
            st.state() == with_steps(left@, right@, steps@, k as int),
        decreases steps.len() - k,
    {
        let step: Step = steps[k];
        assert(step_within(steps@[k as int], left.keys@.len() as int, right.keys@.len() as int));
        match step {
            Step::Equal { old: o, new: n, len } => {
                st.pairs(o, n, len);
            },
            Step::Delete { old: o, len } => {
                st.deleted(o, len);
            },
            Step::Insert { new: n, len } => {
                st.added(n, len);
            },
            Step::Replace { old: o, old_len, new: n, new_len } => {
                st.deleted(o, old_len);
                st.added(n, new_len);
            },
        }
        k += 1;
    }
    (st.rows, st.summary)
}

// ---------------------------------------------------------------------------
// The model
// ---------------------------------------------------------------------------

/// Two phases, aligned.
pub struct DiffModel {
    pub left: DiffSide,
    pub right: DiffSide,
    pub rows: Vec<DiffRow>,
    pub summary: Summary,
    /// What the columns are called, where the sides come from two runs.
    pub titles: Option<(String, String)>,
}

/// Node ids mean the same thing on both sides.
pub open spec fn same_compilation(left: SideInput<'_>, right: SideInput<'_>) -> bool {
    left.comp_id == right.comp_id
}

/// The view of a `DiffModel`.
#[verifier::ext_equal]
pub struct DiffView {
    pub left: SideModel,
    pub right: SideModel,
    pub rows: Seq<DiffRow>,
    pub summary: Summary,
    pub titles: Option<(Seq<char>, Seq<char>)>,
}

impl View for DiffModel {
    type V = DiffView;

    open spec fn view(&self) -> DiffView {
        DiffView {
            left: self.left@,
            right: self.right@,
            rows: self.rows@,
            summary: self.summary,
            titles: shape::text_pair(self.titles),
        }
    }
}

/// Two sides, aligned.
pub open spec fn sides_aligned(left: SideModel, right: SideModel) -> DiffView {
    let steps = key_steps(left.keys, right.keys);
    DiffView {
        left,
        right,
        rows: aligned(left, right, steps).rows,
        summary: aligned(left, right, steps).summary,
        titles: None,
    }
}

proof fn lemma_leads_within(
    steps: Seq<Step>,
    i: int,
    old: Seq<u128>,
    a: int,
    new: Seq<u128>,
    b: int,
)
    requires
        leads_through(steps, i, old, a, new, b),
        0 <= i,
    ensures
        forall|k: int|
            i <= k < steps.len() ==> step_within(
                #[trigger] steps[k],
                old.len() as int,
                new.len() as int,
            ),
    decreases steps.len() - i,
{
    if i < steps.len() {
        match steps[i] {
            Step::Equal { len, .. } => {
                lemma_leads_within(steps, i + 1, old, a + len, new, b + len);
            },
            Step::Delete { len, .. } => {
                lemma_leads_within(steps, i + 1, old, a + len, new, b);
            },
            Step::Insert { len, .. } => {
                lemma_leads_within(steps, i + 1, old, a, new, b + len);
            },
            Step::Replace { old_len, new_len, .. } => {
                lemma_leads_within(steps, i + 1, old, a + old_len, new, b + new_len);
            },
        }
    }
}

/// `n` rows that stand side by side and say the same.
pub open spec fn same_rows(n: nat) -> Seq<DiffRow> {
    Seq::new(
        n,
        |k: int|
            DiffRow { left: Some(k as usize), right: Some(k as usize), status: RowStatus::Same },
    )
}

/// Aligns two phases. Nodes are paired by id within one compilation and by
/// structure across two.
pub fn diff_phases(left: &SideInput<'_>, right: &SideInput<'_>) -> (model: DiffModel)
    requires
        left.valid(),
        right.valid(),
    ensures
        ({
            let by_id = same_compilation(*left, *right);
            let l = side_of(*left, by_id);
            let r = side_of(*right, by_id);
            &&& model@ == sides_aligned(l, r)
            &&& leads_through(
                key_steps(l.keys, r.keys),
                0,
                left_numbers(l.keys, r.keys),
                0,
                right_numbers(l.keys, r.keys),
                0,
            )
            &&& l == r ==> model@.rows == same_rows(l.keys.len()) && model@.summary == no_changes()
        }),
{
    let by_id: bool = left.comp_id.0 == right.comp_id.0 && left.comp_id.1 == right.comp_id.1;
    let l = DiffSide::build(left, by_id);
    let r = DiffSide::build(right, by_id);
    let steps = align_keys(&l.keys, &r.keys);
    proof {
        lemma_leads_within(
            steps@,
            0,
            left_numbers(l@.keys, r@.keys),
            0,
            right_numbers(l@.keys, r@.keys),
            0,
        );
        assert(left_numbers(l@.keys, r@.keys).len() == l@.keys.len());
        assert(right_numbers(l@.keys, r@.keys).len() == r@.keys.len());
        if l@ == r@ {
            assert(l.keys@.len() == l.keys.len());
            itself::law_an_unchanged_phase_shows_no_change(l@, l.keys@.len());
        }
    }
    let (rows, summary) = aligned_rows(&l, &r, &steps);
    DiffModel { left: l, right: r, rows, summary, titles: None }
}

// ---------------------------------------------------------------------------
// Describing a row
// ---------------------------------------------------------------------------

/// The node on the row that one half of an aligned row names.
pub open spec fn half_node(side: SideModel, at: Option<usize>) -> Option<NodeId> {
    match at {
        Some(k) => if k < side.rows.len() {
            node_id_of(side.parsed, side.rows[k as int])
        } else {
            None
        },
        None => None,
    }
}

/// Texts with ` · ` between them.
pub open spec fn dotted(a: Seq<char>, b: Seq<char>) -> Seq<char> {
    if a.len() == 0 {
        b
    } else if b.len() == 0 {
        a
    } else {
        a + " · "@ + b
    }
}

/// A text of at most 48 characters, cut short with `…`.
pub open spec fn clipped(s: Seq<char>) -> Seq<char> {
    if s.len() > 48 {
        s.take(47).push('…')
    } else {
        s
    }
}

/// The change of the opcode in words.
pub open spec fn opcode_detail(l: ShapeModel, r: ShapeModel) -> Seq<char> {
    if l.opcode != r.opcode {
        "opcode "@ + l.opcode + " → "@ + r.opcode
    } else {
        Seq::empty()
    }
}

/// The change of the inputs in words.
pub open spec fn inputs_detail(
    left: SideModel,
    right: SideModel,
    l: ShapeModel,
    r: ShapeModel,
    same_id: bool,
) -> Seq<char> {
    if l.inputs != r.inputs && same_id {
        (if rerouted(left, right, l, r) {
            "inputs rerouted via Identity: ["@
        } else {
            "inputs ["@
        }) + id_list(l.inputs, 'n', ", "@) + "] → ["@ + id_list(r.inputs, 'n', ", "@) + "]"@
    } else {
        Seq::empty()
    }
}

/// The change of the rest in words.
pub open spec fn body_detail(l: ShapeModel, r: ShapeModel) -> Seq<char> {
    match body_change_of(l, r) {
        Some((from, to)) => clipped(from) + " → "@ + clipped(to),
        None => Seq::empty(),
    }
}

/// What changed between two nodes; nothing where either is unknown or
/// nothing did.
pub open spec fn detail_of(left: SideModel, right: SideModel, l_id: NodeId, r_id: NodeId) -> Option<
    Seq<char>,
> {
    if !left.nodes.dom().contains(l_id) || !right.nodes.dom().contains(r_id) {
        None
    } else {
        let l = left.nodes[l_id];
        let r = right.nodes[r_id];
        let all = dotted(
            dotted(opcode_detail(l, r), inputs_detail(left, right, l, r, l_id == r_id)),
            body_detail(l, r),
        );
        if all.len() == 0 {
            None
        } else {
            Some(all)
        }
    }
}

/// `n` and the id, with `rest` behind it.
pub open spec fn named(id: NodeId, rest: Seq<char>) -> Seq<char> {
    seq!['n'] + decimal(id as int) + rest
}

/// What happened on an aligned row, in words.
pub open spec fn row_text(left: SideModel, right: SideModel, row: DiffRow) -> Option<Seq<char>> {
    let l = half_node(left, row.left);
    let r = half_node(right, row.right);
    match row.status {
        RowStatus::Same => None,
        RowStatus::Added => Some(
            match r {
                Some(id) => named(id, " added"@),
                None => "line added"@,
            },
        ),
        RowStatus::Deleted => Some(
            match l {
                Some(id) => named(id, " deleted"@),
                None => "line deleted"@,
            },
        ),
        RowStatus::Moved { changed } => {
            let either = if l is Some {
                l
            } else {
                r
            };
            match either {
                Some(id) => Some(
                    if changed {
                        named(
                            id,
                            " moved and changed"@ + match detail_of(left, right, id, id) {
                                Some(d) => " · "@ + d,
                                None => Seq::empty(),
                            },
                        )
                    } else {
                        named(id, " moved"@)
                    },
                ),
                None => None,
            }
        },
        RowStatus::Replaced { by } => match l {
            Some(id) => Some(
                named(id, " replaced by n"@ + decimal(by as int) + " (Identity)"@),
            ),
            None => None,
        },
        RowStatus::Changed { .. } => match l {
            Some(l_id) => {
                let r_id = match r {
                    Some(id) => id,
                    None => l_id,
                };
                match detail_of(left, right, l_id, r_id) {
                    Some(d) => Some(named(l_id, " changed: "@ + d)),
                    None => None,
                }
            },
            None => None,
        },
    }
}

fn half_id(side: &DiffSide, at: Option<usize>) -> (id: Option<NodeId>)
    ensures
        id == half_node(side@, at),
{
    match at {
        Some(k) => if k < side.rows.len() {
            match row_node(&*side.parsed, &side.rows[k]) {
                Some(node) => Some(node.id),
                None => None,
            }
        } else {
            None
        },
        None => None,
    }
}

fn clip(s: &String) -> (out: String)
    ensures
        out@ == clipped(s@),
{
    let chars = canon::chars_of(s.as_str());
    if chars.len() <= 48 {
        return s.clone();
    }
    let mut out = String::new();
    let mut k: usize = 0;
    assert(out@ =~= s@.take(0));
    while k < 47
        invariant
            k <= 47 < chars@.len(),
            chars@ == s@,
            out@ == s@.take(k as int),
        decreases 47 - k,
    {
        out.push(chars[k]);
        assert(out@ =~= s@.take(k + 1));
        k += 1;
    }
    out.push('…');
    out
}

fn is_empty(s: &String) -> (yes: bool)
    ensures
        yes == (s@.len() == 0),
{
    let empty = String::new();
    proof {
        assert(empty@ =~= Seq::<char>::empty());
        assert(s@.len() == 0 ==> s@ =~= empty@);
    }
    *s == empty
}

fn join_dotted(a: String, b: String) -> (out: String)
    ensures
        out@ == dotted(a@, b@),
{
    if is_empty(&a) {
        return b;
    }
    if is_empty(&b) {
        return a;
    }
    let mut out = a;
    out.append(" · ");
    out.append(b.as_str());
    out
}

fn name_node(id: NodeId, rest: &str) -> (out: String)
    ensures
        out@ == named(id, rest@),
{
    let mut out = String::new();
    out.push('n');
    text::push_decimal(&mut out, id as usize);
    out.append(rest);
    assert(out@ =~= named(id, rest@));
    out
}

impl DiffModel {
    fn change_detail(&self, l_id: NodeId, r_id: NodeId) -> (detail: Option<String>)
        ensures
            match detail {
                Some(d) => detail_of(self.left@, self.right@, l_id, r_id) == Some(d@),
                None => detail_of(self.left@, self.right@, l_id, r_id) is None,
            },
    {
        let l = match shape_in(&self.left, l_id) {
            Some(l) => l,
            None => {
                return None;
            },
        };
        let r = match shape_in(&self.right, r_id) {
            Some(r) => r,
            None => {
                return None;
            },
        };
        let mut opcode = String::new();
        assert(opcode@ =~= Seq::<char>::empty());
        if l.opcode != r.opcode {
            opcode.append("opcode ");
            opcode.append(l.opcode.as_str());
            opcode.append(" → ");
            opcode.append(r.opcode.as_str());
            assert(opcode@ =~= opcode_detail(l@, r@));
        }
        let mut inputs = String::new();
        assert(inputs@ =~= Seq::<char>::empty());
        if !same_ids(&l.inputs, &r.inputs) && l_id == r_id {
            if only_rerouted(&self.left, &self.right, l, r) {
                inputs.append("inputs rerouted via Identity: [");
            } else {
                inputs.append("inputs [");
            }
            let from = list_ids(&l.inputs, 'n', ", ");
            let to = list_ids(&r.inputs, 'n', ", ");
            inputs.append(from.as_str());
            inputs.append("] → [");
            inputs.append(to.as_str());
            inputs.append("]");
            assert(inputs@ =~= inputs_detail(self.left@, self.right@, l@, r@, true));
        }
        let mut body = String::new();
        assert(body@ =~= Seq::<char>::empty());
        if let Some((from, to)) = l.body_change(r) {
            body = clip(&from);
            let end = clip(&to);
            body.append(" → ");
            body.append(end.as_str());
        }
        let all = join_dotted(join_dotted(opcode, inputs), body);
        if is_empty(&all) {
            None
        } else {
            Some(all)
        }
    }

    /// What happened on aligned row `at`, in words; nothing where nothing
    /// did.
    pub fn describe_row(&self, at: usize) -> (out: Option<String>)
        ensures
            match out {
                Some(d) => at < self.rows@.len() && row_text(
                    self.left@,
                    self.right@,
                    self.rows@[at as int],
                ) == Some(d@),
                None => at < self.rows@.len() ==> row_text(
                    self.left@,
                    self.right@,
                    self.rows@[at as int],
                ) is None,
            },
    {
        if at >= self.rows.len() {
            return None;
        }
        let row: DiffRow = self.rows[at];
        let l = half_id(&self.left, row.left);
        let r = half_id(&self.right, row.right);
        match row.status {
            RowStatus::Same => None,
            RowStatus::Added => match r {
                Some(id) => Some(name_node(id, " added")),
                None => Some(text::owned("line added")),
            },
            RowStatus::Deleted => match l {
                Some(id) => Some(name_node(id, " deleted")),
                None => Some(text::owned("line deleted")),
            },
            RowStatus::Moved { changed } => {
                let id: NodeId = match l {
                    Some(id) => id,
                    None => match r {
                        Some(id) => id,
                        None => {
                            return None;
                        },
                    },
                };
                if changed {
                    let mut rest = text::owned(" moved and changed");
                    let ghost words = rest@;
                    match self.change_detail(id, id) {
                        Some(d) => {
                            rest.append(" · ");
                            rest.append(d.as_str());
                            assert(rest@ =~= words + (" · "@ + d@));
                        },
                        None => {
                            assert(rest@ =~= words + Seq::<char>::empty());
                        },
                    }
                    Some(name_node(id, rest.as_str()))
                } else {
                    Some(name_node(id, " moved"))
                }
            },
            RowStatus::Replaced { by } => match l {
                Some(id) => {
                    let mut rest = text::owned(" replaced by n");
                    text::push_decimal(&mut rest, by as usize);
                    rest.append(" (Identity)");
                    Some(name_node(id, rest.as_str()))
                },
                None => None,
            },
            RowStatus::Changed { .. } => match l {
                Some(l_id) => {
                    let r_id: NodeId = match r {
                        Some(id) => id,
                        None => l_id,
                    };
                    match self.change_detail(l_id, r_id) {
                        Some(d) => {
                            let mut rest = text::owned(" changed: ");
                            rest.append(d.as_str());
                            Some(name_node(l_id, rest.as_str()))
                        },
                        None => None,
                    }
                },
                None => None,
            },
        }
    }
}

// ---------------------------------------------------------------------------
// Laws
// ---------------------------------------------------------------------------

/// The left rows that aligned rows name, in order.
pub open spec fn left_places(rows: Seq<DiffRow>) -> Seq<int>
    decreases rows.len(),
{
    if rows.len() == 0 {
        Seq::empty()
    } else {
        match rows.last().left {
            Some(k) => left_places(rows.drop_last()).push(k as int),
            None => left_places(rows.drop_last()),
        }
    }
}

/// The right rows that aligned rows name, in order.
pub open spec fn right_places(rows: Seq<DiffRow>) -> Seq<int>
    decreases rows.len(),
{
    if rows.len() == 0 {
        Seq::empty()
    } else {
        match rows.last().right {
            Some(k) => right_places(rows.drop_last()).push(k as int),
            None => right_places(rows.drop_last()),
        }
    }
}

/// The numbers below `n`, in order.
pub open spec fn below(n: int) -> Seq<int> {
    Seq::new(n as nat, |k: int| k)
}

/// The halves of every full row have the same key.
pub open spec fn pairs_share_keys(rows: Seq<DiffRow>, left: SideModel, right: SideModel) -> bool {
    forall|k: int|
        0 <= k < rows.len() ==> match ((#[trigger] rows[k]).left, rows[k].right) {
            (Some(l), Some(r)) => left.keys[l as int] == right.keys[r as int],
            _ => true,
        }
}

spec fn covers(st: Aligned, left: SideModel, right: SideModel, a: int, b: int) -> bool {
    &&& left_places(st.rows) == below(a)
    &&& right_places(st.rows) == below(b)
    &&& pairs_share_keys(st.rows, left, right)
}

proof fn lemma_with(
    st: Aligned,
    left: SideModel,
    right: SideModel,
    a: int,
    b: int,
    l: Option<usize>,
    r: Option<usize>,
    judged: (RowStatus, Summary),
)
    requires
        0 <= a,
        0 <= b,
        covers(st, left, right, a, b),
        l matches Some(x) ==> x == a,
        r matches Some(x) ==> x == b,
        l is Some && r is Some ==> left.keys[a] == right.keys[b],
    ensures
        covers(
            st.with(l, r, judged),
            left,
            right,
            if l is Some {
                a + 1
            } else {
                a
            },
            if r is Some {
                b + 1
            } else {
                b
            },
        ),
{
    let rows = st.with(l, r, judged).rows;
    assert(rows.drop_last() =~= st.rows);
    assert(below(a).push(a) =~= below(a + 1));
    assert(below(b).push(b) =~= below(b + 1));
}

proof fn lemma_pairs_cover(
    st: Aligned,
    left: SideModel,
    right: SideModel,
    a: int,
    b: int,
    n: int,
)
    requires
        0 <= a,
        0 <= b,
        0 <= n,
        a + n <= left.keys.len() <= usize::MAX,
        b + n <= right.keys.len() <= usize::MAX,
        covers(st, left, right, a, b),
        forall|k: int| 0 <= k < n ==> left.keys[#[trigger] (a + k)] == right.keys[b + k],
    ensures
        covers(with_pairs(st, left, a, right, b, n), left, right, a + n, b + n),
    decreases n,
{
    if n > 0 {
        lemma_pairs_cover(st, left, right, a, b, n - 1);
        let before = with_pairs(st, left, a, right, b, n - 1);
        assert(left.keys[a + (n - 1)] == right.keys[b + (n - 1)]);
        lemma_with(
            before,
            left,
            right,
            a + n - 1,
            b + n - 1,
            Some((a + n - 1) as usize),
            Some((b + n - 1) as usize),
            judged(left, a + n - 1, right, b + n - 1, before.summary),
        );
    }
}

proof fn lemma_deleted_cover(
    st: Aligned,
    left: SideModel,
    right: SideModel,
    a: int,
    b: int,
    n: int,
)
    requires
        0 <= a,
        0 <= b,
        0 <= n,
        a + n <= left.keys.len() <= usize::MAX,
        covers(st, left, right, a, b),
    ensures
        covers(with_deleted(st, left, a, right, n), left, right, a + n, b),
    decreases n,
{
    if n > 0 {
        lemma_deleted_cover(st, left, right, a, b, n - 1);
        let before = with_deleted(st, left, a, right, n - 1);
        lemma_with(
            before,
            left,
            right,
            a + n - 1,
            b,
            Some((a + n - 1) as usize),
            None,
            single_judged(left.keys[a + n - 1], left, right, before.summary, false),
        );
    }
}

proof fn lemma_added_cover(
    st: Aligned,
    left: SideModel,
    right: SideModel,
    a: int,
    b: int,
    n: int,
)
    requires
        0 <= a,
        0 <= b,
        0 <= n,
        b + n <= right.keys.len() <= usize::MAX,
        covers(st, left, right, a, b),
    ensures
        covers(with_added(st, left, right, b, n), left, right, a, b + n),
    decreases n,
{
    if n > 0 {
        lemma_added_cover(st, left, right, a, b, n - 1);
        let before = with_added(st, left, right, b, n - 1);
        lemma_with(
            before,
            left,
            right,
            a,
            b + n - 1,
            None,
            Some((b + n - 1) as usize),
            single_judged(right.keys[b + n - 1], right, left, before.summary, true),
        );
    }
}

proof fn lemma_steps_cover(
    left: SideModel,
    right: SideModel,
    steps: Seq<Step>,
    i: int,
    a: int,
    b: int,
)
    requires
        0 <= i <= steps.len(),
        0 <= a,
        0 <= b,
        left.keys.len() <= usize::MAX,
        right.keys.len() <= usize::MAX,
        leads_through(
            steps,
            i,
            left_numbers(left.keys, right.keys),
            a,
            right_numbers(left.keys, right.keys),
            b,
        ),
        covers(with_steps(left, right, steps, i), left, right, a, b),
    ensures
        covers(
            aligned(left, right, steps),
            left,
            right,
            left.keys.len() as int,
            right.keys.len() as int,
        ),
    decreases steps.len() - i,
{
    let old = left_numbers(left.keys, right.keys);
    let new = right_numbers(left.keys, right.keys);
    assert(old.len() == left.keys.len());
    assert(new.len() == right.keys.len());
    if i < steps.len() {
        let st = with_steps(left, right, steps, i);
        assert(with_steps(left, right, steps, i + 1) == with_step(st, left, right, steps[i]));
        match steps[i] {
            Step::Equal { len, .. } => {
                assert forall|k: int| 0 <= k < len implies left.keys[#[trigger] (a + k)]
                    == right.keys[b + k] by {
                    let all = left.keys + right.keys;
                    let p = a + k;
                    let q = left.keys.len() + b + k;
                    assert(old.subrange(a, a + len)[k] == new.subrange(b, b + len)[k]);
                    assert(old[p] == align::numbers(all)[p]);
                    assert(new[b + k] == align::numbers(all)[q]);
                    align::law_numbers_tell_keys_apart(all, p, q);
                    assert(all[p] == left.keys[p]);
                    assert(all[q] == right.keys[b + k]);
                }
                lemma_pairs_cover(st, left, right, a, b, len as int);
                lemma_steps_cover(left, right, steps, i + 1, a + len, b + len);
            },
            Step::Delete { len, .. } => {
                lemma_deleted_cover(st, left, right, a, b, len as int);
                lemma_steps_cover(left, right, steps, i + 1, a + len, b);
            },
            Step::Insert { len, .. } => {
                lemma_added_cover(st, left, right, a, b, len as int);
                lemma_steps_cover(left, right, steps, i + 1, a, b + len);
            },
            Step::Replace { old_len, new_len, .. } => {
                lemma_deleted_cover(st, left, right, a, b, old_len as int);
                let mid = with_deleted(st, left, a, right, old_len as int);
                lemma_added_cover(mid, left, right, a + old_len, b, new_len as int);
                lemma_steps_cover(left, right, steps, i + 1, a + old_len, b + new_len);
            },
        }
    }
}

/// Every row of both sides stands in exactly one aligned row, in order, and
/// the halves of a full row have the same key.
pub proof fn law_alignment_covers_both_sides(left: SideModel, right: SideModel, steps: Seq<Step>)
    requires
        left.keys.len() <= usize::MAX,
        right.keys.len() <= usize::MAX,
        leads_through(
            steps,
            0,
            left_numbers(left.keys, right.keys),
            0,
            right_numbers(left.keys, right.keys),
            0,
        ),
    ensures
        left_places(aligned(left, right, steps).rows) == below(left.keys.len() as int),
        right_places(aligned(left, right, steps).rows) == below(right.keys.len() as int),
        pairs_share_keys(aligned(left, right, steps).rows, left, right),
{
    assert(below(0) =~= Seq::<int>::empty());
    assert(covers(with_steps(left, right, steps, 0), left, right, 0, 0));
    lemma_steps_cover(left, right, steps, 0, 0, 0);
}

/// The node ids of one compilation mean the same on both sides: a node that
/// is still there is never reported as added or deleted.
pub proof fn law_a_node_on_both_sides_is_never_lost(
    id: NodeId,
    own: SideModel,
    other: SideModel,
    summary: Summary,
    added: bool,
)
    requires
        other.nodes.dom().contains(id),
    ensures
        single_judged(KeyModel::Node(id), own, other, summary, added).0 is Moved,
{
}

/// A pair of nodes that say the same is the same, and nothing is counted.
pub proof fn law_equal_nodes_are_the_same(
    id: NodeId,
    left: SideModel,
    right: SideModel,
    summary: Summary,
)
    requires
        left.nodes.dom().contains(id),
        right.nodes.dom().contains(id),
        left.nodes[id] == right.nodes[id],
    ensures
        pair_judged(id, left, right, summary) == (RowStatus::Same, summary),
{
}

} // verus!
