//! What a node line says beyond its identity: opcode, inputs, branch targets
//! and operands.
//!
//! Phases drop parts of a line without the node changing, so each part of
//! the operands is compared only where both phases print it.

use vstd::prelude::*;
#[allow(unused_imports)]
use vstd::string::*;

#[allow(unused_imports)]
use super::canon::canonical;
use super::canon::canonicalize;
#[allow(unused_imports)]
use crate::model::NodeModel;
use crate::model::{IRNode, NodeId, NodeRef};
use crate::text;
#[allow(unused_imports)]
use crate::text::{decimal, find_byte_in, find_from, occurs_at, utf8_lossy};

verus! {

/// The operands of a node line, part by part.
pub struct Operands {
    /// The group attached to the opcode, as in `Int32Constant(0)`, with input
    /// ids masked.
    pub attached: String,
    /// The `<…>` heap objects behind the opcode.
    pub heap: String,
    /// The `[…]` groups that carry meaning and not a location.
    pub brackets: String,
    /// Whether the value can be truncated, where the phase says so.
    pub truncate: Option<bool>,
    /// The dead mark, where the phase prints use counts.
    pub dead: Option<bool>,
}

/// The view of `Operands`.
#[verifier::ext_equal]
pub struct OperandsModel {
    pub attached: Seq<char>,
    pub heap: Seq<char>,
    pub brackets: Seq<char>,
    pub truncate: Option<bool>,
    pub dead: Option<bool>,
}

impl View for Operands {
    type V = OperandsModel;

    open spec fn view(&self) -> OperandsModel {
        OperandsModel {
            attached: self.attached@,
            heap: self.heap@,
            brackets: self.brackets@,
            truncate: self.truncate,
            dead: self.dead,
        }
    }
}

/// Both phases print the part, and differently.
pub open spec fn both_differ(a: Seq<char>, b: Seq<char>) -> bool {
    a.len() > 0 && b.len() > 0 && a != b
}

/// The truncation verdict in words.
pub open spec fn truncate_words(yes: bool) -> Seq<char> {
    if yes {
        "can truncate"@
    } else {
        "cannot truncate"@
    }
}

/// The dead mark in words.
pub open spec fn dead_words(dead: bool) -> Seq<char> {
    if dead {
        "dead 🪦"@
    } else {
        "live"@
    }
}

/// The first part in which operands differ, before and after.
pub open spec fn operands_change(a: OperandsModel, b: OperandsModel) -> Option<
    (Seq<char>, Seq<char>),
> {
    if both_differ(a.attached, b.attached) {
        Some((a.attached, b.attached))
    } else if both_differ(a.heap, b.heap) {
        Some((a.heap, b.heap))
    } else if both_differ(a.brackets, b.brackets) {
        Some((a.brackets, b.brackets))
    } else if a.truncate is Some && b.truncate is Some && a.truncate != b.truncate {
        Some((truncate_words(a.truncate->0), truncate_words(b.truncate->0)))
    } else if a.dead is Some && b.dead is Some && a.dead != b.dead {
        Some((dead_words(a.dead->0), dead_words(b.dead->0)))
    } else {
        None
    }
}

/// An optional pair of texts.
pub open spec fn text_pair(p: Option<(String, String)>) -> Option<(Seq<char>, Seq<char>)> {
    match p {
        Some((a, b)) => Some((a@, b@)),
        None => None,
    }
}

fn differ(a: &String, b: &String) -> (yes: bool)
    ensures
        yes == both_differ(a@, b@),
{
    let empty = String::new();
    proof {
        assert(empty@ =~= Seq::<char>::empty());
        assert(a@.len() == 0 ==> a@ =~= empty@);
        assert(b@.len() == 0 ==> b@ =~= empty@);
    }
    *a != empty && *b != empty && *a != *b
}

fn truncate_word(yes: bool) -> (out: String)
    ensures
        out@ == truncate_words(yes),
{
    if yes {
        text::owned("can truncate")
    } else {
        text::owned("cannot truncate")
    }
}

fn dead_word(dead: bool) -> (out: String)
    ensures
        out@ == dead_words(dead),
{
    if dead {
        text::owned("dead 🪦")
    } else {
        text::owned("live")
    }
}

impl Operands {
    /// The first part in which the operands differ, before and after.
    pub fn differs(&self, other: &Operands) -> (change: Option<(String, String)>)
        ensures
            text_pair(change) == operands_change(self@, other@),
    {
        if differ(&self.attached, &other.attached) {
            return Some((self.attached.clone(), other.attached.clone()));
        }
        if differ(&self.heap, &other.heap) {
            return Some((self.heap.clone(), other.heap.clone()));
        }
        if differ(&self.brackets, &other.brackets) {
            return Some((self.brackets.clone(), other.brackets.clone()));
        }
        if let Some(a) = self.truncate {
            if let Some(b) = other.truncate {
                if a != b {
                    return Some((truncate_word(a), truncate_word(b)));
                }
            }
        }
        if let Some(a) = self.dead {
            if let Some(b) = other.dead {
                if a != b {
                    return Some((dead_word(a), dead_word(b)));
                }
            }
        }
        None
    }
}

/// Everything that a node line says beyond its identity.
pub struct NodeShape {
    pub opcode: String,
    pub inputs: Vec<NodeId>,
    /// Branch targets, as block ids.
    pub targets: Vec<u32>,
    pub operands: Operands,
}

/// The view of a `NodeShape`.
#[verifier::ext_equal]
pub struct ShapeModel {
    pub opcode: Seq<char>,
    pub inputs: Seq<NodeId>,
    pub targets: Seq<u32>,
    pub operands: OperandsModel,
}

impl View for NodeShape {
    type V = ShapeModel;

    open spec fn view(&self) -> ShapeModel {
        ShapeModel {
            opcode: self.opcode@,
            inputs: self.inputs@,
            targets: self.targets@,
            operands: self.operands@,
        }
    }
}

/// Ids in decimal with `mark` before each and `sep` between them.
pub open spec fn id_list(ids: Seq<u32>, mark: char, sep: Seq<char>) -> Seq<char>
    decreases ids.len(),
{
    if ids.len() == 0 {
        Seq::empty()
    } else if ids.len() == 1 {
        seq![mark] + decimal(ids[0] as int)
    } else {
        id_list(ids.drop_last(), mark, sep) + sep + (seq![mark] + decimal(ids.last() as int))
    }
}

/// Writes ids in decimal with `mark` before each and `sep` between them.
pub fn list_ids(ids: &Vec<u32>, mark: char, sep: &str) -> (out: String)
    ensures
        out@ == id_list(ids@, mark, sep@),
{
    let mut out = String::new();
    let mut k: usize = 0;
    assert(ids@.take(0).len() == 0);
    while k < ids.len()
        invariant
            k <= ids@.len(),
            out@ == id_list(ids@.take(k as int), mark, sep@),
        decreases ids.len() - k,
    {
        let ghost before = out@;
        if k > 0 {
            out.append(sep);
        }
        out.push(mark);
        text::push_decimal(&mut out, ids[k] as usize);
        proof {
            let now = ids@.take(k + 1);
            assert(now.drop_last() =~= ids@.take(k as int));
            assert(now.last() == ids@[k as int]);
            if k == 0 {
                assert(out@ =~= seq![mark] + decimal(ids@[0] as int));
            } else {
                assert(out@ =~= before + sep@ + (seq![mark] + decimal(ids@[k as int] as int)));
            }
        }
        k += 1;
    }
    assert(ids@.take(k as int) =~= ids@);
    out
}

/// What of two shapes differs besides opcode and inputs, before and after.
pub open spec fn body_change_of(a: ShapeModel, b: ShapeModel) -> Option<(Seq<char>, Seq<char>)> {
    if a.targets != b.targets {
        Some((id_list(a.targets, 'b', " "@), id_list(b.targets, 'b', " "@)))
    } else {
        operands_change(a.operands, b.operands)
    }
}

/// Are two lists of ids the same?
pub fn same_ids(a: &Vec<u32>, b: &Vec<u32>) -> (yes: bool)
    ensures
        yes == (a@ == b@),
{
    if a.len() != b.len() {
        return false;
    }
    let mut k: usize = 0;
    while k < a.len()
        invariant
            k <= a@.len(),
            a@.len() == b@.len(),
            forall|m: int| 0 <= m < k ==> a@[m] == b@[m],
        decreases a.len() - k,
    {
        if a[k] != b[k] {
            return false;
        }
        k += 1;
    }
    assert(a@ =~= b@);
    true
}

impl NodeShape {
    /// What differs besides opcode and inputs, before and after.
    pub fn body_change(&self, other: &NodeShape) -> (change: Option<(String, String)>)
        ensures
            text_pair(change) == body_change_of(self@, other@),
    {
        if !same_ids(&self.targets, &other.targets) {
            return Some((list_ids(&self.targets, 'b', " "), list_ids(&other.targets, 'b', " ")));
        }
        self.operands.differs(&other.operands)
    }
}

// ---------------------------------------------------------------------------
// Reading the operands of a line
// ---------------------------------------------------------------------------

/// Position `at` lies in the token of an input.
pub open spec fn in_input(inputs: Seq<NodeRef>, at: int) -> bool {
    exists|k: int|
        0 <= k < inputs.len() && (#[trigger] inputs[k]).span.start <= at < inputs[k].span.end
}

fn lies_in_input(inputs: &Vec<NodeRef>, at: usize) -> (yes: bool)
    ensures
        yes == in_input(inputs@, at as int),
{
    let mut k: usize = 0;
    while k < inputs.len()
        invariant
            k <= inputs@.len(),
            forall|m: int|
                0 <= m < k ==> !((#[trigger] inputs@[m]).span.start <= at < inputs@[m].span.end),
        decreases inputs.len() - k,
    {
        if inputs[k].span.start as usize <= at && at < inputs[k].span.end as usize {
            return true;
        }
        k += 1;
    }
    false
}

/// The token of an input reaches into `from..to`.
pub open spec fn touches_input(inputs: Seq<NodeRef>, from: int, to: int) -> bool {
    exists|k: int|
        0 <= k < inputs.len() && (#[trigger] inputs[k]).span.start < to && from < inputs[k].span.end
            && inputs[k].span.start < inputs[k].span.end
}

fn reaches_input(inputs: &Vec<NodeRef>, from: usize, to: usize) -> (yes: bool)
    ensures
        yes == touches_input(inputs@, from as int, to as int),
{
    let mut k: usize = 0;
    while k < inputs.len()
        invariant
            k <= inputs@.len(),
            forall|m: int|
                0 <= m < k ==> !((#[trigger] inputs@[m]).span.start < to && from
                    < inputs@[m].span.end && inputs@[m].span.start < inputs@[m].span.end),
        decreases inputs.len() - k,
    {
        let start: u32 = inputs[k].span.start;
        let end: u32 = inputs[k].span.end;
        if (start as usize) < to && from < (end as usize) && start < end {
            return true;
        }
        k += 1;
    }
    false
}

/// The bytes end in the mask character.
pub open spec fn ends_masked(piece: Seq<u8>) -> bool {
    piece.len() >= 2 && piece[piece.len() - 2] == 0xc2 && piece[piece.len() - 1] == 0xb7
}

/// `piece` with the bytes in `at..end` behind it, each run of input tokens
/// written as one mask character.
pub open spec fn masked_bytes(
    s: Seq<u8>,
    inputs: Seq<NodeRef>,
    at: int,
    end: int,
    piece: Seq<u8>,
) -> Seq<u8>
    decreases end - at,
{
    if at >= end {
        piece
    } else if in_input(inputs, at) {
        masked_bytes(
            s,
            inputs,
            at + 1,
            end,
            if ends_masked(piece) {
                piece
            } else {
                piece.push(0xc2).push(0xb7)
            },
        )
    } else {
        masked_bytes(s, inputs, at + 1, end, piece.push(s[at]))
    }
}

/// The group in `from..to` in canonical form, with input ids masked.
pub open spec fn masked_group(s: Seq<u8>, inputs: Seq<NodeRef>, from: int, to: int) -> Seq<char> {
    canonical(utf8_lossy(masked_bytes(s, inputs, from, to, Seq::empty())))
}

fn mask_group(s: &[u8], inputs: &Vec<NodeRef>, from: usize, to: usize) -> (out: String)
    requires
        from <= to <= s@.len(),
    ensures
        out@ == masked_group(s@, inputs@, from as int, to as int),
{
    let mut piece: Vec<u8> = Vec::new();
    let mut at: usize = from;
    while at < to
        invariant
            from <= at <= to <= s@.len(),
            masked_bytes(s@, inputs@, from as int, to as int, Seq::empty()) == masked_bytes(
                s@,
                inputs@,
                at as int,
                to as int,
                piece@,
            ),
        decreases to - at,
    {
        if lies_in_input(inputs, at) {
            let n: usize = piece.len();
            if !(n >= 2 && piece[n - 2] == 0xc2 && piece[n - 1] == 0xb7) {
                piece.push(0xc2);
                piece.push(0xb7);
            }
        } else {
            piece.push(s[at]);
        }
        at += 1;
    }
    let text = text::decode_lossy(piece.as_slice());
    canonicalize(text.as_str())
}

/// Where the group that is open `depth` times at `i` closes.
pub open spec fn group_end(s: Seq<u8>, i: int, open: u8, close: u8, depth: int) -> int
    decreases s.len() - i,
{
    if i < 0 || i >= s.len() {
        s.len() as int
    } else if s[i] == open {
        group_end(s, i + 1, open, close, depth + 1)
    } else if s[i] == close {
        if depth == 1 {
            i + 1
        } else {
            group_end(s, i + 1, open, close, depth - 1)
        }
    } else {
        group_end(s, i + 1, open, close, depth)
    }
}

fn close_group(s: &[u8], from: usize, open: u8, close: u8) -> (end: usize)
    requires
        from < s@.len(),
        s@[from as int] == open,
        open != close,
    ensures
        end == group_end(s@, from as int, open, close, 0),
        from < end <= s@.len(),
{
    let n: usize = s.len();
    let mut depth: usize = 1;
    let mut i: usize = from + 1;
    while i < n
        invariant
            n == s@.len(),
            from < i <= n,
            1 <= depth <= i - from,
            open != close,
            group_end(s@, from as int, open, close, 0) == group_end(
                s@,
                i as int,
                open,
                close,
                depth as int,
            ),
        decreases n - i,
    {
        if s[i] == open {
            depth += 1;
        } else if s[i] == close {
            if depth == 1 {
                return i + 1;
            }
            depth -= 1;
        }
        i += 1;
    }
    n
}

/// The closing byte of an attached group.
pub open spec fn closing(open: u8) -> u8 {
    if open == 0x28 {
        0x29
    } else {
        0x5d
    }
}

/// A `[…]` group that carries meaning: no register or location, no live
/// range, no input list.
pub open spec fn meaningful(s: Seq<u8>, inputs: Seq<NodeRef>, i: int, end: int) -> bool {
    &&& find_byte_in(s, i, end, 0x7c) is None
    &&& !occurs_at(s, i - "live range: ".spec_bytes().len(), "live range: ".spec_bytes())
    &&& !touches_input(inputs, i, end)
}

/// The heap objects and the meaningful groups from `i` on, behind those in
/// front of it.
pub open spec fn tail_groups(
    s: Seq<u8>,
    inputs: Seq<NodeRef>,
    i: int,
    heap: Seq<char>,
    brackets: Seq<char>,
) -> (Seq<char>, Seq<char>)
    decreases s.len() - i,
{
    if i < 0 || i >= s.len() {
        (heap, brackets)
    } else if s[i] == 0x3c {
        let end = group_end(s, i, 0x3c, 0x3e, 0);
        if i < end <= s.len() {
            tail_groups(s, inputs, end, (heap + masked_group(s, inputs, i, end)).push(' '), brackets)
        } else {
            (heap, brackets)
        }
    } else if s[i] == 0x5b {
        let end = group_end(s, i, 0x5b, 0x5d, 0);
        if i < end <= s.len() {
            tail_groups(
                s,
                inputs,
                end,
                heap,
                if meaningful(s, inputs, i, end) {
                    (brackets + masked_group(s, inputs, i, end)).push(' ')
                } else {
                    brackets
                },
            )
        } else {
            (heap, brackets)
        }
    } else {
        tail_groups(s, inputs, i + 1, heap, brackets)
    }
}

/// The operands of a node line.
pub open spec fn operands_of(s: Seq<u8>, node: NodeModel) -> OperandsModel {
    let start = node.opcode_span.end as int;
    let nothing = Seq::<char>::empty();
    if start >= s.len() {
        OperandsModel {
            attached: nothing,
            heap: nothing,
            brackets: nothing,
            truncate: None,
            dead: None,
        }
    } else {
        let grouped = s[start] == 0x28 || s[start] == 0x5b;
        let end = if grouped {
            group_end(s, start, s[start], closing(s[start]), 0)
        } else {
            start
        };
        let groups = tail_groups(s, node.inputs, end, nothing, nothing);
        OperandsModel {
            attached: if grouped {
                masked_group(s, node.inputs, start, end)
            } else {
                nothing
            },
            heap: groups.0,
            brackets: groups.1,
            truncate: if find_from(s, 0, "cannot truncate".spec_bytes()) is Some {
                Some(false)
            } else if find_from(s, 0, "can truncate".spec_bytes()) is Some {
                Some(true)
            } else {
                None
            },
            dead: if node.uses is Some {
                Some(node.dead)
            } else {
                None
            },
        }
    }
}

/// Reads the operands of a node line.
pub fn operand_shape(s: &[u8], node: &IRNode) -> (shape: Operands)
    ensures
        shape@ == operands_of(s@, node@),
{
    let n: usize = s.len();
    let inputs = &node.inputs;
    let start: usize = node.opcode_span.end as usize;
    let mut attached = String::new();
    let mut heap = String::new();
    let mut brackets = String::new();
    let ghost nothing = Seq::<char>::empty();
    assert(attached@ =~= nothing);
    if start >= n {
        return Operands { attached, heap, brackets, truncate: None, dead: None };
    }
    let mut i: usize = start;
    if s[start] == 0x28 || s[start] == 0x5b {
        let close: u8 = if s[start] == 0x28 {
            0x29
        } else {
            0x5d
        };
        i = close_group(s, start, s[start], close);
        attached = mask_group(s, inputs, start, i);
    }
    let ghost end = i as int;
    while i < n
        invariant
            n == s@.len(),
            i <= n,
            inputs == node.inputs,
            tail_groups(s@, inputs@, end, nothing, nothing) == tail_groups(
                s@,
                inputs@,
                i as int,
                heap@,
                brackets@,
            ),
        decreases n - i,
    {
        if s[i] == 0x3c {
            let close: usize = close_group(s, i, 0x3c, 0x3e);
            let group = mask_group(s, inputs, i, close);
            heap.append(group.as_str());
            heap.push(' ');
            i = close;
        } else if s[i] == 0x5b {
            let close: usize = close_group(s, i, 0x5b, 0x5d);
            let ghost word = "live range: ".spec_bytes();
            let skip: usize = "live range: ".len();
            let live: bool = i >= skip && text::starts_with_at(s, i - skip, "live range: ");
            if text::find_byte(s, i, close, 0x7c).is_none() && !live && !reaches_input(
                inputs,
                i,
                close,
            ) {
                let group = mask_group(s, inputs, i, close);
                brackets.append(group.as_str());
                brackets.push(' ');
            }
            i = close;
        } else {
            i += 1;
        }
    }
    let truncate: Option<bool> = if text::find(s, 0, "cannot truncate").is_some() {
        Some(false)
    } else if text::find(s, 0, "can truncate").is_some() {
        Some(true)
    } else {
        None
    };
    let dead: Option<bool> = if node.uses.is_some() {
        Some(node.dead)
    } else {
        None
    };
    Operands { attached, heap, brackets, truncate, dead }
}

} // verus!
