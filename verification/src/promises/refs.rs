//! The references of a line: which tokens of it name nodes and blocks.

use vstd::prelude::*;

#[allow(unused_imports)]
use super::bytes::{digit, digit_run, lemma_decimal, letter, number};
#[allow(unused_imports)]
use crate::model::NodeRef;
#[allow(unused_imports)]
use crate::parse::maglev::{node_ref_at, node_refs_from, node_refs_of, ref_token};
#[allow(unused_imports)]
use crate::text::{in_class, lemma_run_end, run_end, ByteClass};

verus! {

/// How many `<` are open in front of `i`, and whether a quote is, counted from
/// `from` on. A quote hides angle brackets.
pub open spec fn enclosed(s: Seq<u8>, from: int, i: int) -> (int, bool)
    decreases i - from,
{
    if i <= from {
        (0, false)
    } else {
        let (open, quoted) = enclosed(s, from, i - 1);
        if s[i - 1] == 34 {
            (open, !quoted)
        } else if quoted {
            (open, quoted)
        } else if s[i - 1] == 60 {
            (open + 1, quoted)
        } else if s[i - 1] == 62 && open > 0 {
            (open - 1, quoted)
        } else {
            (open, quoted)
        }
    }
}

/// The token `nN` at `i..e`: the letter and all the digits behind it, in front
/// of which and behind which the word does not go on.
pub open spec fn word_token(s: Seq<u8>, i: int, e: int, mark: u8) -> bool {
    &&& 0 <= i < s.len()
    &&& s[i] == mark
    &&& digit_run(s, i + 1, e)
    &&& i > 0 ==> !letter(s[i - 1]) && !digit(s[i - 1])
    &&& e < s.len() ==> !letter(s[e])
}

/// A node is named at `i..e`: the token stands outside `<…>` and quotes, and
/// its number is one of a node.
pub open spec fn names_node(s: Seq<u8>, from: int, i: int, e: int) -> bool {
    &&& from <= i
    &&& enclosed(s, from, i) == (0int, false)
    &&& word_token(s, i, e, 110)
    &&& number(s, i + 1, e) <= u32::MAX
}

/// The references found so far are those of the tokens in front of `i`.
spec fn found(s: Seq<u8>, from: int, i: int, refs: Seq<NodeRef>) -> bool {
    &&& forall|k: int|
        0 <= k < refs.len() ==> {
            let r = #[trigger] refs[k];
            &&& r.span.start < i
            &&& names_node(s, from, r.span.start as int, r.span.end as int)
            &&& r.node == number(s, r.span.start + 1, r.span.end as int)
        }
    &&& forall|j: int, k: int|
        0 <= j < k < refs.len() ==> (#[trigger] refs[j]).span.start < (
        #[trigger] refs[k]).span.start
    &&& forall|p: int, e: int|
        p < i && #[trigger] names_node(s, from, p, e) ==> exists|k: int|
            0 <= k < refs.len() && (#[trigger] refs[k]).span.start == p
}

proof fn lemma_extended(s: Seq<u8>, from: int, i: int, to: int, refs: Seq<NodeRef>)
    requires
        found(s, from, i, refs),
        i <= to,
        forall|p: int, e: int| i <= p < to ==> !#[trigger] names_node(s, from, p, e),
    ensures
        found(s, from, to, refs),
{
}

proof fn lemma_token(s: Seq<u8>, from: int, i: int, refs: Seq<NodeRef>)
    requires
        0 <= from <= i < s.len() <= u32::MAX,
        enclosed(s, from, i) == (0int, false),
        ref_token(s, 0, i, 0x6e),
        found(s, from, i, refs),
    ensures
        ({
            let e = run_end(s, i + 1, ByteClass::Digit);
            &&& i < e <= s.len()
            &&& enclosed(s, from, e) == (0int, false)
            &&& found(
                s,
                from,
                e,
                crate::parse::maglev::with_some(refs, node_ref_at(s, i)),
            )
        }),
{
    let e = run_end(s, i + 1, ByteClass::Digit);
    lemma_run_end(s, i + 1, ByteClass::Digit);
    assert(in_class(ByteClass::Digit, s[i + 1]));
    assert(e > i + 1);
    assert forall|k: int| i + 1 <= k < e implies digit(#[trigger] s[k]) by {
        assert(in_class(ByteClass::Digit, s[k]));
    }
    assert(digit_run(s, i + 1, e));
    lemma_decimal(s, i + 1, e);
    lemma_plain(s, from, i, e);
    let out = crate::parse::maglev::with_some(refs, node_ref_at(s, i));
    assert forall|p: int, q: int| i <= p < e && #[trigger] names_node(s, from, p, q) implies p == i
        && q == e by {
        if p > i {
            assert(digit(s[p]));
        } else {
            if q < e {
                assert(digit(s[q]));
            }
            if e < q {
                assert(digit(s[e]));
            }
        }
    }
    if node_ref_at(s, i) is Some {
        assert(names_node(s, from, i, e));
        assert(out[refs.len() as int].span.start == i);
        assert forall|p: int, q: int|
            p < e && #[trigger] names_node(s, from, p, q) implies exists|k: int|
            0 <= k < out.len() && (#[trigger] out[k]).span.start == p by {
            if p < i {
                let k = choose|k: int| 0 <= k < refs.len() && (#[trigger] refs[k]).span.start == p;
                assert(out[k] == refs[k]);
            } else {
                assert(out[refs.len() as int].span.start == p);
            }
        }
        assert forall|k: int| 0 <= k < out.len() implies ({
            let r = #[trigger] out[k];
            &&& r.span.start < e
            &&& names_node(s, from, r.span.start as int, r.span.end as int)
            &&& r.node == number(s, r.span.start + 1, r.span.end as int)
        }) by {
            if k < refs.len() {
                assert(out[k] == refs[k]);
            } else {
                assert(k == refs.len());
                assert(out[k] == node_ref_at(s, i)->0);
                assert(out[k].span.start == i);
                assert(out[k].span.end == e);
                assert(out[k].node == number(s, i + 1, e));
            }
        }
        assert forall|j: int, k: int| 0 <= j < k < out.len() implies (#[trigger] out[j]).span.start
            < (#[trigger] out[k]).span.start by {
            assert(out[j] == refs[j]);
            if k < refs.len() {
                assert(out[k] == refs[k]);
            }
        }
    } else {
        assert(!names_node(s, from, i, e));
        assert(out == refs);
        lemma_extended(s, from, i, e, refs);
    }
}

/// Digits and the letter in front of them open and close nothing.
proof fn lemma_plain(s: Seq<u8>, from: int, i: int, e: int)
    requires
        0 <= from <= i < e <= s.len(),
        enclosed(s, from, i) == (0int, false),
        s[i] == 110,
        forall|k: int| i + 1 <= k < e ==> digit(#[trigger] s[k]),
    ensures
        enclosed(s, from, e) == (0int, false),
    decreases e - i,
{
    if e > i + 1 {
        lemma_plain(s, from, i, e - 1);
        assert(digit(s[e - 1]));
    } else {
        assert(enclosed(s, from, i + 1) == (0int, false));
    }
}

proof fn lemma_scan(
    s: Seq<u8>,
    from: int,
    i: int,
    angles: int,
    quoted: bool,
    refs: Seq<NodeRef>,
)
    requires
        0 <= from <= i <= s.len() <= u32::MAX,
        enclosed(s, from, i) == (angles, quoted),
        angles >= 0,
        found(s, from, i, refs),
    ensures
        found(s, from, s.len() as int, node_refs_from(s, i, angles, quoted, refs)),
    decreases s.len() - i,
{
    if i < s.len() {
        if s[i] != 0x22 && !(s[i] == 0x3c && !quoted) && !(s[i] == 0x3e && !quoted) && angles == 0
            && !quoted && ref_token(s, 0, i, 0x6e) {
            lemma_token(s, from, i, refs);
            lemma_scan(
                s,
                from,
                run_end(s, i + 1, ByteClass::Digit),
                angles,
                quoted,
                crate::parse::maglev::with_some(refs, node_ref_at(s, i)),
            );
        } else {
            assert forall|p: int, e: int| i <= p < i + 1 implies !#[trigger] names_node(
                s,
                from,
                p,
                e,
            ) by {
                if names_node(s, from, p, e) {
                    assert(digit(s[p + 1]));
                    assert(in_class(ByteClass::Digit, s[p + 1]));
                    assert(ref_token(s, 0, i, 0x6e));
                }
            }
            lemma_extended(s, from, i, i + 1, refs);
            let (a, q) = enclosed(s, from, i + 1);
            lemma_scan(s, from, i + 1, a, q, refs);
        }
    }
}

/// The references of a line are its node tokens, all of them and nothing else,
/// in order: every `nN` that stands free outside `<…>` and quotes is read once,
/// as the number that its digits spell.
pub proof fn law_every_node_token_is_a_reference(s: Seq<u8>, from: int)
    requires
        0 <= from <= s.len() <= u32::MAX,
    ensures
        ({
            let refs = node_refs_of(s, from);
            &&& forall|k: int|
                0 <= k < refs.len() ==> {
                    let r = #[trigger] refs[k];
                    &&& names_node(s, from, r.span.start as int, r.span.end as int)
                    &&& r.node == number(s, r.span.start + 1, r.span.end as int)
                }
            &&& forall|j: int, k: int|
                0 <= j < k < refs.len() ==> (#[trigger] refs[j]).span.start < (
                #[trigger] refs[k]).span.start
            &&& forall|p: int, e: int| #[trigger]
                names_node(s, from, p, e) ==> exists|k: int|
                    0 <= k < refs.len() && (#[trigger] refs[k]).span.start == p
        }),
{
    assert(found(s, from, from, Seq::empty())) by {
        assert forall|p: int, e: int| p < from implies !#[trigger] names_node(s, from, p, e) by {}
    }
    lemma_scan(s, from, from, 0, false, Seq::empty());
    let refs = node_refs_of(s, from);
    assert forall|p: int, e: int| #[trigger] names_node(s, from, p, e) implies exists|k: int|
        0 <= k < refs.len() && (#[trigger] refs[k]).span.start == p by {
        assert(p < s.len());
    }
}

} // verus!
