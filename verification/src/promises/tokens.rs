//! References that are a sign and digits, wherever they stand on a line.

use vstd::prelude::*;

#[allow(unused_imports)]
use super::bytes::{digit, digit_run, lemma_decimal, letter, number};
#[allow(unused_imports)]
use crate::model::{BlockRef, NodeRef};
#[allow(unused_imports)]
use crate::parse::maglev::{block_ref_at, block_refs_from, ref_token, with_some};
#[allow(unused_imports)]
use crate::parse::turbofan::{
    hash_refs_of, token_ref, token_refs_from, upper_block_refs_of, vreg_refs_of,
};
#[allow(unused_imports)]
use crate::text::{in_class, lemma_run_end, run_end, ByteClass};

verus! {

/// A token at `i..e`: `mark` and all the digits behind it. It does not continue
/// a word, unless it is the first thing at `lo`. A `whole` token has no letter
/// behind its digits either.
pub open spec fn token(s: Seq<u8>, lo: int, i: int, e: int, mark: u8, whole: bool) -> bool {
    &&& 0 <= i < s.len()
    &&& s[i] == mark
    &&& digit_run(s, i + 1, e)
    &&& i > lo ==> i > 0 && !letter(s[i - 1]) && !digit(s[i - 1])
    &&& whole && e < s.len() ==> !letter(s[e])
    &&& number(s, i + 1, e) <= u32::MAX
}

/// A list of places and numbers is that of the tokens from `from` on and in
/// front of `to`: each of them once, in order, with its number.
pub open spec fn lists_tokens(
    list: Seq<(u32, u32, u32)>,
    s: Seq<u8>,
    lo: int,
    from: int,
    to: int,
    mark: u8,
    whole: bool,
) -> bool {
    &&& forall|k: int|
        0 <= k < list.len() ==> {
            let (a, b, n) = #[trigger] list[k];
            &&& from <= a < to
            &&& token(s, lo, a as int, b as int, mark, whole)
            &&& n == number(s, a + 1, b as int)
        }
    &&& forall|j: int, k: int|
        0 <= j < k < list.len() ==> (#[trigger] list[j]).0 < (#[trigger] list[k]).0
    &&& forall|p: int, e: int|
        from <= p < to && #[trigger] token(s, lo, p, e, mark, whole) ==> exists|k: int|
            0 <= k < list.len() && (#[trigger] list[k]).0 == p
}

/// Places and numbers of node references.
pub open spec fn node_places(refs: Seq<NodeRef>) -> Seq<(u32, u32, u32)> {
    refs.map_values(|r: NodeRef| (r.span.start, r.span.end, r.node))
}

/// Places and numbers of block references.
pub open spec fn block_places(refs: Seq<BlockRef>) -> Seq<(u32, u32, u32)> {
    refs.map_values(|r: BlockRef| (r.span.start, r.span.end, r.block))
}

proof fn lemma_no_token(
    list: Seq<(u32, u32, u32)>,
    s: Seq<u8>,
    lo: int,
    from: int,
    i: int,
    to: int,
    mark: u8,
    whole: bool,
)
    requires
        lists_tokens(list, s, lo, from, i, mark, whole),
        i <= to,
        forall|p: int, e: int| i <= p < to ==> !#[trigger] token(s, lo, p, e, mark, whole),
    ensures
        lists_tokens(list, s, lo, from, to, mark, whole),
{
}

proof fn lemma_one_token(
    list: Seq<(u32, u32, u32)>,
    s: Seq<u8>,
    lo: int,
    from: int,
    i: int,
    e: int,
    mark: u8,
    whole: bool,
)
    requires
        lists_tokens(list, s, lo, from, i, mark, whole),
        0 <= from <= i < e <= s.len() <= u32::MAX,
        token(s, lo, i, e, mark, whole),
        !digit(mark),
    ensures
        lists_tokens(
            list.push((i as u32, e as u32, number(s, i + 1, e) as u32)),
            s,
            lo,
            from,
            e,
            mark,
            whole,
        ),
{
    lemma_decimal(s, i + 1, e);
    let x = (i as u32, e as u32, number(s, i + 1, e) as u32);
    let out = list.push(x);
    let n = list.len() as int;
    assert(out[n] == x);
    assert forall|k: int| 0 <= k < out.len() implies ({
        let (a, b, n) = #[trigger] out[k];
        &&& from <= a < e
        &&& token(s, lo, a as int, b as int, mark, whole)
        &&& n == number(s, a + 1, b as int)
    }) by {
        if k < n {
            assert(out[k] == list[k]);
        }
    }
    assert forall|j: int, k: int| 0 <= j < k < out.len() implies (#[trigger] out[j]).0 < (
    #[trigger] out[k]).0 by {
        assert(out[j] == list[j]);
        if k < n {
            assert(out[k] == list[k]);
        }
    }
    assert forall|p: int, q: int|
        from <= p < e && #[trigger] token(s, lo, p, q, mark, whole) implies exists|k: int|
        0 <= k < out.len() && (#[trigger] out[k]).0 == p by {
        if p < i {
            let k = choose|k: int| 0 <= k < list.len() && (#[trigger] list[k]).0 == p;
            assert(out[k] == list[k]);
        } else if p > i {
            assert(digit(s[p]));
        } else {
            assert(out[n].0 == p);
        }
    }
}

proof fn lemma_end(s: Seq<u8>, lo: int, i: int, mark: u8)
    requires
        0 <= i < s.len(),
        ref_token(s, lo, i, mark),
    ensures
        ({
            let e = run_end(s, i + 1, ByteClass::Digit);
            &&& i + 1 < e <= s.len()
            &&& digit_run(s, i + 1, e)
        }),
{
    let e = run_end(s, i + 1, ByteClass::Digit);
    lemma_run_end(s, i + 1, ByteClass::Digit);
    assert(in_class(ByteClass::Digit, s[i + 1]));
    assert forall|k: int| i + 1 <= k < e implies digit(#[trigger] s[k]) by {
        assert(in_class(ByteClass::Digit, s[k]));
    }
}

/// Where the scanner sees no token, there is none; where it does, the token is
/// the one up to the end of the digits.
proof fn lemma_seen(s: Seq<u8>, lo: int, i: int, mark: u8, whole: bool)
    requires
        0 <= i < s.len(),
        0 <= lo,
        !digit(mark),
    ensures
        forall|e: int| #[trigger]
            token(s, lo, i, e, mark, whole) ==> ref_token(s, lo, i, mark) && e == run_end(
                s,
                i + 1,
                ByteClass::Digit,
            ),
        ref_token(s, lo, i, mark) ==> forall|p: int, e: int|
            i < p < run_end(s, i + 1, ByteClass::Digit) ==> !#[trigger] token(
                s,
                lo,
                p,
                e,
                mark,
                whole,
            ),
{
    assert forall|e: int| #[trigger] token(s, lo, i, e, mark, whole) implies ref_token(
        s,
        lo,
        i,
        mark,
    ) && e == run_end(s, i + 1, ByteClass::Digit) by {
        lemma_decimal(s, i + 1, e);
        assert(digit(s[i + 1]));
    }
    if ref_token(s, lo, i, mark) {
        lemma_end(s, lo, i, mark);
        assert forall|p: int, e: int|
            i < p < run_end(s, i + 1, ByteClass::Digit) implies !#[trigger] token(
            s,
            lo,
            p,
            e,
            mark,
            whole,
        ) by {
            assert(digit(s[p]));
        }
    }
}

proof fn lemma_node_scan(s: Seq<u8>, from: int, i: int, mark: u8, whole: bool, refs: Seq<NodeRef>)
    requires
        0 <= from <= i <= s.len() <= u32::MAX,
        !digit(mark),
        lists_tokens(node_places(refs), s, 0, from, i, mark, whole),
    ensures
        lists_tokens(
            node_places(token_refs_from(s, i, mark, whole, refs)),
            s,
            0,
            from,
            s.len() as int,
            mark,
            whole,
        ),
    decreases s.len() - i,
{
    if i < s.len() {
        lemma_seen(s, 0, i, mark, whole);
        if ref_token(s, 0, i, mark) {
            let e = run_end(s, i + 1, ByteClass::Digit);
            lemma_end(s, 0, i, mark);
            lemma_decimal(s, i + 1, e);
            let out = with_some(refs, token_ref(s, i, whole));
            if token_ref(s, i, whole) is Some {
                assert(token(s, 0, i, e, mark, whole));
                lemma_one_token(node_places(refs), s, 0, from, i, e, mark, whole);
                assert(node_places(out) =~= node_places(refs).push(
                    (i as u32, e as u32, number(s, i + 1, e) as u32),
                ));
            } else {
                assert(!token(s, 0, i, e, mark, whole));
                lemma_no_token(node_places(refs), s, 0, from, i, e, mark, whole);
            }
            lemma_node_scan(s, from, e, mark, whole, out);
        } else {
            lemma_no_token(node_places(refs), s, 0, from, i, i + 1, mark, whole);
            lemma_node_scan(s, from, i + 1, mark, whole, refs);
        }
    }
}

proof fn lemma_block_scan(s: Seq<u8>, lo: int, from: int, i: int, mark: u8, refs: Seq<BlockRef>)
    requires
        0 <= lo,
        0 <= from <= i <= s.len() <= u32::MAX,
        !digit(mark),
        lists_tokens(block_places(refs), s, lo, from, i, mark, true),
    ensures
        lists_tokens(
            block_places(block_refs_from(s, lo, i, mark, refs)),
            s,
            lo,
            from,
            s.len() as int,
            mark,
            true,
        ),
    decreases s.len() - i,
{
    if i < s.len() {
        lemma_seen(s, lo, i, mark, true);
        if ref_token(s, lo, i, mark) {
            let e = run_end(s, i + 1, ByteClass::Digit);
            lemma_end(s, lo, i, mark);
            lemma_decimal(s, i + 1, e);
            let out = with_some(refs, block_ref_at(s, i));
            if block_ref_at(s, i) is Some {
                assert(token(s, lo, i, e, mark, true));
                lemma_one_token(block_places(refs), s, lo, from, i, e, mark, true);
                assert(block_places(out) =~= block_places(refs).push(
                    (i as u32, e as u32, number(s, i + 1, e) as u32),
                ));
            } else {
                assert(!token(s, lo, i, e, mark, true));
                lemma_no_token(block_places(refs), s, lo, from, i, e, mark, true);
            }
            lemma_block_scan(s, lo, from, e, mark, out);
        } else {
            lemma_no_token(block_places(refs), s, lo, from, i, i + 1, mark, true);
            lemma_block_scan(s, lo, from, i + 1, mark, refs);
        }
    }
}

/// The references of a sea of nodes or of Turboshaft are all its `#N`.
pub proof fn law_every_hash_token_is_a_reference(s: Seq<u8>, from: int)
    requires
        0 <= from <= s.len() <= u32::MAX,
    ensures
        lists_tokens(node_places(hash_refs_of(s, from)), s, 0, from, s.len() as int, 35, false),
{
    assert(node_places(Seq::empty()) =~= Seq::empty());
    lemma_node_scan(s, from, from, 35, false, Seq::empty());
}

/// The references of an instruction sequence are all its registers `vN`.
pub proof fn law_every_register_is_a_reference(s: Seq<u8>, from: int)
    requires
        0 <= from <= s.len() <= u32::MAX,
    ensures
        lists_tokens(node_places(vreg_refs_of(s, from)), s, 0, from, s.len() as int, 118, true),
{
    assert(node_places(Seq::empty()) =~= Seq::empty());
    lemma_node_scan(s, from, from, 118, true, Seq::empty());
}

/// The targets of a Maglev node are all the blocks `bN` behind its opcode.
pub proof fn law_every_block_token_is_a_target(s: Seq<u8>, from: int)
    requires
        0 <= from <= s.len() <= u32::MAX,
    ensures
        lists_tokens(
            block_places(block_refs_from(s, from, from, 0x62, Seq::empty())),
            s,
            from,
            from,
            s.len() as int,
            98,
            true,
        ),
{
    assert(block_places(Seq::empty()) =~= Seq::empty());
    lemma_block_scan(s, from, from, from, 98, Seq::empty());
}

/// The targets of a row of the optimising pipeline are all its blocks `BN`.
pub proof fn law_every_upper_block_is_a_target(s: Seq<u8>, from: int)
    requires
        0 <= from <= s.len() <= u32::MAX,
    ensures
        lists_tokens(
            block_places(upper_block_refs_of(s, from)),
            s,
            0,
            from,
            s.len() as int,
            66,
            true,
        ),
{
    assert(block_places(Seq::empty()) =~= Seq::empty());
    lemma_block_scan(s, 0, from, from, 66, Seq::empty());
}

} // verus!
