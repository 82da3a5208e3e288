//! What the lenses keep.

use vstd::prelude::*;
#[allow(unused_imports)]
use vstd::string::*;

#[allow(unused_imports)]
use super::bytes::{digit_run, lemma_decimal, lemma_mentions, lemma_says, mentions, number, says};
#[allow(unused_imports)]
use super::disassembly::{lemma_first, spaces, lemma_spaces};
#[allow(unused_imports)]
use crate::model::{LineModel, ParsedModel};
#[allow(unused_imports)]
use crate::parse::bytecode::{ic_state, slot_header};
#[allow(unused_imports)]
use crate::text::{
    in_class, lemma_run_end, occurs_at, run_end, trimmed_end, white_before, white_len, ByteClass,
};
#[allow(unused_imports)]
use crate::view::{lens_keeps, Lens};

verus! {

/// The bytes of the opcode of a node; none for other lines.
pub open spec fn opcode_bytes(info: Option<LineModel>, parsed: ParsedModel) -> Seq<u8> {
    match info {
        Some(LineModel::Node(node)) => if node.opcode < parsed.opcodes.len() {
            vstd::utf8::encode_utf8(parsed.opcodes[node.opcode as int])
        } else {
            Seq::empty()
        },
        _ => Seq::empty(),
    }
}

/// The lens for guards keeps exactly the nodes whose opcode starts with `Check`
/// or `Assert` or has `Deopt` in it.
pub proof fn law_the_lens_for_checks_keeps_guards(
    info: Option<LineModel>,
    parsed: ParsedModel,
    s: Seq<u8>,
)
    ensures
        lens_keeps(Lens::Checks, info, parsed, s) <==> ({
            let op = opcode_bytes(info, parsed);
            says(op, 0, "Check"@) || says(op, 0, "Assert"@) || mentions(op, 0, "Deopt"@)
        }),
{
    let op = opcode_bytes(info, parsed);
    reveal_strlit("Check");
    reveal_strlit("Assert");
    reveal_strlit("Deopt");
    lemma_says(op, 0, "Check"@);
    lemma_says(op, 0, "Assert"@);
    lemma_mentions(op, 0, "Deopt"@);
}

/// The lens for the backbone of a graph keeps exactly the phis, the phi moves
/// and the nodes whose opcode starts with the word of a control flow.
pub proof fn law_the_lens_for_phis_keeps_the_backbone(
    info: Option<LineModel>,
    parsed: ParsedModel,
    s: Seq<u8>,
)
    ensures
        lens_keeps(Lens::Phi, info, parsed, s) <==> ({
            let op = opcode_bytes(info, parsed);
            ||| info matches Some(LineModel::PhiMove { .. })
            ||| occurs_at(op, 0, vstd::utf8::encode_utf8("φ"@))
            ||| says(op, 0, "Phi"@)
            ||| says(op, 0, "Branch"@)
            ||| says(op, 0, "Jump"@)
            ||| says(op, 0, "Goto"@)
            ||| says(op, 0, "Return"@)
            ||| says(op, 0, "Switch"@)
        }),
        info matches Some(LineModel::Node(node)) && node.opcode < parsed.opcodes.len()
            && parsed.opcodes[node.opcode as int].len() > 0
            && parsed.opcodes[node.opcode as int][0] == 'φ' ==> lens_keeps(
            Lens::Phi,
            info,
            parsed,
            s,
        ),
{
    let op = opcode_bytes(info, parsed);
    reveal_strlit("Phi");
    reveal_strlit("Branch");
    reveal_strlit("Jump");
    reveal_strlit("Goto");
    reveal_strlit("Return");
    reveal_strlit("Switch");
    reveal_strlit("φ");
    lemma_says(op, 0, "Phi"@);
    lemma_says(op, 0, "Branch"@);
    lemma_says(op, 0, "Jump"@);
    lemma_says(op, 0, "Goto"@);
    lemma_says(op, 0, "Return"@);
    lemma_says(op, 0, "Switch"@);
    let phi = vstd::utf8::encode_scalar('φ' as u32);
    assert("φ"@.len() == 1 && "φ"@[0] == 'φ');
    assert("φ"@.drop_first() =~= Seq::<char>::empty());
    reveal_with_fuel(vstd::utf8::encode_utf8, 2);
    assert(vstd::utf8::encode_utf8("φ"@) =~= phi);
    if let Some(LineModel::Node(node)) = info {
        if node.opcode < parsed.opcodes.len() {
            let name = parsed.opcodes[node.opcode as int];
            if name.len() > 0 && name[0] == 'φ' {
                assert(op.subrange(0, phi.len() as int) =~= phi);
            }
        }
    }
}

/// The lens for spills keeps exactly the lines that speak of a spill and the
/// gap moves that touch the stack.
pub proof fn law_the_lens_for_spills_keeps_stack_traffic(
    info: Option<LineModel>,
    parsed: ParsedModel,
    s: Seq<u8>,
)
    ensures
        lens_keeps(Lens::Spill, info, parsed, s) <==> ({
            ||| mentions(s, 0, "spill"@)
            ||| mentions(s, 0, "Spill"@)
            ||| mentions(opcode_bytes(info, parsed), 0, "GapMove"@) && mentions(s, 0, "[stack:"@)
        }),
{
    let op = opcode_bytes(info, parsed);
    reveal_strlit("spill");
    reveal_strlit("Spill");
    reveal_strlit("GapMove");
    reveal_strlit("[stack:");
    lemma_mentions(s, 0, "spill"@);
    lemma_mentions(s, 0, "Spill"@);
    lemma_mentions(op, 0, "GapMove"@);
    lemma_mentions(s, 0, "[stack:"@);
}

/// The lens for megamorphic feedback keeps exactly the feedback slots in that
/// state, the lines that print the word, and the nodes whose opcode says that
/// they are megamorphic or generic.
pub proof fn law_the_lens_for_megamorphic_keeps_slow_paths(
    info: Option<LineModel>,
    parsed: ParsedModel,
    s: Seq<u8>,
)
    ensures
        lens_keeps(Lens::Megamorphic, info, parsed, s) <==> ({
            let op = opcode_bytes(info, parsed);
            ||| info matches Some(LineModel::FeedbackSlot { ic, .. }) && ic is Megamorphic
            ||| mentions(s, 0, "MEGAMORPHIC"@)
            ||| mentions(op, 0, "Megamorphic"@)
            ||| mentions(op, 0, "Generic"@)
        }),
{
    let op = opcode_bytes(info, parsed);
    reveal_strlit("MEGAMORPHIC");
    reveal_strlit("Megamorphic");
    reveal_strlit("Generic");
    lemma_mentions(s, 0, "MEGAMORPHIC"@);
    lemma_mentions(op, 0, "Megamorphic"@);
    lemma_mentions(op, 0, "Generic"@);
}

/// A feedback slot passes the lens for megamorphic feedback exactly where its
/// state is megamorphic, or its line prints the word: one that says only
/// MONOMORPHIC, POLYMORPHIC or UNINITIALIZED does not.
pub proof fn law_only_megamorphic_slots_are_kept(
    info: LineModel,
    parsed: ParsedModel,
    s: Seq<u8>,
)
    requires
        info is FeedbackSlot,
    ensures
        info->ic is Megamorphic ==> lens_keeps(Lens::Megamorphic, Some(info), parsed, s),
        !(info->ic is Megamorphic) && !mentions(s, 0, "MEGAMORPHIC"@) ==> !lens_keeps(
            Lens::Megamorphic,
            Some(info),
            parsed,
            s,
        ),
{
    law_the_lens_for_megamorphic_keeps_slow_paths(Some(info), parsed, s);
    reveal_strlit("Megamorphic");
    reveal_strlit("Generic");
}

// ---------------------------------------------------------------------------
// The state of a feedback slot
// ---------------------------------------------------------------------------

/// `word` is printed within `from..to`.
pub open spec fn said_in(s: Seq<u8>, from: int, to: int, word: Seq<char>) -> bool {
    exists|k: int| from <= k && k + word.len() <= to && #[trigger] says(s, k, word)
}

proof fn lemma_said_in(s: Seq<u8>, from: int, to: int, word: Seq<char>)
    requires
        vstd::utf8::is_ascii_chars(word),
        word.len() > 0,
        0 <= from <= to <= s.len(),
    ensures
        crate::text::holds_word(s, from, to, vstd::utf8::encode_utf8(word)) == said_in(
            s,
            from,
            to,
            word,
        ),
{
    let t = s.subrange(0, to);
    lemma_mentions(t, from, word);
    if said_in(s, from, to, word) {
        let k = choose|k: int| from <= k && k + word.len() <= to && #[trigger] says(s, k, word);
        super::disassembly::lemma_said_in(s, to, k, word);
        assert(mentions(t, from, word));
    } else {
        lemma_first(s, from, to, 0, word);
    }
}

/// The state of a slot is the one that its words name, the most general first.
pub proof fn law_a_state_is_what_its_words_name(s: Seq<u8>, from: int, to: int)
    requires
        0 <= from <= to <= s.len(),
    ensures
        said_in(s, from, to, "MEGAMORPHIC"@) <==> ic_state(s, from, to) is Megamorphic,
        ic_state(s, from, to) is Polymorphic <==> said_in(s, from, to, "POLYMORPHIC"@) && !said_in(
            s,
            from,
            to,
            "MEGAMORPHIC"@,
        ),
        ic_state(s, from, to) is Monomorphic <==> said_in(s, from, to, "MONOMORPHIC"@) && !said_in(
            s,
            from,
            to,
            "MEGAMORPHIC"@,
        ) && !said_in(s, from, to, "POLYMORPHIC"@),
        said_in(s, from, to, "UNINITIALIZED"@) && !said_in(s, from, to, "MEGAMORPHIC"@) && !said_in(
            s,
            from,
            to,
            "POLYMORPHIC"@,
        ) && !said_in(s, from, to, "MONOMORPHIC"@) ==> ic_state(s, from, to) is Uninitialized,
{
    reveal_strlit("MEGAMORPHIC");
    reveal_strlit("POLYMORPHIC");
    reveal_strlit("MONOMORPHIC");
    reveal_strlit("UNINITIALIZED");
    lemma_said_in(s, from, to, "MEGAMORPHIC"@);
    lemma_said_in(s, from, to, "POLYMORPHIC"@);
    lemma_said_in(s, from, to, "MONOMORPHIC"@);
    lemma_said_in(s, from, to, "UNINITIALIZED"@);
}

/// `a..b` is a word: no white space in it, and some behind it or nothing.
pub open spec fn visible_word(s: Seq<u8>, a: int, b: int) -> bool {
    &&& 0 <= a < b <= s.len()
    &&& forall|k: int| a <= k < b ==> 33 <= #[trigger] s[k] <= 126
    &&& b < s.len() ==> s[b] == 32
}

proof fn lemma_word(s: Seq<u8>, a: int, b: int)
    requires
        visible_word(s, a, b),
    ensures
        run_end(s, a, ByteClass::Visible) == b,
{
    lemma_run_end(s, a, ByteClass::Visible);
    let e = run_end(s, a, ByteClass::Visible);
    if e < b {
        assert(33 <= s[e] <= 126);
    }
    if b < e {
        assert(in_class(ByteClass::Visible, s[b]));
    }
}

/// A line that ends with a visible ASCII character has nothing to trim.
pub(crate) proof fn lemma_nothing_to_trim(s: Seq<u8>, lo: int, e: int)
    requires
        0 <= lo < e <= s.len(),
        33 <= s[e - 1] <= 126,
    ensures
        trimmed_end(s, lo, e) == e,
{
    assert(white_len(s, e - 1) == 0);
    if e - 2 >= lo {
        assert(white_len(s, e - 2) != 2);
    }
    if e - 3 >= lo {
        assert(white_len(s, e - 3) != 3);
    }
}

/// A header `- slot #N Kind STATE`, with a brace behind it or not, is that of
/// slot `N`, and its state is the one that the words behind the kind name.
#[verifier::spinoff_prover]
#[verifier::rlimit(60)]
pub proof fn law_a_slot_header_is_read(
    s: Seq<u8>,
    a: int,
    de: int,
    k: int,
    ke: int,
    st: int,
    se: int,
    brace: bool,
)
    requires
        s.len() < u32::MAX,
        0 < a,
        spaces(s, 0, a),
        says(s, a, "- slot #"@),
        digit_run(s, a + 8, de),
        number(s, a + 8, de) <= u32::MAX,
        spaces(s, de, k),
        visible_word(s, k, ke),
        spaces(s, ke, st),
        st < se <= s.len(),
        33 <= s[se - 1] <= 126,
        s[se - 1] != 123,
        if brace {
            s.len() == se + 2 && s[se] == 32 && s[se + 1] == 123
        } else {
            s.len() == se
        },
    ensures
        slot_header(s) matches Some(LineModel::FeedbackSlot { index, kind, state, ic, .. }) && {
            &&& index == number(s, a + 8, de)
            &&& kind.start == k && kind.end == ke
            &&& state.start == st && state.end == se
            &&& ic == ic_state(s, st, se)
        },
{
    reveal_strlit("- slot #");
    lemma_says(s, a, "- slot #"@);
    lemma_spaces(s, 0, a);
    lemma_decimal(s, a + 8, de);
    lemma_spaces(s, de, k);
    lemma_word(s, k, ke);
    lemma_spaces(s, ke, st);
    lemma_nothing_to_trim(s, 0, se);
    if brace {
        lemma_nothing_to_trim(s, 0, s.len() as int);
        assert(white_len(s, se) == 1);
        assert(white_before(s, 0, se + 1) == 1);
        assert(trimmed_end(s, 0, se + 1) == se);
    }
}

} // verus!
