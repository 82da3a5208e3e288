//! Lines that open and close sections, as they are printed.

use vstd::prelude::*;
#[allow(unused_imports)]
use vstd::string::*;
#[allow(unused_imports)]
use vstd::utf8::*;

#[allow(unused_imports)]
use crate::boundary::{boundary, inlining_banner, tail_places, using_from, BoundaryModel, Tail};
#[allow(unused_imports)]
use crate::index::{label_of, fitting, offset_of, ordinal_after, char_width, IndexModel};
#[allow(unused_imports)]
use crate::model::{tier_of, Addr, CompilationModel, Confidence, TierModel};
#[allow(unused_imports)]
use crate::promises::bytes::{lemma_says, says};
#[allow(unused_imports)]
use crate::promises::lines::{
    address, function, lemma_address, lemma_function, lemma_no_anchor, lemma_no_code, printed_addr,
};
#[allow(unused_imports)]
use crate::text::{
    blank_from, lemma_run_end, occurs_at, run_end, text_of, trimmed_end, white_before, white_len,
    word_end, ByteClass,
};

verus! {

/// `a` up to the end of the line is one word of printable ASCII.
pub open spec fn last_plain_word(s: Seq<u8>, a: int) -> bool {
    &&& 0 <= a < s.len()
    &&& forall|k: int| a <= k < s.len() ==> 33 <= #[trigger] s[k] <= 126
}

proof fn lemma_plain_word(s: Seq<u8>, a: int)
    requires
        0 <= a <= s.len(),
        forall|k: int| a <= k < s.len() ==> 33 <= #[trigger] s[k] <= 126,
    ensures
        word_end(s, a) == s.len(),
        blank_from(s, s.len() as int),
    decreases s.len() - a,
{
    if a < s.len() {
        assert(33 <= s[a] <= 126);
        assert(white_len(s, a) == 0);
        lemma_plain_word(s, a + 1);
    }
}

/// A line that ends in printable ASCII has no white space to drop.
proof fn lemma_no_trailing_white(s: Seq<u8>)
    requires
        s.len() > 0,
        33 <= s.last() <= 126,
    ensures
        white_before(s, 0, s.len() as int) == 0,
        trimmed_end(s, 0, s.len() as int) == s.len(),
{
    let n = s.len() as int;
    assert(white_len(s, n - 1) == 0);
    if n >= 2 {
        assert(white_len(s, n - 2) != 2);
    }
    if n >= 3 {
        assert(white_len(s, n - 3) != 3);
    }
}

/// `----- name -----` is a banner of that name.
#[verifier::spinoff_prover]
#[verifier::rlimit(60)]
pub proof fn law_a_banner_is_read(s: Seq<u8>)
    requires
        s.len() > 12,
        says(s, 0, "----- "@),
        says(s, s.len() - 6, " -----"@),
    ensures
        boundary(s) == (BoundaryModel::Banner { name: text_of(s, 6, s.len() - 6) }),
{
    reveal_strlit("-----");
    reveal_strlit("----- ");
    reveal_strlit(" -----");
    lemma_says(s, 0, "----- "@);
    lemma_says(s, s.len() - 6, " -----"@);
    lemma_says(s, 0, "-----"@);
    assert forall|j: int| 0 <= j < "-----"@.len() implies s[j] as int == (
    #[trigger] "-----"@[j]) as int by {
        assert(s[j] as int == "----- "@[j] as int);
    }
    assert(s[s.len() - 6 + 5] as int == " -----"@[5] as int);
    lemma_no_trailing_white(s);
}

proof fn lemma_dashes(s: Seq<u8>)
    requires
        s.len() >= 20,
        forall|k: int| 0 <= k < s.len() ==> #[trigger] s[k] == 45,
    ensures
        occurs_at(s, 0, "-----".spec_bytes()),
        !occurs_at(s, 0, "----- ".spec_bytes()),
{
    reveal_strlit("-----");
    reveal_strlit("----- ");
    lemma_says(s, 0, "----- "@);
    lemma_says(s, 0, "-----"@);
    assert(says(s, 0, "-----"@));
    if says(s, 0, "----- "@) {
        assert(s[5] as int == "----- "@[5] as int);
    }
}

/// Twenty dashes or more and nothing else are a rule.
#[verifier::spinoff_prover]
#[verifier::rlimit(60)]
pub proof fn law_a_rule_is_read(s: Seq<u8>)
    requires
        s.len() >= 20,
        forall|k: int| 0 <= k < s.len() ==> #[trigger] s[k] == 45,
    ensures
        boundary(s) is Rule,
{
    lemma_dashes(s);
    let r = run_end(s, 0, ByteClass::Dash);
    lemma_run_end(s, 0, ByteClass::Dash);
    if r < s.len() {
        assert(s[r] == 45);
    }
    assert(r == s.len());
    assert(white_len(s, r) == 0);
}

/// `Compiling 0x… <JSFunction …> with Tier` opens a compilation of that
/// function, at that address, by that tier.
#[verifier::spinoff_prover]
#[verifier::rlimit(60)]
pub proof fn law_an_anchor_is_read(
    s: Seq<u8>,
    ae: int,
    n: int,
    q: int,
    h: int,
    he: int,
    f: int,
)
    requires
        says(s, 0, "Compiling "@),
        address(s, 10, ae),
        ae < s.len(),
        s[ae] == 32,
        function(s, ae + 1, n, q, h, he, f),
        says(s, f, " with "@),
        last_plain_word(s, f + 6),
    ensures
        boundary(s) == (BoundaryModel::Compiling {
            addr: Some(printed_addr(s, 10, ae)),
            name: text_of(s, n, q),
            sfi: Some(printed_addr(s, h, he)),
            tier: tier_of(s, f + 6, s.len() as int),
        }),
{
    reveal_strlit("Compiling ");
    reveal_strlit(" with ");
    lemma_says(s, 0, "Compiling "@);
    lemma_says(s, f, " with "@);
    assert(s[0] as int == "Compiling "@[0] as int);
    lemma_no_code(s);
    lemma_no_anchor(s);
    lemma_plain_word(s, f + 6);
    lemma_address(s, 10, ae);
    lemma_address(s, h, he);
    assert(tail_places(s, f, Tail::With) == Some((f + 6, s.len() as int, 0int)));
    lemma_function(s, ae + 1, n, q, h, he, f, Tail::With, f + 6, s.len() as int, 0);
}

/// `Function: 0x… <JSFunction …>` names the function of a dump.
#[verifier::spinoff_prover]
#[verifier::rlimit(60)]
pub proof fn law_a_function_line_is_read(
    s: Seq<u8>,
    ae: int,
    n: int,
    q: int,
    h: int,
    he: int,
)
    requires
        says(s, 0, "Function: "@),
        address(s, 10, ae),
        ae < s.len(),
        s[ae] == 32,
        function(s, ae + 1, n, q, h, he, s.len() as int),
    ensures
        boundary(s) == (BoundaryModel::Function {
            addr: Some(printed_addr(s, 10, ae)),
            name: text_of(s, n, q),
            sfi: Some(printed_addr(s, h, he)),
        }),
{
    reveal_strlit("Function: ");
    lemma_says(s, 0, "Function: "@);
    assert(s[0] as int == "Function: "@[0] as int);
    lemma_no_code(s);
    lemma_no_anchor(s);
    lemma_address(s, 10, ae);
    lemma_address(s, h, he);
    let f = s.len() as int;
    assert(white_len(s, f) == 0);
    assert(tail_places(s, f, Tail::Bare) == Some((f, f, 0int)));
    lemma_function(s, ae + 1, n, q, h, he, f, Tail::Bare, f, f, 0);
}

proof fn lemma_using(s: Seq<u8>, b: int, q: int)
    requires
        0 <= b <= q,
        says(s, q, " using "@),
        last_plain_word(s, q + 7),
        forall|k: int| b <= k < q ==> !#[trigger] says(s, k, " using "@),
    ensures
        using_from(s, b) == Some(q),
        " using ".spec_bytes().len() == 7,
        word_end(s, q + 7) == s.len(),
    decreases q - b,
{
    reveal_strlit(" using ");
    lemma_says(s, b, " using "@);
    lemma_plain_word(s, q + 7);
    if b < q {
        assert(!says(s, b, " using "@));
        lemma_using(s, b + 1, q);
    }
}

/// `Begin compiling method name using Tier` begins a compilation.
#[verifier::spinoff_prover]
#[verifier::rlimit(60)]
pub proof fn law_a_beginning_is_read(s: Seq<u8>, q: int)
    requires
        says(s, 0, "Begin compiling method "@),
        23 <= q,
        says(s, q, " using "@),
        last_plain_word(s, q + 7),
        forall|k: int| 23 <= k < q ==> !#[trigger] says(s, k, " using "@),
    ensures
        boundary(s) == (BoundaryModel::Begin {
            name: text_of(s, 23, q),
            tier: tier_of(s, q + 7, s.len() as int),
        }),
{
    reveal_strlit("Begin compiling method ");
    lemma_says(s, 0, "Begin compiling method "@);
    assert(s[0] as int == "Begin compiling method "@[0] as int);
    lemma_no_code(s);
    lemma_no_anchor(s);
    lemma_using(s, 23, q);
}

proof fn lemma_finished(s: Seq<u8>)
    requires
        says(s, 0, "Finished compiling method "@),
    ensures
        occurs_at(s, 0, "Finished compiling method ".spec_bytes()),
        "Finished compiling method ".spec_bytes().len() == 26,
        !occurs_at(s, 0, "Function: ".spec_bytes()),
        s[0] == 70,
        s.len() > 0,
{
    reveal_strlit("Finished compiling method ");
    reveal_strlit("Function: ");
    lemma_says(s, 0, "Finished compiling method "@);
    lemma_says(s, 0, "Function: "@);
    assert(s[0] as int == "Finished compiling method "@[0] as int);
    assert(s[1] as int == "Finished compiling method "@[1] as int);
    if says(s, 0, "Function: "@) {
        assert(s[1] as int == "Function: "@[1] as int);
    }
}

/// `Finished compiling method name using Tier` ends one.
#[verifier::spinoff_prover]
#[verifier::rlimit(60)]
pub proof fn law_a_finish_is_read(s: Seq<u8>, q: int)
    requires
        says(s, 0, "Finished compiling method "@),
        26 <= q,
        says(s, q, " using "@),
        last_plain_word(s, q + 7),
        forall|k: int| 26 <= k < q ==> !#[trigger] says(s, k, " using "@),
    ensures
        boundary(s) is Finished,
{
    lemma_finished(s);
    lemma_no_code(s);
    lemma_no_anchor(s);
    lemma_using(s, 26, q);
}

/// `Inlining 0x… <SharedFunctionInfo name> with bytecode` names the function
/// that is inlined.
#[verifier::spinoff_prover]
#[verifier::rlimit(60)]
pub proof fn law_an_inlining_banner_is_read(s: Seq<u8>, ae: int)
    requires
        says(s, 0, "Inlining "@),
        address(s, 9, ae),
        says(s, ae, " <SharedFunctionInfo "@),
        ae + 21 <= s.len() - 15,
        says(s, s.len() - 15, "> with bytecode"@),
    ensures
        inlining_banner(s) == Some(
            (Some(printed_addr(s, 9, ae)), text_of(s, ae + 21, s.len() - 15)),
        ),
{
    reveal_strlit("Inlining ");
    reveal_strlit(" <SharedFunctionInfo ");
    reveal_strlit(" <SharedFunctionInfo");
    reveal_strlit("> with bytecode");
    lemma_says(s, 0, "Inlining "@);
    lemma_says(s, ae, " <SharedFunctionInfo"@);
    lemma_says(s, s.len() - 15, "> with bytecode"@);
    lemma_address(s, 9, ae);
    let w = " <SharedFunctionInfo "@;
    assert forall|j: int| 0 <= j < " <SharedFunctionInfo"@.len() implies s[ae + j] as int == (
    #[trigger] " <SharedFunctionInfo"@[j]) as int by {
        assert(s[ae + j] as int == w[j] as int);
    }
    assert(s[ae + 20] as int == w[20] as int);
}

// ---------------------------------------------------------------------------
// What the index makes of them
// ---------------------------------------------------------------------------

/// How many of the first `n` compilations are of `sfi` by `tier`.
pub open spec fn times_compiled(
    list: Seq<CompilationModel>,
    n: int,
    sfi: Addr,
    tier: TierModel,
) -> int
    decreases n,
{
    if n <= 0 {
        0
    } else {
        times_compiled(list, n - 1, sfi, tier) + (if list[n - 1].sfi == sfi && list[n - 1].tier
            == tier {
            1int
        } else {
            0
        })
    }
}

/// The compilations of one function by one tier are numbered from one on.
pub proof fn law_compilations_are_numbered(
    list: Seq<CompilationModel>,
    n: int,
    sfi: Addr,
    tier: TierModel,
)
    requires
        0 <= n <= list.len(),
        list.len() < u32::MAX,
    ensures
        ordinal_after(list, n, sfi, tier) == times_compiled(list, n, sfi, tier) + 1,
        0 <= times_compiled(list, n, sfi, tier) <= n,
    decreases n,
{
    if n > 0 {
        law_compilations_are_numbered(list, n - 1, sfi, tier);
    }
}

/// Offset `o` is the latest that was reported for `name`.
pub open spec fn latest_offset(offsets: Seq<(Seq<char>, u32)>, name: Seq<char>, o: u32) -> bool {
    exists|k: int|
        0 <= k < offsets.len() && #[trigger] offsets[k] == (name, o) && forall|j: int|
            k < j < offsets.len() ==> (#[trigger] offsets[j]).0 != name
}

proof fn lemma_offset(offsets: Seq<(Seq<char>, u32)>, name: Seq<char>, n: int)
    requires
        0 <= n <= offsets.len(),
    ensures
        match offset_of(offsets, name, n) {
            Some(o) => exists|k: int|
                0 <= k < n && #[trigger] offsets[k] == (name, o) && forall|j: int|
                    k < j < n ==> (#[trigger] offsets[j]).0 != name,
            None => forall|j: int| 0 <= j < n ==> (#[trigger] offsets[j]).0 != name,
        },
    decreases n,
{
    if n > 0 {
        if offsets[n - 1].0 == name {
            assert(offsets[n - 1] == (name, offsets[n - 1].1));
        } else {
            lemma_offset(offsets, name, n - 1);
        }
    }
}

/// A compilation is known to replace a running function exactly if the last
/// start that was reported was of this function, by this tier, and an OSR. Its
/// offset is the latest that was reported for the name, and a guess; where none
/// was reported, nothing is guessed.
pub proof fn law_osr_follows_the_last_start(
    m: IndexModel,
    sfi: Addr,
    tier: TierModel,
    name: Seq<char>,
)
    ensures
        m.osr_of(sfi, tier, name) is Some <==> m.last_start == Some((sfi, tier, true)),
        m.osr_of(sfi, tier, name) matches Some(info) ==> match info.offset {
            Some(o) => latest_offset(m.osr_offsets, name, o) && info.confidence
                == Confidence::Heuristic,
            None => info.confidence == Confidence::Exact && forall|j: int|
                0 <= j < m.osr_offsets.len() ==> (#[trigger] m.osr_offsets[j]).0 != name,
        },
{
    lemma_offset(m.osr_offsets, name, m.osr_offsets.len() as int);
}

/// A start that was reported is used up by the first compilation that it tells
/// about: the next compilation of the function is not called an OSR again.
pub proof fn law_a_start_is_bound_once(
    m: IndexModel,
    c: CompilationModel,
    code: bool,
    sfi: Addr,
    tier: TierModel,
    name: Seq<char>,
)
    requires
        c.osr is Some,
    ensures
        m.opened(c, code).osr_of(sfi, tier, name) is None,
{
}

/// The bytes that the first `n` characters take.
pub open spec fn bytes_of(chars: Seq<char>, n: int) -> int
    decreases n,
{
    if n <= 0 {
        0
    } else {
        bytes_of(chars, n - 1) + encode_scalar(chars[n - 1] as u32).len()
    }
}

proof fn lemma_bytes_of(chars: Seq<char>, k: int, n: int)
    requires
        0 <= k <= n <= chars.len(),
    ensures
        0 <= bytes_of(chars, k) <= bytes_of(chars, n),
    decreases n,
{
    if n > k {
        lemma_bytes_of(chars, k, n - 1);
    } else if n > 0 {
        lemma_bytes_of(chars, k - 1, n - 1);
    }
}

proof fn lemma_width(c: char)
    ensures
        encode_scalar(c as u32).len() == char_width(c),
{
    char_is_scalar(c);
    assert(c as u32 as int == c as int);
}

proof fn lemma_label(chars: Seq<char>, k: int)
    requires
        0 <= k <= chars.len(),
        bytes_of(chars, k) <= 96,
    ensures
        ({
            let n = fitting(chars, k, bytes_of(chars, k));
            &&& k <= n <= chars.len()
            &&& bytes_of(chars, n) <= 96
            &&& n < chars.len() ==> bytes_of(chars, n + 1) > 96
        }),
    decreases chars.len() - k,
{
    if k < chars.len() {
        lemma_width(chars[k]);
        assert(bytes_of(chars, k + 1) == bytes_of(chars, k) + char_width(chars[k]));
        if bytes_of(chars, k + 1) <= 96 {
            lemma_label(chars, k + 1);
        }
    }
}

/// The label of a raw section is its line as shown where that takes at most 96
/// bytes. A longer line is cut before the first character that goes past them,
/// and an ellipsis is put behind.
pub proof fn law_a_label_is_cut_where_it_must_be(line: Seq<u8>, n: int)
    requires
        0 <= n <= crate::ansi::display_chars(line).len(),
        bytes_of(crate::ansi::display_chars(line), n) <= 96,
        n < crate::ansi::display_chars(line).len() ==> bytes_of(
            crate::ansi::display_chars(line),
            n + 1,
        ) > 96,
    ensures
        label_of(line) == (if n == crate::ansi::display_chars(line).len() {
            crate::ansi::display_chars(line)
        } else {
            crate::ansi::display_chars(line).take(n).push('…')
        }),
{
    let chars = crate::ansi::display_chars(line);
    assert(bytes_of(chars, 0) == 0);
    lemma_label(chars, 0);
    let m = fitting(chars, 0, 0);
    if m < n {
        lemma_bytes_of(chars, m + 1, n);
    }
    if n < m {
        lemma_bytes_of(chars, n + 1, m);
    }
}

} // verus!
