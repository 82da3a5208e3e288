//! What the notes of a Maglev graph say: uses, positions, scripts and inlining.

use vstd::prelude::*;
#[allow(unused_imports)]
use vstd::string::*;
#[allow(unused_imports)]
use vstd::utf8::*;

#[allow(unused_imports)]
use super::bytes::{digit, digit_run, lemma_decimal, lemma_says, number, says};
#[allow(unused_imports)]
use super::disassembly::{first_said, lemma_first, not_said};
#[allow(unused_imports)]
use super::frames::{lemma_prints, prints};
#[allow(unused_imports)]
use super::lenses::lemma_nothing_to_trim;
#[allow(unused_imports)]
use super::lines::lemma_byte_found;
#[allow(unused_imports)]
use crate::model::{DecisionModel, LineModel, NodeId, ParsedModel};
#[allow(unused_imports)]
use crate::parse::graph::{after_line, claimed_by, graph_state, GraphState};
#[allow(unused_imports)]
use crate::parse::intern::InternModel;
#[allow(unused_imports)]
use crate::parse::maglev::{
    decision_at, decision_of, decision_start, digits_before, graph_line, script_of, sfi_position,
    uses_of, MemoryModel,
};
#[allow(unused_imports)]
use crate::text::{rfind_byte_in, text_of, trimmed_start, white_len};

verus! {

proof fn lemma_digits_before(s: Seq<u8>, lo: int, d: int, at: int)
    requires
        0 <= lo < d <= at <= s.len(),
        forall|k: int| d <= k < at ==> digit(#[trigger] s[k]),
        !digit(s[d - 1]),
    ensures
        digits_before(s, lo, at) == d,
    decreases at - d,
{
    if d < at {
        assert(digit(s[at - 1]));
        lemma_digits_before(s, lo, d, at - 1);
    }
}

/// The number in front of the first ` uses` is how often a node is used; where
/// the word is not printed nothing is known.
pub proof fn law_uses_are_read(s: Seq<u8>, from: int, d: int, at: int)
    requires
        0 <= from <= s.len(),
    ensures
        not_said(s, from, s.len() as int, " uses"@) ==> uses_of(s, from) is None,
        first_said(s, from, s.len() as int, at, " uses"@) && from < d && digit_run(s, d, at)
            && !digit(s[d - 1]) && number(s, d, at) <= u32::MAX ==> uses_of(s, from) == Some(
            number(s, d, at) as u32,
        ),
{
    reveal_strlit(" uses");
    lemma_first(s, from, s.len() as int, at, " uses"@);
    assert(s.subrange(0, s.len() as int) =~= s);
    if first_said(s, from, s.len() as int, at, " uses"@) && from < d && digit_run(s, d, at)
        && !digit(s[d - 1]) {
        lemma_digits_before(s, from, d, at);
        lemma_decimal(s, d, at);
    }
}

proof fn lemma_last_byte(s: Seq<u8>, lo: int, c: int, i: int, b: u8)
    requires
        0 <= lo <= c < i <= s.len(),
        s[c] == b,
        forall|k: int| c < k < i ==> #[trigger] s[k] != b,
    ensures
        rfind_byte_in(s, lo, i, b) == Some(c),
    decreases i - c,
{
    if c + 1 < i {
        assert(s[i - 1] != b);
        lemma_last_byte(s, lo, c, i - 1, b);
    }
}

/// `…:line:column)` at the end of a function context is where the function is
/// defined.
pub proof fn law_a_position_is_read(s: Seq<u8>, start: int, l: int, c: int)
    requires
        0 <= start < l < c < s.len() - 1,
        s[l - 1] == 58,
        digit_run(s, l, c),
        s[c] == 58,
        digit_run(s, c + 1, s.len() - 1),
        s.last() == 41,
        number(s, l, c) <= u32::MAX,
        number(s, c + 1, s.len() - 1) <= u32::MAX,
    ensures
        sfi_position(s, start) == (
            number(s, l, c) as u32,
            number(s, c + 1, s.len() - 1) as u32,
        ),
{
    let n = s.len() as int;
    lemma_nothing_to_trim(s, start, n);
    assert forall|k: int| c < k < n - 1 implies #[trigger] s[k] != 58 by {
        assert(digit(s[k]));
    }
    assert forall|k: int| l - 1 < k < c implies #[trigger] s[k] != 58 by {
        assert(digit(s[k]));
    }
    lemma_last_byte(s, start, c, n - 1, 0x3a);
    lemma_last_byte(s, start, l - 1, c, 0x3a);
    lemma_decimal(s, l, c);
    lemma_decimal(s, c + 1, n - 1);
    assert(digit(s[l]));
    assert(digit(s[c + 1]));
}

/// The script of a function context is what stands between the first quotes
/// after `<String[`.
pub proof fn law_a_script_is_read(s: Seq<u8>, a: int, o: int, c: int)
    ensures
        not_said(s, 0, s.len() as int, "<String["@) ==> script_of(s) is None,
        first_said(s, 0, s.len() as int, a, "<String["@) && a <= o < c < s.len() && s[o] == 34
            && s[c] == 34 && (forall|k: int| a <= k < o ==> #[trigger] s[k] != 34) && (forall|k: int|
            o < k < c ==> #[trigger] s[k] != 34) ==> script_of(s) == Some(text_of(s, o + 1, c)),
{
    reveal_strlit("<String[");
    lemma_first(s, 0, s.len() as int, a, "<String["@);
    assert(s.subrange(0, s.len() as int) =~= s);
    if first_said(s, 0, s.len() as int, a, "<String["@) && a <= o < c < s.len() && s[o] == 34
        && s[c] == 34 && (forall|k: int| a <= k < o ==> #[trigger] s[k] != 34) && (forall|k: int|
        o < k < c ==> #[trigger] s[k] != 34) {
        lemma_byte_found(s, a, o, 34);
        lemma_byte_found(s, o + 1, c, 34);
    }
}

/// Nothing but spaces in `a..b`.
pub open spec fn blank(s: Seq<u8>, a: int, b: int) -> bool {
    &&& 0 <= a <= b <= s.len()
    &&& forall|k: int| a <= k < b ==> #[trigger] s[k] == 32
}

/// `c..g` is the text of a callee that two spaces part from its reason, which
/// starts at `r` and takes the rest of the line.
pub open spec fn callee_and_reason(s: Seq<u8>, at: int, c: int, g: int, r: int) -> bool {
    &&& 0 <= at <= c < g
    &&& blank(s, at, c)
    &&& 33 <= s[c] <= 126
    &&& 33 <= s[g - 1] <= 126
    &&& first_said(s, c, s.len() as int, g, "  "@)
    &&& g + 2 <= r < s.len()
    &&& blank(s, g, r)
    &&& 33 <= s[r] <= 126
    &&& 33 <= s.last() <= 126
}

proof fn lemma_decision_at(s: Seq<u8>, at: int, c: int, g: int, r: int, line: int, inlined: bool)
    requires
        callee_and_reason(s, at, c, g, r),
    ensures
        decision_at(s, at, line, inlined) == (DecisionModel {
            line,
            inlined,
            callee: text_of(s, c, g),
            reason: text_of(s, r, s.len() as int),
        }),
{
    reveal_strlit("  ");
    let n = s.len() as int;
    lemma_first(s, c, n, g, "  "@);
    lemma_says(s, g, "  "@);
    assert(s.subrange(0, n) =~= s);
    lemma_blank_start(s, at, c);
    lemma_blank_start(s, c, c);
    lemma_blank_start(s, g + 2, r);
    lemma_nothing_to_trim(s, c, g);
    lemma_nothing_to_trim(s, g + 2, n);
}

/// `⚡ INLINE callee  reason` records that a call was inlined, and `❌ SKIP callee
/// reason` that it was not; either with its callee and its reason.
pub proof fn law_an_inlining_decision_is_read(
    s: Seq<u8>,
    b: int,
    c: int,
    g: int,
    r: int,
    line: int,
)
    requires
        0 <= b < s.len(),
        blank(s, 0, b),
        s[b] == 226,
        white_len(s, b) == 0,
    ensures
        prints(s, b, "⚡ INLINE"@) && callee_and_reason(
            s,
            b + encode_utf8("⚡ INLINE"@).len(),
            c,
            g,
            r,
        ) ==> decision_of(s, line) == Some(
            DecisionModel {
                line,
                inlined: true,
                callee: text_of(s, c, g),
                reason: text_of(s, r, s.len() as int),
            },
        ),
        prints(s, b, "❌ SKIP"@) && !prints(s, b, "⚡ INLINE"@) && callee_and_reason(
            s,
            b + encode_utf8("❌ SKIP"@).len(),
            c,
            g,
            r,
        ) ==> decision_of(s, line) == Some(
            DecisionModel {
                line,
                inlined: false,
                callee: text_of(s, c, g),
                reason: text_of(s, r, s.len() as int),
            },
        ),
        !prints(s, b, "❌ SKIP"@) && !prints(s, b, "⚡ INLINE"@) ==> decision_of(s, line) is None,
{
    lemma_start(s, b);
    lemma_prints(s, b, "⚡ INLINE"@);
    lemma_prints(s, b, "❌ SKIP"@);
    let x = b + encode_utf8("⚡ INLINE"@).len() as int;
    let y = b + encode_utf8("❌ SKIP"@).len() as int;
    if callee_and_reason(s, x, c, g, r) {
        lemma_decision_at(s, x, c, g, r, line, true);
    }
    if callee_and_reason(s, y, c, g, r) {
        lemma_decision_at(s, y, c, g, r, line, false);
    }
}

proof fn lemma_start(s: Seq<u8>, b: int)
    requires
        0 <= b < s.len(),
        blank(s, 0, b),
        s[b] == 226,
        white_len(s, b) == 0,
    ensures
        decision_start(s) == b,
{
    lemma_blank_start(s, 0, b);
    reveal_strlit("[ML:");
    lemma_says(s, b, "[ML:"@);
    if says(s, b, "[ML:"@) {
        assert(s[b + 0] as int == "[ML:"@[0] as int);
    }
}

pub(crate) proof fn lemma_blank_start(s: Seq<u8>, i: int, b: int)
    requires
        0 <= i <= b < s.len(),
        blank(s, i, b),
        white_len(s, b) == 0,
    ensures
        trimmed_start(s, i) == b,
    decreases b - i,
{
    if i < b {
        assert(s[i] == 32);
        lemma_blank_start(s, i + 1, b);
    }
}

// ---------------------------------------------------------------------------
// Counts
// ---------------------------------------------------------------------------

/// How many of the first `n` lines define a node, open a block, and are notes.
pub open spec fn tally(infos: Seq<LineModel>, n: int) -> (int, int, int)
    decreases n,
{
    if n <= 0 {
        (0, 0, 0)
    } else {
        let (a, b, c) = tally(infos, n - 1);
        match infos[n - 1] {
            LineModel::Node(_) => (a + 1, b, c),
            LineModel::BlockHeader { .. } => (a, b + 1, c),
            LineModel::Annotation { .. } => (a, b, c + 1),
            _ => (a, b, c),
        }
    }
}

pub(crate) open spec fn alike(a: LineModel, b: LineModel) -> bool {
    &&& a is Node <==> b is Node
    &&& a is BlockHeader <==> b is BlockHeader
    &&& a is Annotation <==> b is Annotation
}

pub(crate) proof fn lemma_tally(a: Seq<LineModel>, b: Seq<LineModel>, n: int)
    requires
        forall|j: int| 0 <= j < n ==> alike(#[trigger] a[j], b[j]),
    ensures
        tally(a, n) == tally(b, n),
    decreases n,
{
    if n > 0 {
        assert(alike(a[n - 1], b[n - 1]));
        lemma_tally(a, b, n - 1);
    }
}

pub(crate) proof fn lemma_tally_bound(a: Seq<LineModel>, n: int)
    requires
        0 <= n,
    ensures
        0 <= tally(a, n).0 <= n,
        0 <= tally(a, n).1 <= n,
        0 <= tally(a, n).2 <= n,
    decreases n,
{
    if n > 0 {
        lemma_tally_bound(a, n - 1);
    }
}

proof fn lemma_claims(infos: Seq<LineModel>, waiting: Seq<usize>, n: int, node: NodeId)
    ensures
        claimed_by(infos, waiting, n, node).len() == infos.len(),
        forall|j: int|
            0 <= j < infos.len() ==> alike(
                #[trigger] claimed_by(infos, waiting, n, node)[j],
                infos[j],
            ),
    decreases n,
{
    if n > 0 {
        lemma_claims(infos, waiting, n - 1, node);
        let before = claimed_by(infos, waiting, n - 1, node);
        let out = claimed_by(infos, waiting, n, node);
        assert forall|j: int| 0 <= j < infos.len() implies alike(#[trigger] out[j], infos[j]) by {
            assert(alike(before[j], infos[j]));
        }
    }
}

spec fn counted(st: GraphState) -> bool {
    let t = tally(st.phase.infos, st.phase.infos.len() as int);
    &&& st.phase.node_count == t.0
    &&& st.phase.block_count == t.1
    &&& st.phase.annotation_count == t.2
}

proof fn lemma_counted(st: GraphState, mem: MemoryModel, info: LineModel, s: Seq<u8>, line: int)
    requires
        counted(st),
        st.phase.infos.len() < u32::MAX,
    ensures
        counted(after_line(st, mem, info, s, line)),
        after_line(st, mem, info, s, line).phase.infos.len() == st.phase.infos.len() + 1,
{
    reveal(after_line);
    let out = after_line(st, mem, info, s, line);
    let a = st.phase.infos;
    let b = out.phase.infos;
    let n = a.len() as int;
    if let LineModel::Node(node) = info {
        lemma_claims(a, st.waiting, st.waiting.len() as int, node.id);
        let c = claimed_by(a, st.waiting, st.waiting.len() as int, node.id);
        assert forall|j: int| 0 <= j < n implies alike(#[trigger] a[j], b[j]) by {
            assert(b[j] == c[j]);
        }
    } else {
        assert forall|j: int| 0 <= j < n implies alike(#[trigger] a[j], b[j]) by {
            assert(b[j] == a[j]);
        }
    }
    lemma_tally(a, b, n);
    lemma_tally_bound(a, n);
}

/// A phase counts as many nodes, blocks and notes as its lines are.
pub proof fn law_a_phase_counts_its_lines(
    lines: Seq<Seq<u8>>,
    start: int,
    m: InternModel,
    parsed: ParsedModel,
    n: int,
)
    requires
        0 <= n <= lines.len(),
        n <= u32::MAX,
    ensures
        ({
            let phase = graph_state(lines, start, m, parsed, n).phase;
            let t = tally(phase.infos, n);
            &&& phase.infos.len() == n
            &&& phase.node_count == t.0
            &&& phase.block_count == t.1
            &&& phase.annotation_count == t.2
        }),
    decreases n,
{
    if n > 0 {
        law_a_phase_counts_its_lines(lines, start, m, parsed, n - 1);
        let before = graph_state(lines, start, m, parsed, n - 1);
        let s = lines[n - 1];
        if n == 1 {
            lemma_counted(before, before.mem, LineModel::Banner, s, start);
        } else {
            let out = graph_line(s, before.mem);
            lemma_counted(before, out.1, out.0, s, start + n - 1);
        }
    }
}

} // verus!
