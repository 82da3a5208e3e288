//! What a survey of a trace counts.

use vstd::prelude::*;
#[allow(unused_imports)]
use vstd::string::*;

#[allow(unused_imports)]
use crate::survey::{
    banner_of, capped_sum, label_of, merged, node_of, number_of, one_more, place_of, run_end,
    shape_part, tallied, trimmed, word_at, CharClass, StatsModel,
};
#[allow(unused_imports)]
use crate::text::is_white;

verus! {

// ---------------------------------------------------------------------------
// Counts
// ---------------------------------------------------------------------------

/// No word has two counts.
pub open spec fn one_each(counts: Seq<(Seq<char>, usize)>) -> bool {
    forall|a: int, b: int|
        0 <= a < b < counts.len() ==> (#[trigger] counts[a]).0 != (#[trigger] counts[b]).0
}

/// A word was counted `n` times.
pub open spec fn counted(counts: Seq<(Seq<char>, usize)>, word: Seq<char>, n: int) -> bool {
    ||| exists|k: int| 0 <= k < counts.len() && (#[trigger] counts[k]).0 == word && counts[k].1 == n
    ||| n == 0 && forall|k: int| 0 <= k < counts.len() ==> (#[trigger] counts[k]).0 != word
}

proof fn lemma_place(counts: Seq<(Seq<char>, usize)>, word: Seq<char>, i: int)
    requires
        0 <= i,
    ensures
        place_of(counts, word, i) matches Some(k) ==> i <= k < counts.len() && counts[k].0 == word,
        place_of(counts, word, i) is None ==> forall|k: int|
            i <= k < counts.len() ==> (#[trigger] counts[k]).0 != word,
    decreases counts.len() - i,
{
    if i < counts.len() && counts[i].0 != word {
        lemma_place(counts, word, i + 1);
    }
}

proof fn lemma_set(
    counts: Seq<(Seq<char>, usize)>,
    out: Seq<(Seq<char>, usize)>,
    word: Seq<char>,
    total: usize,
    other: Seq<char>,
    n: int,
)
    requires
        one_each(counts),
        out == (match place_of(counts, word, 0) {
            Some(k) => counts.update(k, (word, total)),
            None => counts.push((word, total)),
        }),
    ensures
        one_each(out),
        counted(out, word, total as int),
        other != word ==> (counted(counts, other, n) <==> counted(out, other, n)),
{
    lemma_place(counts, word, 0);
    let at = match place_of(counts, word, 0) {
        Some(k) => k,
        None => counts.len() as int,
    };
    assert(out[at] == (word, total));
    assert forall|k: int| 0 <= k < counts.len() && k != at implies #[trigger] out[k]
        == counts[k] by {}
    assert forall|a: int, b: int| 0 <= a < b < out.len() implies (#[trigger] out[a]).0 != (
    #[trigger] out[b]).0 by {
        if a != at && b != at {
            assert(out[a] == counts[a] && out[b] == counts[b]);
        } else if a != at {
            assert(out[a] == counts[a]);
            if at < counts.len() {
                assert(counts[a].0 != counts[at].0);
            }
        } else if b != at {
            assert(out[b] == counts[b]);
            assert(counts[a].0 != counts[b].0);
        }
    }
    if other != word {
        if counted(counts, other, n) {
            if exists|k: int|
                0 <= k < counts.len() && (#[trigger] counts[k]).0 == other && counts[k].1 == n {
                let k = choose|k: int|
                    0 <= k < counts.len() && (#[trigger] counts[k]).0 == other && counts[k].1 == n;
                assert(out[k] == counts[k]);
            } else {
                assert forall|k: int| 0 <= k < out.len() implies (#[trigger] out[k]).0 != other by {
                    if k != at {
                        assert(out[k] == counts[k]);
                    }
                }
            }
        }
        if counted(out, other, n) {
            if exists|k: int|
                0 <= k < out.len() && (#[trigger] out[k]).0 == other && out[k].1 == n {
                let k = choose|k: int|
                    0 <= k < out.len() && (#[trigger] out[k]).0 == other && out[k].1 == n;
                assert(k != at);
                assert(out[k] == counts[k]);
            } else {
                assert forall|k: int| 0 <= k < counts.len() implies (#[trigger] counts[k]).0
                    != other by {
                    if k != at {
                        assert(out[k] == counts[k]);
                    }
                }
            }
        }
    }
}

/// A word that is counted has been counted once more than before, and every other
/// word as often as before.
pub proof fn law_a_word_is_counted_once_more(
    counts: Seq<(Seq<char>, usize)>,
    word: Seq<char>,
    before: int,
    other: Seq<char>,
    n: int,
)
    requires
        one_each(counts),
        counted(counts, word, before),
        before < usize::MAX,
    ensures
        one_each(tallied(counts, word)),
        counted(tallied(counts, word), word, before + 1),
        other != word ==> (counted(counts, other, n) <==> counted(
            tallied(counts, word),
            other,
            n,
        )),
{
    lemma_place(counts, word, 0);
    lemma_found(counts, word, before);
    let total = match place_of(counts, word, 0) {
        Some(k) => one_more(counts[k].1),
        None => 1,
    };
    lemma_set(counts, tallied(counts, word), word, total, other, n);
}

proof fn lemma_found(counts: Seq<(Seq<char>, usize)>, word: Seq<char>, n: int)
    requires
        one_each(counts),
        counted(counts, word, n),
    ensures
        n == (match place_of(counts, word, 0) {
            Some(k) => counts[k].1 as int,
            None => 0,
        }),
{
    lemma_place(counts, word, 0);
    if exists|k: int| 0 <= k < counts.len() && (#[trigger] counts[k]).0 == word && counts[k].1 == n {
        let k = choose|k: int|
            0 <= k < counts.len() && (#[trigger] counts[k]).0 == word && counts[k].1 == n;
        let p = place_of(counts, word, 0)->0;
        if k < p {
            assert(counts[k].0 != counts[p].0);
        } else if p < k {
            assert(counts[p].0 != counts[k].0);
        }
    }
}

/// Counts that are put together add up, word by word.
pub proof fn law_counts_add_up(
    counts: Seq<(Seq<char>, usize)>,
    more: Seq<(Seq<char>, usize)>,
    n: int,
    word: Seq<char>,
    a: int,
    b: int,
)
    requires
        one_each(counts),
        one_each(more),
        0 <= n <= more.len(),
        counted(counts, word, a),
        counted(more.take(n), word, b),
        a + b <= usize::MAX,
    ensures
        one_each(merged(counts, more, n)),
        counted(merged(counts, more, n), word, a + b),
    decreases n,
{
    if n > 0 {
        let (w, x) = more[n - 1];
        let head = more.take(n - 1);
        let now = more.take(n);
        assert(now[n - 1] == more[n - 1]);
        assert forall|k: int| 0 <= k < n - 1 implies #[trigger] head[k] == now[k] by {}
        assert(one_each(now)) by {
            assert forall|i: int, j: int| 0 <= i < j < now.len() implies (#[trigger] now[i]).0 != (
            #[trigger] now[j]).0 by {
                assert(more[i].0 != more[j].0);
            }
        }
        lemma_found(now, word, b);
        lemma_place(now, word, 0);
        if w == word {
            assert(counted(head, word, 0)) by {
                assert forall|k: int| 0 <= k < head.len() implies (#[trigger] head[k]).0
                    != word by {
                    assert(now[k].0 != now[n - 1].0);
                }
            }
            let p = place_of(now, word, 0)->0;
            if place_of(now, word, 0) is None {
                assert(now[n - 1].0 == word);
            }
            if p < n - 1 {
                assert(now[p].0 != now[n - 1].0);
            }
            assert(b == x);
            law_counts_add_up(counts, more, n - 1, word, a, 0);
            let before = merged(counts, more, n - 1);
            lemma_found(before, word, a);
            lemma_place(before, word, 0);
            let total = match place_of(before, word, 0) {
                Some(k) => capped_sum(before[k].1, x),
                None => x,
            };
            lemma_set(before, merged(counts, more, n), word, total, word, 0);
        } else {
            assert(counted(head, word, b)) by {
                match place_of(now, word, 0) {
                    Some(p) => {
                        assert(p != n - 1);
                        assert(head[p] == now[p]);
                    },
                    None => {
                        assert forall|k: int| 0 <= k < head.len() implies (#[trigger] head[k]).0
                            != word by {
                            assert(now[k].0 != word);
                        }
                    },
                }
            }
            law_counts_add_up(counts, more, n - 1, word, a, b);
            let before = merged(counts, more, n - 1);
            let total = match place_of(before, w, 0) {
                Some(k) => capped_sum(before[k].1, x),
                None => x,
            };
            lemma_set(before, merged(counts, more, n), w, total, word, a + b);
        }
    } else {
        assert(more.take(n).len() == 0);
        assert(b == 0);
    }
}

// ---------------------------------------------------------------------------
// Lines
// ---------------------------------------------------------------------------

/// `0` to `9`.
pub open spec fn figure(c: char) -> bool {
    48 <= c as int <= 57
}

/// A whole run of decimal digits.
pub open spec fn figures(s: Seq<char>, a: int, b: int) -> bool {
    &&& 0 <= a < b <= s.len()
    &&& forall|k: int| a <= k < b ==> figure(#[trigger] s[k])
    &&& b < s.len() ==> !figure(s[b])
}

proof fn lemma_run(s: Seq<char>, i: int, e: int, class: CharClass)
    requires
        0 <= i <= e <= s.len(),
        forall|k: int| i <= k < e ==> crate::survey::of_class(#[trigger] s[k], class),
        e < s.len() ==> !crate::survey::of_class(s[e], class),
    ensures
        run_end(s, i, class) == e,
    decreases e - i,
{
    if i < e {
        assert(crate::survey::of_class(s[i], class));
        lemma_run(s, i + 1, e, class);
    }
}

/// `N: …` and `A/N: …`, with white space in front or not, define the node `N`.
pub proof fn law_a_surveyed_node_is_read(s: Seq<char>, a: int, e: int, f: int)
    requires
        0 <= a,
        forall|k: int| 0 <= k < a ==> is_white(#[trigger] s[k]),
        figures(s, a, e),
    ensures
        e + 1 < s.len() && s[e] == ':' && s[e + 1] == ' ' ==> node_of(s) == number_of(s, a, e),
        e < s.len() && s[e] == '/' && figures(s, e + 1, f) && f + 1 < s.len() && s[f] == ':' && s[f
            + 1] == ' ' ==> node_of(s) == number_of(s, e + 1, f),
{
    reveal_strlit(": ");
    assert(figure(s[a]));
    lemma_run(s, 0, a, CharClass::White);
    lemma_run(s, a, e, CharClass::Digit);
    let w = ": "@;
    if e + 1 < s.len() && s[e] == ':' && s[e + 1] == ' ' {
        assert(s.subrange(e, e + 2) =~= w);
    }
    if e < s.len() && s[e] == '/' && figures(s, e + 1, f) && f + 1 < s.len() && s[f] == ':' && s[f
        + 1] == ' ' {
        lemma_run(s, e + 1, f, CharClass::Digit);
        assert(s.subrange(f, f + 2) =~= w);
        if word_at(s, e, s.len() as int, w) {
            assert(s.subrange(e, e + 2)[0] == s[e]);
        }
    }
}

/// In a phase, a line that opens a block counts as a block, one that defines a
/// node as a node, and any other that shows something as a note; each adds one,
/// and a blank line nothing.
pub proof fn law_a_line_of_a_phase_is_counted_once(st: StatsModel, s: Seq<char>)
    requires
        st.compilations.len() > 0,
        st.compilations.last().phases.len() > 0,
        ({
            let p = st.compilations.last().phases.last();
            p.blocks < usize::MAX && p.nodes < usize::MAX && p.annotations < usize::MAX
        }),
    ensures
        ({
            let before = st.compilations.last().phases.last();
            let after = st.content(s).compilations.last().phases.last();
            let blank = forall|k: int| 0 <= k < s.len() ==> is_white(#[trigger] s[k]);
            &&& after.blocks == before.blocks + (if label_of(s) is Some {
                1int
            } else {
                0
            })
            &&& after.nodes == before.nodes + (if label_of(s) is None && node_of(s) is Some {
                1int
            } else {
                0
            })
            &&& after.annotations == before.annotations + (if label_of(s) is None && node_of(
                s,
            ) is None && !blank {
                1int
            } else {
                0
            })
            &&& after.name == before.name
            &&& st.content(s).compilations.len() == st.compilations.len()
        }),
{
    lemma_white(s, 0);
}

proof fn lemma_white(s: Seq<char>, i: int)
    requires
        0 <= i <= s.len(),
    ensures
        run_end(s, i, CharClass::White) == s.len() <==> forall|k: int|
            i <= k < s.len() ==> is_white(#[trigger] s[k]),
    decreases s.len() - i,
{
    if i < s.len() && is_white(s[i]) {
        lemma_white(s, i + 1);
    }
}

/// `----- name -----` is a banner of that name.
pub proof fn law_a_surveyed_banner_is_read(name: Seq<char>)
    requires
        name.len() > 0,
    ensures
        banner_of("----- "@ + name + " -----"@) == Some(name),
{
    reveal_strlit("----- ");
    reveal_strlit(" -----");
    let s = "----- "@ + name + " -----"@;
    let n = s.len() as int;
    assert(s[n - 1] == '-');
    assert(trimmed(s, n) == n);
    assert(s.subrange(0, 6) =~= "----- "@);
    assert(s.subrange(n - 6, n) =~= " -----"@);
    assert(s.subrange(6, n - 6) =~= name);
}

/// A number has the same shape whatever its digits, and an address likewise; any
/// other character stands for itself.
pub proof fn law_a_shape_has_no_digits(s: Seq<char>, i: int, e: int)
    requires
        0 <= i < e <= s.len(),
    ensures
        figures(s, i, e) && !(s[i] == '0' && e == i + 1 && e < s.len() && s[e] == 'x')
            ==> shape_part(s, i) == ('#', e),
        !figure(s[i]) && !is_white(s[i]) ==> shape_part(s, i) == (s[i], i + 1),
        is_white(s[i]) ==> shape_part(s, i) == (' ', i + 1),
{
    if figures(s, i, e) {
        assert(figure(s[i]));
        if i + 1 < e {
            assert(figure(s[i + 1]));
        }
        lemma_run(s, i + 1, e, CharClass::Digit);
    }
}

} // verus!
