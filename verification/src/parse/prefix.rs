//! A compilation-id prefix carries no meaning.

use vstd::prelude::*;
#[allow(unused_imports)]
use vstd::string::*;

#[allow(unused_imports)]
use super::maglev::{decision_at, decision_of, decision_start, trimmed_text};
#[allow(unused_imports)]
use crate::text::{
    find_from, is_digit, occurs_at, text_of, trimmed_end, trimmed_start, white_before, white_len,
};

verus! {

proof fn lemma_occurs(p: Seq<u8>, s: Seq<u8>, i: int, word: Seq<u8>)
    requires
        0 <= i,
    ensures
        occurs_at(p + s, p.len() + i, word) == occurs_at(s, i, word),
{
    if i + word.len() <= s.len() {
        assert((p + s).subrange(p.len() + i, p.len() + i + word.len()) =~= s.subrange(
            i,
            i + word.len(),
        ));
    }
}

proof fn lemma_find(p: Seq<u8>, s: Seq<u8>, i: int, word: Seq<u8>)
    requires
        0 <= i,
    ensures
        find_from(p + s, p.len() + i, word) == match find_from(s, i, word) {
            Some(k) => Some(p.len() + k),
            None => None,
        },
        find_from(s, i, word) matches Some(k) ==> i <= k && k + word.len() <= s.len(),
    decreases s.len() + 1 - i,
{
    if i + word.len() <= s.len() {
        lemma_occurs(p, s, i, word);
        if !occurs_at(s, i, word) {
            lemma_find(p, s, i + 1, word);
        }
    }
}

proof fn lemma_white(p: Seq<u8>, s: Seq<u8>, i: int)
    requires
        0 <= i,
    ensures
        white_len(p + s, p.len() + i) == white_len(s, i),
{
    let t = p + s;
    let n = p.len() as int;
    if i < s.len() {
        assert(t[n + i] == s[i]);
    }
    if i + 1 < s.len() {
        assert(t[n + i + 1] == s[i + 1]);
    }
    if i + 2 < s.len() {
        assert(t[n + i + 2] == s[i + 2]);
    }
}

proof fn lemma_trimmed_start(p: Seq<u8>, s: Seq<u8>, i: int)
    requires
        0 <= i,
    ensures
        trimmed_start(p + s, p.len() + i) == p.len() + trimmed_start(s, i),
        i <= trimmed_start(s, i),
        i <= s.len() ==> trimmed_start(s, i) <= s.len(),
    decreases s.len() - i,
{
    lemma_white(p, s, i);
    if white_len(s, i) > 0 {
        lemma_trimmed_start(p, s, i + white_len(s, i));
    }
}

proof fn lemma_trimmed_end(p: Seq<u8>, s: Seq<u8>, lo: int, j: int)
    requires
        0 <= lo <= j,
    ensures
        trimmed_end(p + s, p.len() + lo, p.len() + j) == p.len() + trimmed_end(s, lo, j),
        lo <= trimmed_end(s, lo, j) <= j,
    decreases j - lo,
{
    if j - 1 >= lo {
        lemma_white(p, s, j - 1);
    }
    if j - 2 >= lo {
        lemma_white(p, s, j - 2);
    }
    if j - 3 >= lo {
        lemma_white(p, s, j - 3);
    }
    assert(white_before(p + s, p.len() + lo, p.len() + j) == white_before(s, lo, j));
    if white_before(s, lo, j) > 0 {
        lemma_trimmed_end(p, s, lo, j - white_before(s, lo, j));
    }
}

proof fn lemma_trimmed_text(p: Seq<u8>, s: Seq<u8>, from: int, to: int)
    requires
        0 <= from <= to <= s.len(),
    ensures
        trimmed_text(p + s, p.len() + from, p.len() + to) == trimmed_text(s, from, to),
{
    lemma_trimmed_end(p, s, from, to);
    lemma_trimmed_start(p, s, from);
    let e = trimmed_end(s, from, to);
    let b = if trimmed_start(s, from) < e {
        trimmed_start(s, from)
    } else {
        e
    };
    assert((p + s).subrange(p.len() + b, p.len() + e) =~= s.subrange(b, e));
}

proof fn lemma_decision_at(p: Seq<u8>, s: Seq<u8>, at: int, line: int, inlined: bool)
    requires
        0 <= at <= s.len(),
    ensures
        decision_at(p + s, p.len() + at, line, inlined) == decision_at(s, at, line, inlined),
{
    let word = "  ".spec_bytes();
    lemma_trimmed_start(p, s, at);
    let c = trimmed_start(s, at);
    lemma_find(p, s, c, word);
    match find_from(s, c, word) {
        Some(gap) => {
            lemma_trimmed_text(p, s, c, gap);
            lemma_trimmed_text(p, s, gap + word.len(), s.len() as int);
        },
        None => {
            lemma_trimmed_text(p, s, c, s.len() as int);
        },
    }
}

/// The prefix with which a line names its compilation.
pub open spec fn id_prefix(id: Seq<u8>) -> Seq<u8> {
    "[ML:".spec_bytes() + id + "] ".spec_bytes()
}

proof fn lemma_prefix_bytes()
    ensures
        "[ML:".spec_bytes() == seq![0x5bu8, 0x4d, 0x4c, 0x3a],
        "] ".spec_bytes() == seq![0x5du8, 0x20],
{
    reveal_strlit("[ML:");
    reveal_strlit("] ");
    vstd::utf8::is_ascii_chars_encode_utf8("[ML:"@);
    vstd::utf8::is_ascii_chars_encode_utf8("] "@);
    assert("[ML:"@[0] == '[' && "[ML:"@[1] == 'M' && "[ML:"@[2] == 'L' && "[ML:"@[3] == ':');
    assert("] "@[0] == ']' && "] "@[1] == ' ');
    assert("[ML:".spec_bytes() =~= seq![0x5bu8, 0x4d, 0x4c, 0x3a]);
    assert("] ".spec_bytes() =~= seq![0x5du8, 0x20]);
}

/// The prefix ends where its bracket does.
proof fn lemma_prefix_end(id: Seq<u8>, s: Seq<u8>, i: int)
    requires
        forall|k: int| 0 <= k < id.len() ==> is_digit(#[trigger] id[k]),
        0 <= i <= id.len(),
    ensures
        find_from(id_prefix(id) + s, 4 + i, "] ".spec_bytes()) == Some(4 + id.len() as int),
    decreases id.len() - i,
{
    lemma_prefix_bytes();
    let t = id_prefix(id) + s;
    let word = "] ".spec_bytes();
    if i == id.len() {
        assert(t.subrange(4 + i, 4 + i + 2) =~= word);
    } else {
        assert(t[4 + i] == id[i]);
        if occurs_at(t, 4 + i, word) {
            assert(t.subrange(4 + i, 4 + i + 2)[0] == t[4 + i]);
        }
        lemma_prefix_end(id, s, i + 1);
    }
}

/// An inlining decision is the same with and without the id of its
/// compilation in front.
pub proof fn law_decisions_do_not_depend_on_the_id(id: Seq<u8>, s: Seq<u8>, line: int)
    requires
        forall|k: int| 0 <= k < id.len() ==> is_digit(#[trigger] id[k]),
        decision_start(s) == 0,
    ensures
        decision_of(id_prefix(id) + s, line) == decision_of(s, line),
{
    lemma_prefix_bytes();
    let p = id_prefix(id);
    let t = p + s;
    assert(t[0] == 0x5b);
    assert(white_len(t, 0) == 0);
    assert(t.subrange(0, 4) =~= "[ML:".spec_bytes());
    lemma_prefix_end(id, s, 0);
    assert(decision_start(t) == p.len());
    let yes = "⚡ INLINE".spec_bytes();
    let no = "❌ SKIP".spec_bytes();
    lemma_occurs(p, s, 0, yes);
    lemma_occurs(p, s, 0, no);
    if occurs_at(s, 0, yes) {
        lemma_decision_at(p, s, yes.len() as int, line, true);
    } else if occurs_at(s, 0, no) {
        lemma_decision_at(p, s, no.len() as int, line, false);
    }
}

} // verus!
