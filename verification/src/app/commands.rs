//! The commands that can be typed, and how they are completed and read.

use vstd::prelude::*;
#[allow(unused_imports)]
use vstd::string::*;

use crate::diff::canon::chars_of;
#[allow(unused_imports)]
use crate::model::texts;
use crate::text;

verus! {

/// The commands with what they do, in the order in which they are offered.
pub open spec fn command_table() -> Seq<(Seq<char>, Seq<char>)> {
    seq![
        ("checks"@, "lens: guard nodes, with a count"@),
        ("clear"@, "clear the lens and timeline filter"@),
        ("copy"@, "copy the visible section"@),
        ("deopts"@, "timeline, deopt events only"@),
        ("export"@, "export the view to <file>"@),
        ("function"@, "filter the sidebar to <regex>"@),
        ("megamorphic"@, "lens: megamorphic feedback and ICs"@),
        ("phi"@, "lens: control/phi backbone"@),
        ("spill"@, "lens: regalloc spills and reloads"@),
        ("timeline"@, "toggle the timeline view"@),
    ]
}

/// The views of commands with what they do.
pub open spec fn command_models(
    list: Seq<(&'static str, &'static str)>,
) -> Seq<(Seq<char>, Seq<char>)> {
    list.map_values(|c: (&'static str, &'static str)| (c.0@, c.1@))
}

/// The commands with what they do.
pub fn commands() -> (list: Vec<(&'static str, &'static str)>)
    ensures
        command_models(list@) == command_table(),
{
    let mut list: Vec<(&'static str, &'static str)> = Vec::new();
    list.push(("checks", "lens: guard nodes, with a count"));
    list.push(("clear", "clear the lens and timeline filter"));
    list.push(("copy", "copy the visible section"));
    list.push(("deopts", "timeline, deopt events only"));
    list.push(("export", "export the view to <file>"));
    list.push(("function", "filter the sidebar to <regex>"));
    list.push(("megamorphic", "lens: megamorphic feedback and ICs"));
    list.push(("phi", "lens: control/phi backbone"));
    list.push(("spill", "lens: regalloc spills and reloads"));
    list.push(("timeline", "toggle the timeline view"));
    assert(command_models(list@) =~= command_table());
    list
}

// ---------------------------------------------------------------------------
// Completion
// ---------------------------------------------------------------------------

/// The commands among the first `n` that begin with what was typed.
pub open spec fn offered(typed: Seq<char>, n: int) -> Seq<(Seq<char>, Seq<char>)>
    decreases n,
{
    if n <= 0 {
        Seq::empty()
    } else {
        let before = offered(typed, n - 1);
        if typed.is_prefix_of(command_table()[n - 1].0) {
            before.push(command_table()[n - 1])
        } else {
            before
        }
    }
}

/// The commands that begin with what was typed.
pub open spec fn candidates(typed: Seq<char>) -> Seq<(Seq<char>, Seq<char>)> {
    offered(typed, command_table().len() as int)
}

/// How many characters two texts agree on, at and after `i`.
pub open spec fn agreement(a: Seq<char>, b: Seq<char>, i: int) -> int
    decreases a.len() - i,
{
    if 0 <= i < a.len() && i < b.len() && a[i] == b[i] {
        agreement(a, b, i + 1)
    } else {
        i
    }
}

/// What the names of the first `n` commands of a list begin with.
pub open spec fn common_start(list: Seq<(Seq<char>, Seq<char>)>, n: int) -> Seq<char>
    decreases n,
{
    if n <= 1 {
        list[0].0
    } else {
        let before = common_start(list, n - 1);
        before.take(agreement(before, list[n - 1].0, 0))
    }
}

/// What was typed, completed as far as the commands agree. Arguments have no
/// completion.
pub open spec fn completed(typed: Seq<char>) -> Seq<char> {
    let list = candidates(typed);
    if typed.contains(' ') || list.len() == 0 {
        typed
    } else {
        common_start(list, list.len() as int)
    }
}

proof fn lemma_offered(typed: Seq<char>, n: int)
    requires
        0 <= n <= command_table().len(),
    ensures
        forall|k: int|
            0 <= k < offered(typed, n).len() ==> typed.is_prefix_of(
                #[trigger] offered(typed, n)[k].0,
            ),
    decreases n,
{
    if n > 0 {
        lemma_offered(typed, n - 1);
        let before = offered(typed, n - 1);
        assert forall|k: int| 0 <= k < offered(typed, n).len() implies typed.is_prefix_of(
            #[trigger] offered(typed, n)[k].0,
        ) by {
            if k < before.len() {
                assert(offered(typed, n)[k] == before[k]);
            }
        }
    }
}

proof fn lemma_agreement(a: Seq<char>, b: Seq<char>, typed: Seq<char>, i: int)
    requires
        typed.is_prefix_of(a),
        typed.is_prefix_of(b),
        0 <= i <= a.len(),
    ensures
        i <= agreement(a, b, i) <= a.len(),
        i <= typed.len() ==> agreement(a, b, i) >= typed.len(),
    decreases a.len() - i,
{
    assert(forall|k: int| 0 <= k < typed.len() ==> typed[k] == a[k] && typed[k] == b[k]) by {
        assert forall|k: int| 0 <= k < typed.len() implies typed[k] == a[k] && typed[k] == b[k] by {
            assert(typed =~= a.take(typed.len() as int));
            assert(typed =~= b.take(typed.len() as int));
            assert(a.take(typed.len() as int)[k] == a[k]);
            assert(b.take(typed.len() as int)[k] == b[k]);
        }
    }
    if i < a.len() && i < b.len() && a[i] == b[i] {
        lemma_agreement(a, b, typed, i + 1);
    }
}

proof fn lemma_common_start(list: Seq<(Seq<char>, Seq<char>)>, typed: Seq<char>, n: int)
    requires
        1 <= n <= list.len(),
        forall|k: int| 0 <= k < list.len() ==> typed.is_prefix_of(#[trigger] list[k].0),
    ensures
        typed.is_prefix_of(common_start(list, n)),
    decreases n,
{
    if n > 1 {
        lemma_common_start(list, typed, n - 1);
        let before = common_start(list, n - 1);
        lemma_agreement(before, list[n - 1].0, typed, 0);
        let k = agreement(before, list[n - 1].0, 0);
        assert(typed =~= before.take(typed.len() as int));
        assert(before.take(k).take(typed.len() as int) =~= before.take(typed.len() as int));
    }
}

/// Completion only ever adds to what was typed.
pub proof fn law_completion_extends(typed: Seq<char>)
    ensures
        typed.is_prefix_of(completed(typed)),
{
    let list = candidates(typed);
    lemma_offered(typed, command_table().len() as int);
    if list.len() > 0 {
        lemma_common_start(list, typed, list.len() as int);
    }
    assert(typed =~= typed.take(typed.len() as int));
}

fn begins_with(s: &Vec<char>, typed: &Vec<char>) -> (yes: bool)
    ensures
        yes == typed@.is_prefix_of(s@),
{
    if typed.len() > s.len() {
        return false;
    }
    let mut k: usize = 0;
    while k < typed.len()
        invariant
            k <= typed@.len() <= s@.len(),
            forall|m: int| 0 <= m < k ==> typed@[m] == s@[m],
        decreases typed.len() - k,
    {
        if typed[k] != s[k] {
            assert(s@.take(typed@.len() as int)[k as int] == s@[k as int]);
            return false;
        }
        k += 1;
    }
    assert(typed@ =~= s@.take(typed@.len() as int));
    true
}

/// The commands that begin with what was typed.
pub fn command_candidates(typed: &str) -> (list: Vec<(&'static str, &'static str)>)
    ensures
        command_models(list@) == candidates(typed@),
{
    let all = commands();
    let wanted = chars_of(typed);
    let mut list: Vec<(&'static str, &'static str)> = Vec::new();
    let mut n: usize = 0;
    assert(command_models(all@).len() == all@.len());
    assert(command_models(list@) =~= offered(typed@, 0));
    while n < all.len()
        invariant
            n <= all@.len(),
            all@.len() == command_table().len(),
            command_models(all@) == command_table(),
            wanted@ == typed@,
            command_models(list@) == offered(typed@, n as int),
        decreases all.len() - n,
    {
        let ghost before = list@;
        assert(command_table()[n as int] == command_models(all@)[n as int]);
        let name = chars_of(all[n].0);
        if begins_with(&name, &wanted) {
            list.push(all[n]);
            assert(command_models(list@) =~= command_models(before).push(command_table()[n as int]));
        }
        n += 1;
    }
    list
}

fn count_agreement(a: &Vec<char>, b: &Vec<char>) -> (n: usize)
    ensures
        n == agreement(a@, b@, 0),
        n <= a@.len(),
{
    let mut i: usize = 0;
    while i < a.len() && i < b.len() && a[i] == b[i]
        invariant
            i <= a@.len(),
            agreement(a@, b@, 0) == agreement(a@, b@, i as int),
        decreases a.len() - i,
    {
        i += 1;
    }
    i
}

/// What was typed, completed as far as the commands agree.
pub fn complete(typed: &str) -> (out: String)
    ensures
        out@ == completed(typed@),
{
    let chars = chars_of(typed);
    let mut k: usize = 0;
    while k < chars.len()
        invariant
            k <= chars@.len(),
            chars@ == typed@,
            forall|m: int| 0 <= m < k ==> chars@[m] != ' ',
        decreases chars.len() - k,
    {
        if chars[k] == ' ' {
            return text::owned(typed);
        }
        k += 1;
    }
    let list = command_candidates(typed);
    let ghost all = command_models(list@);
    assert(all.len() == list@.len());
    if list.len() == 0 {
        return text::owned(typed);
    }
    assert(all[0] == (list@[0].0@, list@[0].1@));
    let mut start = chars_of(list[0].0);
    let mut n: usize = 1;
    while n < list.len()
        invariant
            1 <= n <= list@.len(),
            all == command_models(list@),
            start@ == common_start(all, n as int),
        decreases list.len() - n,
    {
        assert(all[n as int] == (list@[n as int].0@, list@[n as int].1@));
        let name = chars_of(list[n].0);
        let shared: usize = count_agreement(&start, &name);
        let ghost before = start@;
        start.truncate(shared);
        assert(start@ =~= before.take(shared as int));
        n += 1;
    }
    assert(start@.subrange(0, start@.len() as int) =~= start@);
    text::from_chars(&start, 0, start.len())
}

// ---------------------------------------------------------------------------
// Reading a command
// ---------------------------------------------------------------------------

/// The first place at or after `i` that is not white.
pub open spec fn past_white(s: Seq<char>, i: int) -> int
    decreases s.len() - i,
{
    if 0 <= i < s.len() && text::is_white(s[i]) {
        past_white(s, i + 1)
    } else {
        i
    }
}

/// The end of `s` up to `j` without white space, not before `lo`.
pub open spec fn before_white(s: Seq<char>, lo: int, j: int) -> int
    decreases j - lo,
{
    if lo < j <= s.len() && text::is_white(s[j - 1]) {
        before_white(s, lo, j - 1)
    } else {
        j
    }
}

/// The first white place at or after `i` and before `hi`.
pub open spec fn first_white(s: Seq<char>, i: int, hi: int) -> int
    decreases hi - i,
{
    if i < hi && 0 <= i < s.len() && !text::is_white(s[i]) {
        first_white(s, i + 1, hi)
    } else {
        i
    }
}

/// A text without white space at its ends.
pub open spec fn trimmed(s: Seq<char>) -> Seq<char> {
    let from = past_white(s, 0);
    s.subrange(from, before_white(s, from, s.len() as int))
}

/// A command line as its first word and the rest of it.
pub open spec fn command_parts(line: Seq<char>) -> (Seq<char>, Seq<char>) {
    let s = trimmed(line);
    let end = first_white(s, 0, s.len() as int);
    if end < s.len() {
        (s.take(end), trimmed(s.skip(end + 1)))
    } else {
        (s, Seq::empty())
    }
}

fn trim_chars(s: &Vec<char>, from: usize) -> (range: (usize, usize))
    requires
        from <= s@.len(),
    ensures
        range.0 <= range.1 <= s@.len(),
        s@.subrange(range.0 as int, range.1 as int) == trimmed(s@.skip(from as int)),
{
    let ghost rest = s@.skip(from as int);
    let mut a: usize = from;
    while a < s.len() && text::white_char(s[a])
        invariant
            from <= a <= s@.len(),
            rest == s@.skip(from as int),
            past_white(rest, 0) == past_white(rest, a - from),
        decreases s.len() - a,
    {
        assert(rest[a - from] == s@[a as int]);
        a += 1;
    }
    assert(a < s@.len() ==> rest[a - from] == s@[a as int]);
    let mut b: usize = s.len();
    while b > a && text::white_char(s[b - 1])
        invariant
            from <= a <= b <= s@.len(),
            rest == s@.skip(from as int),
            before_white(rest, a - from, rest.len() as int) == before_white(
                rest,
                a - from,
                b - from,
            ),
        decreases b,
    {
        assert(rest[b - 1 - from] == s@[b - 1]);
        b -= 1;
    }
    assert(b > a ==> rest[b - 1 - from] == s@[b - 1]);
    assert(s@.subrange(a as int, b as int) =~= rest.subrange(a - from, b - from));
    (a, b)
}

/// A command line as its first word and the rest of it.
pub fn split_command(line: &str) -> (parts: (String, String))
    ensures
        (parts.0@, parts.1@) == command_parts(line@),
{
    let all = chars_of(line);
    let (a, b): (usize, usize) = trim_chars(&all, 0);
    assert(all@.skip(0) =~= all@);
    let s = chars_of(text::from_chars(&all, a, b).as_str());
    assert(s@ == trimmed(line@));
    let mut end: usize = 0;
    while end < s.len() && !text::white_char(s[end])
        invariant
            end <= s@.len(),
            first_white(s@, 0, s@.len() as int) == first_white(s@, end as int, s@.len() as int),
        decreases s.len() - end,
    {
        end += 1;
    }
    if end < s.len() {
        let (c, d): (usize, usize) = trim_chars(&s, end + 1);
        assert(s@.subrange(0, end as int) =~= s@.take(end as int));
        (text::from_chars(&s, 0, end), text::from_chars(&s, c, d))
    } else {
        assert(s@.subrange(0, s@.len() as int) =~= s@);
        (text::from_chars(&s, 0, s.len()), String::new())
    }
}

} // verus!
