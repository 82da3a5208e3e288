//! What is on the screen: source text, counts and places.

use vstd::prelude::*;
#[allow(unused_imports)]
use vstd::string::*;

#[allow(unused_imports)]
use super::bytes::{digit, lemma_says, says};
#[allow(unused_imports)]
use super::disassembly::{first_said, lemma_first, not_said};
#[allow(unused_imports)]
use crate::app::rows::SidebarModel;
#[allow(unused_imports)]
use crate::app::ViewState;
#[allow(unused_imports)]
use crate::model::{CompilationModel, TierModel};
#[allow(unused_imports)]
use crate::text::occurs_at;
#[allow(unused_imports)]
use crate::ui::bars::{counted_as, deopt_count, osr_count, tier_count, Counted};
#[allow(unused_imports)]
use crate::ui::frame::{centred_on, list_top, scrolled_to, sidebar_part, thumb_place, within};
#[allow(unused_imports)]
use crate::ui::paint::{filled, Class};
#[allow(unused_imports)]
use crate::ui::script::{
    keyword, lemma_script_len, lemma_token, number_stop, script_from, string_stop, token_at,
    word_stop,
};

verus! {

// ---------------------------------------------------------------------------
// Source text
// ---------------------------------------------------------------------------

/// `//` makes the rest of a line a comment, and `/*` what stands up to the first
/// `*/` behind it, or the rest of the line where there is none.
pub proof fn law_a_comment_is_seen(s: Seq<u8>, i: int, e: int)
    requires
        0 <= i < s.len(),
    ensures
        says(s, i, "//"@) ==> token_at(s, i) == (s.len() as int, Class::Comment),
        says(s, i, "/*"@) && first_said(s, i + 2, s.len() as int, e, "*/"@) ==> token_at(s, i) == (
            e + 2,
            Class::Comment,
        ),
        says(s, i, "/*"@) && not_said(s, i + 2, s.len() as int, "*/"@) ==> token_at(s, i) == (
            s.len() as int,
            Class::Comment,
        ),
{
    reveal_strlit("//");
    reveal_strlit("/*");
    reveal_strlit("*/");
    lemma_says(s, i, "//"@);
    lemma_says(s, i, "/*"@);
    if says(s, i, "/*"@) {
        assert(s[i + 1] as int == "/*"@[1] as int);
        if says(s, i, "//"@) {
            assert(s[i + 1] as int == "//"@[1] as int);
        }
        lemma_first(s, i + 2, s.len() as int, e, "*/"@);
        assert(s.subrange(0, s.len() as int) =~= s);
    }
}

proof fn lemma_string(s: Seq<u8>, k: int, e: int, quote: u8)
    requires
        0 <= k <= e < s.len(),
        s[e] == quote,
        forall|j: int| k <= j < e ==> #[trigger] s[j] != quote && s[j] != 92,
    ensures
        string_stop(s, k, quote) == e + 1,
    decreases e - k,
{
    if k < e {
        assert(s[k] != quote && s[k] != 92);
        lemma_string(s, k + 1, e, quote);
    }
}

/// A text in quotes ends behind the first quote of the same kind; a quote behind
/// a backslash does not end it.
pub proof fn law_a_string_ends_at_its_quote(s: Seq<u8>, i: int, e: int)
    requires
        0 <= i < e < s.len(),
        s[i] == 34 || s[i] == 39 || s[i] == 96,
        s[e] == s[i],
        forall|j: int| i < j < e ==> #[trigger] s[j] != s[i] && s[j] != 92,
    ensures
        token_at(s, i) == (e + 1, Class::Text),
{
    lemma_no_comment(s, i);
    lemma_string(s, i + 1, e, s[i]);
}

/// A backslash and what it stands in front of are part of the string.
pub proof fn law_an_escape_does_not_end_a_string(s: Seq<u8>, k: int, quote: u8)
    requires
        0 <= k < s.len(),
        s[k] == 92,
        quote != 92,
    ensures
        string_stop(s, k, quote) == string_stop(s, k + 2, quote),
{
}

proof fn lemma_no_comment(s: Seq<u8>, i: int)
    requires
        0 <= i < s.len(),
        s[i] != 47,
    ensures
        !occurs_at(s, i, "//".spec_bytes()),
        !occurs_at(s, i, "/*".spec_bytes()),
{
    reveal_strlit("//");
    reveal_strlit("/*");
    lemma_says(s, i, "//"@);
    lemma_says(s, i, "/*"@);
    if says(s, i, "//"@) {
        assert(s[i + 0] as int == "//"@[0] as int);
    }
    if says(s, i, "/*"@) {
        assert(s[i + 0] as int == "/*"@[0] as int);
    }
}

/// A byte of a word of the script: a letter, a digit, `_`, `$` or part of a letter
/// that is not ASCII.
pub open spec fn script_word(b: u8) -> bool {
    super::bytes::letter(b) || digit(b) || b == 95 || b == 36 || b >= 128
}

proof fn lemma_word(s: Seq<u8>, i: int, e: int)
    requires
        0 <= i <= e <= s.len(),
        forall|k: int| i <= k < e ==> script_word(#[trigger] s[k]),
        e < s.len() ==> !script_word(s[e]),
    ensures
        word_stop(s, i) == e,
        e < s.len() && s[e] != 46 ==> number_stop(s, i) == e,
        e == s.len() ==> number_stop(s, i) == e,
    decreases e - i,
{
    if i < e {
        assert(script_word(s[i]));
        lemma_word(s, i + 1, e);
    }
}

/// A word that starts with a digit is a number. Another is one token too: a word
/// of the language, or plain.
pub proof fn law_a_word_is_one_token(s: Seq<u8>, i: int, e: int)
    requires
        0 <= i < e <= s.len(),
        forall|k: int| i <= k < e ==> script_word(#[trigger] s[k]),
        e < s.len() ==> !script_word(s[e]) && s[e] != 46,
    ensures
        digit(s[i]) ==> token_at(s, i) == (e, Class::Number),
        !digit(s[i]) ==> token_at(s, i) == (
            e,
            if keyword(s, i, e) {
                Class::Keyword
            } else {
                Class::Base
            },
        ),
{
    assert(script_word(s[i]));
    lemma_no_comment(s, i);
    lemma_word(s, i, e);
}

/// Every byte of a token has its class, whatever follows, and what stands in
/// front of it keeps its own.
pub proof fn law_a_token_is_painted_whole(s: Seq<u8>, i: int, paint: Seq<Class>, k: int)
    requires
        0 <= i < s.len(),
        paint.len() == s.len(),
        0 <= k < token_at(s, i).0,
        k < s.len(),
    ensures
        script_from(s, i, paint).len() == s.len(),
        script_from(s, i, paint)[k] == (if k < i {
            paint[k]
        } else {
            token_at(s, i).1
        }),
    decreases s.len() - i,
{
    let (end, class) = token_at(s, i);
    lemma_token(s, i);
    lemma_script_len(s, i, paint);
    let now = filled(paint, i, end, class);
    lemma_behind(s, end, now, k);
}

proof fn lemma_behind(s: Seq<u8>, i: int, paint: Seq<Class>, k: int)
    requires
        0 <= k < i,
        paint.len() == s.len(),
        k < s.len(),
    ensures
        script_from(s, i, paint)[k] == paint[k],
    decreases s.len() - i,
{
    if i < s.len() {
        let (end, class) = token_at(s, i);
        lemma_token(s, i);
        lemma_behind(s, end, filled(paint, i, end, class), k);
    }
}

// ---------------------------------------------------------------------------
// Counts
// ---------------------------------------------------------------------------

/// The bar counts every compilation once, under the name of its tier, and those
/// of any other tier together.
pub proof fn law_every_compilation_is_counted_once(list: Seq<CompilationModel>, what: Counted, n: int)
    requires
        0 <= n <= list.len(),
    ensures
        tier_count(list, what, n) == list.take(n).filter(
            |c: CompilationModel| counted_as(c.tier) == what,
        ).len(),
        tier_count(list, Counted::Maglev, n) + tier_count(list, Counted::Turbolev, n) + tier_count(
            list,
            Counted::Turbofan,
            n,
        ) + tier_count(list, Counted::Ignition, n) + tier_count(list, Counted::Other, n) == n,
        counted_as(TierModel::Maglev) == Counted::Maglev,
        counted_as(TierModel::Turbolev) == Counted::Turbolev,
        counted_as(TierModel::Turbofan) == Counted::Turbofan,
        counted_as(TierModel::Ignition) == Counted::Ignition,
        counted_as(TierModel::Sparkplug) == Counted::Other,
        osr_count(list, n) == list.take(n).filter(|c: CompilationModel| c.osr is Some).len(),
    decreases n,
{
    reveal(Seq::filter);
    if n > 0 {
        law_every_compilation_is_counted_once(list, what, n - 1);
        assert(list.take(n).drop_last() =~= list.take(n - 1));
        assert(list.take(n).last() == list[n - 1]);
    } else {
        assert(list.take(n).len() == 0);
    }
}

/// The bar counts as many deoptimizations as the timeline lists when it lists
/// those alone.
pub proof fn law_the_deoptimizations_that_are_listed_are_counted(bar: SidebarModel, n: int)
    requires
        bar.deopts_only,
        0 <= n <= bar.source.index.events.len(),
    ensures
        bar.event_rows(n).len() == deopt_count(bar.source.index.events, n),
    decreases n,
{
    if n > 0 {
        law_the_deoptimizations_that_are_listed_are_counted(bar, n - 1);
    }
}

// ---------------------------------------------------------------------------
// Places
// ---------------------------------------------------------------------------

/// How far apart two numbers are.
pub open spec fn apart(a: int, b: int) -> int {
    if a < b {
        b - a
    } else {
        a - b
    }
}

/// A list is scrolled as little as it takes: no other place that has the row on
/// the screen is nearer to where the list was.
pub proof fn law_a_list_is_scrolled_as_little_as_it_takes(
    at: usize,
    scroll: usize,
    height: int,
    other: int,
)
    requires
        height > 0,
        0 <= other <= at < other + height,
    ensures
        apart(scrolled_to(at, scroll, height) as int, scroll as int) <= apart(other, scroll as int),
{
}

/// A list starts at its first entry unless that puts the selected one off the
/// screen, and no further down than that.
pub proof fn law_a_list_starts_as_high_as_it_can(selected: int, height: int, other: int)
    requires
        height > 0,
        0 <= other <= selected < other + height,
    ensures
        list_top(selected, height) <= other,
{
}

/// A viewport stays where it is while its cursor is one of the rows and on the
/// screen.
pub proof fn law_a_viewport_that_is_in_order_stays(state: ViewState, len: int, height: int)
    requires
        state.cursor < len,
        state.top <= state.cursor < state.top + height,
    ensures
        within(state, len, height) == state,
{
}

/// A line is in the middle of the screen where there are lines enough on both
/// sides; otherwise no line of the screen is left empty for it.
pub proof fn law_a_line_is_centred(at: int, len: int, height: int)
    requires
        0 <= at < len,
        height > 0,
    ensures
        at >= height / 2 && at - height / 2 + height <= len ==> at - centred_on(at, len, height)
            == height / 2,
        len >= height ==> centred_on(at, len, height) + height <= len,
        len < height ==> centred_on(at, len, height) == 0,
{
}

/// The sidebar takes a third of the screen, but no less than 24 columns and no
/// more than 44.
pub proof fn law_the_sidebar_takes_a_third(width: u16)
    ensures
        24 <= sidebar_part(width) <= 44,
        72 <= width <= 132 ==> sidebar_part(width) == width / 3,
        width < 72 ==> sidebar_part(width) == 24,
        width > 134 ==> sidebar_part(width) == 44,
{
}

/// A list that fits has no scrollbar. Otherwise the thumb lies in the bar, at its
/// start where the list is at its start, and at its end where the list is at its
/// end.
pub proof fn law_the_thumb_shows_where_the_list_is(scroll: usize, total: usize, height: u16)
    requires
        height > 0,
    ensures
        thumb_place(scroll, total, height) is None <==> total <= height,
        thumb_place(scroll, total, height) matches Some((at, len)) ==> {
            &&& 1 <= len <= height
            &&& 0 <= at
            &&& at + len <= height
            &&& scroll == 0 ==> at == 0
            &&& scroll >= total - height ==> at + len == height
        },
{
    if total > height {
        let h = height as int;
        let t = total as int;
        let (at, len) = thumb_place(scroll, total, height)->0;
        assert(0 <= h * h / t <= h) by (nonlinear_arith)
            requires
                0 < h < t,
        ;
        let room = t - h;
        let x = if scroll < room {
            scroll as int
        } else {
            room
        };
        assert(0 <= (h - len) * x / room <= h - len) by (nonlinear_arith)
            requires
                0 <= x <= room,
                0 < room,
                0 <= h - len,
        ;
        if scroll == 0 {
            assert((h - len) * 0 / room == 0) by (nonlinear_arith)
                requires
                    0 < room,
            ;
        }
        if scroll >= room {
            assert((h - len) * room / room == h - len) by (nonlinear_arith)
                requires
                    0 < room,
            ;
        }
    }
}

} // verus!
