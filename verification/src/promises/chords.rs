//! Keys, what they are called, and what is configured for them.

use vstd::prelude::*;
#[allow(unused_imports)]
use vstd::string::*;

#[allow(unused_imports)]
use crate::config::{
    action_name, all_texts, chord_named, chord_text, chord_texts, chords_for, chords_named,
    default_specs, event_chord, key_named, key_text, lower, modifiers_at, override_for, prefix_at,
    put_sorted, Action, Chord,
};
#[allow(unused_imports)]
use crate::keys::{no_modifiers, KeyCode, KeyEvent, KeyModifiers};

verus! {

/// A key whose name can be typed into the configuration.
pub open spec fn nameable(code: KeyCode) -> bool {
    match code {
        KeyCode::Char(_) => true,
        KeyCode::Esc => true,
        KeyCode::Enter => true,
        KeyCode::Tab => true,
        KeyCode::PageUp => true,
        KeyCode::PageDown => true,
        KeyCode::Home => true,
        KeyCode::End => true,
        _ => false,
    }
}

proof fn lemma_char(s: Seq<char>, i: int, word: Seq<char>, k: int)
    requires
        prefix_at(s, i, word),
        0 <= k < word.len(),
    ensures
        lower(s[i + k]) == word[k],
        i + word.len() <= s.len(),
{
}

proof fn lemma_prefix(s: Seq<char>, i: int, word: Seq<char>)
    requires
        i + word.len() <= s.len(),
        forall|k: int| 0 <= k < word.len() ==> lower(s[i + k]) == #[trigger] word[k],
    ensures
        prefix_at(s, i, word),
{
    assert forall|k: int| 0 <= k < word.len() implies lower(#[trigger] s[i + k]) == word[k] by {
        assert(word[k] == word[k]);
    }
}

#[verifier::spinoff_prover]
#[verifier::rlimit(60)]
proof fn lemma_key(code: KeyCode)
    requires
        nameable(code),
    ensures
        key_named(key_text(code)) == Some(code),
        key_text(code).len() > 0,
        key_text(code).len() <= 5,
        !prefix_at(key_text(code), 0, seq!['c', 't', 'r', 'l', '+']),
        !prefix_at(key_text(code), 0, seq!['a', 'l', 't', '+']),
{
    reveal_strlit("Esc");
    reveal_strlit("esc");
    reveal_strlit("Enter");
    reveal_strlit("enter");
    reveal_strlit("Tab");
    reveal_strlit("tab");
    reveal_strlit("Space");
    reveal_strlit("space");
    reveal_strlit("Up");
    reveal_strlit("up");
    reveal_strlit("Down");
    reveal_strlit("down");
    reveal_strlit("Left");
    reveal_strlit("left");
    reveal_strlit("Right");
    reveal_strlit("right");
    reveal_strlit("PgUp");
    reveal_strlit("pgup");
    reveal_strlit("PageUp");
    reveal_strlit("PgDn");
    reveal_strlit("pgdn");
    reveal_strlit("PageDown");
    reveal_strlit("Home");
    reveal_strlit("home");
    reveal_strlit("End");
    reveal_strlit("end");
    let t = key_text(code);
    let c = seq!['c', 't', 'r', 'l', '+'];
    let a = seq!['a', 'l', 't', '+'];
    if prefix_at(t, 0, c) {
        lemma_char(t, 0, c, 4);
    }
    if prefix_at(t, 0, a) {
        lemma_char(t, 0, a, 0);
        lemma_char(t, 0, a, 3);
    }
    assert("Esc"@[0] == 'E' && "End"@[0] == 'E' && "Enter"@[0] == 'E');
    assert("Esc"@[1] == 's' && "End"@[1] == 'n');
    assert("Tab"@[0] == 'T');
    assert("Home"@[0] == 'H');
    assert("PgUp"@[0] == 'P' && "PgUp"@[2] == 'U');
    assert("PgDn"@[0] == 'P' && "PgDn"@[2] == 'D');
    assert("Space"@[0] == 'S');
}

proof fn lemma_behind(head: Seq<char>, t: Seq<char>, word: Seq<char>)
    ensures
        prefix_at(head + t, head.len() as int, word) == prefix_at(t, 0, word),
{
    let s = head + t;
    let h = head.len() as int;
    if prefix_at(t, 0, word) {
        assert forall|k: int| 0 <= k < word.len() implies lower(s[h + k]) == #[trigger] word[k] by {
            lemma_char(t, 0, word, k);
            assert(s[h + k] == t[k]);
        }
        lemma_prefix(s, h, word);
    }
    if prefix_at(s, h, word) {
        assert forall|k: int| 0 <= k < word.len() implies lower(t[0 + k]) == #[trigger] word[k] by {
            lemma_char(s, h, word, k);
            assert(s[h + k] == t[k]);
        }
        lemma_prefix(t, 0, word);
    }
}

/// A chord that is shown in words is read back from them, so what the help shows
/// can be put into the configuration. The arrows are shown as arrows.
#[verifier::spinoff_prover]
#[verifier::rlimit(60)]
pub proof fn law_a_chord_is_read_back(chord: Chord)
    requires
        nameable(chord.code),
        !chord.mods.shift,
        !chord.mods.other,
    ensures
        chord_named(chord_text(chord)) == Ok::<Chord, crate::config::ErrorModel>(chord),
{
    reveal_strlit("Ctrl+");
    reveal_strlit("Alt+");
    lemma_key(chord.code);
    let t = key_text(chord.code);
    let c = seq!['c', 't', 'r', 'l', '+'];
    let a = seq!['a', 'l', 't', '+'];
    let none = Seq::<char>::empty();
    let first = if chord.mods.control {
        "Ctrl+"@
    } else {
        none
    };
    let second = if chord.mods.alt {
        "Alt+"@
    } else {
        none
    };
    let s = chord_text(chord);
    let head = first + second;
    assert(s =~= head + t);
    lemma_behind(head, t, c);
    lemma_behind(head, t, a);
    let h = head.len() as int;
    let before = KeyModifiers { control: chord.mods.control, alt: chord.mods.alt, ..no_modifiers() };
    reveal_with_fuel(modifiers_at, 3);
    assert(modifiers_at(s, h, before) == (before, h));
    let middle = first.len() as int;
    assert(s =~= first + (second + t));
    lemma_behind(first, second + t, c);
    lemma_behind(first, second + t, a);
    let ctrl = KeyModifiers { control: chord.mods.control, ..no_modifiers() };
    if chord.mods.alt {
        let r = second + t;
        assert(r[0] == 'A' && r[1] == 'l' && r[2] == 't' && r[3] == '+');
        assert(prefix_at(r, 0, a)) by {
            lemma_lower();
            assert forall|k: int| 0 <= k < a.len() implies lower(r[0 + k]) == #[trigger] a[k] by {}
            lemma_prefix(r, 0, a);
        }
        assert(!prefix_at(r, 0, c)) by {
            if prefix_at(r, 0, c) {
                lemma_char(r, 0, c, 0);
                lemma_lower();
            }
        }
        assert(modifiers_at(s, middle, ctrl) == modifiers_at(s, middle + 4, before));
    } else {
        assert(second + t =~= t);
        assert(head =~= first);
    }
    assert(modifiers_at(s, middle, ctrl) == (before, h));
    if chord.mods.control {
        assert(s[0] == 'C' && s[1] == 't' && s[2] == 'r' && s[3] == 'l' && s[4] == '+');
        assert(prefix_at(s, 0, c)) by {
            lemma_lower();
            assert forall|k: int| 0 <= k < c.len() implies lower(s[0 + k]) == #[trigger] c[k] by {}
            lemma_prefix(s, 0, c);
        }
        assert(modifiers_at(s, 0, no_modifiers()) == modifiers_at(s, 5, ctrl));
    } else {
        assert(ctrl == no_modifiers());
    }
    assert(modifiers_at(s, 0, no_modifiers()) == (before, h));
    assert(s.skip(h) =~= t);
    assert(before == chord.mods);
}

proof fn lemma_lower()
    ensures
        lower('C') == 'c',
        lower('A') == 'a',
        lower('t') == 't',
        lower('r') == 'r',
        lower('l') == 'l',
        lower('+') == '+',
{
    assert('C' as u8 + 32 == 99);
    assert('A' as u8 + 32 == 97);
}

/// A key of a character is the same chord whether shift is held or not: the
/// character tells. For other keys it is another chord.
pub proof fn law_shift_is_in_the_character(key: KeyEvent, c: char)
    ensures
        key.code == KeyCode::Char(c) ==> {
            let chord = event_chord(key);
            &&& chord.code == KeyCode::Char(c)
            &&& !chord.mods.shift
            &&& chord.mods.control == key.modifiers.control
            &&& chord.mods.alt == key.modifiers.alt
        },
        !(key.code is Char) ==> event_chord(key).mods == key.modifiers && event_chord(key).code
            == key.code,
{
}

proof fn lemma_chords_named(specs: Seq<Seq<char>>, n: int, chord: Chord)
    requires
        0 <= n <= specs.len(),
    ensures
        chords_named(specs, n).contains(chord) <==> exists|k: int|
            0 <= k < n && chord_named(#[trigger] specs[k]) == Ok::<
                Chord,
                crate::config::ErrorModel,
            >(chord),
    decreases n,
{
    if n > 0 {
        lemma_chords_named(specs, n - 1, chord);
        let before = chords_named(specs, n - 1);
        let now = chords_named(specs, n);
        if before.contains(chord) {
            let k = choose|k: int| 0 <= k < before.len() && before[k] == chord;
            assert(now[k] == chord);
        }
        if now.contains(chord) {
            let k = choose|k: int| 0 <= k < now.len() && now[k] == chord;
            if k < before.len() {
                assert(before[k] == chord);
            } else {
                assert(chord_named(specs[n - 1]) == Ok::<Chord, crate::config::ErrorModel>(chord));
            }
        }
        if chord_named(specs[n - 1]) == Ok::<Chord, crate::config::ErrorModel>(chord) {
            assert(now[before.len() as int] == chord);
        }
    }
}

proof fn lemma_override(overrides: Seq<(Seq<char>, Seq<Seq<char>>)>, action: Action, n: int, k: int)
    requires
        0 <= k < n <= overrides.len(),
        overrides[k].0 == action_name(action),
        forall|j: int| k < j < n ==> (#[trigger] overrides[j]).0 != action_name(action),
    ensures
        override_for(overrides, action, n) == Some(overrides[k].1),
    decreases n,
{
    if k < n - 1 {
        assert(overrides[n - 1].0 != action_name(action));
        lemma_override(overrides, action, n - 1, k);
    }
}

/// What is configured for an action takes the place of the keys it has by itself:
/// it has the chords of the last entry that names it, all of them and no others.
pub proof fn law_configured_keys_take_the_place_of_others(
    overrides: Seq<(Seq<char>, Seq<Seq<char>>)>,
    action: Action,
    k: int,
    chord: Chord,
)
    requires
        0 <= k < overrides.len(),
        overrides[k].0 == action_name(action),
        forall|j: int| k < j < overrides.len() ==> (#[trigger] overrides[j]).0 != action_name(action),
    ensures
        chords_for(overrides, action).contains(chord) <==> exists|i: int|
            0 <= i < overrides[k].1.len() && chord_named(#[trigger] overrides[k].1[i]) == Ok::<
                Chord,
                crate::config::ErrorModel,
            >(chord),
{
    lemma_override(overrides, action, overrides.len() as int, k);
    lemma_chords_named(overrides[k].1, overrides[k].1.len() as int, chord);
}

/// An action that is not configured has the keys that it has by itself.
pub proof fn law_an_action_keeps_its_keys(
    overrides: Seq<(Seq<char>, Seq<Seq<char>>)>,
    action: Action,
    chord: Chord,
)
    requires
        forall|j: int| 0 <= j < overrides.len() ==> (#[trigger] overrides[j]).0 != action_name(
            action,
        ),
    ensures
        chords_for(overrides, action).contains(chord) <==> exists|i: int|
            0 <= i < default_specs(action).len() && chord_named(#[trigger] default_specs(action)[i])
                == Ok::<Chord, crate::config::ErrorModel>(chord),
{
    lemma_no_override(overrides, action, overrides.len() as int);
    lemma_chords_named(default_specs(action), default_specs(action).len() as int, chord);
}

proof fn lemma_no_override(overrides: Seq<(Seq<char>, Seq<Seq<char>>)>, action: Action, n: int)
    requires
        0 <= n <= overrides.len(),
        forall|j: int| 0 <= j < overrides.len() ==> (#[trigger] overrides[j]).0 != action_name(
            action,
        ),
    ensures
        override_for(overrides, action, n) is None,
    decreases n,
{
    if n > 0 {
        assert(overrides[n - 1].0 != action_name(action));
        lemma_no_override(overrides, action, n - 1);
    }
}

proof fn lemma_put(list: Seq<Seq<char>>, s: Seq<char>, i: int)
    requires
        0 <= i <= list.len(),
    ensures
        put_sorted(list, s, i).len() == list.len() + 1,
        put_sorted(list, s, i).contains(s),
        forall|x: Seq<char>| #[trigger] list.contains(x) ==> put_sorted(list, s, i).contains(x),
        forall|x: Seq<char>| #[trigger]
            put_sorted(list, s, i).contains(x) ==> x == s || list.contains(x),
    decreases list.len() - i,
{
    if i < list.len() && !crate::markers::text_before(s, list[i]) {
        lemma_put(list, s, i + 1);
    } else {
        let at = if i < list.len() {
            i
        } else {
            list.len() as int
        };
        let out = put_sorted(list, s, i);
        assert(out =~= list.insert(at, s));
        assert(out[at] == s);
        assert forall|x: Seq<char>| #[trigger] list.contains(x) implies out.contains(x) by {
            let k = choose|k: int| 0 <= k < list.len() && list[k] == x;
            if k < at {
                assert(out[k] == x);
            } else {
                assert(out[k + 1] == x);
            }
        }
        assert forall|x: Seq<char>| #[trigger] out.contains(x) implies x == s || list.contains(x) by {
            let k = choose|k: int| 0 <= k < out.len() && out[k] == x;
            if k < at {
                assert(list[k] == x);
            } else if k > at {
                assert(list[k - 1] == x);
            }
        }
    }
}

/// The help shows every chord of an action, and no chord of another.
pub proof fn law_the_help_shows_every_chord(
    bindings: Seq<(Chord, Action)>,
    action: Action,
    n: int,
    text: Seq<char>,
)
    requires
        0 <= n <= bindings.len(),
    ensures
        chord_texts(bindings, action, n).contains(text) <==> exists|k: int|
            0 <= k < n && (#[trigger] bindings[k]).1 == action && chord_text(bindings[k].0) == text,
        chord_texts(bindings, action, n).len() == bindings.take(n).filter(
            |b: (Chord, Action)| b.1 == action,
        ).len(),
    decreases n,
{
    reveal(Seq::filter);
    if n > 0 {
        law_the_help_shows_every_chord(bindings, action, n - 1, text);
        let before = chord_texts(bindings, action, n - 1);
        lemma_put(before, chord_text(bindings[n - 1].0), 0);
        assert(bindings.take(n).drop_last() =~= bindings.take(n - 1));
        assert(bindings.take(n).last() == bindings[n - 1]);
        let now = chord_texts(bindings, action, n);
        assert(before.contains(text) ==> now.contains(text));
        if now.contains(text) && bindings[n - 1].1 == action {
            assert(text == chord_text(bindings[n - 1].0) || before.contains(text));
        }
    } else {
        assert(bindings.take(n).len() == 0);
    }
}

/// A list in the configuration is read as its texts, in order, and not at all
/// where one entry is no text.
pub proof fn law_a_list_of_keys_is_read_whole(list: Seq<Option<Seq<char>>>, n: int)
    requires
        0 <= n <= list.len(),
    ensures
        all_texts(list, n) is Some <==> forall|k: int| 0 <= k < n ==> (#[trigger] list[k]) is Some,
        all_texts(list, n) matches Some(all) ==> all.len() == n && forall|k: int|
            0 <= k < n ==> list[k] == Some(#[trigger] all[k]),
    decreases n,
{
    if n > 0 {
        law_a_list_of_keys_is_read_whole(list, n - 1);
        if all_texts(list, n) is Some {
            let all = all_texts(list, n)->0;
            let before = all_texts(list, n - 1)->0;
            assert forall|k: int| 0 <= k < n implies list[k] == Some(#[trigger] all[k]) by {
                if k < n - 1 {
                    assert(all[k] == before[k]);
                }
            }
        }
    }
}

} // verus!
