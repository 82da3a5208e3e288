//! What is typed, and what commands do.

use vstd::prelude::*;
#[allow(unused_imports)]
use vstd::string::*;

#[allow(unused_imports)]
use crate::app::commands::{
    before_white, candidates, command_parts, command_table, first_white, offered, past_white,
    trimmed,
};
#[allow(unused_imports)]
use crate::app::{AppModel, InputModel, Prompt};
#[allow(unused_imports)]
use crate::keys::{KeyCode, KeyEvent};
#[allow(unused_imports)]
use crate::pattern::compiled;
#[allow(unused_imports)]
use crate::text::is_white;
#[allow(unused_imports)]
use crate::view::{lens_name, Lens};

verus! {

/// A character that is typed is put behind what stands there; a backspace takes
/// the last one away. So a backspace undoes a character. Nothing else that is
/// typed into changes.
pub proof fn law_a_backspace_undoes_a_character(
    app: AppModel,
    input: InputModel,
    key: KeyEvent,
    back: KeyEvent,
    c: char,
)
    requires
        app.input == Some(input),
        key.code == KeyCode::Char(c),
        !key.modifiers.control,
        back.code == KeyCode::Backspace,
    ensures
        app.input_key(key).input matches Some(now) && now.prompt == input.prompt && now.buffer
            == input.buffer.push(c),
        app.input_key(key).input_key(back).input == Some(input),
        input.buffer.len() == 0 ==> app.input_key(back).input == Some(input),
        app.input_key(key).cursor == app.cursor,
        app.input_key(key).selected == app.selected,
        app.input_key(key).sidebar_filter == app.sidebar_filter,
{
    reveal(AppModel::with_input);
    reveal(AppModel::with_search);
    assert(input.buffer.push(c).drop_last() =~= input.buffer);
}

/// While a search is typed it follows what stands there, as far as that is a
/// pattern.
pub proof fn law_a_search_follows_what_is_typed(
    app: AppModel,
    input: InputModel,
    key: KeyEvent,
    c: char,
)
    requires
        app.input == Some(input),
        key.code == KeyCode::Char(c),
        !key.modifiers.control,
    ensures
        input.prompt == Prompt::Search ==> app.input_key(key).search == (if compiled(
            input.buffer.push(c),
        ) is Ok {
            Some(input.buffer.push(c))
        } else {
            None
        }),
        input.prompt != Prompt::Search ==> app.input_key(key).search == app.search,
{
    reveal(AppModel::with_input);
    reveal(AppModel::with_search);
}

/// Escape closes the input line and carries nothing out; a search is given up.
pub proof fn law_escape_carries_nothing_out(app: AppModel, input: InputModel, key: KeyEvent)
    requires
        app.input == Some(input),
        key.code == KeyCode::Esc,
    ensures
        app.input_key(key).input is None,
        app.input_key(key).sidebar_filter == app.sidebar_filter,
        app.input_key(key).lens == app.lens,
        app.input_key(key).request == app.request,
        app.input_key(key).cursor == app.cursor,
        input.prompt == Prompt::Search ==> app.input_key(key).search is None,
        input.prompt != Prompt::Search ==> app.input_key(key).search == app.search,
{
    reveal(AppModel::with_input);
    reveal(AppModel::with_search);
}

proof fn lemma_reset_keeps(app: AppModel)
    ensures
        app.view_reset().input == app.input,
        app.view_reset().sidebar_filter == app.sidebar_filter,
        app.view_reset().selected == app.selected,
        app.view_reset().timeline == app.timeline,
        app.view_reset().timeline_deopts_only == app.timeline_deopts_only,
        app.view_reset().lens == app.lens,
{
    reveal(AppModel::view_reset);
    reveal(AppModel::with_cursor);
    reveal(AppModel::with_top);
    reveal(AppModel::with_scroll_x);
    reveal(AppModel::with_follow);
    reveal(AppModel::with_cycle);
}

/// A filter that is entered is the sidebar's from then on, if it is a pattern; an
/// empty one, and one that is no pattern, filters nothing.
pub proof fn law_a_filter_that_is_entered_filters(
    app: AppModel,
    input: InputModel,
    key: KeyEvent,
)
    requires
        app.input == Some(input),
        input.prompt == Prompt::Filter,
        key.code == KeyCode::Enter,
    ensures
        app.input_key(key).input is None,
        app.input_key(key).selected == 0,
        app.input_key(key).sidebar_filter == (if input.buffer.len() > 0 && compiled(
            input.buffer,
        ) is Ok {
            Some(input.buffer)
        } else {
            None
        }),
{
    reveal(AppModel::with_input);
    reveal(AppModel::with_sidebar_filter);
    reveal(AppModel::with_selected);
    reveal(AppModel::say);
    let closed = app.with_input(None);
    let filtered = if input.buffer.len() == 0 {
        closed.with_sidebar_filter(None)
    } else {
        match compiled(input.buffer) {
            Ok(_) => closed.with_sidebar_filter(Some(input.buffer)),
            Err(_) => closed.say("bad filter regex: "@ + input.buffer).with_sidebar_filter(None),
        }
    };
    lemma_reset_keeps(filtered.with_selected(0));
}

proof fn lemma_names()
    ensures
        ""@.len() == 0,
        "checks"@.len() == 6,
        "phi"@.len() == 3,
        "spill"@.len() == 5,
        "megamorphic"@.len() == 11,
        "deopts"@.len() == 6,
        "function"@.len() == 8,
        "copy"@.len() == 4,
        "export"@.len() == 6,
        "timeline"@.len() == 8,
        "clear"@.len() == 5,
        "checks"@[0] == 'c',
        "spill"@[0] == 's',
        "deopts"@[0] == 'd',
        "function"@[0] == 'f',
        "export"@[0] == 'e',
        "timeline"@[0] == 't',
        "clear"@[0] == 'c',
{
    reveal_strlit("");
    reveal_strlit("checks");
    reveal_strlit("phi");
    reveal_strlit("spill");
    reveal_strlit("megamorphic");
    reveal_strlit("deopts");
    reveal_strlit("function");
    reveal_strlit("copy");
    reveal_strlit("export");
    reveal_strlit("timeline");
    reveal_strlit("clear");
}

/// The command that is called like a lens puts that lens on, in place of another;
/// where it is on already it takes it off.
pub proof fn law_a_lens_is_put_on_by_its_name(app: AppModel, lens: Lens, arg: Seq<char>)
    ensures
        app.command_run(lens_name(lens), arg).lens == (if app.lens == Some(lens) {
            None
        } else {
            Some(lens)
        }),
        app.lens != Some(lens) ==> app.command_run(lens_name(lens), arg).command_run(
            lens_name(lens),
            arg,
        ).lens is None,
        lens_name(Lens::Checks) == "checks"@,
        lens_name(Lens::Phi) == "phi"@,
        lens_name(Lens::Spill) == "spill"@,
        lens_name(Lens::Megamorphic) == "megamorphic"@,
{
    lemma_names();
    reveal(AppModel::command_run);
    lemma_lens(app, lens);
    lemma_lens(app.lens_toggled(lens), lens);
    assert(app.command_run(lens_name(lens), arg) == app.lens_toggled(lens));
}

proof fn lemma_lens(app: AppModel, lens: Lens)
    ensures
        app.lens_toggled(lens).lens == (if app.lens == Some(lens) {
            None
        } else {
            Some(lens)
        }),
{
    reveal(AppModel::lens_toggled);
    reveal(AppModel::with_lens);
    reveal(AppModel::with_cursor);
    reveal(AppModel::with_top);
    reveal(AppModel::with_cycle);
    reveal(AppModel::say);
}

/// `:deopts` shows the timeline with the deoptimizations alone.
pub proof fn law_deopts_lists_deoptimizations_alone(app: AppModel, arg: Seq<char>)
    ensures
        app.command_run("deopts"@, arg).timeline,
        app.command_run("deopts"@, arg).timeline_deopts_only,
{
    lemma_names();
    reveal(AppModel::command_run);
    reveal(AppModel::deopts_listed);
    reveal(AppModel::with_timeline_deopts_only);
    reveal(AppModel::with_selected);
    reveal(AppModel::say);
    let listed = if app.timeline {
        app
    } else {
        app.timeline_toggled()
    };
    if !app.timeline {
        lemma_timeline(app);
    }
    let narrowed = listed.with_timeline_deopts_only(true);
    let n = narrowed.rows().len() as int;
    let less = crate::app::moves::less_one(n);
    let selected = if narrowed.selected < less {
        narrowed.selected as int
    } else {
        less
    };
    lemma_reset_keeps(narrowed.with_selected(selected as usize));
    assert(app.command_run("deopts"@, arg) == app.deopts_listed());
}

proof fn lemma_timeline(app: AppModel)
    ensures
        app.timeline_toggled().timeline == !app.timeline,
{
    reveal(AppModel::timeline_toggled);
    reveal(AppModel::with_sidebar_visible);
    reveal(AppModel::with_timeline);
    reveal(AppModel::with_selected);
    reveal(AppModel::with_timeline_selected);
    reveal(AppModel::with_timeline_deopts_only);
    reveal(AppModel::with_sidebar_scroll);
    reveal(AppModel::with_focus);
    reveal(AppModel::with_diff);
    reveal(AppModel::with_other_view);
    reveal(AppModel::say);
    let swapped = app.with_sidebar_visible(true).with_timeline(!app.timeline).with_selected(
        app.timeline_selected,
    ).with_timeline_selected(app.selected).with_timeline_deopts_only(false).with_sidebar_scroll(
        0,
    ).with_focus(crate::app::Pane::Sidebar);
    let parked = if app.split is Some {
        swapped.with_diff(false).with_other_view(crate::app::view_at(app.timeline_selected))
    } else {
        swapped
    };
    let n = parked.rows().len() as int;
    let less = crate::app::moves::less_one(n);
    let selected = if app.timeline_selected < less {
        app.timeline_selected as int
    } else {
        less
    };
    lemma_reset_keeps(parked.with_selected(selected as usize));
}

/// `:clear` takes the lens off and lists every event again.
pub proof fn law_clear_takes_the_lens_off(app: AppModel, arg: Seq<char>)
    ensures
        app.command_run("clear"@, arg).lens is None,
        !app.command_run("clear"@, arg).timeline_deopts_only,
        app.command_run("clear"@, arg).timeline == app.timeline,
{
    lemma_names();
    reveal(AppModel::command_run);
    reveal(AppModel::with_lens);
    reveal(AppModel::with_timeline_deopts_only);
    reveal(AppModel::with_selected);
    reveal(AppModel::say);
    let plain = app.with_lens(None);
    if app.timeline_deopts_only {
        let wide = plain.with_timeline_deopts_only(false);
        lemma_reset_keeps(wide);
        match plain.row_at(plain.selected as int) {
            Some(crate::app::Row::Event(i)) => {
                match crate::app::compare::row_place(wide.rows(), crate::app::Row::Event(i), 0) {
                    Some(at) => {
                        lemma_reset_keeps(wide.with_selected(at as usize));
                    },
                    None => {},
                }
            },
            _ => {},
        }
    }
    assert("clear"@[1] == 'l' && "checks"@[1] == 'h') by {
        reveal_strlit("clear");
        reveal_strlit("checks");
    }
    assert(app.command_run("clear"@, arg) == app.cleared());
}

/// `:function` filters the sidebar by its argument, if that is a pattern; without
/// an argument it lists everything.
pub proof fn law_function_filters_the_sidebar(app: AppModel, arg: Seq<char>)
    ensures
        arg.len() == 0 ==> app.command_run("function"@, arg).sidebar_filter is None,
        arg.len() > 0 && compiled(arg) is Ok ==> app.command_run("function"@, arg).sidebar_filter
            == Some(arg),
        arg.len() > 0 && compiled(arg) is Err ==> app.command_run("function"@, arg).sidebar_filter
            == app.sidebar_filter,
{
    lemma_names();
    reveal(AppModel::command_run);
    reveal(AppModel::with_sidebar_filter);
    reveal(AppModel::with_selected);
    reveal(AppModel::say);
    lemma_reset_keeps(
        app.say("sidebar filtered to /"@ + arg + "/"@).with_sidebar_filter(Some(arg)).with_selected(
            0,
        ),
    );
    assert(app.command_run("function"@, arg) == app.functions_filtered(arg));
}

/// A name that is no command's changes nothing but the message.
#[verifier::spinoff_prover]
#[verifier::rlimit(60)]
pub proof fn law_an_unknown_command_does_nothing(app: AppModel, name: Seq<char>, arg: Seq<char>)
    requires
        forall|k: int| 0 <= k < command_table().len() ==> (#[trigger] command_table()[k]).0 != name,
    ensures
        app.command_run(name, arg).say(app.status) == app,
{
    reveal(AppModel::command_run);
    reveal(AppModel::say);
    let table = command_table();
    assert(table[0].0 == "checks"@);
    assert(table[1].0 == "clear"@);
    assert(table[2].0 == "copy"@);
    assert(table[3].0 == "deopts"@);
    assert(table[4].0 == "export"@);
    assert(table[5].0 == "function"@);
    assert(table[6].0 == "megamorphic"@);
    assert(table[7].0 == "phi"@);
    assert(table[8].0 == "spill"@);
    assert(table[9].0 == "timeline"@);
    assert(app.command_run(name, arg).say(app.status) =~= app);
}

proof fn lemma_offered(typed: Seq<char>, n: int)
    requires
        0 <= n <= command_table().len(),
    ensures
        forall|k: int|
            0 <= k < n && typed.is_prefix_of((#[trigger] command_table()[k]).0) ==> offered(
                typed,
                n,
            ).contains(command_table()[k]),
        forall|j: int|
            0 <= j < offered(typed, n).len() ==> typed.is_prefix_of((#[trigger] offered(typed, n)[j]).0)
                && command_table().contains(offered(typed, n)[j]),
    decreases n,
{
    if n > 0 {
        lemma_offered(typed, n - 1);
        let before = offered(typed, n - 1);
        let now = offered(typed, n);
        assert forall|k: int|
            0 <= k < n && typed.is_prefix_of((#[trigger] command_table()[k]).0) implies now.contains(
            command_table()[k],
        ) by {
            if k < n - 1 {
                assert(before.contains(command_table()[k]));
                let j = choose|j: int| 0 <= j < before.len() && before[j] == command_table()[k];
                assert(now[j] == before[j]);
            } else {
                assert(now[before.len() as int] == command_table()[k]);
            }
        }
        assert forall|j: int| 0 <= j < now.len() implies typed.is_prefix_of((#[trigger] now[j]).0)
            && command_table().contains(now[j]) by {
            if j < before.len() {
                assert(now[j] == before[j]);
            } else {
                assert(now[j] == command_table()[n - 1]);
            }
        }
    }
}

/// The commands that are offered are those that begin with what was typed, all of
/// them and no others.
pub proof fn law_the_commands_that_fit_are_offered(typed: Seq<char>, command: (Seq<char>, Seq<char>))
    ensures
        candidates(typed).contains(command) <==> command_table().contains(command)
            && typed.is_prefix_of(command.0),
{
    lemma_offered(typed, command_table().len() as int);
    if candidates(typed).contains(command) {
        let j = choose|j: int| 0 <= j < candidates(typed).len() && candidates(typed)[j] == command;
        assert(offered(typed, command_table().len() as int)[j] == command);
    }
    if command_table().contains(command) {
        let k = choose|k: int| 0 <= k < command_table().len() && command_table()[k] == command;
        assert(command_table()[k] == command);
    }
}

/// There is no white space at the ends of a text.
pub open spec fn tight(s: Seq<char>) -> bool {
    s.len() > 0 ==> !is_white(s[0]) && !is_white(s.last())
}

proof fn lemma_tight(s: Seq<char>)
    requires
        tight(s),
    ensures
        trimmed(s) == s,
{
    assert(past_white(s, 0) == 0);
    assert(before_white(s, 0, s.len() as int) == s.len());
    assert(trimmed(s) =~= s);
}

proof fn lemma_word(s: Seq<char>, i: int, e: int)
    requires
        0 <= i <= e <= s.len(),
        forall|k: int| 0 <= k < e ==> !is_white(#[trigger] s[k]),
        e < s.len() ==> is_white(s[e]),
    ensures
        first_white(s, i, s.len() as int) == e,
    decreases e - i,
{
    if i < e {
        assert(!is_white(s[i]));
        lemma_word(s, i + 1, e);
    }
}

/// A command line is the name of the command, up to the first space, and its
/// argument behind it; a name by itself has no argument.
pub proof fn law_a_command_is_its_first_word(name: Seq<char>, arg: Seq<char>)
    requires
        name.len() > 0,
        forall|k: int| 0 <= k < name.len() ==> !is_white(#[trigger] name[k]),
        arg.len() > 0,
        tight(arg),
    ensures
        command_parts(name.push(' ') + arg) == (name, arg),
        command_parts(name) == (name, Seq::<char>::empty()),
{
    let s = name.push(' ') + arg;
    assert(s[0] == name[0]);
    assert(s.last() == arg.last());
    lemma_tight(s);
    assert forall|k: int| 0 <= k < name.len() implies !is_white(#[trigger] s[k]) by {
        assert(s[k] == name[k]);
    }
    assert(s[name.len() as int] == ' ');
    lemma_word(s, 0, name.len() as int);
    assert(s.take(name.len() as int) =~= name);
    assert(s.skip((name.len() + 1) as int) =~= arg);
    lemma_tight(arg);
    lemma_tight(name);
    lemma_word(name, 0, name.len() as int);
}

} // verus!
