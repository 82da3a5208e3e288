//! The input line and the commands.

use vstd::prelude::*;
#[allow(unused_imports)]
use vstd::string::*;

#[allow(unused_imports)]
use super::commands::{command_parts, completed};
use super::commands::{complete, split_command};
#[allow(unused_imports)]
use super::compare::row_place;
use super::compare::find_place;
#[allow(unused_imports)]
use super::moves::less_one;
use super::views::info_at_row;
#[allow(unused_imports)]
use super::views::info_shown;
#[allow(unused_imports)]
use super::{AppModel, InputModel};
use super::{App, InputLine, Prompt, Row};
use crate::diff::canon::chars_of;
use crate::keys::{KeyCode, KeyEvent};
use crate::pattern::Pattern;
#[allow(unused_imports)]
use crate::pattern::compiled;
use crate::source::LogBuffer;
#[allow(unused_imports)]
use crate::source::LogModel;
use crate::text;
#[allow(unused_imports)]
use crate::text::decimal;
#[allow(unused_imports)]
use crate::view::{lens_keeps, lens_name, ViewContents};
use crate::view::{Lens, RowKind, ViewModel};

verus! {

// ---------------------------------------------------------------------------
// Lenses
// ---------------------------------------------------------------------------

/// Row `at` of a view is text that a lens keeps.
pub open spec fn lens_hit(vm: ViewContents, buffer: LogModel, lens: Lens, at: int) -> bool {
    match vm {
        ViewContents::Plain { .. } => false,
        ViewContents::Modeled { rows, parsed, .. } => rows[at].kind == RowKind::Text && lens_keeps(
            lens,
            match info_shown(vm, at) {
                Some((_, _, info)) => Some(info),
                None => None,
            },
            parsed,
            buffer.line_text(rows[at].line as int),
        ),
    }
}

/// How many of the first `n` rows a lens keeps.
pub open spec fn lens_hits(vm: ViewContents, buffer: LogModel, lens: Lens, n: int) -> int
    decreases n,
{
    if n <= 0 {
        0
    } else {
        lens_hits(vm, buffer, lens, n - 1) + if lens_hit(vm, buffer, lens, n - 1) {
            1int
        } else {
            0int
        }
    }
}

fn count_hits(vm: &ViewModel, buffer: &LogBuffer, lens: Lens) -> (hits: usize)
    requires
        buffer.wf(),
        vm@ is Modeled,
    ensures
        hits == lens_hits(vm@, buffer@, lens, vm@.rows_len()),
{
    let n: usize = vm.len();
    let mut hits: usize = 0;
    let mut at: usize = 0;
    while at < n
        invariant
            buffer.wf(),
            vm@ is Modeled,
            at <= n,
            n == vm@.rows_len(),
            hits <= at,
            hits == lens_hits(vm@, buffer@, lens, at as int),
        decreases n - at,
    {
        if let ViewModel::Modeled { rows, parsed, .. } = vm {
            let plain: bool = match rows[at].kind {
                RowKind::Text => true,
                _ => false,
            };
            let info = match info_at_row(vm, at) {
                Some((_, _, info)) => Some(info),
                None => None,
            };
            if plain && lens.matches(info, &**parsed, buffer, rows[at].line) {
                hits += 1;
            }
        }
        at += 1;
    }
    hits
}

impl AppModel {
    /// A lens is put on, or taken off where it is on.
    #[verifier::opaque]
    pub open spec fn lens_toggled(self, lens: Lens) -> AppModel {
        if self.lens == Some(lens) {
            self.with_lens(None).say("lens :"@ + lens_name(lens) + " cleared"@)
        } else {
            let on = self.with_lens(Some(lens)).with_cursor(0).with_top(0).with_cycle(None);
            let vm = on.shown();
            let hits = lens_hits(vm, on.source().buffer, lens, vm.rows_len());
            on.say(
                if vm is Plain {
                    "lens :"@ + lens_name(lens)
                        + " set — applies to parsed compilations (this view is raw)"@
                } else {
                    "lens :"@ + lens_name(lens) + " — "@ + decimal(hits) + " match"@ + (if hits
                        == 1 {
                        ""@
                    } else {
                        "es"@
                    }) + " in this view (:clear resets)"@
                },
            )
        }
    }
}

impl App {
    fn toggle_lens(&mut self, lens: Lens)
        requires
            old(self).wf(),
        ensures
            final(self).wf(),
            final(self)@ == old(self)@.lens_toggled(lens),
    {
        reveal(AppModel::lens_toggled);
        proof {
            self.lemma_fields();
        }
        let on: bool = match self.lens {
            Some(l) => l == lens,
            None => false,
        };
        let mut message = text::owned("lens :");
        message.append(lens.name());
        if on {
            message.append(" cleared");
            self.set_lens(None);
            self.say_text(message);
            return ;
        }
        self.set_lens(Some(lens));
        self.set_cursor(0);
        self.set_top(0);
        self.set_cycle(None);
        let vm = self.view_model();
        let modeled: bool = match &vm {
            ViewModel::Modeled { .. } => true,
            ViewModel::Plain { .. } => false,
        };
        if modeled {
            let hits: usize = count_hits(&vm, &self.active_source().buffer, lens);
            message.append(" — ");
            text::push_decimal(&mut message, hits);
            message.append(" match");
            message.append(
                if hits == 1 {
                    ""
                } else {
                    "es"
                },
            );
            message.append(" in this view (:clear resets)");
        } else {
            message.append(" set — applies to parsed compilations (this view is raw)");
        }
        self.say_text(message);
    }
}

// ---------------------------------------------------------------------------
// Commands
// ---------------------------------------------------------------------------

impl AppModel {
    /// The timeline lists bailouts only.
    #[verifier::opaque]
    pub open spec fn deopts_listed(self) -> AppModel {
        let listed = if self.timeline {
            self
        } else {
            self.timeline_toggled()
        };
        let narrowed = listed.with_timeline_deopts_only(true);
        let n = narrowed.rows().len() as int;
        let selected = if narrowed.selected < less_one(n) {
            narrowed.selected as int
        } else {
            less_one(n)
        };
        narrowed.with_selected(selected as usize).view_reset().say(
            if n == 0 {
                "no deopt events in this trace"@
            } else if n == 1 {
                "1 deopt event — Enter jumps to the compilation"@
            } else {
                decimal(n) + " deopt events — Enter jumps to the compilation"@
            },
        )
    }

    /// The sidebar lists what matches a pattern, or everything.
    pub open spec fn functions_filtered(self, arg: Seq<char>) -> AppModel {
        if arg.len() == 0 {
            self.with_sidebar_filter(None).say("sidebar filter cleared"@)
        } else {
            match compiled(arg) {
                Ok(_) => self.say("sidebar filtered to /"@ + arg + "/"@).with_sidebar_filter(
                    Some(arg),
                ).with_selected(0).view_reset(),
                Err(_) => self.say("bad regex: "@ + arg),
            }
        }
    }

    /// The timeline lists every event again; the same event stays selected.
    pub open spec fn timeline_widened(self) -> AppModel {
        let wide = self.with_timeline_deopts_only(false);
        let placed = match self.row_at(self.selected as int) {
            Some(Row::Event(i)) => match row_place(wide.rows(), Row::Event(i), 0) {
                Some(at) => wide.with_selected(at as usize),
                None => wide,
            },
            _ => wide,
        };
        placed.view_reset()
    }

    /// The lens is off and the timeline lists every event.
    pub open spec fn cleared(self) -> AppModel {
        let plain = self.with_lens(None);
        (if self.timeline_deopts_only {
            plain.timeline_widened()
        } else {
            plain
        }).say("lens and timeline filter cleared"@)
    }

    /// What a command does.
    #[verifier::opaque]
    pub open spec fn command_run(self, name: Seq<char>, arg: Seq<char>) -> AppModel {
        if name == ""@ {
            self.say("empty command"@)
        } else if name == "checks"@ {
            self.lens_toggled(Lens::Checks)
        } else if name == "phi"@ {
            self.lens_toggled(Lens::Phi)
        } else if name == "spill"@ {
            self.lens_toggled(Lens::Spill)
        } else if name == "megamorphic"@ {
            self.lens_toggled(Lens::Megamorphic)
        } else if name == "deopts"@ {
            self.deopts_listed()
        } else if name == "function"@ {
            self.functions_filtered(arg)
        } else if name == "copy"@ {
            self.section_yanked()
        } else if name == "export"@ {
            if arg.len() == 0 {
                self.with_input(Some(InputModel { prompt: Prompt::Export, buffer: Seq::empty() }))
            } else {
                self.export_asked(arg)
            }
        } else if name == "timeline"@ {
            self.timeline_toggled()
        } else if name == "clear"@ {
            self.cleared()
        } else {
            self.say("unknown command :"@ + name + " (Tab lists commands)"@)
        }
    }
}

fn is_name(name: &String, wanted: &str) -> (yes: bool)
    ensures
        yes == (name@ == wanted@),
{
    *name == text::owned(wanted)
}

impl App {
    fn list_deopts(&mut self)
        requires
            old(self).wf(),
        ensures
            final(self).wf(),
            final(self)@ == old(self)@.deopts_listed(),
    {
        reveal(AppModel::deopts_listed);
        proof {
            self.lemma_fields();
        }
        if !self.timeline {
            self.toggle_timeline();
        }
        self.set_timeline_deopts_only(true);
        proof {
            self.lemma_fields();
        }
        let n: usize = self.rows().len();
        let last: usize = if n > 0 {
            n - 1
        } else {
            0
        };
        let selected: usize = if self.selected < last {
            self.selected
        } else {
            last
        };
        self.set_selected(selected);
        self.reset_view();
        if n == 0 {
            self.say("no deopt events in this trace");
        } else if n == 1 {
            self.say("1 deopt event — Enter jumps to the compilation");
        } else {
            let mut message = text::decimal_text(n);
            message.append(" deopt events — Enter jumps to the compilation");
            self.say_text(message);
        }
    }

    fn filter_functions(&mut self, arg: &String)
        requires
            old(self).wf(),
        ensures
            final(self).wf(),
            final(self)@ == old(self)@.functions_filtered(arg@),
    {
        if arg.as_str().is_empty() {
            self.set_sidebar_filter(None);
            self.say("sidebar filter cleared");
            return ;
        }
        match Pattern::new(arg.as_str()) {
            Ok(pattern) => {
                let mut message = text::owned("sidebar filtered to /");
                message.append(arg.as_str());
                message.append("/");
                self.say_text(message);
                self.set_sidebar_filter(Some(pattern));
                self.set_selected(0);
                self.reset_view();
            },
            Err(_) => {
                let mut message = text::owned("bad regex: ");
                message.append(arg.as_str());
                self.say_text(message);
            },
        }
    }

    fn widen_timeline(&mut self)
        requires
            old(self).wf(),
        ensures
            final(self).wf(),
            final(self)@ == old(self)@.timeline_widened(),
    {
        proof {
            self.lemma_fields();
        }
        let kept = self.row_at(self.selected);
        self.set_timeline_deopts_only(false);
        if let Some(Row::Event(i)) = kept {
            let rows = self.rows();
            if let Some(at) = find_place(&rows, Row::Event(i)) {
                self.set_selected(at);
            }
        }
        self.reset_view();
    }

    fn clear(&mut self)
        requires
            old(self).wf(),
        ensures
            final(self).wf(),
            final(self)@ == old(self)@.cleared(),
    {
        proof {
            self.lemma_fields();
        }
        let narrowed: bool = self.timeline_deopts_only;
        self.set_lens(None);
        if narrowed {
            self.widen_timeline();
        }
        self.say("lens and timeline filter cleared");
    }

    /// Runs a command.
    pub(crate) fn run_command(&mut self, name: &String, arg: String)
        requires
            old(self).wf(),
        ensures
            final(self).wf(),
            final(self)@ == old(self)@.command_run(name@, arg@),
    {
        reveal(AppModel::command_run);
        if is_name(name, "") {
            self.say("empty command");
        } else if is_name(name, "checks") {
            self.toggle_lens(Lens::Checks);
        } else if is_name(name, "phi") {
            self.toggle_lens(Lens::Phi);
        } else if is_name(name, "spill") {
            self.toggle_lens(Lens::Spill);
        } else if is_name(name, "megamorphic") {
            self.toggle_lens(Lens::Megamorphic);
        } else if is_name(name, "deopts") {
            self.list_deopts();
        } else if is_name(name, "function") {
            self.filter_functions(&arg);
        } else if is_name(name, "copy") {
            self.yank_section();
        } else if is_name(name, "export") {
            if arg.as_str().is_empty() {
                self.ask(Prompt::Export, String::new());
            } else {
                self.export_to(arg);
            }
        } else if is_name(name, "timeline") {
            self.toggle_timeline();
        } else if is_name(name, "clear") {
            self.clear();
        } else {
            let mut message = text::owned("unknown command :");
            message.append(name.as_str());
            message.append(" (Tab lists commands)");
            self.say_text(message);
        }
    }

    /// Opens the input line.
    pub(crate) fn ask(&mut self, prompt: Prompt, buffer: String)
        requires
            old(self).wf(),
        ensures
            final(self).wf(),
            final(self)@ == old(self)@.with_input(Some(InputModel { prompt, buffer: buffer@ })),
    {
        let line = InputLine { prompt, buffer };
        assert(line@ == (InputModel { prompt, buffer: buffer@ }));
        self.set_input(Some(line));
    }
}

// ---------------------------------------------------------------------------
// Keys
// ---------------------------------------------------------------------------

/// The search that is being typed. What does not compile yet matches nothing.
pub open spec fn search_typed(buffer: Seq<char>) -> Option<Seq<char>> {
    if buffer.len() > 0 && compiled(buffer) is Ok {
        Some(buffer)
    } else {
        None
    }
}

impl AppModel {
    /// The input line holds something else; a search follows it.
    pub open spec fn typed(self, input: InputModel) -> AppModel {
        let kept = self.with_input(Some(input));
        if input.prompt == Prompt::Search {
            kept.with_search(search_typed(input.buffer))
        } else {
            kept
        }
    }

    /// The sidebar lists what matches the filter that was typed.
    pub open spec fn filter_typed(self, buffer: Seq<char>) -> AppModel {
        (if buffer.len() == 0 {
            self.with_sidebar_filter(None)
        } else {
            match compiled(buffer) {
                Ok(_) => self.with_sidebar_filter(Some(buffer)),
                Err(_) => self.say("bad filter regex: "@ + buffer).with_sidebar_filter(None),
            }
        }).with_selected(0).view_reset()
    }

    /// What was typed is carried out.
    pub open spec fn entered(self, input: InputModel) -> AppModel {
        let closed = self.with_input(None);
        match input.prompt {
            Prompt::Search => if self.search is Some {
                closed.searched(true)
            } else {
                closed
            },
            Prompt::Filter => closed.filter_typed(input.buffer),
            Prompt::Export => if input.buffer.len() == 0 {
                closed.say("export cancelled (empty filename)"@)
            } else {
                closed.export_asked(input.buffer)
            },
            Prompt::Command => {
                let (name, arg) = command_parts(input.buffer);
                closed.command_run(name, arg)
            },
        }
    }

    /// What a key does to the input line.
    pub open spec fn input_key(self, key: KeyEvent) -> AppModel {
        match self.input {
            None => self,
            Some(input) => match key.code {
                KeyCode::Esc => {
                    let closed = self.with_input(None);
                    if input.prompt == Prompt::Search {
                        closed.with_search(None)
                    } else {
                        closed
                    }
                },
                KeyCode::Enter => self.entered(input),
                KeyCode::Tab => if input.prompt == Prompt::Command {
                    self.with_input(
                        Some(InputModel { buffer: completed(input.buffer), ..input }),
                    )
                } else {
                    self
                },
                KeyCode::Backspace => self.typed(
                    InputModel {
                        buffer: if input.buffer.len() > 0 {
                            input.buffer.drop_last()
                        } else {
                            input.buffer
                        },
                        ..input
                    },
                ),
                KeyCode::Char(c) => if key.modifiers.control {
                    self
                } else {
                    self.typed(InputModel { buffer: input.buffer.push(c), ..input })
                },
                _ => self,
            },
        }
    }
}

fn without_last(s: &String) -> (out: String)
    ensures
        out@ == (if s@.len() > 0 {
            s@.drop_last()
        } else {
            s@
        }),
{
    let chars = chars_of(s.as_str());
    if chars.len() == 0 {
        return text::owned(s.as_str());
    }
    assert(s@.subrange(0, s@.len() - 1) =~= s@.drop_last());
    text::from_chars(&chars, 0, chars.len() - 1)
}

impl App {
    /// What is typed becomes the search, where it is one.
    fn recompile_input(&mut self, prompt: Prompt, buffer: String)
        requires
            old(self).wf(),
        ensures
            final(self).wf(),
            final(self)@ == old(self)@.typed(InputModel { prompt, buffer: buffer@ }),
    {
        let search: Option<Pattern> = if prompt == Prompt::Search && !buffer.as_str().is_empty() {
            match Pattern::new(buffer.as_str()) {
                Ok(p) => Some(p),
                Err(_) => None,
            }
        } else {
            None
        };
        self.ask(prompt, buffer);
        if prompt == Prompt::Search {
            self.set_search(search);
        }
    }

    fn set_filter(&mut self, buffer: &String)
        requires
            old(self).wf(),
        ensures
            final(self).wf(),
            final(self)@ == old(self)@.filter_typed(buffer@),
    {
        if buffer.as_str().is_empty() {
            self.set_sidebar_filter(None);
        } else {
            match Pattern::new(buffer.as_str()) {
                Ok(p) => {
                    self.set_sidebar_filter(Some(p));
                },
                Err(_) => {
                    let mut message = text::owned("bad filter regex: ");
                    message.append(buffer.as_str());
                    self.say_text(message);
                    self.set_sidebar_filter(None);
                },
            }
        }
        self.set_selected(0);
        self.reset_view();
    }

    fn enter(&mut self, prompt: Prompt, buffer: String)
        requires
            old(self).wf(),
        ensures
            final(self).wf(),
            final(self)@ == old(self)@.entered(InputModel { prompt, buffer: buffer@ }),
    {
        proof {
            self.lemma_fields();
        }
        let searching: bool = self.search.is_some();
        self.set_input(None);
        match prompt {
            Prompt::Search => {
                if searching {
                    self.search_step(true);
                }
            },
            Prompt::Filter => {
                self.set_filter(&buffer);
            },
            Prompt::Export => {
                if buffer.as_str().is_empty() {
                    self.say("export cancelled (empty filename)");
                } else {
                    self.export_to(buffer);
                }
            },
            Prompt::Command => {
                let (name, arg): (String, String) = split_command(buffer.as_str());
                self.run_command(&name, arg);
            },
        }
    }

    /// Handles a key while the input line is open.
    pub(crate) fn handle_input_key(&mut self, key: &KeyEvent)
        requires
            old(self).wf(),
        ensures
            final(self).wf(),
            final(self)@ == old(self)@.input_key(*key),
    {
        proof {
            self.lemma_fields();
        }
        let (prompt, buffer): (Prompt, String) = match &self.input {
            Some(input) => (input.prompt, text::owned(input.buffer.as_str())),
            None => {
                return ;
            },
        };
        match key.code {
            KeyCode::Esc => {
                self.set_input(None);
                if prompt == Prompt::Search {
                    self.set_search(None);
                }
            },
            KeyCode::Enter => {
                self.enter(prompt, buffer);
            },
            KeyCode::Tab => {
                if prompt == Prompt::Command {
                    self.ask(prompt, complete(buffer.as_str()));
                }
            },
            KeyCode::Backspace => {
                self.recompile_input(prompt, without_last(&buffer));
            },
            KeyCode::Char(c) => {
                if !key.modifiers.control {
                    let mut more = buffer;
                    more.push(c);
                    self.recompile_input(prompt, more);
                }
            },
            _ => {},
        }
    }
}

} // verus!
