//! Keys and the configuration file.
//!
//! The configuration can bind any action to other keys. An action that it
//! names loses the keys it had, so `quit = ["x"]` frees `q`. One key for two
//! actions is an error.

use vstd::prelude::*;
#[allow(unused_imports)]
use vstd::string::*;

use crate::diff::canon::chars_of;
#[allow(unused_imports)]
use crate::document::{
    entries_under, entry_models, opt_texts, table_model, toml_document, ItemModel,
};
use crate::document::{read_table, TomlItem};
#[allow(unused_imports)]
use crate::keys::no_modifiers;
use crate::keys::{KeyCode, KeyEvent, KeyModifiers};
use crate::markers::comes_before;
#[allow(unused_imports)]
use crate::markers::text_before;
#[allow(unused_imports)]
use crate::model::texts;
use crate::text;

verus! {

// ---------------------------------------------------------------------------
// Actions
// ---------------------------------------------------------------------------

/// The texts of literals.
pub open spec fn literals(list: Seq<&'static str>) -> Seq<Seq<char>> {
    list.map_values(|s: &'static str| s@)
}

/// Everything that a key can do.
#[derive(Debug, Clone, Copy, PartialEq, Eq, Hash, Structural)]
pub enum Action {
    Quit,
    Back,
    Help,
    Up,
    Down,
    HalfPageDown,
    HalfPageUp,
    PageDown,
    PageUp,
    Top,
    Bottom,
    FocusSidebar,
    FocusViewport,
    Select,
    NextSource,
    ToggleFollow,
    ToggleGrouping,
    ToggleWrap,
    ScrollLeft,
    ScrollRight,
    FoldBlock,
    JumpToInput,
    CycleConsumers,
    PrevBlock,
    NextBlock,
    ToggleSidebar,
    JumpBack,
    JumpForward,
    Search,
    SearchNext,
    SearchPrev,
    Filter,
    ToggleAnnotations,
    Yank,
    YankSection,
    Export,
    CommandPalette,
    ToggleTimeline,
    SplitVertical,
    SplitHorizontal,
    OtherPane,
    Diff,
    FoldAllBlocks,
    InliningPanel,
    ToggleSourcePane,
    DualDiff,
}

/// The name of an action in the configuration.
pub open spec fn action_name(action: Action) -> Seq<char> {
    match action {
        Action::Quit => "quit"@,
        Action::Back => "back"@,
        Action::Help => "help"@,
        Action::Up => "up"@,
        Action::Down => "down"@,
        Action::HalfPageDown => "half-page-down"@,
        Action::HalfPageUp => "half-page-up"@,
        Action::PageDown => "page-down"@,
        Action::PageUp => "page-up"@,
        Action::Top => "top"@,
        Action::Bottom => "bottom"@,
        Action::FocusSidebar => "focus-sidebar"@,
        Action::FocusViewport => "focus-viewport"@,
        Action::Select => "select"@,
        Action::NextSource => "next-source"@,
        Action::ToggleFollow => "toggle-follow"@,
        Action::ToggleGrouping => "toggle-grouping"@,
        Action::ToggleWrap => "toggle-wrap"@,
        Action::ScrollLeft => "scroll-left"@,
        Action::ScrollRight => "scroll-right"@,
        Action::FoldBlock => "fold-block"@,
        Action::JumpToInput => "jump-to-input"@,
        Action::CycleConsumers => "cycle-consumers"@,
        Action::PrevBlock => "prev-block"@,
        Action::NextBlock => "next-block"@,
        Action::ToggleSidebar => "toggle-sidebar"@,
        Action::JumpBack => "jump-back"@,
        Action::JumpForward => "jump-forward"@,
        Action::Search => "search"@,
        Action::SearchNext => "search-next"@,
        Action::SearchPrev => "search-prev"@,
        Action::Filter => "filter"@,
        Action::ToggleAnnotations => "toggle-annotations"@,
        Action::Yank => "yank"@,
        Action::YankSection => "yank-section"@,
        Action::Export => "export"@,
        Action::CommandPalette => "command-palette"@,
        Action::ToggleTimeline => "toggle-timeline"@,
        Action::SplitVertical => "split-vertical"@,
        Action::SplitHorizontal => "split-horizontal"@,
        Action::OtherPane => "other-pane"@,
        Action::Diff => "diff"@,
        Action::FoldAllBlocks => "fold-all-blocks"@,
        Action::InliningPanel => "inlining-panel"@,
        Action::ToggleSourcePane => "toggle-source-pane"@,
        Action::DualDiff => "dual-diff"@,
    }
}

/// What an action does, in words.
pub open spec fn action_help(action: Action) -> Seq<char> {
    match action {
        Action::Quit => "quit"@,
        Action::Back => "back / unfocus / quit"@,
        Action::Help => "this help"@,
        Action::Up => "move up"@,
        Action::Down => "move down"@,
        Action::HalfPageDown => "half page down"@,
        Action::HalfPageUp => "half page up"@,
        Action::PageDown => "page down"@,
        Action::PageUp => "page up"@,
        Action::Top => "jump to top"@,
        Action::Bottom => "jump to bottom"@,
        Action::FocusSidebar => "focus sidebar"@,
        Action::FocusViewport => "focus viewport"@,
        Action::Select => "expand / collapse / focus"@,
        Action::NextSource => "next source"@,
        Action::ToggleFollow => "follow the stream end"@,
        Action::ToggleGrouping => "sidebar: chronological / by function"@,
        Action::ToggleWrap => "wrap long lines"@,
        Action::ScrollLeft => "scroll left"@,
        Action::ScrollRight => "scroll right"@,
        Action::FoldBlock => "fold / unfold basic block"@,
        Action::JumpToInput => "jump to input definition"@,
        Action::CycleConsumers => "cycle consumers"@,
        Action::PrevBlock => "previous block header"@,
        Action::NextBlock => "next block header"@,
        Action::ToggleSidebar => "show / hide the sidebar"@,
        Action::JumpBack => "jump history back"@,
        Action::JumpForward => "jump history forward"@,
        Action::Search => "regex search"@,
        Action::SearchNext => "next match"@,
        Action::SearchPrev => "previous match"@,
        Action::Filter => "filter sidebar"@,
        Action::ToggleAnnotations => "show trace annotations"@,
        Action::Yank => "copy the cursor line"@,
        Action::YankSection => "copy the whole section"@,
        Action::Export => "export section to a file"@,
        Action::CommandPalette => "command palette (:checks, :deopts, …)"@,
        Action::ToggleTimeline => "timeline ⇄ compilation list"@,
        Action::SplitVertical => "vertical split (again: close)"@,
        Action::SplitHorizontal => "horizontal split (again: close)"@,
        Action::OtherPane => "focus the other pane"@,
        Action::Diff => "phase diff mode"@,
        Action::FoldAllBlocks => "fold / unfold all blocks"@,
        Action::InliningPanel => "inlining decisions panel"@,
        Action::ToggleSourcePane => "JS source alignment pane"@,
        Action::DualDiff => "dual-run diff against the other trace"@,
    }
}

/// The keys that an action has unless the configuration names it.
pub open spec fn default_specs(action: Action) -> Seq<Seq<char>> {
    match action {
        Action::Quit => seq!["q"@, "Ctrl+c"@],
        Action::Back => seq!["Esc"@],
        Action::Help => seq!["?"@],
        Action::Up => seq!["k"@, "Up"@],
        Action::Down => seq!["j"@, "Down"@],
        Action::HalfPageDown => seq!["Ctrl+d"@],
        Action::HalfPageUp => seq!["Ctrl+u"@],
        Action::PageDown => seq!["PgDn"@],
        Action::PageUp => seq!["PgUp"@],
        Action::Top => seq!["g"@, "Home"@],
        Action::Bottom => seq!["G"@, "End"@],
        Action::FocusSidebar => seq!["h"@, "Left"@],
        Action::FocusViewport => seq!["l"@, "Right"@],
        Action::Select => seq!["Enter"@],
        Action::NextSource => seq!["}"@],
        Action::ToggleFollow => seq!["F"@],
        Action::ToggleGrouping => seq!["c"@],
        Action::ToggleWrap => seq!["w"@],
        Action::ScrollLeft => seq!["<"@],
        Action::ScrollRight => seq![">"@],
        Action::FoldBlock => seq!["Space"@],
        Action::JumpToInput => seq!["i"@],
        Action::CycleConsumers => seq!["u"@],
        Action::PrevBlock => seq!["["@],
        Action::NextBlock => seq!["]"@],
        Action::ToggleSidebar => seq!["b"@],
        Action::JumpBack => seq!["Ctrl+o"@],
        Action::JumpForward => seq!["Ctrl+i"@],
        Action::Search => seq!["/"@],
        Action::SearchNext => seq!["n"@],
        Action::SearchPrev => seq!["N"@],
        Action::Filter => seq!["f"@],
        Action::ToggleAnnotations => seq!["t"@],
        Action::Yank => seq!["y"@],
        Action::YankSection => seq!["Y"@],
        Action::Export => seq!["E"@],
        Action::CommandPalette => seq![":"@],
        Action::ToggleTimeline => seq!["Tab"@],
        Action::SplitVertical => seq!["v"@],
        Action::SplitHorizontal => seq!["s"@],
        Action::OtherPane => seq!["Ctrl+w"@],
        Action::Diff => seq!["d"@],
        Action::FoldAllBlocks => seq!["z"@],
        Action::InliningPanel => seq!["I"@],
        Action::ToggleSourcePane => seq!["S"@],
        Action::DualDiff => seq!["D"@],
    }
}

/// All actions, in the order of the help.
pub open spec fn all_actions() -> Seq<Action> {
    seq![
        Action::Quit,
        Action::Back,
        Action::Help,
        Action::Up,
        Action::Down,
        Action::HalfPageDown,
        Action::HalfPageUp,
        Action::PageDown,
        Action::PageUp,
        Action::Top,
        Action::Bottom,
        Action::FocusSidebar,
        Action::FocusViewport,
        Action::Select,
        Action::NextSource,
        Action::ToggleFollow,
        Action::ToggleGrouping,
        Action::ToggleWrap,
        Action::ScrollLeft,
        Action::ScrollRight,
        Action::FoldBlock,
        Action::JumpToInput,
        Action::CycleConsumers,
        Action::PrevBlock,
        Action::NextBlock,
        Action::ToggleSidebar,
        Action::JumpBack,
        Action::JumpForward,
        Action::Search,
        Action::SearchNext,
        Action::SearchPrev,
        Action::Filter,
        Action::ToggleAnnotations,
        Action::Yank,
        Action::YankSection,
        Action::Export,
        Action::CommandPalette,
        Action::ToggleTimeline,
        Action::SplitVertical,
        Action::SplitHorizontal,
        Action::OtherPane,
        Action::Diff,
        Action::FoldAllBlocks,
        Action::InliningPanel,
        Action::ToggleSourcePane,
        Action::DualDiff,
    ]
}

impl Action {
    /// The name of the action in the configuration.
    pub fn name(self) -> (name: &'static str)
        ensures
            name@ == action_name(self),
    {
        match self {
            Action::Quit => "quit",
            Action::Back => "back",
            Action::Help => "help",
            Action::Up => "up",
            Action::Down => "down",
            Action::HalfPageDown => "half-page-down",
            Action::HalfPageUp => "half-page-up",
            Action::PageDown => "page-down",
            Action::PageUp => "page-up",
            Action::Top => "top",
            Action::Bottom => "bottom",
            Action::FocusSidebar => "focus-sidebar",
            Action::FocusViewport => "focus-viewport",
            Action::Select => "select",
            Action::NextSource => "next-source",
            Action::ToggleFollow => "toggle-follow",
            Action::ToggleGrouping => "toggle-grouping",
            Action::ToggleWrap => "toggle-wrap",
            Action::ScrollLeft => "scroll-left",
            Action::ScrollRight => "scroll-right",
            Action::FoldBlock => "fold-block",
            Action::JumpToInput => "jump-to-input",
            Action::CycleConsumers => "cycle-consumers",
            Action::PrevBlock => "prev-block",
            Action::NextBlock => "next-block",
            Action::ToggleSidebar => "toggle-sidebar",
            Action::JumpBack => "jump-back",
            Action::JumpForward => "jump-forward",
            Action::Search => "search",
            Action::SearchNext => "search-next",
            Action::SearchPrev => "search-prev",
            Action::Filter => "filter",
            Action::ToggleAnnotations => "toggle-annotations",
            Action::Yank => "yank",
            Action::YankSection => "yank-section",
            Action::Export => "export",
            Action::CommandPalette => "command-palette",
            Action::ToggleTimeline => "toggle-timeline",
            Action::SplitVertical => "split-vertical",
            Action::SplitHorizontal => "split-horizontal",
            Action::OtherPane => "other-pane",
            Action::Diff => "diff",
            Action::FoldAllBlocks => "fold-all-blocks",
            Action::InliningPanel => "inlining-panel",
            Action::ToggleSourcePane => "toggle-source-pane",
            Action::DualDiff => "dual-diff",
        }
    }

    /// What the action does, in words.
    pub fn describe(self) -> (words: &'static str)
        ensures
            words@ == action_help(self),
    {
        match self {
            Action::Quit => "quit",
            Action::Back => "back / unfocus / quit",
            Action::Help => "this help",
            Action::Up => "move up",
            Action::Down => "move down",
            Action::HalfPageDown => "half page down",
            Action::HalfPageUp => "half page up",
            Action::PageDown => "page down",
            Action::PageUp => "page up",
            Action::Top => "jump to top",
            Action::Bottom => "jump to bottom",
            Action::FocusSidebar => "focus sidebar",
            Action::FocusViewport => "focus viewport",
            Action::Select => "expand / collapse / focus",
            Action::NextSource => "next source",
            Action::ToggleFollow => "follow the stream end",
            Action::ToggleGrouping => "sidebar: chronological / by function",
            Action::ToggleWrap => "wrap long lines",
            Action::ScrollLeft => "scroll left",
            Action::ScrollRight => "scroll right",
            Action::FoldBlock => "fold / unfold basic block",
            Action::JumpToInput => "jump to input definition",
            Action::CycleConsumers => "cycle consumers",
            Action::PrevBlock => "previous block header",
            Action::NextBlock => "next block header",
            Action::ToggleSidebar => "show / hide the sidebar",
            Action::JumpBack => "jump history back",
            Action::JumpForward => "jump history forward",
            Action::Search => "regex search",
            Action::SearchNext => "next match",
            Action::SearchPrev => "previous match",
            Action::Filter => "filter sidebar",
            Action::ToggleAnnotations => "show trace annotations",
            Action::Yank => "copy the cursor line",
            Action::YankSection => "copy the whole section",
            Action::Export => "export section to a file",
            Action::CommandPalette => "command palette (:checks, :deopts, …)",
            Action::ToggleTimeline => "timeline ⇄ compilation list",
            Action::SplitVertical => "vertical split (again: close)",
            Action::SplitHorizontal => "horizontal split (again: close)",
            Action::OtherPane => "focus the other pane",
            Action::Diff => "phase diff mode",
            Action::FoldAllBlocks => "fold / unfold all blocks",
            Action::InliningPanel => "inlining decisions panel",
            Action::ToggleSourcePane => "JS source alignment pane",
            Action::DualDiff => "dual-run diff against the other trace",
        }
    }

    /// All actions, in the order of the help.
    pub fn all() -> (actions: Vec<Action>)
        ensures
            actions@ == all_actions(),
    {
        vec![
            Action::Quit,
            Action::Back,
            Action::Help,
            Action::Up,
            Action::Down,
            Action::HalfPageDown,
            Action::HalfPageUp,
            Action::PageDown,
            Action::PageUp,
            Action::Top,
            Action::Bottom,
            Action::FocusSidebar,
            Action::FocusViewport,
            Action::Select,
            Action::NextSource,
            Action::ToggleFollow,
            Action::ToggleGrouping,
            Action::ToggleWrap,
            Action::ScrollLeft,
            Action::ScrollRight,
            Action::FoldBlock,
            Action::JumpToInput,
            Action::CycleConsumers,
            Action::PrevBlock,
            Action::NextBlock,
            Action::ToggleSidebar,
            Action::JumpBack,
            Action::JumpForward,
            Action::Search,
            Action::SearchNext,
            Action::SearchPrev,
            Action::Filter,
            Action::ToggleAnnotations,
            Action::Yank,
            Action::YankSection,
            Action::Export,
            Action::CommandPalette,
            Action::ToggleTimeline,
            Action::SplitVertical,
            Action::SplitHorizontal,
            Action::OtherPane,
            Action::Diff,
            Action::FoldAllBlocks,
            Action::InliningPanel,
            Action::ToggleSourcePane,
            Action::DualDiff,
        ]
    }

    fn default_keys(self) -> (keys: Vec<&'static str>)
        ensures
            literals(keys@) == default_specs(self),
    {
        let keys = match self {
            Action::Quit => vec!["q", "Ctrl+c"],
            Action::Back => vec!["Esc"],
            Action::Help => vec!["?"],
            Action::Up => vec!["k", "Up"],
            Action::Down => vec!["j", "Down"],
            Action::HalfPageDown => vec!["Ctrl+d"],
            Action::HalfPageUp => vec!["Ctrl+u"],
            Action::PageDown => vec!["PgDn"],
            Action::PageUp => vec!["PgUp"],
            Action::Top => vec!["g", "Home"],
            Action::Bottom => vec!["G", "End"],
            Action::FocusSidebar => vec!["h", "Left"],
            Action::FocusViewport => vec!["l", "Right"],
            Action::Select => vec!["Enter"],
            Action::NextSource => vec!["}"],
            Action::ToggleFollow => vec!["F"],
            Action::ToggleGrouping => vec!["c"],
            Action::ToggleWrap => vec!["w"],
            Action::ScrollLeft => vec!["<"],
            Action::ScrollRight => vec![">"],
            Action::FoldBlock => vec!["Space"],
            Action::JumpToInput => vec!["i"],
            Action::CycleConsumers => vec!["u"],
            Action::PrevBlock => vec!["["],
            Action::NextBlock => vec!["]"],
            Action::ToggleSidebar => vec!["b"],
            Action::JumpBack => vec!["Ctrl+o"],
            Action::JumpForward => vec!["Ctrl+i"],
            Action::Search => vec!["/"],
            Action::SearchNext => vec!["n"],
            Action::SearchPrev => vec!["N"],
            Action::Filter => vec!["f"],
            Action::ToggleAnnotations => vec!["t"],
            Action::Yank => vec!["y"],
            Action::YankSection => vec!["Y"],
            Action::Export => vec!["E"],
            Action::CommandPalette => vec![":"],
            Action::ToggleTimeline => vec!["Tab"],
            Action::SplitVertical => vec!["v"],
            Action::SplitHorizontal => vec!["s"],
            Action::OtherPane => vec!["Ctrl+w"],
            Action::Diff => vec!["d"],
            Action::FoldAllBlocks => vec!["z"],
            Action::InliningPanel => vec!["I"],
            Action::ToggleSourcePane => vec!["S"],
            Action::DualDiff => vec!["D"],
        };
        assert(literals(keys@) =~= default_specs(self));
        keys
    }
}

/// The action with a name.
pub open spec fn action_named(name: Seq<char>, i: int) -> Option<Action>
    decreases all_actions().len() - i,
{
    if i < 0 || i >= all_actions().len() {
        None
    } else if action_name(all_actions()[i]) == name {
        Some(all_actions()[i])
    } else {
        action_named(name, i + 1)
    }
}

fn find_action(name: &String) -> (action: Option<Action>)
    ensures
        action == action_named(name@, 0),
{
    let all = Action::all();
    let mut i: usize = 0;
    while i < all.len()
        invariant
            i <= all@.len(),
            all@ == all_actions(),
            action_named(name@, 0) == action_named(name@, i as int),
        decreases all.len() - i,
    {
        if text::owned(all[i].name()) == *name {
            return Some(all[i]);
        }
        i += 1;
    }
    None
}

// ---------------------------------------------------------------------------
// Chords
// ---------------------------------------------------------------------------

/// A key press that can be bound. A character carries its own shift.
#[derive(Debug, Clone, Copy, PartialEq, Eq, Hash, Structural)]
pub struct Chord {
    pub mods: KeyModifiers,
    pub code: KeyCode,
}

/// The chord of a key press.
pub open spec fn event_chord(key: KeyEvent) -> Chord {
    Chord {
        mods: if key.code is Char {
            KeyModifiers { shift: false, ..key.modifiers }
        } else {
            key.modifiers
        },
        code: key.code,
    }
}

/// The lower-case form of an ASCII letter.
pub open spec fn lower(c: char) -> char {
    if 'A' <= c && c <= 'Z' {
        (c as u8 + 32) as char
    } else {
        c
    }
}

/// `word` stands in `s` at `i`, whatever the case of its letters in `s`.
pub open spec fn prefix_at(s: Seq<char>, i: int, word: Seq<char>) -> bool {
    &&& i + word.len() <= s.len()
    &&& forall|k: int| 0 <= k < word.len() ==> lower(#[trigger] s[i + k]) == word[k]
}

/// The modifiers in front of a key, and where the key starts.
pub open spec fn modifiers_at(s: Seq<char>, i: int, mods: KeyModifiers) -> (KeyModifiers, int)
    decreases s.len() - i,
{
    if i < 0 {
        (mods, i)
    } else if prefix_at(s, i, seq!['c', 't', 'r', 'l', '+']) {
        modifiers_at(s, i + 5, KeyModifiers { control: true, ..mods })
    } else if prefix_at(s, i, seq!['a', 'l', 't', '+']) {
        modifiers_at(s, i + 4, KeyModifiers { alt: true, ..mods })
    } else {
        (mods, i)
    }
}

/// The key that a name stands for.
pub open spec fn key_named(name: Seq<char>) -> Option<KeyCode> {
    if name == "Esc"@ || name == "esc"@ {
        Some(KeyCode::Esc)
    } else if name == "Enter"@ || name == "enter"@ {
        Some(KeyCode::Enter)
    } else if name == "Tab"@ || name == "tab"@ {
        Some(KeyCode::Tab)
    } else if name == "Space"@ || name == "space"@ {
        Some(KeyCode::Char(' '))
    } else if name == "Up"@ || name == "up"@ {
        Some(KeyCode::Up)
    } else if name == "Down"@ || name == "down"@ {
        Some(KeyCode::Down)
    } else if name == "Left"@ || name == "left"@ {
        Some(KeyCode::Left)
    } else if name == "Right"@ || name == "right"@ {
        Some(KeyCode::Right)
    } else if name == "PgUp"@ || name == "pgup"@ || name == "PageUp"@ {
        Some(KeyCode::PageUp)
    } else if name == "PgDn"@ || name == "pgdn"@ || name == "PageDown"@ {
        Some(KeyCode::PageDown)
    } else if name == "Home"@ || name == "home"@ {
        Some(KeyCode::Home)
    } else if name == "End"@ || name == "end"@ {
        Some(KeyCode::End)
    } else if name.len() == 1 {
        Some(KeyCode::Char(name[0]))
    } else {
        None
    }
}

/// The chord that a text such as `Ctrl+d` names.
pub open spec fn chord_named(spec_text: Seq<char>) -> Result<Chord, ErrorModel> {
    let (mods, at) = modifiers_at(spec_text, 0, no_modifiers());
    let name = spec_text.skip(at);
    if name.len() == 0 {
        Err(ErrorModel::EmptyKey { key: spec_text })
    } else {
        match key_named(name) {
            Some(code) => Ok(Chord { mods, code }),
            None => Err(ErrorModel::UnknownKey { key: spec_text }),
        }
    }
}

/// A key in words.
pub open spec fn key_text(code: KeyCode) -> Seq<char> {
    match code {
        KeyCode::Char(c) => if c == ' ' {
            "Space"@
        } else {
            seq![c]
        },
        KeyCode::Esc => "Esc"@,
        KeyCode::Enter => "Enter"@,
        KeyCode::Tab => "Tab"@,
        KeyCode::Backspace => "Backspace"@,
        KeyCode::Up => seq!['↑'],
        KeyCode::Down => seq!['↓'],
        KeyCode::Left => seq!['←'],
        KeyCode::Right => seq!['→'],
        KeyCode::PageUp => "PgUp"@,
        KeyCode::PageDown => "PgDn"@,
        KeyCode::Home => "Home"@,
        KeyCode::End => "End"@,
        KeyCode::Other => "Other"@,
    }
}

/// A chord in words.
pub open spec fn chord_text(chord: Chord) -> Seq<char> {
    (if chord.mods.control {
        "Ctrl+"@
    } else {
        Seq::empty()
    }) + (if chord.mods.alt {
        "Alt+"@
    } else {
        Seq::empty()
    }) + key_text(chord.code)
}

fn lower_char(c: char) -> (out: char)
    ensures
        out == lower(c),
{
    if 'A' <= c && c <= 'Z' {
        (c as u8 + 32) as char
    } else {
        c
    }
}

fn has_prefix(s: &Vec<char>, i: usize, word: &str) -> (yes: bool)
    requires
        i <= s@.len(),
    ensures
        yes == prefix_at(s@, i as int, word@),
{
    let w = chars_of(word);
    if w.len() > s.len() - i {
        return false;
    }
    let mut k: usize = 0;
    while k < w.len()
        invariant
            w@ == word@,
            k <= w@.len(),
            i + w@.len() <= s@.len(),
            forall|m: int| 0 <= m < k ==> lower(#[trigger] s@[i + m]) == w@[m],
        decreases w.len() - k,
    {
        assert(s@.len() == s.len());
        if lower_char(s[i + k]) != w[k] {
            assert(lower(s@[i + k as int]) != word@[k as int]);
            return false;
        }
        k += 1;
    }
    true
}

fn find_key(name: &String) -> (code: Option<KeyCode>)
    ensures
        code == key_named(name@),
{
    if *name == text::owned("Esc") || *name == text::owned("esc") {
        Some(KeyCode::Esc)
    } else if *name == text::owned("Enter") || *name == text::owned("enter") {
        Some(KeyCode::Enter)
    } else if *name == text::owned("Tab") || *name == text::owned("tab") {
        Some(KeyCode::Tab)
    } else if *name == text::owned("Space") || *name == text::owned("space") {
        Some(KeyCode::Char(' '))
    } else if *name == text::owned("Up") || *name == text::owned("up") {
        Some(KeyCode::Up)
    } else if *name == text::owned("Down") || *name == text::owned("down") {
        Some(KeyCode::Down)
    } else if *name == text::owned("Left") || *name == text::owned("left") {
        Some(KeyCode::Left)
    } else if *name == text::owned("Right") || *name == text::owned("right") {
        Some(KeyCode::Right)
    } else if *name == text::owned("PgUp") || *name == text::owned("pgup") || *name == text::owned(
        "PageUp",
    ) {
        Some(KeyCode::PageUp)
    } else if *name == text::owned("PgDn") || *name == text::owned("pgdn") || *name == text::owned(
        "PageDown",
    ) {
        Some(KeyCode::PageDown)
    } else if *name == text::owned("Home") || *name == text::owned("home") {
        Some(KeyCode::Home)
    } else if *name == text::owned("End") || *name == text::owned("end") {
        Some(KeyCode::End)
    } else {
        let chars = chars_of(name.as_str());
        if chars.len() == 1 {
            Some(KeyCode::Char(chars[0]))
        } else {
            None
        }
    }
}

impl Chord {
    /// The chord of a key press.
    pub fn from_event(key: &KeyEvent) -> (chord: Chord)
        ensures
            chord == event_chord(*key),
    {
        let mut mods: KeyModifiers = key.modifiers;
        if let KeyCode::Char(_) = key.code {
            mods.shift = false;
        }
        Chord { mods, code: key.code }
    }

    /// The chord that a text such as `q`, `Ctrl+d` or `Space` names.
    pub fn parse(spec_text: &str) -> (chord: Result<Chord, ConfigError>)
        ensures
            result_model(chord) == chord_named(spec_text@),
    {
        let s = chars_of(spec_text);
        let mut mods: KeyModifiers = KeyModifiers::none();
        let mut i: usize = 0;
        proof {
            reveal_strlit("ctrl+");
            reveal_strlit("alt+");
            assert("ctrl+"@ =~= seq!['c', 't', 'r', 'l', '+']);
            assert("alt+"@ =~= seq!['a', 'l', 't', '+']);
        }
        loop
            invariant
                i <= s@.len(),
                "ctrl+"@ == seq!['c', 't', 'r', 'l', '+'],
                "alt+"@ == seq!['a', 'l', 't', '+'],
                modifiers_at(s@, 0, no_modifiers()) == modifiers_at(s@, i as int, mods),
            ensures
                i <= s@.len(),
                modifiers_at(s@, 0, no_modifiers()) == (mods, i as int),
            decreases s@.len() - i,
        {
            assert(s@.len() == s.len());
            if has_prefix(&s, i, "ctrl+") {
                mods.control = true;
                i += 5;
            } else if has_prefix(&s, i, "alt+") {
                mods.alt = true;
                i += 4;
            } else {
                break ;
            }
        }
        let mut name = String::new();
        let mut k: usize = i;
        assert(name@ =~= s@.subrange(i as int, i as int));
        while k < s.len()
            invariant
                i <= k <= s@.len(),
                name@ == s@.subrange(i as int, k as int),
            decreases s.len() - k,
        {
            name.push(s[k]);
            assert(name@ =~= s@.subrange(i as int, k + 1));
            k += 1;
        }
        assert(name@ =~= s@.skip(i as int));
        if i == s.len() {
            return Err(ConfigError::EmptyKey { key: text::owned(spec_text) });
        }
        match find_key(&name) {
            Some(code) => Ok(Chord { mods, code }),
            None => Err(ConfigError::UnknownKey { key: text::owned(spec_text) }),
        }
    }

    /// The chord in words.
    pub fn display(&self) -> (out: String)
        ensures
            out@ == chord_text(*self),
    {
        let mut out = String::new();
        assert(out@ =~= Seq::<char>::empty());
        if self.mods.control {
            out.append("Ctrl+");
        }
        let ghost first = out@;
        if self.mods.alt {
            out.append("Alt+");
        } else {
            assert(out@ =~= first + Seq::<char>::empty());
        }
        let ghost front = out@;
        match self.code {
            KeyCode::Char(c) => {
                if c == ' ' {
                    out.append("Space");
                } else {
                    out.push(c);
                    assert(out@ =~= front + seq![c]);
                }
            },
            KeyCode::Esc => out.append("Esc"),
            KeyCode::Enter => out.append("Enter"),
            KeyCode::Tab => out.append("Tab"),
            KeyCode::Backspace => out.append("Backspace"),
            KeyCode::Up => {
                out.push('↑');
                assert(out@ =~= front + seq!['↑']);
            },
            KeyCode::Down => {
                out.push('↓');
                assert(out@ =~= front + seq!['↓']);
            },
            KeyCode::Left => {
                out.push('←');
                assert(out@ =~= front + seq!['←']);
            },
            KeyCode::Right => {
                out.push('→');
                assert(out@ =~= front + seq!['→']);
            },
            KeyCode::PageUp => out.append("PgUp"),
            KeyCode::PageDown => out.append("PgDn"),
            KeyCode::Home => out.append("Home"),
            KeyCode::End => out.append("End"),
            KeyCode::Other => out.append("Other"),
        }
        out
    }
}

// ---------------------------------------------------------------------------
// Errors
// ---------------------------------------------------------------------------

/// Why a configuration is refused.
#[derive(Debug, PartialEq, Eq)]
pub enum ConfigError {
    /// A chord names no key.
    EmptyKey { key: String },
    /// A chord names a key that does not exist.
    UnknownKey { key: String },
    UnknownAction { name: String },
    /// A chord of an action cannot be read.
    BadKey { name: String, key: String },
    /// One chord for two actions.
    Conflict { chord: Chord, first: Action, second: Action },
    NotToml { message: String },
    /// An entry of a list is no text.
    NotStrings { name: String },
    /// Neither a text nor a list.
    NotAList { name: String },
}

/// The view of a `ConfigError`.
pub enum ErrorModel {
    EmptyKey { key: Seq<char> },
    UnknownKey { key: Seq<char> },
    UnknownAction { name: Seq<char> },
    BadKey { name: Seq<char>, key: Seq<char> },
    Conflict { chord: Chord, first: Action, second: Action },
    NotToml { message: Seq<char> },
    NotStrings { name: Seq<char> },
    NotAList { name: Seq<char> },
}

impl View for ConfigError {
    type V = ErrorModel;

    open spec fn view(&self) -> ErrorModel {
        match self {
            ConfigError::EmptyKey { key } => ErrorModel::EmptyKey { key: key@ },
            ConfigError::UnknownKey { key } => ErrorModel::UnknownKey { key: key@ },
            ConfigError::UnknownAction { name } => ErrorModel::UnknownAction { name: name@ },
            ConfigError::BadKey { name, key } => ErrorModel::BadKey { name: name@, key: key@ },
            ConfigError::Conflict { chord, first, second } => ErrorModel::Conflict {
                chord: *chord,
                first: *first,
                second: *second,
            },
            ConfigError::NotToml { message } => ErrorModel::NotToml { message: message@ },
            ConfigError::NotStrings { name } => ErrorModel::NotStrings { name: name@ },
            ConfigError::NotAList { name } => ErrorModel::NotAList { name: name@ },
        }
    }
}

/// A result with the view of its error.
pub open spec fn result_model<T>(r: Result<T, ConfigError>) -> Result<T, ErrorModel> {
    match r {
        Ok(v) => Ok(v),
        Err(e) => Err(e@),
    }
}

/// A text in quotes, as `{:?}` writes it.
pub uninterp spec fn quoted_text(s: Seq<char>) -> Seq<char>;

/// `format!("{:?}")` on a text: puts it in quotes and escapes it.
///
/// Claimed of it: what comes out depends on the text alone.
#[verifier::external_body]
fn quoted(s: &str) -> (out: String)
    ensures
        out@ == quoted_text(s@),
{
    format!("{:?}", s)
}

/// The names of the actions from `i` on, with commas between them.
pub open spec fn names_from(actions: Seq<Action>, i: int) -> Seq<char>
    decreases actions.len() - i,
{
    if i < 0 || i >= actions.len() {
        Seq::empty()
    } else if i == actions.len() - 1 {
        action_name(actions[i])
    } else {
        action_name(actions[i]) + ", "@ + names_from(actions, i + 1)
    }
}

/// An error in words.
pub open spec fn error_text(e: ErrorModel) -> Seq<char> {
    match e {
        ErrorModel::EmptyKey { key } => "empty key in "@ + quoted_text(key),
        ErrorModel::UnknownKey { key } => "unknown key "@ + quoted_text(key),
        ErrorModel::UnknownAction { name } => "unknown action "@ + quoted_text(name)
            + " in [keys] (known: "@ + names_from(all_actions(), 0) + ")"@,
        ErrorModel::BadKey { name, key } => "in [keys] "@ + name + " = [... "@ + quoted_text(key)
            + " ...]"@,
        ErrorModel::Conflict { chord, first, second } => "key "@ + quoted_text(chord_text(chord))
            + " is bound to both "@ + action_name(first) + " and "@ + action_name(second),
        ErrorModel::NotToml { .. } => "config is not valid TOML"@,
        ErrorModel::NotStrings { name } => "[keys] "@ + name + ": entries must be strings"@,
        ErrorModel::NotAList { name } => "[keys] "@ + name
            + ": expected a string or array of strings"@,
    }
}

fn all_names() -> (out: String)
    ensures
        out@ == names_from(all_actions(), 0),
{
    let all = Action::all();
    let mut out = String::new();
    let mut i: usize = 0;
    assert(out@ + names_from(all@, 0) =~= names_from(all@, 0));
    while i < all.len()
        invariant
            i <= all@.len(),
            out@ + names_from(all@, i as int) == names_from(all@, 0),
        decreases all.len() - i,
    {
        let ghost before = out@;
        out.append(all[i].name());
        if i + 1 < all.len() {
            out.append(", ");
            assert(out@ + names_from(all@, i + 1) =~= before + (action_name(all@[i as int]) + ", "@
                + names_from(all@, i + 1)));
        } else {
            assert(out@ + names_from(all@, i + 1) =~= before + action_name(all@[i as int]));
        }
        i += 1;
    }
    assert(out@ + names_from(all@, i as int) =~= out@);
    out
}

impl ConfigError {
    /// The error in words.
    pub fn describe(&self) -> (out: String)
        ensures
            out@ == error_text(self@),
    {
        match self {
            ConfigError::EmptyKey { key } => {
                let mut out = text::owned("empty key in ");
                out.append(quoted(key.as_str()).as_str());
                out
            },
            ConfigError::UnknownKey { key } => {
                let mut out = text::owned("unknown key ");
                out.append(quoted(key.as_str()).as_str());
                out
            },
            ConfigError::UnknownAction { name } => {
                let mut out = text::owned("unknown action ");
                out.append(quoted(name.as_str()).as_str());
                out.append(" in [keys] (known: ");
                out.append(all_names().as_str());
                out.append(")");
                out
            },
            ConfigError::BadKey { name, key } => {
                let mut out = text::owned("in [keys] ");
                out.append(name.as_str());
                out.append(" = [... ");
                out.append(quoted(key.as_str()).as_str());
                out.append(" ...]");
                out
            },
            ConfigError::Conflict { chord, first, second } => {
                let mut out = text::owned("key ");
                out.append(quoted(chord.display().as_str()).as_str());
                out.append(" is bound to both ");
                out.append(first.name());
                out.append(" and ");
                out.append(second.name());
                out
            },
            ConfigError::NotToml { .. } => text::owned("config is not valid TOML"),
            ConfigError::NotStrings { name } => {
                let mut out = text::owned("[keys] ");
                out.append(name.as_str());
                out.append(": entries must be strings");
                out
            },
            ConfigError::NotAList { name } => {
                let mut out = text::owned("[keys] ");
                out.append(name.as_str());
                out.append(": expected a string or array of strings");
                out
            },
        }
    }
}

// ---------------------------------------------------------------------------
// The keymap
// ---------------------------------------------------------------------------

/// The views of configured bindings: the name of an action, and its chords.
pub open spec fn override_models(list: Seq<(String, Vec<String>)>) -> Seq<
    (Seq<char>, Seq<Seq<char>>),
> {
    list.map_values(|o: (String, Vec<String>)| (o.0@, texts(o.1@)))
}

/// The first chord from `i` on that cannot be read.
pub open spec fn bad_key(name: Seq<char>, specs: Seq<Seq<char>>, i: int) -> Option<ErrorModel>
    decreases specs.len() - i,
{
    if i < 0 || i >= specs.len() {
        None
    } else if chord_named(specs[i]) is Err {
        Some(ErrorModel::BadKey { name, key: specs[i] })
    } else {
        bad_key(name, specs, i + 1)
    }
}

/// The first thing wrong with configured bindings from `i` on.
pub open spec fn first_problem(overrides: Seq<(Seq<char>, Seq<Seq<char>>)>, i: int) -> Option<
    ErrorModel,
>
    decreases overrides.len() - i,
{
    if i < 0 || i >= overrides.len() {
        None
    } else if action_named(overrides[i].0, 0) is None {
        Some(ErrorModel::UnknownAction { name: overrides[i].0 })
    } else {
        match bad_key(overrides[i].0, overrides[i].1, 0) {
            Some(e) => Some(e),
            None => first_problem(overrides, i + 1),
        }
    }
}

/// The last of the first `n` configured bindings for an action.
pub open spec fn override_for(
    overrides: Seq<(Seq<char>, Seq<Seq<char>>)>,
    action: Action,
    n: int,
) -> Option<Seq<Seq<char>>>
    decreases n,
{
    if n <= 0 {
        None
    } else if overrides[n - 1].0 == action_name(action) {
        Some(overrides[n - 1].1)
    } else {
        override_for(overrides, action, n - 1)
    }
}

/// The chords that the first `n` texts name.
pub open spec fn chords_named(specs: Seq<Seq<char>>, n: int) -> Seq<Chord>
    decreases n,
{
    if n <= 0 {
        Seq::empty()
    } else {
        match chord_named(specs[n - 1]) {
            Ok(chord) => chords_named(specs, n - 1).push(chord),
            Err(_) => chords_named(specs, n - 1),
        }
    }
}

/// The chords of an action: those configured for it, or else its own.
pub open spec fn chords_for(overrides: Seq<(Seq<char>, Seq<Seq<char>>)>, action: Action) -> Seq<
    Chord,
> {
    let specs = match override_for(overrides, action, overrides.len() as int) {
        Some(specs) => specs,
        None => default_specs(action),
    };
    chords_named(specs, specs.len() as int)
}

/// The action that a chord is bound to.
pub open spec fn bound(bindings: Seq<(Chord, Action)>, chord: Chord, i: int) -> Option<Action>
    decreases bindings.len() - i,
{
    if i < 0 || i >= bindings.len() {
        None
    } else if bindings[i].0 == chord {
        Some(bindings[i].1)
    } else {
        bound(bindings, chord, i + 1)
    }
}

/// `bindings` with the first `n` chords of an action.
pub open spec fn with_chords(
    bindings: Seq<(Chord, Action)>,
    action: Action,
    chords: Seq<Chord>,
    n: int,
) -> Result<Seq<(Chord, Action)>, ErrorModel>
    decreases n,
{
    if n <= 0 {
        Ok(bindings)
    } else {
        match with_chords(bindings, action, chords, n - 1) {
            Ok(so_far) => match bound(so_far, chords[n - 1], 0) {
                None => Ok(so_far.push((chords[n - 1], action))),
                Some(other) => if other == action {
                    Ok(so_far)
                } else {
                    Err(
                        ErrorModel::Conflict {
                            chord: chords[n - 1],
                            first: other,
                            second: action,
                        },
                    )
                },
            },
            Err(e) => Err(e),
        }
    }
}

/// The bindings of the first `n` actions.
pub open spec fn with_actions(overrides: Seq<(Seq<char>, Seq<Seq<char>>)>, n: int) -> Result<
    Seq<(Chord, Action)>,
    ErrorModel,
>
    decreases n,
{
    if n <= 0 {
        Ok(Seq::empty())
    } else {
        match with_actions(overrides, n - 1) {
            Ok(so_far) => {
                let action = all_actions()[n - 1];
                let chords = chords_for(overrides, action);
                with_chords(so_far, action, chords, chords.len() as int)
            },
            Err(e) => Err(e),
        }
    }
}

/// The bindings that configured ones give.
pub open spec fn bindings_of(overrides: Seq<(Seq<char>, Seq<Seq<char>>)>) -> Result<
    Seq<(Chord, Action)>,
    ErrorModel,
> {
    match first_problem(overrides, 0) {
        Some(e) => Err(e),
        None => with_actions(overrides, all_actions().len() as int),
    }
}

/// What each key does.
#[derive(Debug)]
pub struct Keymap {
    bindings: Vec<(Chord, Action)>,
}

impl View for Keymap {
    type V = Seq<(Chord, Action)>;

    closed spec fn view(&self) -> Seq<(Chord, Action)> {
        self.bindings@
    }
}

/// A keymap, or why there is none.
pub open spec fn keymap_model(r: Result<Keymap, ConfigError>) -> Result<
    Seq<(Chord, Action)>,
    ErrorModel,
> {
    match r {
        Ok(k) => Ok(k@),
        Err(e) => Err(e@),
    }
}

/// The views of the keys of actions.
pub open spec fn default_models(list: Seq<(Action, Vec<&'static str>)>) -> Seq<
    (Action, Seq<Seq<char>>),
> {
    list.map_values(|d: (Action, Vec<&'static str>)| (d.0, literals(d.1@)))
}

fn check_override(over: &(String, Vec<String>)) -> (problem: Option<ConfigError>)
    ensures
        ({
            let expected = if action_named(over.0@, 0) is None {
                Some(ErrorModel::UnknownAction { name: over.0@ })
            } else {
                bad_key(over.0@, texts(over.1@), 0)
            };
            match problem {
                Some(e) => expected == Some(e@),
                None => expected is None,
            }
        }),
{
    if find_action(&over.0).is_none() {
        return Some(ConfigError::UnknownAction { name: over.0.clone() });
    }
    let specs = &over.1;
    let ghost all = texts(specs@);
    let mut i: usize = 0;
    while i < specs.len()
        invariant
            i <= specs@.len(),
            all == texts(specs@),
            specs == over.1,
            action_named(over.0@, 0) is Some,
            bad_key(over.0@, all, 0) == bad_key(over.0@, all, i as int),
        decreases specs.len() - i,
    {
        assert(all[i as int] == specs@[i as int]@);
        if Chord::parse(specs[i].as_str()).is_err() {
            return Some(
                ConfigError::BadKey { name: over.0.clone(), key: specs[i].clone() },
            );
        }
        i += 1;
    }
    None
}

fn read_chords(specs: &Vec<String>) -> (chords: Vec<Chord>)
    ensures
        chords@ == chords_named(texts(specs@), specs@.len() as int),
{
    let ghost all = texts(specs@);
    let mut chords: Vec<Chord> = Vec::new();
    let mut i: usize = 0;
    while i < specs.len()
        invariant
            i <= specs@.len(),
            all == texts(specs@),
            chords@ == chords_named(all, i as int),
        decreases specs.len() - i,
    {
        assert(all[i as int] == specs@[i as int]@);
        if let Ok(chord) = Chord::parse(specs[i].as_str()) {
            chords.push(chord);
        }
        i += 1;
    }
    chords
}

fn read_default_chords(specs: &Vec<&'static str>) -> (chords: Vec<Chord>)
    ensures
        chords@ == chords_named(literals(specs@), specs@.len() as int),
{
    let ghost all = literals(specs@);
    let mut chords: Vec<Chord> = Vec::new();
    let mut i: usize = 0;
    while i < specs.len()
        invariant
            i <= specs@.len(),
            all == literals(specs@),
            chords@ == chords_named(all, i as int),
        decreases specs.len() - i,
    {
        assert(all[i as int] == specs@[i as int]@);
        if let Ok(chord) = Chord::parse(specs[i]) {
            chords.push(chord);
        }
        i += 1;
    }
    chords
}

fn action_chords(overrides: &Vec<(String, Vec<String>)>, action: Action) -> (chords: Vec<Chord>)
    ensures
        chords@ == chords_for(override_models(overrides@), action),
{
    let ghost all = override_models(overrides@);
    let name = text::owned(action.name());
    let mut n: usize = overrides.len();
    while n > 0
        invariant
            n <= overrides@.len(),
            all == override_models(overrides@),
            name@ == action_name(action),
            override_for(all, action, all.len() as int) == override_for(all, action, n as int),
        decreases n,
    {
        let over = &overrides[n - 1];
        assert(all[n - 1] == (over.0@, texts(over.1@)));
        if over.0 == name {
            assert(texts(over.1@).len() == over.1@.len());
            return read_chords(&over.1);
        }
        n -= 1;
    }
    let specs = action.default_keys();
    assert(literals(specs@).len() == specs@.len());
    read_default_chords(&specs)
}

impl Keymap {
    fn action_of(&self, chord: &Chord) -> (action: Option<Action>)
        ensures
            action == bound(self@, *chord, 0),
    {
        let mut i: usize = 0;
        while i < self.bindings.len()
            invariant
                i <= self.bindings@.len(),
                bound(self@, *chord, 0) == bound(self@, *chord, i as int),
            decreases self.bindings.len() - i,
        {
            if self.bindings[i].0 == *chord {
                return Some(self.bindings[i].1);
            }
            i += 1;
        }
        None
    }

    fn bind(&mut self, action: Action, chords: &Vec<Chord>) -> (conflict: Option<ConfigError>)
        ensures
            match conflict {
                Some(e) => with_chords(old(self)@, action, chords@, chords@.len() as int) == Err::<
                    Seq<(Chord, Action)>,
                    ErrorModel,
                >(e@),
                None => with_chords(old(self)@, action, chords@, chords@.len() as int) == Ok::<
                    Seq<(Chord, Action)>,
                    ErrorModel,
                >(final(self)@),
            },
    {
        let mut i: usize = 0;
        while i < chords.len()
            invariant
                i <= chords@.len(),
                with_chords(old(self)@, action, chords@, i as int) == Ok::<
                    Seq<(Chord, Action)>,
                    ErrorModel,
                >(self@),
            decreases chords.len() - i,
        {
            let chord: Chord = chords[i];
            match self.action_of(&chord) {
                None => {
                    self.bindings.push((chord, action));
                },
                Some(other) => {
                    if other != action {
                        proof {
                            lemma_conflict_stays(
                                old(self)@,
                                action,
                                chords@,
                                i + 1,
                                chords@.len() as int,
                            );
                        }
                        return Some(
                            ConfigError::Conflict { chord, first: other, second: action },
                        );
                    }
                },
            }
            i += 1;
        }
        None
    }

    /// The keys of every action unless the configuration names it.
    pub fn defaults() -> (out: Vec<(Action, Vec<&'static str>)>)
        ensures
            default_models(out@) == all_actions().map_values(
                |a: Action| (a, default_specs(a)),
            ),
    {
        let all = Action::all();
        let mut out: Vec<(Action, Vec<&'static str>)> = Vec::new();
        let ghost expected = all_actions().map_values(|a: Action| (a, default_specs(a)));
        let mut i: usize = 0;
        while i < all.len()
            invariant
                i <= all@.len(),
                all@ == all_actions(),
                expected == all_actions().map_values(|a: Action| (a, default_specs(a))),
                default_models(out@) == expected.take(i as int),
            decreases all.len() - i,
        {
            let entry = (all[i], all[i].default_keys());
            let ghost seen = default_models(out@);
            let ghost model = (entry.0, literals(entry.1@));
            out.push(entry);
            assert(default_models(out@) =~= seen.push(model));
            assert(expected[i as int] == model);
            assert(default_models(out@) =~= expected.take(i + 1));
            i += 1;
        }
        assert(expected.take(i as int) =~= expected);
        out
    }

    /// The keymap with configured bindings. An action that they name loses its
    /// own keys first; one chord for two actions is an error.
    pub fn build(overrides: &Vec<(String, Vec<String>)>) -> (keymap: Result<Keymap, ConfigError>)
        ensures
            keymap_model(keymap) == bindings_of(override_models(overrides@)),
    {
        let ghost all = override_models(overrides@);
        let mut k: usize = 0;
        while k < overrides.len()
            invariant
                k <= overrides@.len(),
                all == override_models(overrides@),
                first_problem(all, 0) == first_problem(all, k as int),
            decreases overrides.len() - k,
        {
            assert(all[k as int] == (overrides@[k as int].0@, texts(overrides@[k as int].1@)));
            if let Some(e) = check_override(&overrides[k]) {
                return Err(e);
            }
            k += 1;
        }
        let actions = Action::all();
        let mut keymap = Keymap { bindings: Vec::new() };
        let mut i: usize = 0;
        while i < actions.len()
            invariant
                i <= actions@.len(),
                actions@ == all_actions(),
                all == override_models(overrides@),
                first_problem(all, 0) is None,
                with_actions(all, i as int) == Ok::<Seq<(Chord, Action)>, ErrorModel>(keymap@),
            decreases actions.len() - i,
        {
            let chords = action_chords(overrides, actions[i]);
            if let Some(e) = keymap.bind(actions[i], &chords) {
                proof {
                    lemma_failure_stays(all, i + 1, all_actions().len() as int);
                }
                return Err(e);
            }
            i += 1;
        }
        Ok(keymap)
    }

    /// What a key press does.
    pub fn lookup(&self, key: &KeyEvent) -> (action: Option<Action>)
        ensures
            action == bound(self@, event_chord(*key), 0),
    {
        let chord = Chord::from_event(key);
        self.action_of(&chord)
    }
}

proof fn lemma_conflict_stays(
    bindings: Seq<(Chord, Action)>,
    action: Action,
    chords: Seq<Chord>,
    n: int,
    m: int,
)
    requires
        0 <= n <= m,
        with_chords(bindings, action, chords, n) is Err,
    ensures
        with_chords(bindings, action, chords, m) == with_chords(bindings, action, chords, n),
    decreases m - n,
{
    if n < m {
        lemma_conflict_stays(bindings, action, chords, n, m - 1);
    }
}

proof fn lemma_failure_stays(overrides: Seq<(Seq<char>, Seq<Seq<char>>)>, n: int, m: int)
    requires
        0 <= n <= m,
        with_actions(overrides, n) is Err,
    ensures
        with_actions(overrides, m) == with_actions(overrides, n),
    decreases m - n,
{
    if n < m {
        lemma_failure_stays(overrides, n, m - 1);
    }
}

// ---------------------------------------------------------------------------
// Help
// ---------------------------------------------------------------------------

/// A text put into a sorted list, behind those that equal it.
pub open spec fn put_sorted(list: Seq<Seq<char>>, s: Seq<char>, i: int) -> Seq<Seq<char>>
    decreases list.len() - i,
{
    if i < 0 || i >= list.len() {
        list.push(s)
    } else if text_before(s, list[i]) {
        list.insert(i, s)
    } else {
        put_sorted(list, s, i + 1)
    }
}

/// The chords of an action among the first `n` bindings, in words, sorted.
pub open spec fn chord_texts(bindings: Seq<(Chord, Action)>, action: Action, n: int) -> Seq<
    Seq<char>,
>
    decreases n,
{
    if n <= 0 {
        Seq::empty()
    } else if bindings[n - 1].1 == action {
        put_sorted(chord_texts(bindings, action, n - 1), chord_text(bindings[n - 1].0), 0)
    } else {
        chord_texts(bindings, action, n - 1)
    }
}

/// Texts with ` / ` between them.
pub open spec fn slashed(list: Seq<Seq<char>>) -> Seq<char>
    decreases list.len(),
{
    if list.len() == 0 {
        Seq::empty()
    } else if list.len() == 1 {
        list[0]
    } else {
        slashed(list.drop_last()) + " / "@ + list.last()
    }
}

/// The help for the first `n` actions: the chords of each that has any.
pub open spec fn help_for(bindings: Seq<(Chord, Action)>, n: int) -> Seq<(Seq<char>, Action)>
    decreases n,
{
    if n <= 0 {
        Seq::empty()
    } else {
        let action = all_actions()[n - 1];
        let chords = chord_texts(bindings, action, bindings.len() as int);
        if chords.len() == 0 {
            help_for(bindings, n - 1)
        } else {
            help_for(bindings, n - 1).push((slashed(chords), action))
        }
    }
}

/// The views of help rows.
pub open spec fn help_models(rows: Seq<(String, Action)>) -> Seq<(Seq<char>, Action)> {
    rows.map_values(|r: (String, Action)| (r.0@, r.1))
}

fn insert_sorted(list: &mut Vec<String>, s: String)
    ensures
        texts(final(list)@) == put_sorted(texts(old(list)@), s@, 0),
{
    let ghost all = texts(list@);
    let mut i: usize = 0;
    while i < list.len()
        invariant
            i <= list@.len(),
            list@ == old(list)@,
            all == texts(list@),
            put_sorted(all, s@, 0) == put_sorted(all, s@, i as int),
        decreases list.len() - i,
    {
        assert(all[i as int] == list@[i as int]@);
        if comes_before(s.as_str(), list[i].as_str()) {
            let ghost text = s@;
            list.insert(i, s);
            assert(texts(list@) =~= all.insert(i as int, text));
            return ;
        }
        i += 1;
    }
    let ghost text = s@;
    list.push(s);
    assert(texts(list@) =~= all.push(text));
}

fn join_slashed(list: &Vec<String>) -> (out: String)
    ensures
        out@ == slashed(texts(list@)),
{
    let ghost all = texts(list@);
    let mut out = String::new();
    let mut k: usize = 0;
    assert(all.take(0).len() == 0);
    while k < list.len()
        invariant
            k <= list@.len(),
            all == texts(list@),
            out@ == slashed(all.take(k as int)),
        decreases list.len() - k,
    {
        let ghost before = out@;
        if k > 0 {
            out.append(" / ");
        }
        out.append(list[k].as_str());
        proof {
            let now = all.take(k + 1);
            assert(all[k as int] == list@[k as int]@);
            assert(now.drop_last() =~= all.take(k as int));
            assert(now.last() == all[k as int]);
            if k == 0 {
                assert(out@ =~= all[0]);
            } else {
                assert(out@ =~= before + " / "@ + all[k as int]);
            }
        }
        k += 1;
    }
    assert(all.take(k as int) =~= all);
    out
}

impl Keymap {
    fn chord_list(&self, action: Action) -> (list: Vec<String>)
        ensures
            texts(list@) == chord_texts(self@, action, self@.len() as int),
    {
        let mut list: Vec<String> = Vec::new();
        let mut n: usize = 0;
        assert(texts(list@) =~= Seq::<Seq<char>>::empty());
        while n < self.bindings.len()
            invariant
                n <= self.bindings@.len(),
                texts(list@) == chord_texts(self@, action, n as int),
            decreases self.bindings.len() - n,
        {
            if self.bindings[n].1 == action {
                insert_sorted(&mut list, self.bindings[n].0.display());
            }
            n += 1;
        }
        list
    }

    /// One chord of an action in words: the first in the order of texts.
    pub fn chord_hint(&self, action: Action) -> (hint: Option<String>)
        ensures
            ({
                let list = chord_texts(self@, action, self@.len() as int);
                match hint {
                    Some(h) => list.len() > 0 && h@ == list[0],
                    None => list.len() == 0,
                }
            }),
    {
        let list = self.chord_list(action);
        assert(texts(list@).len() == list@.len());
        if list.len() == 0 {
            None
        } else {
            assert(texts(list@)[0] == list@[0]@);
            Some(list[0].clone())
        }
    }

    /// The chords of every action that has any, in the order of the actions.
    pub fn help_rows(&self) -> (rows: Vec<(String, Action)>)
        ensures
            help_models(rows@) == help_for(self@, all_actions().len() as int),
    {
        let all = Action::all();
        let mut rows: Vec<(String, Action)> = Vec::new();
        let mut n: usize = 0;
        assert(help_models(rows@) =~= Seq::<(Seq<char>, Action)>::empty());
        while n < all.len()
            invariant
                n <= all@.len(),
                all@ == all_actions(),
                help_models(rows@) == help_for(self@, n as int),
            decreases all.len() - n,
        {
            let list = self.chord_list(all[n]);
            assert(texts(list@).len() == list@.len());
            if list.len() > 0 {
                let ghost before = rows@;
                let entry = (join_slashed(&list), all[n]);
                let ghost model = (entry.0@, entry.1);
                rows.push(entry);
                assert(help_models(rows@) =~= help_models(before).push(model));
            }
            n += 1;
        }
        rows
    }
}

// ---------------------------------------------------------------------------
// The configuration file
// ---------------------------------------------------------------------------

/// The configuration.
#[derive(Debug)]
pub struct Config {
    pub keys: Keymap,
}

/// The entries of a list as texts, where all of them are.
pub open spec fn all_texts(list: Seq<Option<Seq<char>>>, n: int) -> Option<Seq<Seq<char>>>
    decreases n,
{
    if n <= 0 {
        Some(Seq::empty())
    } else {
        match (all_texts(list, n - 1), list[n - 1]) {
            (Some(so_far), Some(s)) => Some(so_far.push(s)),
            _ => None,
        }
    }
}

/// The chords that an entry of the table gives.
pub open spec fn entry_specs(name: Seq<char>, item: ItemModel) -> Result<
    Seq<Seq<char>>,
    ErrorModel,
> {
    match item {
        ItemModel::Text(s) => Ok(seq![s]),
        ItemModel::List(list) => match all_texts(list, list.len() as int) {
            Some(specs) => Ok(specs),
            None => Err(ErrorModel::NotStrings { name }),
        },
        _ => Err(ErrorModel::NotAList { name }),
    }
}

/// The bindings that the first `n` entries of the table configure.
pub open spec fn entry_overrides(entries: Seq<(Seq<char>, ItemModel)>, n: int) -> Result<
    Seq<(Seq<char>, Seq<Seq<char>>)>,
    ErrorModel,
>
    decreases n,
{
    if n <= 0 {
        Ok(Seq::empty())
    } else {
        match entry_overrides(entries, n - 1) {
            Ok(so_far) => match entry_specs(entries[n - 1].0, entries[n - 1].1) {
                Ok(specs) => Ok(so_far.push((entries[n - 1].0, specs))),
                Err(e) => Err(e),
            },
            Err(e) => Err(e),
        }
    }
}

/// The bindings that the table `[keys]`, as it was read, gives.
pub open spec fn table_bindings(
    table: Result<Option<Seq<(Seq<char>, ItemModel)>>, Seq<char>>,
) -> Result<Seq<(Chord, Action)>, ErrorModel> {
    match table {
        Err(message) => Err(ErrorModel::NotToml { message }),
        Ok(None) => bindings_of(Seq::empty()),
        Ok(Some(entries)) => match entry_overrides(entries, entries.len() as int) {
            Ok(overrides) => bindings_of(overrides),
            Err(e) => Err(e),
        },
    }
}

/// A configuration, or why there is none.
pub open spec fn config_model(r: Result<Config, ConfigError>) -> Result<
    Seq<(Chord, Action)>,
    ErrorModel,
> {
    match r {
        Ok(c) => Ok(c.keys@),
        Err(e) => Err(e@),
    }
}

fn list_texts(list: &Vec<Option<String>>) -> (specs: Option<Vec<String>>)
    ensures
        ({
            let all = opt_texts(list@);
            match specs {
                Some(v) => all_texts(all, all.len() as int) == Some(texts(v@)),
                None => all_texts(all, all.len() as int) is None,
            }
        }),
{
    let ghost all = opt_texts(list@);
    let mut specs: Vec<String> = Vec::new();
    let mut n: usize = 0;
    assert(texts(specs@) =~= Seq::<Seq<char>>::empty());
    while n < list.len()
        invariant
            n <= list@.len(),
            all == opt_texts(list@),
            all_texts(all, n as int) == Some(texts(specs@)),
        decreases list.len() - n,
    {
        assert(all[n as int] == crate::model::opt_text(list@[n as int]));
        match &list[n] {
            Some(s) => {
                let ghost before = texts(specs@);
                specs.push(s.clone());
                assert(texts(specs@) =~= before.push(s@));
            },
            None => {
                proof {
                    lemma_missing_text(all, n + 1, all.len() as int);
                }
                return None;
            },
        }
        n += 1;
    }
    Some(specs)
}

proof fn lemma_missing_text(list: Seq<Option<Seq<char>>>, n: int, m: int)
    requires
        0 <= n <= m,
        all_texts(list, n) is None,
    ensures
        all_texts(list, m) is None,
    decreases m - n,
{
    if n < m {
        lemma_missing_text(list, n, m - 1);
    }
}

proof fn lemma_bad_entry(entries: Seq<(Seq<char>, ItemModel)>, n: int, m: int)
    requires
        0 <= n <= m,
        entry_overrides(entries, n) is Err,
    ensures
        entry_overrides(entries, m) == entry_overrides(entries, n),
    decreases m - n,
{
    if n < m {
        lemma_bad_entry(entries, n, m - 1);
    }
}

fn read_entry(name: &String, item: &TomlItem) -> (specs: Result<Vec<String>, ConfigError>)
    ensures
        match specs {
            Ok(v) => entry_specs(name@, item@) == Ok::<Seq<Seq<char>>, ErrorModel>(texts(v@)),
            Err(e) => entry_specs(name@, item@) == Err::<Seq<Seq<char>>, ErrorModel>(e@),
        },
{
    match item {
        TomlItem::Text(s) => {
            let mut one: Vec<String> = Vec::new();
            one.push(s.clone());
            assert(texts(one@) =~= seq![s@]);
            Ok(one)
        },
        TomlItem::List(list) => match list_texts(list) {
            Some(specs) => Ok(specs),
            None => Err(ConfigError::NotStrings { name: name.clone() }),
        },
        TomlItem::Other => Err(ConfigError::NotAList { name: name.clone() }),
    }
}

impl Config {
    /// The configuration that the table `[keys]`, as it was read, gives.
    pub fn from_table(
        table: Result<Option<Vec<(String, TomlItem)>>, String>,
    ) -> (config: Result<Config, ConfigError>)
        ensures
            config_model(config) == table_bindings(table_model(table)),
    {
        let ghost read = table_model(table);
        let entries = match table {
            Err(message) => {
                return Err(ConfigError::NotToml { message });
            },
            Ok(None) => Vec::new(),
            Ok(Some(entries)) => entries,
        };
        let ghost all = entry_models(entries@);
        let mut overrides: Vec<(String, Vec<String>)> = Vec::new();
        let mut n: usize = 0;
        assert(override_models(overrides@) =~= Seq::<(Seq<char>, Seq<Seq<char>>)>::empty());
        assert(all.len() == entries@.len());
        while n < entries.len()
            invariant
                n <= entries@.len(),
                all == entry_models(entries@),
                all.len() == entries@.len(),
                read == Ok::<Option<Seq<(Seq<char>, ItemModel)>>, Seq<char>>(Some(all)) || (read
                    == Ok::<Option<Seq<(Seq<char>, ItemModel)>>, Seq<char>>(None) && all.len()
                    == 0),
                read == table_model(table),
                entry_overrides(all, n as int) == Ok::<
                    Seq<(Seq<char>, Seq<Seq<char>>)>,
                    ErrorModel,
                >(override_models(overrides@)),
            decreases entries.len() - n,
        {
            let entry = &entries[n];
            assert(all[n as int] == (entry.0@, entry.1@));
            match read_entry(&entry.0, &entry.1) {
                Ok(specs) => {
                    let ghost before = override_models(overrides@);
                    let ghost model = (entry.0@, texts(specs@));
                    overrides.push((entry.0.clone(), specs));
                    assert(override_models(overrides@) =~= before.push(model));
                },
                Err(e) => {
                    proof {
                        lemma_bad_entry(all, n + 1, all.len() as int);
                    }
                    return Err(e);
                },
            }
            n += 1;
        }
        match Keymap::build(&overrides) {
            Ok(keys) => Ok(Config { keys }),
            Err(e) => Err(e),
        }
    }

    /// The configuration in a file with this text.
    pub fn parse(text: &str) -> (config: Result<Config, ConfigError>)
        ensures
            config_model(config) == table_bindings(entries_under(toml_document(text@), "keys"@)),
    {
        Config::from_table(read_table(text, "keys"))
    }

    /// The configuration in the file that was read, or the default one where
    /// there is none.
    pub fn load(text: Option<&str>) -> (config: Result<Config, ConfigError>)
        ensures
            config_model(config) == match text {
                Some(t) => table_bindings(entries_under(toml_document(t@), "keys"@)),
                None => bindings_of(Seq::empty()),
            },
    {
        match text {
            Some(t) => Config::parse(t),
            None => Config::from_table(Ok(None)),
        }
    }
}

// ---------------------------------------------------------------------------
// Laws
// ---------------------------------------------------------------------------

/// No chord is bound twice.
pub open spec fn chords_unique(bindings: Seq<(Chord, Action)>) -> bool {
    forall|i: int, j: int|
        0 <= i < j < bindings.len() ==> (#[trigger] bindings[i]).0 != (#[trigger] bindings[j]).0
}

proof fn lemma_bound(bindings: Seq<(Chord, Action)>, chord: Chord, i: int)
    requires
        0 <= i <= bindings.len(),
    ensures
        bound(bindings, chord, i) is None ==> forall|k: int|
            i <= k < bindings.len() ==> (#[trigger] bindings[k]).0 != chord,
        bound(bindings, chord, i) matches Some(a) ==> exists|k: int|
            i <= k < bindings.len() && #[trigger] bindings[k] == (chord, a),
    decreases bindings.len() - i,
{
    if i < bindings.len() {
        if bindings[i].0 == chord {
            assert(bindings[i] == (chord, bindings[i].1));
        } else {
            lemma_bound(bindings, chord, i + 1);
        }
    }
}

proof fn lemma_bound_push(
    bindings: Seq<(Chord, Action)>,
    chord: Chord,
    action: Action,
    other: Chord,
    i: int,
)
    requires
        0 <= i <= bindings.len(),
    ensures
        bound(bindings.push((chord, action)), other, i) == match bound(bindings, other, i) {
            Some(a) => Some(a),
            None => if chord == other {
                Some(action)
            } else {
                None
            },
        },
    decreases bindings.len() - i,
{
    let after = bindings.push((chord, action));
    if i < bindings.len() {
        assert(after[i] == bindings[i]);
        if bindings[i].0 != other {
            lemma_bound_push(bindings, chord, action, other, i + 1);
        }
    } else {
        assert(after[i] == (chord, action));
        assert(bound(after, other, i + 1) is None);
    }
}

/// After the first `n` chords of an action: nothing is bound twice, what was
/// bound stays, those chords belong to the action, and nothing else is new.
proof fn lemma_with_chords(
    bindings: Seq<(Chord, Action)>,
    action: Action,
    chords: Seq<Chord>,
    n: int,
)
    requires
        0 <= n <= chords.len(),
        chords_unique(bindings),
        with_chords(bindings, action, chords, n) is Ok,
    ensures
        ({
            let after = with_chords(bindings, action, chords, n)->Ok_0;
            &&& chords_unique(after)
            &&& forall|c: Chord|
                bound(bindings, c, 0) is Some ==> #[trigger] bound(after, c, 0) == bound(
                    bindings,
                    c,
                    0,
                )
            &&& forall|k: int|
                0 <= k < n ==> bound(after, #[trigger] chords[k], 0) == Some(action)
            &&& forall|c: Chord|
                bound(bindings, c, 0) is None && #[trigger] bound(after, c, 0) is Some ==> bound(
                    after,
                    c,
                    0,
                ) == Some(action) && chords.contains(c)
        }),
    decreases n,
{
    if n > 0 {
        lemma_with_chords(bindings, action, chords, n - 1);
        let before = with_chords(bindings, action, chords, n - 1)->Ok_0;
        let after = with_chords(bindings, action, chords, n)->Ok_0;
        let chord = chords[n - 1];
        lemma_bound(before, chord, 0);
        if bound(before, chord, 0) is None {
            assert(after == before.push((chord, action)));
            assert forall|c: Chord| #[trigger] bound(after, c, 0) == match bound(before, c, 0) {
                Some(a) => Some(a),
                None => if chord == c {
                    Some(action)
                } else {
                    None
                },
            } by {
                lemma_bound_push(before, chord, action, c, 0);
            }
            assert(chords.contains(chord));
            assert forall|k: int| 0 <= k < n implies bound(after, #[trigger] chords[k], 0) == Some(
                action,
            ) by {
                if k < n - 1 {
                    assert(bound(before, chords[k], 0) == Some(action));
                }
            }
        } else {
            assert(after == before);
        }
    }
}

/// The first `n` actions were bound: every chord has one action, and it is
/// bound to an action exactly where it is one of its chords.
proof fn lemma_with_actions(overrides: Seq<(Seq<char>, Seq<Seq<char>>)>, n: int)
    requires
        0 <= n <= all_actions().len(),
        with_actions(overrides, n) is Ok,
    ensures
        ({
            let after = with_actions(overrides, n)->Ok_0;
            &&& chords_unique(after)
            &&& forall|k: int, c: Chord|
                0 <= k < n && (#[trigger] chords_for(overrides, all_actions()[k])).contains(c)
                    ==> #[trigger] bound(after, c, 0) == Some(all_actions()[k])
            &&& forall|c: Chord|
                #[trigger] bound(after, c, 0) matches Some(a) ==> chords_for(overrides, a).contains(
                    c,
                )
        }),
    decreases n,
{
    if n > 0 {
        lemma_with_actions(overrides, n - 1);
        let before = with_actions(overrides, n - 1)->Ok_0;
        let action = all_actions()[n - 1];
        let chords = chords_for(overrides, action);
        lemma_with_chords(before, action, chords, chords.len() as int);
        let after = with_actions(overrides, n)->Ok_0;
        assert forall|k: int, c: Chord|
            0 <= k < n && (#[trigger] chords_for(overrides, all_actions()[k])).contains(
                c,
            ) implies #[trigger] bound(after, c, 0) == Some(all_actions()[k]) by {
            if k < n - 1 {
                assert(bound(before, c, 0) == Some(all_actions()[k]));
            } else {
                let m = choose|m: int| 0 <= m < chords.len() && chords[m] == c;
                assert(bound(after, chords[m], 0) == Some(action));
            }
        }
        assert forall|c: Chord|
            #[trigger] bound(after, c, 0) matches Some(a) ==> chords_for(overrides, a).contains(
                c,
            ) by {
            if bound(before, c, 0) is Some {
                assert(bound(after, c, 0) == bound(before, c, 0));
            }
        }
    }
}

/// In a keymap no chord has two actions, and a chord is bound to an action
/// exactly where it is one of the chords of that action. So an action that
/// the configuration names loses the keys it had.
pub proof fn law_one_action_per_chord(overrides: Seq<(Seq<char>, Seq<Seq<char>>)>)
    requires
        bindings_of(overrides) is Ok,
    ensures
        ({
            let keymap = bindings_of(overrides)->Ok_0;
            &&& chords_unique(keymap)
            &&& forall|k: int, c: Chord|
                0 <= k < all_actions().len() ==> (bound(keymap, c, 0) == Some(all_actions()[k])
                    <==> #[trigger] chords_for(overrides, all_actions()[k]).contains(c))
        }),
{
    lemma_with_actions(overrides, all_actions().len() as int);
    let keymap = bindings_of(overrides)->Ok_0;
    assert forall|k: int, c: Chord| 0 <= k < all_actions().len() implies (bound(keymap, c, 0)
        == Some(all_actions()[k]) <==> #[trigger] chords_for(
        overrides,
        all_actions()[k],
    ).contains(c)) by {}
}

/// A chord that two actions share is an error.
pub proof fn law_a_shared_chord_is_an_error(
    overrides: Seq<(Seq<char>, Seq<Seq<char>>)>,
    a: int,
    b: int,
    chord: Chord,
)
    requires
        0 <= a < all_actions().len(),
        0 <= b < all_actions().len(),
        all_actions()[a] != all_actions()[b],
        chords_for(overrides, all_actions()[a]).contains(chord),
        chords_for(overrides, all_actions()[b]).contains(chord),
    ensures
        bindings_of(overrides) is Err,
{
    if bindings_of(overrides) is Ok {
        law_one_action_per_chord(overrides);
        let keymap = bindings_of(overrides)->Ok_0;
        assert(bound(keymap, chord, 0) == Some(all_actions()[a]));
        assert(bound(keymap, chord, 0) == Some(all_actions()[b]));
    }
}

} // verus!
