use garage::app::scripts::{script_fits, script_places, SCRIPT_LIMIT};
use garage::app::output::{copy_route, Route};
use garage::app::{App, Pane, Request};
use garage::config::Keymap;
use garage::diff::canon::canonicalize;
use garage::diff::side::SideInput;
use garage::diff::{diff_phases, RowStatus, Summary};
use garage::document::{read_table, TomlItem};
use garage::event::{Event, InputEvent, SourceEvent};
use garage::index::{label_from, shows_nothing, TraceIndex};
use garage::keys::{KeyCode, KeyEvent, KeyModifiers};
use garage::markers::{MarkerTable, VersionVotes};
use garage::model::{Addr, LineInfo, Tier};
use garage::parse::compilation::parse_compilation;
use garage::parse::intern::Interner;
use garage::parse::turbofan::{
    classify_instructions, classify_schedule, classify_sea, classify_turboshaft,
};
use garage::source::{LogBuffer, LogSource};
use garage::survey::{parse, parse_bytes, Tally};
use garage::text::text_between;
use garage::ui::bars::{telemetry_bar, Tone};
use garage::ui::frame::first_entry;
use garage::view::{model_rows, FoldSet, RowKind};
use std::sync::Arc;

fn indexed(trace: &str) -> (LogBuffer, TraceIndex) {
    let mut buffer = LogBuffer::new();
    buffer.append(trace.as_bytes());
    buffer.finish();
    let mut index = TraceIndex::new(None);
    index.ingest(&buffer, true);
    (buffer, index)
}

fn names(list: &[&str]) -> Vec<String> {
    list.iter().map(|s| s.to_string()).collect()
}

fn texts(list: &[&str]) -> TomlItem {
    TomlItem::List(list.iter().map(|s| Some(s.to_string())).collect())
}

const GRAPH: &str = "\
Compiling 0x1 <JSFunction f (sfi = 0x10)> with Maglev
a note before the first phase

----- Maglev graph building -----
 Block b0
   1: Foo
        ↱ eager @0 (2 live vars)
   2: Bar [n1]
   regalloc trace line
   more of it
 Block b1
   3: Foo [n2]
        ↳ lazy @4 (1 live vars)
----- Phi untagging -----
 Block b0
   1: Foo
";

#[test]
fn a_summary_leaves_zeros_out() {
    let none = Summary::default();
    assert_eq!(none.describe(), "no changes");
    assert_eq!(Summary { lines_added: 4, ..none }.describe(), "+4 lines");
    assert_eq!(Summary { lines_deleted: 2, ..none }.describe(), "−2 lines");
    assert_eq!(
        Summary { lines_added: 4, lines_deleted: 4, ..none }.describe(),
        "+4 −4 lines"
    );
    assert_eq!(
        Summary { nodes_deleted: 1, nodes_moved: 2, lines_deleted: 3, ..none }.describe(),
        "−1 ≈2 nodes · −3 lines"
    );
}

#[test]
fn a_raw_section_is_called_by_its_first_line_that_shows_something() {
    let (_, index) = indexed("   \nhello\n");
    assert_eq!(index.raw[0].lines, 0..2);
    assert_eq!(index.raw[0].label, "hello");
    let (_, index) = indexed("\n\t\n\u{1b}[0m\u{2003}\n  indented\nmore\n");
    assert_eq!(index.raw[0].label, "  indented");
    let (_, index) = indexed("  \n \n");
    assert_eq!(index.raw[0].lines, 0..2);
    assert_eq!(index.raw[0].label, "");
    assert!(shows_nothing(b" \t\x1b[1m "));
    assert!(!shows_nothing(b" x"));
    assert!(!shows_nothing(b"\x07"));
    assert_eq!(label_from(b"\x1b[1mbold\x1b[0m"), "bold");
}

#[test]
fn every_grammar_passes_over_trailing_space() {
    let mut interner = Interner::new();
    let mut last = None;
    assert!(matches!(classify_sea(b"   ", &mut interner, &mut last), LineInfo::Control));
    assert!(matches!(classify_schedule(b"   ", &mut interner, &mut last), LineInfo::Control));
    assert!(matches!(classify_turboshaft(b" \t ", &mut interner, &mut last), LineInfo::Control));
    assert!(matches!(classify_instructions(b"   ", &mut interner, &mut last), LineInfo::Control));
    assert!(matches!(
        classify_schedule(b"-----  \t", &mut interner, &mut last),
        LineInfo::Control
    ));
    match classify_sea(b"#7:Start()  ", &mut interner, &mut last) {
        LineInfo::Node(node) => assert_eq!(node.id, 7),
        other => panic!("expected a node, got {other:?}"),
    }
    assert_eq!(last, Some(7));
    assert_eq!(interner.opcodes, names(&["Start"]));
}

#[test]
fn a_text_is_copied_out_as_it_is() {
    assert_eq!(text_between("aφb→c".as_bytes(), 1, 7), "φb→");
}

#[test]
fn a_phase_beside_itself_shows_no_change() {
    let (buffer, index) = indexed(GRAPH);
    let section = &index.compilations[0];
    let parsed = Arc::new(parse_compilation(&buffer, section));
    let side = || SideInput {
        buffer: &buffer,
        parsed: &parsed,
        section,
        phase: 0,
        comp_id: (0, 0),
    };
    let model = diff_phases(&side(), &side());
    assert!(!model.rows.is_empty());
    assert_eq!(model.summary, Summary::default());
    for (k, row) in model.rows.iter().enumerate() {
        assert_eq!((row.left, row.right), (Some(k), Some(k)));
        assert_eq!(row.status, RowStatus::Same);
    }
    let other = SideInput { comp_id: (0, 1), ..side() };
    let across = diff_phases(&side(), &other);
    assert_eq!(across.summary, Summary::default());
    assert!(across.rows.iter().all(|r| r.status == RowStatus::Same));
}

#[test]
fn the_earliest_of_the_most_named_versions_is_detected() {
    let mut votes = VersionVotes::default();
    assert_eq!(votes.detected(), None);
    votes.record(&names(&["15.2"]));
    votes.record(&names(&["14.9"]));
    assert_eq!(votes.detected(), Some("14.9"));
    let mut turned = VersionVotes::default();
    turned.record(&names(&["14.9", "15.2"]));
    assert_eq!(turned.detected(), Some("14.9"));
    turned.record(&names(&["15.2"]));
    assert_eq!(turned.detected(), Some("15.2"));
    let mut prefix = VersionVotes::default();
    prefix.record(&names(&["15.20", "15.2"]));
    assert_eq!(prefix.detected(), Some("15.2"));
}

#[test]
fn versions_are_read_from_their_tables() {
    let table = MarkerTable::from_versions(&vec![
        ("1".to_string(), Some(vec![("phases".to_string(), texts(&["A", "B"]))])),
        ("2".to_string(), None),
        ("3".to_string(), Some(vec![("phases".to_string(), texts(&["B"]))])),
        ("4".to_string(), Some(vec![("other".to_string(), texts(&["A"]))])),
        ("5".to_string(), Some(vec![("phases".to_string(), TomlItem::Text("A".to_string()))])),
    ]);
    assert_eq!(*table.phase_versions("A").unwrap(), names(&["1"]));
    assert_eq!(*table.phase_versions("B").unwrap(), names(&["1", "3"]));
    assert!(table.phase_versions("C").is_none());
    let read = MarkerTable::parse(
        "[maglev]\nx = 1\n[maglev.\"1\"]\nphases = [\"A\", 7, \"B\"]\n[maglev.\"3\"]\nphases = [\"B\"]\n",
    );
    assert_eq!(*read.phase_versions("A").unwrap(), names(&["1"]));
    assert_eq!(*read.phase_versions("B").unwrap(), names(&["1", "3"]));
    assert!(MarkerTable::parse("not toml").phase_versions("A").is_none());
    assert!(MarkerTable::parse("maglev = 3").phase_versions("A").is_none());
}

#[test]
fn a_table_is_read_under_its_key() {
    let doc = "[keys]\nquit = \"q\"\nhelp = [\"h\", 1]\nsub = { a = 1 }\nn = 3\n";
    let entries = read_table(doc, "keys").unwrap().unwrap();
    assert_eq!(entries.len(), 4);
    for (key, item) in &entries {
        match (key.as_str(), item) {
            ("quit", TomlItem::Text(s)) => assert_eq!(s, "q"),
            ("help", TomlItem::List(list)) => {
                assert_eq!(*list, vec![Some("h".to_string()), None])
            }
            ("sub", TomlItem::Other) | ("n", TomlItem::Other) => {}
            other => panic!("unexpected entry {other:?}"),
        }
    }
    assert!(read_table(doc, "quit").unwrap().is_none());
    assert!(read_table("keys = 1", "keys").unwrap().is_none());
    assert!(read_table("", "keys").unwrap().is_none());
    assert!(read_table("= =", "keys").is_err());
}

#[test]
fn lines_that_differ_in_an_address_alone_are_canonically_the_same() {
    for (a, b) in [("", ""), ("(addr:", ")"), ("│  ", " x"), ("n1 [", ", 0x2]")] {
        let first = canonicalize(&format!("{a}0x1{b}"));
        assert_eq!(first, canonicalize(&format!("{a}0xDEADbeef00{b}")));
        assert!(first.contains("0x·"));
    }
    assert_ne!(canonicalize("10x1"), canonicalize("10x2"));
}

#[test]
fn lines_that_differ_in_a_timing_alone_are_canonically_the_same() {
    for (a, b) in [("", ""), ("took ", " ms"), ("- took 0.1, ", ", 2.5 ms")] {
        assert_eq!(
            canonicalize(&format!("{a}0.000{b}")),
            canonicalize(&format!("{a}12.5{b}"))
        );
    }
    assert_eq!(canonicalize("took 1.110 ms"), "took · ms");
    assert_ne!(canonicalize("took 1 ms"), canonicalize("took 2 ms"));
}

#[test]
fn a_canonical_line_is_canonical() {
    for line in [
        "  │ 12: Foo [n9] 0x12 1.50 2 uses",
        "10x3 1.2.3 0x 0xg 4. .5",
        "[ML:12] took 0.5 ms at 0xff",
        "[MX:12] took 0.5 ms",
        "",
    ] {
        let once = canonicalize(line);
        assert_eq!(canonicalize(&once), once);
    }
    assert_eq!(canonicalize("[ML:1]   x"), "  x");
    assert_eq!(canonicalize("  x"), "x");
}

#[test]
fn an_address_is_read_in_any_spelling() {
    for n in [0, 9, 10, 255, 0x9b80101e2cd, u64::MAX] {
        let a = Addr(n);
        assert_eq!(Addr::parse(&a.to_text()), Some(a));
        assert_eq!(Addr::parse(&format!("0x0000000000{n:x}")), Some(a));
        assert_eq!(Addr::parse(&format!("{n:X}")), Some(a));
        assert_eq!(Addr::parse(&format!("000{n:X}")), Some(a));
    }
    assert_eq!(Addr(0xab).to_text(), "0xab");
    assert_eq!(Addr::parse("0x10000000000000000"), None);
    assert_eq!(Addr::parse("0x"), None);
}

#[test]
fn a_tier_is_named_by_its_label_and_in_any_case() {
    for word in [
        "ignition", "SparkPlug", "baseline", "MAGLEV", "turbofan_js", "Turbofan", "tUrBoLeV",
        "Weird→", "",
    ] {
        let tier = Tier::parse(word);
        assert_eq!(Tier::parse(tier.label()), tier);
        if tier != Tier::Other(word.to_string()) {
            assert_eq!(Tier::parse(&word.to_ascii_uppercase()), tier);
            assert_eq!(Tier::parse(&word.to_ascii_lowercase()), tier);
        }
    }
    assert_eq!(Tier::parse("Weird→"), Tier::Other("Weird→".to_string()));
    assert_eq!(Tier::parse("baseline"), Tier::Sparkplug);
}

#[test]
fn rows_follow_the_lines() {
    let (buffer, index) = indexed(GRAPH);
    let section = &index.compilations[0];
    let parsed = parse_compilation(&buffer, section);
    let mut folded = FoldSet::new();
    folded.insert((0, 0, 0, 0));
    for (folds, shown) in [(FoldSet::new(), true), (FoldSet::new(), false), (folded, false)] {
        let rows = model_rows(
            &parsed,
            section,
            &section.lines,
            0,
            0,
            &folds,
            shown,
            &buffer,
            None,
        );
        assert!(rows.len() > 3);
        assert!(rows.windows(2).all(|w| w[0].line < w[1].line), "{rows:?}");
        if shown {
            assert!(rows.iter().all(|r| r.kind == RowKind::Text));
        }
    }
}

#[test]
fn a_parse_names_what_its_tables_hold() {
    let (buffer, index) = indexed(GRAPH);
    let section = &index.compilations[0];
    let parsed = parse_compilation(&buffer, section);
    assert_eq!(parsed.opcodes, names(&["Foo", "Bar"]));
    assert_eq!(parsed.frames.len(), 2);
    assert_eq!(parsed.preamble.len(), section.preamble.len());
    let mut nodes = 0;
    let mut frames = 0;
    for info in parsed.phases.iter().flat_map(|p| &p.infos) {
        match info {
            LineInfo::Node(node) => {
                nodes += 1;
                assert!((node.opcode as usize) < parsed.opcodes.len());
            }
            LineInfo::Frame { frame, .. } => {
                frames += 1;
                assert!((*frame as usize) < parsed.frames.len());
            }
            _ => {}
        }
    }
    assert_eq!((nodes, frames), (4, 2));
}

#[test]
fn the_selected_entry_of_a_list_is_on_the_screen() {
    assert_eq!(first_entry(0, 5), 0);
    assert_eq!(first_entry(4, 5), 0);
    assert_eq!(first_entry(5, 5), 1);
    assert_eq!(first_entry(9, 1), 9);
    assert_eq!(first_entry(3, 0), 3);
}

#[test]
fn tallies_are_added_and_ranked() {
    let mut all = Tally::new();
    let mut one = Tally::new();
    for word in ["b", "a", "c", "a", "b"] {
        one.count(word.to_string());
    }
    all.merge(&one);
    let mut two = Tally::new();
    two.count("c".to_string());
    two.count("d".to_string());
    all.merge(&two);
    assert_eq!((all.get("a"), all.get("c"), all.get("d"), all.get("x")), (2, 2, 1, 0));
    let ranking: Vec<(String, usize)> = all.ranking();
    let expected = [("a", 2), ("b", 2), ("c", 2), ("d", 1)];
    assert_eq!(
        ranking,
        expected.map(|(word, n)| (word.to_string(), n)).to_vec()
    );
    assert!(Tally::new().ranking().is_empty());
}

#[test]
fn a_script_is_looked_for_around_its_trace() {
    let place = |dir: Option<&str>, name: &str| (dir.map(str::to_string), name.to_string());
    assert_eq!(
        script_places("js/a.js", Some("a.js"), Some("run/logs"), Some("run")),
        vec![
            place(None, "js/a.js"),
            place(Some("run/logs"), "js/a.js"),
            place(Some("run"), "js/a.js"),
            place(Some("run/logs"), "a.js"),
        ]
    );
    assert_eq!(
        script_places("..", None, Some(""), None),
        vec![place(None, ".."), place(Some(""), "..")]
    );
    assert_eq!(
        script_places("a.js", Some("a.js"), None, None),
        vec![place(None, "a.js")]
    );
    assert!(script_fits("x"));
    assert!(script_fits(&"x".repeat(SCRIPT_LIMIT)));
    assert!(!script_fits(&"x".repeat(SCRIPT_LIMIT + 1)));
}

#[test]
fn the_source_pane_follows_the_cursor_unless_it_has_the_focus() {
    let mut app = App::new(&[LogSource::Stdin], None, Keymap::build(&Vec::new()).unwrap());
    let trace = "\
Compiling 0x1 <JSFunction f (sfi = 0x10)> with Maglev
----- Bytecode array -----
    0 S> 0x100 @    0 : 0b 03             Ldar a0
   40 S> 0x102 @    2 : 46 03 00          MulSmi [3], [0]
----- Maglev graph building -----
0x10 <SharedFunctionInfo f> (0x2 <String[6]: \"add.js\">:1:10)
   1: Foo
";
    app.handle(Event::Source(SourceEvent::Chunk {
        source: 0,
        bytes: trace.as_bytes().to_vec(),
    }));
    app.handle(Event::Source(SourceEvent::Eof { source: 0 }));
    app.follow = false;
    app.selected = 0;
    app.focus = Pane::Viewport;
    assert_eq!(app.source_mark(), None);
    app.clamp_source(3);
    app.handle(Event::Input(InputEvent::Key(KeyEvent::new(
        KeyCode::Char('S'),
        KeyModifiers::none(),
    ))));
    match app.take_request() {
        Some(Request::Script { comp, .. }) => {
            let script = "xxx\n".repeat(20);
            app.script_read(comp, Some(("add.js".to_string(), script)));
        }
        other => panic!("expected a script request, got {other:?}"),
    }
    app.focus = Pane::Viewport;
    app.cursor = 3;
    assert_eq!(app.source_mark(), Some(10));
    app.clamp_source(5);
    assert_eq!(app.source_pane.as_ref().unwrap().top, 8);
    app.focus = Pane::Source;
    app.source_pane.as_mut().unwrap().cursor = 99;
    app.clamp_source(5);
    let pane = app.source_pane.as_ref().unwrap();
    assert_eq!((pane.cursor, pane.top), (19, 15));
    assert_eq!(app.source_mark(), Some(19));
    app.cursor = 9;
    app.top = 9;
    app.other_view.cursor = 4;
    let other = app.clamp_viewport(false, 3, 2);
    assert_eq!((other.cursor, other.top), (2, 1));
    assert_eq!(app.other_view, other);
    assert_eq!((app.cursor, app.top), (9, 9));
    let own = app.clamp_viewport(true, 7, 10);
    assert_eq!((own.cursor, own.top), (6, 0));
    assert_eq!((app.cursor, app.top), (6, 0));
}

#[test]
fn a_compile_start_is_bound_to_one_compilation() {
    let (_, index) = indexed(
        "\
[compiling method 0x1 <JSFunction hot (sfi = 0x10)> (target MAGLEV) OSR, mode: ConcurrencyMode::kSynchronous]
Compiling 0x1 <JSFunction hot (sfi = 0x10)> with Maglev
----- Maglev graph building -----
Compiling 0x1 <JSFunction hot (sfi = 0x10)> with Maglev
----- Maglev graph building -----
",
    );
    assert!(index.compilations[0].osr.is_some());
    assert!(index.compilations[1].osr.is_none());
}

fn two_runs(first: &str, second: &str) -> App {
    let keys = Keymap::build(&Vec::new()).unwrap();
    let mut app = App::new(&[LogSource::Stdin, LogSource::Stdin], None, keys);
    for (source, trace) in [first, second].iter().enumerate() {
        app.handle(Event::Source(SourceEvent::Chunk {
            source,
            bytes: trace.as_bytes().to_vec(),
        }));
        app.handle(Event::Source(SourceEvent::Eof { source }));
    }
    app.follow = false;
    app.active = 0;
    app.selected = 0;
    app
}

fn press(app: &mut App, code: KeyCode) {
    app.handle(Event::Input(InputEvent::Key(KeyEvent::new(
        code,
        KeyModifiers::none(),
    ))));
}

fn compared(app: &mut App) -> (Option<usize>, Option<usize>) {
    press(app, KeyCode::Char('D'));
    assert!(app.diff, "{}", app.status);
    let model = app.diff_model().unwrap();
    let lines = (
        model.left.rows.first().map(|r| r.line),
        model.right.rows.first().map(|r| r.line),
    );
    press(app, KeyCode::Char('d'));
    lines
}

#[test]
fn two_runs_are_compared_by_the_picked_phase_or_by_their_last() {
    let own = "\
Compiling 0x1 <JSFunction f (sfi = 0x10)> with Maglev
----- Maglev graph building -----
   1: Foo
----- Phi untagging -----
   1: Foo
";
    let other = "\
Compiling 0x9 <JSFunction f (sfi = 0x90)> with Maglev
----- Phi untagging -----
   1: Foo
----- Register allocation -----
   1: Foo
";
    let mut app = two_runs(own, other);
    app.focus = Pane::Viewport;
    assert_eq!(compared(&mut app), (Some(3), Some(3)));
    app.focus = Pane::Sidebar;
    app.selected = 0;
    press(&mut app, KeyCode::Enter);
    app.selected = 2;
    assert_eq!(compared(&mut app), (Some(1), Some(3)));
    app.selected = 1;
    assert_eq!(compared(&mut app), (Some(3), Some(3)));
}

#[test]
fn the_bar_shows_every_run() {
    let first = "\
Compiling 0x1 <JSFunction f (sfi = 0x10)> with Maglev
----- Maglev graph building -----
   1: Foo
";
    let second = "\
Compiling 0x1 <JSFunction f (sfi = 0x10)> with Turbofan
Compiling 0x1 <JSFunction g (sfi = 0x20)> with Maglev
";
    let mut app = two_runs(first, second);
    app.active = 1;
    let parts = telemetry_bar(&app);
    let shown: Vec<&str> = parts.iter().map(|p| p.1.as_str()).collect();
    assert_eq!(
        shown[..8],
        [
            " garage ",
            "<stdin>",
            " ok ",
            " 1 compilations (1 Maglev) · V8 15.2",
            "  │ ",
            "<stdin>",
            " ok ",
            " 2 compilations (1 Maglev, 1 Turbofan)",
        ]
    );
    assert_eq!(parts.len(), 9);
    assert!(parts[8].1.starts_with("  [2/2 "));
    assert_eq!((parts[1].0, parts[5].0), (Tone::Plain, Tone::Accent));
}

const OBJECT: &str = "\
kind = MAGLEV
name = f
Instructions (size = 8)
0x200    0  aa  ret
";

fn phase_names(index: &TraceIndex, k: usize) -> Vec<&str> {
    index.compilations[k].phases.iter().map(|p| p.name.as_str()).collect()
}

#[test]
fn a_bare_code_object_joins_its_pipeline() {
    let pipeline = "\
Compiling 0x1 <JSFunction f (sfi = 0x10)> with Maglev
----- Maglev graph building -----
   1: Foo
Finished compiling method f using Maglev
";
    let (_, banner) = indexed(&format!("{pipeline}--- Optimized code ---\n{OBJECT}"));
    for head in ["0x9b8: [Code]", "0x9B8: [Code] in OldSpace", "\u{1b}[1m0x1: [Code]\u{1b}[0m"] {
        let (_, index) = indexed(&format!("{pipeline}{head}\n{OBJECT}"));
        assert_eq!(index.compilations.len(), 1);
        assert_eq!(index.compilations[0].lines, 0..9);
        assert_eq!(
            phase_names(&index, 0),
            ["Maglev graph building", "Optimized code", "Instructions"]
        );
        assert_eq!(phase_names(&index, 0), phase_names(&banner, 0));
        assert!(index.raw.is_empty());
    }
    let (_, index) = indexed(&format!("{pipeline}noise\n0x9: [Code]\n{OBJECT}"));
    assert_eq!(index.compilations.len(), 2);
    assert_eq!(index.compilations[1].key.tier, Tier::Maglev);
    assert_eq!(index.compilations[1].key.ordinal, 1);
    let (_, index) = indexed(&format!(
        "{pipeline}0x9: [Code]\n{}",
        OBJECT.replace("name = f", "name = g")
    ));
    assert_eq!(index.compilations.len(), 2);
    assert_eq!(index.compilations[1].name, "g");
    for other in ["0x: [Code]", "0x9: [Codes]", " 0x9: [Code]", "0x9: [FixedArray]"] {
        let (_, index) = indexed(&format!("{pipeline}{other}\n"));
        assert_eq!(index.compilations.len(), 1);
        assert_eq!(index.raw.len(), 1);
    }
}

#[test]
fn bare_code_objects_stay_apart() {
    let second = OBJECT.replace("name = f", "name = g");
    let (_, index) = indexed(&format!(
        "0x1: [Code]\n{OBJECT}0x2: [Code]\n{second}--- Raw source ---\nx\n"
    ));
    assert_eq!(index.compilations.len(), 3);
    assert_eq!(index.compilations[0].name, "f");
    assert_eq!(index.compilations[0].lines, 0..5);
    assert_eq!(index.compilations[1].name, "g");
    assert_eq!(index.compilations[1].lines, 5..10);
    assert_eq!(phase_names(&index, 2), ["Raw source"]);
    let (_, index) = indexed(&format!("--- Raw source ---\n(a) {{}}\n0x1: [Code]\n{OBJECT}"));
    assert_eq!(index.compilations.len(), 1);
    assert_eq!(
        phase_names(&index, 0),
        ["Raw source", "Optimized code", "Instructions"]
    );
}

#[test]
fn a_copy_takes_the_terminal_where_nothing_else_reaches() {
    assert_eq!(copy_route(false, false), Route::Clipboard);
    assert_eq!(copy_route(false, true), Route::Terminal);
    assert_eq!(copy_route(true, false), Route::Terminal);
    assert_eq!(copy_route(true, true), Route::Terminal);
}

#[test]
fn a_survey_takes_bytes_that_are_no_text() {
    let mut bytes = GRAPH.as_bytes().to_vec();
    assert_eq!(
        parse_bytes(&bytes).compilations.len(),
        parse(GRAPH).compilations.len()
    );
    bytes.extend_from_slice(b"odd \xff line\n");
    let st = parse_bytes(&bytes);
    assert_eq!(st.compilations.len(), 1);
    assert_eq!(
        st.unclassified.counts,
        parse(&format!("{GRAPH}odd \u{fffd} line\n")).unclassified.counts
    );
}
