use garage::app::output::Route;
use garage::app::{App, CopyKind, Pane, Request, Row, SplitDir};
use garage::config::Keymap;
use garage::event::{Event, InputEvent, SourceEvent};
use garage::keys::{KeyCode, KeyEvent, KeyModifiers};
use garage::parse::maglev::record_inline_decision;
use garage::source::LogSource;
use garage::view::Lens;

fn app_with(trace: &str) -> App {
    let keys = Keymap::build(&Vec::new()).unwrap();
    let mut app = App::new(&[LogSource::Stdin], None, keys);
    app.handle(Event::Source(SourceEvent::Chunk {
        source: 0,
        bytes: trace.as_bytes().to_vec(),
    }));
    app.handle(Event::Source(SourceEvent::Eof { source: 0 }));
    app.follow = false;
    app
}

fn key(app: &mut App, c: char) {
    app.handle(Event::Input(InputEvent::Key(KeyEvent::new(
        KeyCode::Char(c),
        KeyModifiers::none(),
    ))));
}

fn ctrl(app: &mut App, c: char) {
    app.handle(Event::Input(InputEvent::Key(KeyEvent::new(
        KeyCode::Char(c),
        KeyModifiers::control(),
    ))));
}

fn cursor_line(app: &mut App) -> Option<usize> {
    let vm = app.view_model();
    vm.line_at(app.cursor)
}

const TRACE: &str = "\
warmup line
Compiling 0x1 <JSFunction f (sfi = 0x10)> with Maglev
----- Maglev graph building -----
 Block b0
   1: Foo
   2: Bar [n1]
 Block b1
   3: Baz [n2]
   regalloc trace line
   4: Quux [n1, n3]
";

fn viewing() -> App {
    let mut app = app_with(TRACE);
    app.selected = 1;
    app.focus = Pane::Viewport;
    app
}

#[test]
fn a_jump_reaches_every_line_of_the_section() {
    for line in 1..10 {
        let mut app = viewing();
        key(&mut app, 'z');
        app.lens = Some(Lens::Checks);
        app.goto_line(line);
        assert_eq!(cursor_line(&mut app), Some(line), "line {line}");
    }
}

#[test]
fn a_lens_gives_way_to_a_jump() {
    let mut app = viewing();
    app.lens = Some(Lens::Checks);
    app.goto_line(4);
    assert!(app.lens.is_none());
    assert_eq!(app.status, "lens cleared by jump");
}

#[test]
fn going_back_and_forward_are_inverse() {
    let mut app = viewing();
    app.goto_line(9);
    key(&mut app, 'i');
    let landed = cursor_line(&mut app);
    assert_eq!(landed, Some(4));
    ctrl(&mut app, 'o');
    assert_eq!(cursor_line(&mut app), Some(9));
    let mut again = viewing();
    again.goto_line(9);
    key(&mut again, 'i');
    ctrl(&mut again, 'o');
    ctrl(&mut again, 'i');
    assert_eq!(cursor_line(&mut again), landed);
}

#[test]
fn a_cycle_comes_round() {
    let mut app = viewing();
    app.goto_line(9);
    for expected in [4, 7, 4, 7] {
        key(&mut app, 'i');
        assert_eq!(cursor_line(&mut app), Some(expected));
    }
}

#[test]
fn folding_twice_changes_nothing() {
    let mut app = viewing();
    let before = app.view_model().len();
    app.goto_line(4);
    key(&mut app, ' ');
    assert!(app.view_model().len() < before);
    key(&mut app, ' ');
    assert_eq!(app.view_model().len(), before);
    key(&mut app, 'z');
    key(&mut app, 'z');
    assert_eq!(app.view_model().len(), before);
}

#[test]
fn the_key_that_splits_closes_the_split() {
    let mut app = viewing();
    let place = app.view_state();
    key(&mut app, 'v');
    assert_eq!(app.split, Some(SplitDir::Vertical));
    key(&mut app, 'v');
    assert_eq!(app.split, None);
    assert_eq!(app.view_state(), place);
}

#[test]
fn two_switches_of_panes_are_none() {
    let mut app = viewing();
    key(&mut app, 's');
    app.cursor = 3;
    let (here, there) = (app.view_state(), app.other_view);
    ctrl(&mut app, 'w');
    assert_eq!(app.view_state(), there);
    assert_eq!(app.other_view, here);
    ctrl(&mut app, 'w');
    assert_eq!(app.view_state(), here);
}

#[test]
fn each_list_keeps_its_row() {
    let mut app = app_with(TRACE);
    app.selected = 1;
    let tab = KeyEvent::new(KeyCode::Tab, KeyModifiers::none());
    app.handle(Event::Input(InputEvent::Key(tab)));
    assert!(app.timeline);
    app.handle(Event::Input(InputEvent::Key(tab)));
    assert!(!app.timeline);
    assert_eq!(app.selected, 1);
}

#[test]
fn a_selection_survives_growth() {
    let keys = Keymap::build(&Vec::new()).unwrap();
    let mut app = App::new(&[LogSource::Stdin], None, keys);
    app.follow = false;
    let feed = |app: &mut App, text: &str| {
        app.handle(Event::Source(SourceEvent::Chunk {
            source: 0,
            bytes: text.as_bytes().to_vec(),
        }));
    };
    feed(&mut app, TRACE);
    feed(&mut app, "Finished compiling method f\nx\n");
    app.selected = 1;
    assert_eq!(app.rows()[1], Row::Compilation(0));
    feed(
        &mut app,
        "Compiling 0x2 <JSFunction g (sfi = 0x20)> with Maglev\n----- A -----\ny\n",
    );
    assert_eq!(app.rows()[app.selected], Row::Compilation(0));
}

#[test]
fn a_line_is_copied_and_the_answer_is_told() {
    let mut app = viewing();
    app.goto_line(4);
    key(&mut app, 'y');
    match app.take_request() {
        Some(Request::Copy { kind, text }) => {
            assert_eq!(kind, CopyKind::Line);
            assert_eq!(text, "   1: Foo");
            app.copied(kind, Ok(Route::Terminal));
        }
        other => panic!("expected a copy, got {other:?}"),
    }
    assert!(app.status.contains("OSC 52"), "{}", app.status);
    app.copied(CopyKind::Section, Err("no display".to_string()));
    assert!(app.status.contains("no display"), "{}", app.status);
    assert!(app.take_request().is_none());
}

#[test]
fn a_section_is_exported_under_its_name() {
    let mut app = viewing();
    key(&mut app, 'E');
    for c in "out.md".chars() {
        key(&mut app, c);
    }
    app.handle(Event::Input(InputEvent::Key(KeyEvent::new(
        KeyCode::Enter,
        KeyModifiers::none(),
    ))));
    match app.take_request() {
        Some(Request::Export { path, text, lines }) => {
            assert_eq!(path, "out.md");
            assert!(text.contains("   1: Foo\n"), "{text}");
            app.exported(&path, lines, None);
            assert!(app.status.contains("out.md"), "{}", app.status);
            app.exported(&path, lines, Some("cannot write out.md".to_string()));
            assert!(app.status.contains("cannot write"), "{}", app.status);
        }
        other => panic!("expected an export, got {other:?}"),
    }
}

#[test]
fn a_decision_is_the_same_with_an_id_in_front() {
    let read = |line: &str| {
        let mut found = Vec::new();
        record_inline_decision(line.as_bytes(), 3, &mut found);
        found
            .into_iter()
            .map(|d| (d.line, d.inlined, d.callee, d.reason))
            .collect::<Vec<_>>()
    };
    let plain = read("⚡ INLINE add  small function");
    assert_eq!(plain.len(), 1);
    assert!(plain[0].1);
    assert_eq!(plain, read("[ML:38564] ⚡ INLINE add  small function"));
    let skipped = read("❌ SKIP big  too large");
    assert_eq!(skipped, read("[ML:1] ❌ SKIP big  too large"));
    assert!(read("nothing").is_empty());
}
