use garage::app::{App, Pane, PaneRect, Request, Row, SplitDir, SrcRef};
use garage::config::Keymap;
use garage::event::{Event, InputEvent, SourceEvent};
use garage::keys::{
    KeyCode, KeyEvent, KeyModifiers, MouseButton, MouseEvent, MouseEventKind,
};
use garage::source::LogSource;
use garage::view::{Lens, RowKind, ViewModel};


fn app_with(trace: &str) -> App {
    let sources = vec![LogSource::Stdin];
    let keys = Keymap::build(&Vec::new()).unwrap();
    let mut app = App::new(&sources, None, keys);
    app.handle(Event::Source(SourceEvent::Chunk {
        source: 0,
        bytes: trace.as_bytes().to_vec(),
    }));
    app.handle(Event::Source(SourceEvent::Eof { source: 0 }));
    app
}

fn key(app: &mut App, code: KeyCode) {
    app.handle(Event::Input(InputEvent::Key(KeyEvent::new(
        code,
        KeyModifiers::none(),
    ))));
}

fn ctrl(app: &mut App, c: char) {
    app.handle(Event::Input(InputEvent::Key(KeyEvent::new(
        KeyCode::Char(c),
        KeyModifiers::control(),
    ))));
}

fn answer_without_script(app: &mut App) {
    match app.take_request() {
        Some(Request::Script { script, trace, comp }) => {
            assert_eq!(script, "add.js");
            assert_eq!(trace, "<stdin>");
            app.script_read(comp, None);
        }
        other => panic!("expected a script request, got {other:?}"),
    }
}

const TRACE: &str = "\
warmup line
Compiling 0x1 <JSFunction f (sfi = 0x10)> with Maglev
----- Maglev graph building -----
 Block b0
   1: Foo
   2: Bar [n1]
 Block b1
   3: Baz [n2]
   regalloc trace line
   4: Quux [n1, n3]
Compiling 0x2 <JSFunction g (sfi = 0x20)> with Maglev
----- Maglev graph building -----
   5: Zap
";

#[test]
fn rows_interleave_raw_and_compilations_chronologically() {
    let app = app_with(TRACE);
    let rows = app.rows();
    assert_eq!(
        rows,
        vec![Row::Raw(0), Row::Compilation(0), Row::Compilation(1)]
    );
}

#[test]
fn compilation_view_models_and_folds_annotations() {
    let mut app = app_with(TRACE);
    app.follow = false;
    app.selected = 1;
    let vm = app.view_model();
    assert_eq!(vm.len(), 9);
    assert!(matches!(
        vm.row(7).unwrap().kind,
        RowKind::AnnotationFold { count: 1 }
    ));
    key(&mut app, KeyCode::Char('t'));
    let vm = app.view_model();
    assert_eq!(vm.len(), 9, "single annotation, same count");
    assert!(matches!(vm.row(7).unwrap().kind, RowKind::Text));
    assert!(app.show_annotations);
}

#[test]
fn space_folds_the_block_under_the_cursor() {
    let mut app = app_with(TRACE);
    app.follow = false;
    app.selected = 1;
    app.focus = Pane::Viewport;
    app.cursor = 4;
    key(&mut app, KeyCode::Char(' '));
    let vm = app.view_model();
    assert!(
        matches!(
            vm.row(2).unwrap().kind,
            RowKind::BlockFold {
                block: 0,
                hidden: 2
            }
        ),
        "b0 folded with its two nodes hidden"
    );
    assert_eq!(app.cursor, 2, "cursor landed on the fold marker");
    key(&mut app, KeyCode::Char(' '));
    assert_eq!(app.view_model().len(), 9, "unfolded again");
}

#[test]
fn search_moves_the_cursor_and_wraps() {
    let mut app = app_with(TRACE);
    app.follow = false;
    app.selected = 1;
    app.focus = Pane::Viewport;
    key(&mut app, KeyCode::Char('/'));
    for c in "Ba[rz]".chars() {
        key(&mut app, KeyCode::Char(c));
    }
    key(&mut app, KeyCode::Enter);
    let vm = app.view_model();
    assert_eq!(vm.line_at(app.cursor), Some(5), "first match: Bar");
    key(&mut app, KeyCode::Char('n'));
    let vm = app.view_model();
    assert_eq!(vm.line_at(app.cursor), Some(7), "next match: Baz");
    key(&mut app, KeyCode::Char('n'));
    let vm = app.view_model();
    assert_eq!(vm.line_at(app.cursor), Some(5), "wrapped");
}

#[test]
fn input_jump_and_consumer_cycle_with_history() {
    let mut app = app_with(TRACE);
    app.follow = false;
    app.selected = 1;
    app.focus = Pane::Viewport;
    app.cursor = 8;
    key(&mut app, KeyCode::Char('i'));
    let vm = app.view_model();
    assert_eq!(vm.line_at(app.cursor), Some(4), "def of n1 (first input)");
    key(&mut app, KeyCode::Char('i'));
    let vm = app.view_model();
    assert_eq!(vm.line_at(app.cursor), Some(7), "def of n3 (second input)");
    ctrl(&mut app, 'o');
    let vm = app.view_model();
    assert_eq!(vm.line_at(app.cursor), Some(4), "back to the first jump");
    ctrl(&mut app, 'o');
    let vm = app.view_model();
    assert_eq!(vm.line_at(app.cursor), Some(9), "back to the origin");
    key(&mut app, KeyCode::Char('g'));
    for _ in 0..3 {
        key(&mut app, KeyCode::Char('j'));
    }
    let vm = app.view_model();
    assert_eq!(vm.line_at(app.cursor), Some(4), "on `1: Foo`");
    key(&mut app, KeyCode::Char('u'));
    let vm = app.view_model();
    assert_eq!(vm.line_at(app.cursor), Some(5), "first consumer");
    key(&mut app, KeyCode::Char('u'));
    let vm = app.view_model();
    assert_eq!(
        vm.line_at(app.cursor),
        Some(9),
        "cycle stays anchored to n1"
    );
}

const BRANCH_TRACE: &str = "\
warmup line
Compiling 0x1 <JSFunction f (sfi = 0x10)> with Maglev
----- Maglev graph building -----
 Block b0
   1: Foo
   2: BranchIfRootConstant [n1] b1 b2
 Block b1
   3: Jump b2
 Block b2
   4: Return
";

#[test]
fn brackets_walk_blocks_and_enter_follows_edges() {
    let mut app = app_with(BRANCH_TRACE);
    app.follow = false;
    app.selected = 1;
    app.focus = Pane::Viewport;
    app.cursor = 0;
    for expected in [3usize, 6, 8] {
        key(&mut app, KeyCode::Char(']'));
        let vm = app.view_model();
        assert_eq!(vm.line_at(app.cursor), Some(expected));
    }
    key(&mut app, KeyCode::Char(']'));
    assert_eq!(app.status, "no next block");
    key(&mut app, KeyCode::Char('['));
    let vm = app.view_model();
    assert_eq!(vm.line_at(app.cursor), Some(6), "back to b1");
    app.cursor = 4; // `2: BranchIfRootConstant [n1] b1 b2` (line 5)
    key(&mut app, KeyCode::Enter);
    let vm = app.view_model();
    assert_eq!(vm.line_at(app.cursor), Some(6), "left target b1");
    key(&mut app, KeyCode::Enter);
    let vm = app.view_model();
    assert_eq!(vm.line_at(app.cursor), Some(8), "right target b2");
    assert!(app.status.contains("n2 target"), "status: {}", app.status);
    key(&mut app, KeyCode::Enter);
    let vm = app.view_model();
    assert_eq!(vm.line_at(app.cursor), Some(6), "cycle wraps");
    key(&mut app, KeyCode::Char('j'));
    key(&mut app, KeyCode::Char('k')); // movement clears the cycle
    app.cursor = 7; // ` Block b2` (line 8)
    key(&mut app, KeyCode::Char('u'));
    let vm = app.view_model();
    assert_eq!(vm.line_at(app.cursor), Some(5), "the branch targets b2");
    key(&mut app, KeyCode::Char('u'));
    let vm = app.view_model();
    assert_eq!(vm.line_at(app.cursor), Some(7), "so does b1's Jump");
    assert!(
        app.status.contains("b2 predecessor 2/2"),
        "status: {}",
        app.status
    );
    key(&mut app, KeyCode::Char('g'));
    key(&mut app, KeyCode::Char('z'));
    key(&mut app, KeyCode::Char(']'));
    let vm = app.view_model();
    assert!(matches!(
        vm.row(app.cursor).unwrap().kind,
        RowKind::BlockFold { block: 0, .. }
    ));
}

const DISASM_TRACE: &str = "\
--- Optimized code ---
kind = TURBOFAN_JS
name = f
Instructions (size = 40)
0x100    0  aa  jmp 0x108  <+0x8>
0x104    4  bb  nop
0x108    8  cc  ret
--- End code ---
";

#[test]
fn disasm_branches_navigate_and_label() {
    let mut app = app_with(DISASM_TRACE);
    app.follow = false;
    app.selected = 0;
    app.focus = Pane::Viewport;
    app.cursor = 4; // the jmp (line 5)
    key(&mut app, KeyCode::Char('i'));
    let vm = app.view_model();
    assert_eq!(vm.line_at(app.cursor), Some(6), "ret row (+0x8)");
    assert!(app.status.contains("+0x0 target"), "{}", app.status);
    key(&mut app, KeyCode::Char('j'));
    key(&mut app, KeyCode::Char('k'));
    key(&mut app, KeyCode::Char('u'));
    let vm = app.view_model();
    assert_eq!(vm.line_at(app.cursor), Some(4), "the jmp is the source");
    assert!(app.status.contains("+0x8 consumer"), "{}", app.status);
    key(&mut app, KeyCode::Char('g'));
    key(&mut app, KeyCode::Char(']'));
    let vm = app.view_model();
    assert_eq!(vm.line_at(app.cursor), Some(6));
    assert_eq!(app.status, "+0x8");
}

#[test]
fn dual_diff_pairs_the_same_function_across_runs() {
    let run_a = "\
Compiling 0x1 <JSFunction f (sfi = 0x10)> with Maglev
----- Maglev graph building -----
 Block b0
   1: Foo
";
    let run_b = "\
Compiling 0x9 <JSFunction f (sfi = 0x90)> with Maglev
----- Maglev graph building -----
 Block b0
   1: Foo
   2: Bar [n1]
";
    let sources = vec![LogSource::Stdin, LogSource::Stdin];
    let keys = Keymap::build(&Vec::new()).unwrap();
    let mut app = App::new(&sources, None, keys);
    for (i, trace) in [run_a, run_b].iter().enumerate() {
        app.handle(Event::Source(SourceEvent::Chunk {
            source: i,
            bytes: trace.as_bytes().to_vec(),
        }));
        app.handle(Event::Source(SourceEvent::Eof { source: i }));
    }
    app.follow = false;
    app.active = 0;
    app.selected = 0;
    app.focus = Pane::Viewport;

    key(&mut app, KeyCode::Char('D'));
    assert!(app.diff, "{}", app.status);
    let model = app.diff_model().expect("dual model");
    let (lt, rt) = model.titles.clone().expect("dual titles");
    assert!(lt.contains('f') && rt.contains('f'), "{lt} / {rt}");
    assert_eq!(model.left.source, 1, "left = the other run");
    assert_eq!(model.right.source, 0);
    assert_eq!(model.summary.nodes_deleted, 1, "{:?}", model.summary);
    key(&mut app, KeyCode::Char('d'));
    assert!(!app.diff);
}

#[test]
fn inlining_panel_lists_and_jumps() {
    let trace = "\
Compiling 0x1 <JSFunction f (sfi = 0x10)> with Maglev
\u{26a1} INLINE small                          Small function
\u{274c} SKIP   big                            too big
----- Maglev graph building -----
 Block b0
   1: Foo
";
    let mut app = app_with(trace);
    app.follow = false;
    app.selected = 0;
    app.focus = Pane::Viewport;

    key(&mut app, KeyCode::Char('I'));
    assert_eq!(app.inline_panel, Some(0), "{}", app.status);
    key(&mut app, KeyCode::Char('j'));
    assert_eq!(app.inline_panel, Some(1));
    key(&mut app, KeyCode::Enter);
    assert!(app.inline_panel.is_none());
    let vm = app.view_model();
    assert_eq!(vm.line_at(app.cursor), Some(2), "on the SKIP line");
    assert!(app.status.contains("SKIP big"), "{}", app.status);
}

const ALIGN_TRACE: &str = "\
Compiling 0x1 <JSFunction f (sfi = 0x10)> with Maglev
----- Bytecode array -----
   45 S> 0x100 @    0 : 0b 03             Ldar a0
   57 E> 0x102 @    2 : 46 03 00          MulSmi [3], [0]
----- Maglev graph building -----
 Block b0
0x10 <SharedFunctionInfo f> (0x2 <String[6]: \"add.js\">:1:10)
   0 : 0b 03             Ldar a0
   1: Foo
   2 : 46 03 00          MulSmi [3], [0]
   2: Bar [n1]
Finished compiling method f using Maglev
--- Raw source ---
(a) {
  return a * 3;
}
--- Optimized code ---
optimization_id = 0
source_position = 40
kind = MAGLEV
name = f
Instructions (size = 8)
0x200    0  aa  ret
--- End code ---
";

#[test]
fn source_pane_falls_back_to_raw_source_and_aligns() {
    let mut app = app_with(ALIGN_TRACE);
    app.follow = false;
    app.selected = 0;
    app.focus = Pane::Viewport;

    key(&mut app, KeyCode::Char('S'));
    answer_without_script(&mut app);
    let pane = app.source_pane.as_ref().expect("pane open");
    assert!(pane.title.contains("add.js"), "{}", pane.title);
    assert!(pane.title.contains("not found"), "{}", pane.title);
    assert_eq!(pane.lines.len(), 3, "{:?}", pane.lines);
    assert_eq!(pane.base_line, 1, "function anchor from the SFI context");
    assert_eq!(pane.display_line(&SrcRef::Char(45)), Some(0));
    assert_eq!(pane.display_line(&SrcRef::Char(57)), Some(1));
    assert_eq!(pane.display_line(&SrcRef::FnLine(1)), Some(0));

    let map = app.source_map(0);
    assert_eq!(map.of_row.get(&2), Some(&SrcRef::Char(45)), "S> marker");
    assert_eq!(
        map.of_row.get(&9),
        Some(&SrcRef::Char(57)),
        "interleaved row inherits through its offset"
    );
    assert_eq!(
        map.of_row.get(&10),
        Some(&SrcRef::Char(57)),
        "node under it too"
    );
    assert_eq!(map.of_row.get(&6), Some(&SrcRef::FnLine(1)));
    app.focus = Pane::Source;
    app.source_pane.as_mut().unwrap().cursor = 1;
    key(&mut app, KeyCode::Enter);
    let vm = app.view_model();
    assert_eq!(vm.line_at(app.cursor), Some(3), "first aligned row");
    key(&mut app, KeyCode::Enter);
    let vm = app.view_model();
    assert_eq!(vm.line_at(app.cursor), Some(9), "cycle continues");
    key(&mut app, KeyCode::Char('S'));
    assert!(app.source_pane.is_none());
    assert_eq!(app.focus, Pane::Viewport);
}

#[test]
fn sidebar_toggles_and_reopens_from_the_left_edge() {
    let mut app = app_with(TRACE);
    assert!(app.sidebar_visible);
    app.focus = Pane::Sidebar;

    key(&mut app, KeyCode::Char('b'));
    assert!(!app.sidebar_visible);
    assert_eq!(app.focus, Pane::Viewport, "focus leaves a hidden pane");
    assert!(app.status.contains("b or h shows it"), "{}", app.status);
    key(&mut app, KeyCode::Char('h'));
    assert!(app.sidebar_visible);
    assert_eq!(app.focus, Pane::Sidebar);
    key(&mut app, KeyCode::Char('b'));
    assert!(!app.sidebar_visible);
    key(&mut app, KeyCode::Tab);
    assert!(app.sidebar_visible && app.timeline);
}

const BYTECODE_TRACE: &str = "\
warmup line
Compiling 0x1 <JSFunction f (sfi = 0x10)> with Maglev
----- Bytecode array -----
Parameter count 1
     0x100 @    0 : 23 00 01          LdaGlobal [0:\"x\"], FBV[1]
     0x103 @    3 : 97 33 00 01       JumpLoop [51], [0], FBV[1] (0x100 @ 0)
     0x105 @   20 : b9                Return
Constant pool (size = 1)
       0: 0x2 <String[1]: #x>
Handler Table (size = 0)
0x3: [FeedbackVector] in OldSpace
 - slot #1 LoadGlobalNotInsideTypeof MONOMORPHIC
----- Maglev graph building -----
 Block b0
   1: Foo
";

#[test]
fn bytecode_refs_navigate_like_node_inputs() {
    let mut app = app_with(BYTECODE_TRACE);
    app.follow = false;
    app.selected = 1;
    app.focus = Pane::Viewport;
    app.cursor = 4;
    let vm = app.view_model();
    assert_eq!(vm.line_at(app.cursor), Some(5), "on JumpLoop");
    key(&mut app, KeyCode::Char('i'));
    let vm = app.view_model();
    assert_eq!(
        vm.line_at(app.cursor),
        Some(4),
        "jump target @0 (LdaGlobal)"
    );
    key(&mut app, KeyCode::Char('i'));
    let vm = app.view_model();
    assert_eq!(vm.line_at(app.cursor), Some(11), "slot #1");
    assert!(app.status.contains("@3"), "anchor label: {}", app.status);
    key(&mut app, KeyCode::Char('g'));
    for _ in 0..10 {
        key(&mut app, KeyCode::Char('j'));
    }
    let vm = app.view_model();
    assert_eq!(vm.line_at(app.cursor), Some(11), "on slot #1");
    key(&mut app, KeyCode::Char('u'));
    let vm = app.view_model();
    assert_eq!(vm.line_at(app.cursor), Some(4), "first FBV[1] use");
    key(&mut app, KeyCode::Char('u'));
    let vm = app.view_model();
    assert_eq!(vm.line_at(app.cursor), Some(5), "second FBV[1] use");
    assert!(app.status.contains("FBV[1]"), "status: {}", app.status);
    key(&mut app, KeyCode::Char('g'));
    for _ in 0..3 {
        key(&mut app, KeyCode::Char('j'));
    }
    let vm = app.view_model();
    assert_eq!(vm.line_at(app.cursor), Some(4), "on LdaGlobal");
    key(&mut app, KeyCode::Char('i'));
    let vm = app.view_model();
    assert_eq!(vm.line_at(app.cursor), Some(11), "FBV ref first");
    key(&mut app, KeyCode::Char('i'));
    let vm = app.view_model();
    assert_eq!(vm.line_at(app.cursor), Some(8), "pool entry second");
    key(&mut app, KeyCode::Char('g'));
    for _ in 0..7 {
        key(&mut app, KeyCode::Char('j'));
    }
    let vm = app.view_model();
    assert_eq!(vm.line_at(app.cursor), Some(8), "on pool entry");
    key(&mut app, KeyCode::Char('u'));
    let vm = app.view_model();
    assert_eq!(vm.line_at(app.cursor), Some(4), "pool consumer");
    assert!(app.status.contains("pool[0]"), "status: {}", app.status);
}

#[test]
fn z_folds_and_unfolds_all_blocks_preserving_context() {
    let mut app = app_with(TRACE);
    app.follow = false;
    app.selected = 1;
    app.focus = Pane::Viewport;
    app.cursor = 8;

    key(&mut app, KeyCode::Char('z'));
    let vm = app.view_model();
    assert_eq!(vm.len(), 4);
    assert!(matches!(
        vm.row(2).unwrap().kind,
        RowKind::BlockFold { block: 0, .. }
    ));
    assert!(matches!(
        vm.row(3).unwrap().kind,
        RowKind::BlockFold { block: 1, .. }
    ));
    assert_eq!(app.cursor, 3, "cursor lands on its block's fold marker");
    assert!(app.status.contains("2 blocks folded"), "{}", app.status);

    key(&mut app, KeyCode::Char('z'));
    assert_eq!(app.view_model().len(), 9, "all unfolded again");
    assert!(app.status.contains("2 blocks unfolded"), "{}", app.status);
    app.cursor = 3;
    key(&mut app, KeyCode::Char(' ')); // fold b0 only
    key(&mut app, KeyCode::Char('z'));
    assert_eq!(app.view_model().len(), 4, "z folded the rest");
}

#[test]
fn z_on_a_phase_selection_scopes_to_that_phase() {
    let mut app = app_with(DIFF_TRACE);
    app.follow = false;
    key(&mut app, KeyCode::Enter); // expand: rows comp, phase0, phase1
    app.selected = 2; // Phi untagging
    app.focus = Pane::Viewport;
    key(&mut app, KeyCode::Char('z'));
    assert!(app.status.contains("1 blocks folded"), "{}", app.status);
    app.selected = 1;
    app.cursor = 0;
    let vm = app.view_model();
    assert!(
        (0..vm.len()).all(|r| !matches!(vm.row(r).unwrap().kind, RowKind::BlockFold { .. })),
        "phase 0's b0 stays open"
    );
}

#[test]
fn jump_into_a_folded_block_unfolds_it() {
    let mut app = app_with(TRACE);
    app.follow = false;
    app.selected = 1;
    app.focus = Pane::Viewport;
    app.cursor = 2;
    key(&mut app, KeyCode::Char(' '));
    let vm = app.view_model();
    let quux_row = (0..vm.len())
        .find(|&r| vm.line_at(r) == Some(9))
        .expect("Quux visible");
    app.cursor = quux_row;
    key(&mut app, KeyCode::Char('i'));
    let vm = app.view_model();
    assert_eq!(vm.line_at(app.cursor), Some(4), "unfolded and landed");
}

#[test]
fn sidebar_filter_narrows_rows() {
    let mut app = app_with(TRACE);
    app.follow = false;
    key(&mut app, KeyCode::Char('f'));
    key(&mut app, KeyCode::Char('g'));
    key(&mut app, KeyCode::Enter);
    let rows = app.rows();
    assert_eq!(rows, vec![Row::Compilation(1)], "only g matches");
    key(&mut app, KeyCode::Char('f'));
    key(&mut app, KeyCode::Backspace);
    key(&mut app, KeyCode::Enter);
    assert_eq!(app.rows().len(), 3);
}

#[test]
fn grouping_creates_function_headers() {
    let mut app = app_with(TRACE);
    app.follow = false;
    key(&mut app, KeyCode::Char('c'));
    let rows = app.rows();
    assert_eq!(rows.len(), 3);
    assert!(matches!(rows[0], Row::Function { count: 1, .. }));
    key(&mut app, KeyCode::Enter);
    assert_eq!(app.rows().len(), 4, "group expanded");
}

#[test]
fn follow_sticks_to_the_newest_section() {
    let app = app_with(TRACE);
    assert!(app.follow, "stdin defaults to follow");
    let rows = app.rows();
    assert_eq!(app.selected, rows.len() - 1);
}

#[test]
fn help_modal_opens_and_any_key_closes() {
    let mut app = app_with(TRACE);
    key(&mut app, KeyCode::Char('?'));
    assert!(app.help);
    key(&mut app, KeyCode::Char('q'));
    assert!(!app.help);
    assert!(!app.quit, "q inside help closes the modal, not the app");
}

#[test]
fn esc_backs_out_of_viewport_then_quits() {
    let mut app = app_with(TRACE);
    app.focus = Pane::Viewport;
    key(&mut app, KeyCode::Esc);
    assert_eq!(app.focus, Pane::Sidebar);
    assert!(!app.quit);
    key(&mut app, KeyCode::Esc);
    assert!(app.quit);
}

fn mouse(app: &mut App, kind: MouseEventKind, column: u16, row: u16) {
    app.handle(Event::Input(InputEvent::Mouse(MouseEvent {
        kind,
        column,
        row,
    })));
}

fn with_layout(app: &mut App) {
    app.sidebar_rect = PaneRect {
        x: 0,
        y: 1,
        width: 30,
        height: 40,
    };
    app.viewport_rect = PaneRect {
        x: 30,
        y: 1,
        width: 90,
        height: 40,
    };
    app.sidebar_height = 40;
    app.viewport_height = 40;
}

#[test]
fn wheel_scrolls_the_pane_under_the_pointer() {
    let mut app = app_with(TRACE);
    app.follow = false;
    app.selected = 1;
    app.focus = Pane::Sidebar;
    with_layout(&mut app);
    app.cursor = 0;
    mouse(&mut app, MouseEventKind::ScrollDown, 60, 5);
    assert_eq!(app.focus, Pane::Viewport);
    assert_eq!(app.cursor, 3, "three rows per tick");
    assert_eq!(app.selected, 1, "selection untouched");
    mouse(&mut app, MouseEventKind::ScrollUp, 60, 5);
    assert_eq!(app.cursor, 0);
    mouse(&mut app, MouseEventKind::ScrollUp, 5, 5);
    assert_eq!(app.focus, Pane::Sidebar);
    assert_eq!(app.selected, 0);
    let before = app.selected;
    mouse(&mut app, MouseEventKind::ScrollDown, 60, 0);
    assert_eq!(app.selected, before);
}

#[test]
fn click_places_selection_and_cursor() {
    let mut app = app_with(TRACE);
    app.follow = false;
    with_layout(&mut app);
    mouse(&mut app, MouseEventKind::Down(MouseButton::Left), 5, 2);
    assert_eq!(app.focus, Pane::Sidebar);
    assert_eq!(app.selected, 1);
    mouse(&mut app, MouseEventKind::Down(MouseButton::Left), 60, 5);
    assert_eq!(app.focus, Pane::Viewport);
    assert_eq!(app.cursor, 4);
    let vm = app.view_model();
    assert_eq!(app.cursor_node(&vm).map(|n| n.id), Some(2), "clicked Bar");
    mouse(&mut app, MouseEventKind::Down(MouseButton::Left), 60, 39);
    let vm = app.view_model();
    assert_eq!(app.cursor, vm.len() - 1);
}

#[test]
fn mouse_ignored_during_prompts_and_closes_help() {
    let mut app = app_with(TRACE);
    app.follow = false;
    with_layout(&mut app);

    key(&mut app, KeyCode::Char('?'));
    mouse(&mut app, MouseEventKind::ScrollDown, 60, 5);
    assert!(!app.help, "any mouse action closes the modal");

    key(&mut app, KeyCode::Char('/'));
    let cursor = app.cursor;
    mouse(&mut app, MouseEventKind::Down(MouseButton::Left), 60, 20);
    assert_eq!(app.cursor, cursor, "prompt owns the interaction");
    assert!(app.input.is_some());
}

#[test]
fn cursor_node_tracks_the_cursor_row() {
    let mut app = app_with(TRACE);
    app.follow = false;
    app.selected = 1;
    app.cursor = 4;
    let vm = app.view_model();
    let node = app.cursor_node(&vm).expect("node on row 4");
    assert_eq!(node.id, 2);
}

const EVENTS_TRACE: &str = "\
[marking 0x09b8 <JSFunction f (sfi = 0x10)> for optimization to MAGLEV, ConcurrencyMode::kConcurrent, reason: hot and stable]
Compiling 0x1 <JSFunction f (sfi = 0x10)> with Maglev
----- Maglev graph building -----
 Block b0
   2 : 0b 04             Ldar a1
   1: CheckSmth [n0]
[bailout (kind: deopt-eager, reason: not a Smi): begin. deoptimizing 0x09b8 <JSFunction f (sfi = 0x10)>, 0x031a <Code MAGLEV>, opt id 1, bytecode offset 2, deopt exit 0, FP to SP delta 32, caller SP 0x0001, pc 0x0002]
        ;;; deoptimize at <test.js:14:1>
  reading input frame  => bytecode_offset=2, args=1, height=6, retval=0(#0); inputs:
  0: 0x09b8 ;  [fp -  16]  0x09b8 <JSFunction (sfi = 0x10)>
[bailout end. code_invalidation: unaffected, took 0.024 ms]
";

#[test]
fn command_palette_completes_and_toggles_a_lens() {
    let mut app = app_with(EVENTS_TRACE);
    app.follow = false;
    app.selected = 1; // the compilation

    key(&mut app, KeyCode::Char(':'));
    for c in "che".chars() {
        key(&mut app, KeyCode::Char(c));
    }
    key(&mut app, KeyCode::Tab);
    assert_eq!(app.input.as_ref().unwrap().buffer, "checks");
    key(&mut app, KeyCode::Enter);
    assert_eq!(app.lens, Some(Lens::Checks));
    assert!(app.status.contains("1 match"), "{}", app.status);
    let vm = app.view_model();
    let lines: Vec<usize> = (0..vm.len()).filter_map(|r| vm.line_at(r)).collect();
    assert_eq!(lines, vec![1, 2, 3, 5]);
    key(&mut app, KeyCode::Char(':'));
    key(&mut app, KeyCode::Char('c'));
    key(&mut app, KeyCode::Tab);
    assert_eq!(
        app.input.as_ref().unwrap().buffer,
        "c",
        "checks/clear/copy share only c"
    );
    for c in "lear".chars() {
        key(&mut app, KeyCode::Char(c));
    }
    key(&mut app, KeyCode::Enter);
    assert_eq!(app.lens, None);
}

#[test]
fn unknown_command_reports_and_does_nothing() {
    let mut app = app_with(EVENTS_TRACE);
    app.follow = false;
    key(&mut app, KeyCode::Char(':'));
    for c in "bogus".chars() {
        key(&mut app, KeyCode::Char(c));
    }
    key(&mut app, KeyCode::Enter);
    assert!(
        app.status.contains("unknown command :bogus"),
        "{}",
        app.status
    );
    assert!(app.input.is_none());
}

#[test]
fn timeline_lists_events_and_enter_jumps_to_the_offset() {
    let mut app = app_with(EVENTS_TRACE);
    app.follow = false;

    key(&mut app, KeyCode::Tab);
    assert!(app.timeline);
    let rows = app.rows();
    assert_eq!(rows.len(), 3, "marking, bailout, bailout end");
    key(&mut app, KeyCode::Char('j'));
    assert_eq!(app.rows()[app.selected], Row::Event(1));
    let vm = app.view_model();
    match &vm {
        ViewModel::Plain { range } => assert_eq!(
            range.clone(),
            6..11,
            "bailout begin through bailout end, verbose block included"
        ),
        _ => panic!("event views are plain"),
    }
    assert_eq!(vm.line_at(app.cursor), Some(6));
    key(&mut app, KeyCode::Enter);
    assert!(!app.timeline);
    assert_eq!(app.focus, Pane::Viewport);
    let vm = app.view_model();
    assert_eq!(vm.line_at(app.cursor), Some(4), "the `2 :` bytecode line");
    assert!(app.status.contains("offset 2"), "{}", app.status);
    ctrl(&mut app, 'o');
    assert!(app.timeline);
    assert_eq!(app.rows()[app.selected], Row::Event(1));
}

#[test]
fn deopts_command_filters_the_timeline() {
    let mut app = app_with(EVENTS_TRACE);
    app.follow = false;
    key(&mut app, KeyCode::Char(':'));
    for c in "deopts".chars() {
        key(&mut app, KeyCode::Char(c));
    }
    key(&mut app, KeyCode::Enter);
    assert!(app.timeline && app.timeline_deopts_only);
    assert_eq!(app.rows(), vec![Row::Event(1)]);
    assert!(app.status.contains("1 deopt event"), "{}", app.status);
    key(&mut app, KeyCode::Tab);
    key(&mut app, KeyCode::Tab);
    assert_eq!(app.rows().len(), 3);
}

#[test]
fn function_command_filters_the_sidebar() {
    let mut app = app_with(TRACE);
    app.follow = false;
    key(&mut app, KeyCode::Char(':'));
    for c in "function g".chars() {
        key(&mut app, KeyCode::Char(c));
    }
    key(&mut app, KeyCode::Enter);
    assert_eq!(app.rows(), vec![Row::Compilation(1)]);
    key(&mut app, KeyCode::Char(':'));
    for c in "function".chars() {
        key(&mut app, KeyCode::Char(c));
    }
    key(&mut app, KeyCode::Enter);
    assert_eq!(app.rows().len(), 3, "no argument clears the filter");
}

#[test]
fn marking_event_jump_binds_forward_to_the_dump() {
    let trace = "\
Compiling 0x1 <JSFunction f (sfi = 0x10)> with Maglev
----- Maglev graph building -----
   1: Old
[marking 0x09b8 <JSFunction f (sfi = 0x10)> for optimization to MAGLEV, ConcurrencyMode::kConcurrent, reason: hot and stable]
Compiling 0x1 <JSFunction f (sfi = 0x10)> with Maglev
----- Maglev graph building -----
   1: New
";
    let mut app = app_with(trace);
    app.follow = false;
    key(&mut app, KeyCode::Tab);
    assert_eq!(app.rows(), vec![Row::Event(0)]);
    key(&mut app, KeyCode::Enter);
    assert!(!app.timeline);
    assert_eq!(
        app.rows()[app.selected],
        Row::Compilation(1),
        "the dump the marking produced, not the stale instance"
    );
    let mut app = app_with(EVENTS_TRACE);
    app.follow = false;
    key(&mut app, KeyCode::Tab);
    key(&mut app, KeyCode::Char('j'));
    key(&mut app, KeyCode::Enter);
    assert_eq!(app.rows()[app.selected], Row::Compilation(0));
}

#[test]
fn deopt_panel_has_its_full_extent_while_streaming() {
    let sources = vec![LogSource::Stdin];
    let keys = Keymap::build(&Vec::new()).unwrap();
    let mut app = App::new(&sources, None, keys);
    app.handle(Event::Source(SourceEvent::Chunk {
        source: 0,
        bytes: EVENTS_TRACE.as_bytes().to_vec(),
    }));
    app.follow = false;

    key(&mut app, KeyCode::Tab);
    key(&mut app, KeyCode::Char('j'));
    assert_eq!(app.rows()[app.selected], Row::Event(1));
    let vm = app.view_model();
    match &vm {
        ViewModel::Plain { range } => {
            assert_eq!(
                range.clone(),
                6..11,
                "full bailout block, live tail included"
            );
        }
        _ => panic!("event views are plain"),
    }
}

#[test]
fn history_round_trip_preserves_the_left_mode_selection() {
    let mut app = app_with(EVENTS_TRACE);
    app.follow = false;
    app.selected = 1;
    key(&mut app, KeyCode::Tab);
    key(&mut app, KeyCode::Char('j'));
    key(&mut app, KeyCode::Enter); // deopt jump into the compilation
    ctrl(&mut app, 'o'); // back onto the event row
    assert!(app.timeline);
    assert_eq!(app.rows()[app.selected], Row::Event(1));
    key(&mut app, KeyCode::Tab);
    assert!(!app.timeline);
    assert!(
        matches!(app.rows()[app.selected], Row::Compilation(_)),
        "left the timeline onto a compilation row"
    );
}

const DIFF_TRACE: &str = "\
Compiling 0x1 <JSFunction f (sfi = 0x10)> with Maglev
----- Maglev graph building -----
 Block b0
   1: InitialValue(a0)
   5: Int32Add [n1, n1]
   6: CheckSmth [n5]
----- Phi untagging -----
 Block b0
   1: InitialValue(a0)
   5: Identity [n12]
  12: Float64Add [n1, n1]
";

#[test]
fn split_opens_switches_direction_and_closes() {
    let mut app = app_with(DIFF_TRACE);
    app.follow = false;
    key(&mut app, KeyCode::Char('v'));
    assert_eq!(app.split, Some(SplitDir::Vertical));
    assert_eq!(app.other_view.selected, app.selected, "clone on open");

    ctrl(&mut app, 'w');
    assert_eq!(app.active_pane, 1);
    assert_eq!(app.focus, Pane::Viewport);

    key(&mut app, KeyCode::Char('s'));
    assert_eq!(app.split, Some(SplitDir::Horizontal), "direction switch");
    key(&mut app, KeyCode::Char('s'));
    assert_eq!(app.split, None, "same key closes");
    assert_eq!(app.active_pane, 0);
}

#[test]
fn d_on_a_phase_diffs_against_the_previous_graph_phase() {
    let mut app = app_with(DIFF_TRACE);
    app.follow = false;
    key(&mut app, KeyCode::Enter); // expand the compilation
    let rows = app.rows();
    assert_eq!(rows.len(), 3, "compilation + two phase rows");
    app.selected = 2; // Phi untagging

    key(&mut app, KeyCode::Char('d'));
    assert!(app.diff);
    assert_eq!(app.split, Some(SplitDir::Vertical));
    assert_eq!(app.active_pane, 1, "the newer phase is the active side");
    assert_eq!(app.pane_state(0).selected, 1, "left pane: graph building");
    assert_eq!(app.pane_state(1).selected, 2, "right pane: phi untagging");

    let model = app.diff_model().expect("model builds");
    assert_eq!(model.summary.nodes_replaced, 1, "n5 → Identity [n12]");
    assert_eq!(model.summary.nodes_added, 1, "n12");
    assert_eq!(model.summary.nodes_deleted, 1, "n6");
    assert!(app.status.starts_with("diff:"), "{}", app.status);
    let len = model.rows.len();
    key(&mut app, KeyCode::Char('G'));
    assert_eq!(app.cursor, len - 1);
    key(&mut app, KeyCode::Char('i'));
    assert!(app.status.contains("diff view"), "{}", app.status);

    key(&mut app, KeyCode::Char('d'));
    assert!(!app.diff, "d toggles off, split remains");
    assert_eq!(app.split, Some(SplitDir::Vertical));
}

#[test]
fn d_on_a_compilation_diffs_first_vs_last_graph_phase() {
    let mut app = app_with(DIFF_TRACE);
    app.follow = false;
    assert_eq!(app.selected, 0);
    key(&mut app, KeyCode::Char('d'));
    assert!(app.diff);
    assert!(app.compilation_expanded(0), "auto-expanded to show phases");
    assert_eq!(app.pane_state(0).selected, 1);
    assert_eq!(app.pane_state(1).selected, 2);
}

#[test]
fn d_without_a_diffable_selection_explains() {
    let mut app = app_with(TRACE);
    app.follow = false;
    app.selected = 0; // the raw warmup section
    key(&mut app, KeyCode::Char('d'));
    assert!(!app.diff);
    assert!(app.status.contains("diff works on"), "{}", app.status);
}

#[test]
fn lens_cleared_when_a_jump_targets_a_hidden_line() {
    let mut app = app_with(TRACE);
    app.follow = false;
    app.selected = 1;
    app.focus = Pane::Viewport;
    app.lens = Some(Lens::Phi);
    let vm = app.view_model();
    assert!(vm.len() < 9);
    app.goto_line(5); // `2: Bar [n1]`
    assert_eq!(app.lens, None);
    let vm = app.view_model();
    assert_eq!(vm.line_at(app.cursor), Some(5));
}
