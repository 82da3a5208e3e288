use garage::app::{App, PaneRect, Row, ViewState};
use garage::config::Keymap;
use garage::diff::RowStatus;
use garage::event::{Event, InputEvent, SourceEvent};
use garage::keys::{KeyCode, KeyEvent, KeyModifiers};
use garage::model::{IRNode, LineInfo, NodeRef, ParsedCompilation};
use garage::pattern::Pattern;
use garage::source::LogSource;
use garage::ui::bars::{empty_sidebar, help_text, sidebar_row, status_line, telemetry_bar, Tone};
use garage::ui::frame::{
    clamp_view, diff_rows, digits, help_area, pane_title, scrollbar, sidebar_width, viewport_rows,
    FrameAreas,
};
use garage::ui::paint::{
    diff_tint, opcode_class, paint_line, raw_line_class, Class, DefUse, Palette,
};

fn app_with(trace: &str) -> App {
    let keys = Keymap::build(&Vec::new()).unwrap();
    let mut app = App::new(&[LogSource::Stdin], None, keys);
    app.handle(Event::Source(SourceEvent::Chunk {
        source: 0,
        bytes: trace.as_bytes().to_vec(),
    }));
    app.handle(Event::Source(SourceEvent::Eof { source: 0 }));
    app.follow = false;
    app
}

fn key(app: &mut App, code: KeyCode) {
    app.handle(Event::Input(InputEvent::Key(KeyEvent::new(
        code,
        KeyModifiers::none(),
    ))));
}

fn joined<T>(parts: &[(T, String)]) -> String {
    parts.iter().map(|p| p.1.as_str()).collect()
}

const TRACE: &str = "\
warmup line
Compiling 0x1 <JSFunction f (sfi = 0x10)> with Maglev
----- Maglev graph building -----
 Block b0
   1: Foo
   2: Bar [n1], 3 uses
----- Phi untagging -----
 Block b0
   1: Foo
   2: Baz [n1], 3 uses
";

#[test]
fn opcode_classes_by_shape() {
    assert_eq!(opcode_class("CheckedSmiUntag"), Class::Guard);
    assert_eq!(opcode_class("Deopt"), Class::Guard);
    assert_eq!(opcode_class("BranchIfInt32Compare"), Class::ControlOp);
    assert_eq!(opcode_class("Jump"), Class::ControlOp);
    assert_eq!(opcode_class("HeapConstant"), Class::ConstantOp);
    assert_eq!(opcode_class("φᵀ"), Class::PhiOp);
    assert_eq!(opcode_class("CallRuntime"), Class::CallOp);
    assert_eq!(opcode_class("GapMove"), Class::Dim);
    assert_eq!(opcode_class("Int32AddWithOverflow"), Class::Opcode);
}

#[test]
fn paint_line_slices_at_spans() {
    let text = "  11: Int32AddWithOverflow [n9, n10], 1 uses";
    let node = IRNode {
        id: 11,
        schedule_pos: None,
        def_span: 2..4,
        opcode: 0,
        opcode_span: 6..26,
        inputs: vec![
            NodeRef {
                node: 9,
                span: 28..30,
            },
            NodeRef {
                node: 10,
                span: 32..35,
            },
        ],
        uses: Some(1),
        dead: false,
        targets: vec![],
    };
    let parsed = ParsedCompilation {
        opcodes: vec!["Int32AddWithOverflow".to_string()],
        ..Default::default()
    };
    let info = LineInfo::Node(node);
    let spans = paint_line(text, Some(&info), Some(&parsed), None, None, 0);
    let joined: String = spans.iter().map(|s| s.1.as_str()).collect();
    assert_eq!(joined, text, "painting must not lose characters");
    assert!(spans.len() >= 5, "def/opcode/inputs painted separately");
}

#[test]
fn horizontal_scroll_skips_chars_not_bytes() {
    let text = "│╭─►Block b4";
    let spans = paint_line(text, None, None, None, None, 2);
    let joined: String = spans.iter().map(|s| s.1.as_str()).collect();
    assert_eq!(joined, "─►Block b4");
}

#[test]
fn search_is_painted_over_everything() {
    let pattern = Pattern::new("b[ac]r").unwrap();
    let parts = paint_line("foo bar bcr", None, None, None, Some(&pattern), 0);
    assert_eq!(
        parts,
        vec![
            (Class::Base, "foo ".to_string()),
            (Class::SearchHl, "bar".to_string()),
            (Class::Base, " ".to_string()),
            (Class::SearchHl, "bcr".to_string()),
        ]
    );
}

#[test]
fn the_cursor_node_lights_up_definitions_and_uses() {
    let line = LineInfo::Node(IRNode {
        id: 2,
        schedule_pos: None,
        def_span: 0..1,
        opcode: 0,
        opcode_span: 3..4,
        inputs: vec![NodeRef {
            node: 1,
            span: 6..8,
        }],
        uses: None,
        dead: false,
        targets: vec![],
    });
    let consumer = DefUse {
        node: 1,
        inputs: vec![],
    };
    let parts = paint_line("2: A [n1]", Some(&line), None, Some(&consumer), None, 0);
    assert!(parts.contains(&(Class::ConsumerHl, "n1".to_string())));
    let definition = DefUse {
        node: 2,
        inputs: vec![1],
    };
    let parts = paint_line("2: A [n1]", Some(&line), None, Some(&definition), None, 0);
    assert_eq!(parts[0], (Class::DefHl, "2".to_string()));
    let input = DefUse {
        node: 7,
        inputs: vec![2],
    };
    let parts = paint_line("2: A [n1]", Some(&line), None, Some(&input), None, 0);
    assert_eq!(parts[0], (Class::InputHl, "2".to_string()));
}

#[test]
fn control_characters_are_replaced_one_for_one() {
    let parts = paint_line("a\u{7}b", None, None, None, None, 0);
    assert_eq!(parts, vec![(Class::Base, "a\u{fffd}b".to_string())]);
}

#[test]
fn raw_lines_have_a_class_by_shape() {
    assert_eq!(raw_line_class("  [bailout (kind: x"), Some(Class::Guard));
    assert_eq!(raw_line_class("[bailout end. took"), Some(Class::FrameLine));
    assert_eq!(
        raw_line_class("  ;;; deoptimize at <a.js>"),
        Some(Class::Annotation)
    );
    assert_eq!(raw_line_class("  translating f"), Some(Class::Banner));
    assert_eq!(raw_line_class("[marking 0x1"), Some(Class::Dim));
    assert_eq!(raw_line_class("   3: 0x12 ; x5"), Some(Class::BytecodeLine));
    assert_eq!(
        raw_line_class("   3: (optimized out)"),
        Some(Class::BytecodeLine)
    );
    assert_eq!(raw_line_class("   3x: 0x12"), None);
    assert_eq!(raw_line_class(": 0x12"), None);
    assert_eq!(raw_line_class("  0x1: [top + 8] <- 0x2"), Some(Class::Dim));
    assert_eq!(raw_line_class("console output"), None);
}

#[test]
fn colours_by_number_need_a_terminal_that_says_so() {
    assert!(Palette::detect("xterm-256color", "").indexed);
    assert!(Palette::detect("dumb", "truecolor").indexed);
    let plain = Palette::detect("dumb", "");
    assert!(!plain.indexed);
    assert_eq!(diff_tint(&RowStatus::Added, &plain), None);
    let indexed = Palette { indexed: true };
    assert_eq!(diff_tint(&RowStatus::Added, &indexed), Some(22));
    assert_eq!(diff_tint(&RowStatus::Same, &indexed), None);
}

#[test]
fn the_bar_counts_what_there_is() {
    let app = app_with(TRACE);
    let parts = telemetry_bar(&app);
    assert_eq!(parts[0], (Tone::Bold, " garage ".to_string()));
    assert_eq!(parts[1], (Tone::Accent, "<stdin>".to_string()));
    assert_eq!(parts[2], (Tone::Green, " ok ".to_string()));
    assert_eq!(
        parts[3].1,
        " 1 compilations (1 Maglev) · V8 15.2",
    );
    assert_eq!(parts.len(), 4);
}

#[test]
fn sidebar_rows_read_as_they_should() {
    let mut app = app_with(TRACE);
    assert_eq!(joined(&sidebar_row(&app, &Row::Raw(0))), "~ warmup line");
    assert_eq!(
        joined(&sidebar_row(&app, &Row::Compilation(0))),
        "▸ f Maglev #1"
    );
    assert_eq!(
        joined(&sidebar_row(&app, &Row::Phase { comp: 0, phase: 0 })),
        "    · Maglev graph building"
    );
    key(&mut app, KeyCode::Char('c'));
    assert_eq!(
        joined(&sidebar_row(&app, &Row::Compilation(0))),
        "  ▸ f Maglev #1"
    );
}

#[test]
fn an_unknown_banner_is_marked() {
    let app = app_with(
        "Compiling 0x1 <JSFunction f (sfi = 0x10)> with Maglev\n----- Brand new phase -----\n   1: Foo\n",
    );
    let parts = sidebar_row(&app, &Row::Compilation(0));
    assert_eq!(
        parts.last(),
        Some(&(Tone::Red, " [unparsed]".to_string()))
    );
    let parts = sidebar_row(&app, &Row::Phase { comp: 0, phase: 0 });
    assert_eq!(parts[1], (Tone::Red, "? Brand new phase".to_string()));
}

#[test]
fn events_are_numbered_with_three_digits() {
    let app = app_with(
        "[marking 0x1 <JSFunction f (sfi = 0x10)> for optimization to MAGLEV, ConcurrencyMode::kConcurrent, reason: hot and stable]\n",
    );
    let parts = sidebar_row(&app, &Row::Event(0));
    assert_eq!(parts[0], (Tone::Dim, "#001 ".to_string()));
    assert_eq!(parts[1].1, "mark f → Maglev (hot and stable)");
}

#[test]
fn an_empty_sidebar_says_why() {
    let keys = Keymap::build(&Vec::new()).unwrap();
    let mut app = App::new(&[LogSource::Stdin], None, keys);
    assert_eq!(empty_sidebar(&app), " waiting for input…");
    app.handle(Event::Source(SourceEvent::Eof { source: 0 }));
    assert_eq!(empty_sidebar(&app), " (no sections)");
    app.sidebar_filter = Some(Pattern::new("x").unwrap());
    assert_eq!(empty_sidebar(&app), " (nothing matches the filter)");
}

#[test]
fn the_status_line_shows_place_node_and_message() {
    let mut app = app_with(TRACE);
    app.selected = 1;
    app.cursor = 4;
    app.wrap = true;
    let vm = app.view_model();
    let parts = status_line(&app, &vm, None);
    assert_eq!(parts[0], (Tone::Bold, " L6  WRAP".to_string()));
    assert_eq!(
        parts[2],
        (Tone::Accent, "n2 Bar · 1 in · 3 uses   ".to_string())
    );
    assert_eq!(parts[3], (Tone::Gray, "? help".to_string()));
}

#[test]
fn the_input_line_offers_commands() {
    let mut app = app_with(TRACE);
    key(&mut app, KeyCode::Char(':'));
    key(&mut app, KeyCode::Char('c'));
    let vm = app.view_model();
    let parts = status_line(&app, &vm, None);
    assert_eq!(joined(&parts), " :c█  checks clear copy  Enter apply · Esc cancel");
    key(&mut app, KeyCode::Char('o'));
    let parts = status_line(&app, &vm, None);
    assert_eq!(parts[2].1, "  copy — copy the visible section");
    key(&mut app, KeyCode::Char('x'));
    let parts = status_line(&app, &vm, None);
    assert_eq!(parts[2].1, "  no such command");
}

#[test]
fn the_status_line_of_a_comparison_tells_the_change() {
    let mut app = app_with(TRACE);
    app.selected = 1;
    key(&mut app, KeyCode::Char('d'));
    assert!(app.diff, "{}", app.status);
    let model = app.diff_model().unwrap();
    let at = model
        .rows
        .iter()
        .position(|r| r.status != RowStatus::Same)
        .unwrap();
    app.cursor = at;
    let vm = app.view_model();
    let parts = status_line(&app, &vm, Some(&model));
    assert_eq!(parts[0].1, " DIFF  ~1 nodes");
    assert!(parts[1].1.contains("Bar"), "{}", parts[1].1);
}

#[test]
fn both_sides_of_a_comparison_have_the_same_rows() {
    let mut app = app_with(TRACE);
    app.selected = 1;
    key(&mut app, KeyCode::Char('d'));
    let model = app.diff_model().unwrap();
    app.clamp_diff(model.rows.len(), 20);
    let left = diff_rows(&app, &model, 0, 20, 10);
    let right = diff_rows(&app, &model, 1, 20, 10);
    assert_eq!(left.len(), model.rows.len());
    assert_eq!(right.len(), model.rows.len());
    for (a, b) in left.iter().zip(&right) {
        assert_eq!(a.mark, b.mark);
    }
    assert!(left.iter().any(|r| r.mark == "~ "));
}

#[test]
fn the_help_has_two_columns_and_the_commands() {
    let app = app_with(TRACE);
    let lines = help_text(&app);
    let bindings = app.keys.help_rows().len();
    assert_eq!(lines.len(), bindings.div_ceil(2) + 3);
    assert_eq!(lines[0].len(), 4);
    let commands = &lines[lines.len() - 2];
    assert_eq!(
        commands[1].1,
        "checks clear copy deopts export function megamorphic phi spill timeline"
    );
    assert_eq!(joined(&lines[lines.len() - 1]), " any key to close");
}

#[test]
fn the_viewport_shows_numbers_and_parts() {
    let mut app = app_with(TRACE);
    app.selected = 1;
    let vm = app.view_model();
    let state = ViewState {
        selected: 1,
        cursor: 3,
        top: 2,
        scroll_x: 0,
    };
    let rows = viewport_rows(&app, &vm, &state, 2, true);
    assert_eq!(rows.len(), 2);
    assert_eq!(rows[0].number, " 4 ");
    assert_eq!(
        rows[0].parts,
        vec![(Class::BlockHeader, " Block b0".to_string())]
    );
    assert!(rows[1].parts.contains(&(Class::DefHl, "1".to_string())));
    assert_eq!(pane_title(&app, 1, true), " f · Maglev #1 ● ");
    assert_eq!(pane_title(&app, 1, false), " f · Maglev #1 ");
}

#[test]
fn a_view_stays_within_its_rows() {
    let far = ViewState {
        selected: 0,
        cursor: 100,
        top: 50,
        scroll_x: 3,
    };
    let near = clamp_view(far, 10, 4);
    assert_eq!((near.cursor, near.top, near.scroll_x), (9, 6, 3));
    let empty = clamp_view(far, 0, 4);
    assert_eq!((empty.cursor, empty.top), (0, 0));
}

#[test]
fn layout_numbers() {
    assert_eq!(sidebar_width(30), 24);
    assert_eq!(sidebar_width(100), 33);
    assert_eq!(sidebar_width(300), 44);
    assert_eq!(digits(0), 1);
    assert_eq!(digits(9), 1);
    assert_eq!(digits(10), 2);
    assert_eq!(digits(12345), 5);
    assert_eq!(scrollbar(0, 5, 10), None);
    assert_eq!(scrollbar(0, 100, 10), Some((0, 1)));
    assert_eq!(scrollbar(90, 100, 10), Some((9, 1)));
    assert_eq!(scrollbar(5, 20, 10), Some((2, 5)));
    let screen = PaneRect {
        x: 0,
        y: 0,
        width: 120,
        height: 40,
    };
    assert_eq!(
        help_area(&screen, 46),
        PaneRect {
            x: 12,
            y: 5,
            width: 96,
            height: 29
        }
    );
}

#[test]
fn a_frame_places_the_panes_and_pins_a_stream() {
    let mut app = app_with(TRACE);
    app.follow = true;
    app.selected = 1;
    let area = PaneRect {
        x: 30,
        y: 1,
        width: 50,
        height: 20,
    };
    let sidebar = PaneRect {
        x: 0,
        y: 1,
        width: 30,
        height: 20,
    };
    app.begin_frame(FrameAreas {
        sidebar,
        first: area,
        second: None,
        source: Some(sidebar),
    });
    assert_eq!(app.source_rect, sidebar);
    assert_eq!(app.viewport_height, 20);
    assert_eq!(app.sidebar_height, 20);
    assert_eq!(app.viewport_rect, area);
    assert_eq!(app.viewport2_rect, PaneRect::default());
    let vm = app.view_model();
    assert_eq!(app.cursor, vm.len() - 1);
    app.selected = 1;
    app.scroll_sidebar(1);
    assert_eq!(app.sidebar_scroll, 1);
}
