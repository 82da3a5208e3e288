use garage::app::{App, Anchor};
use garage::config::Keymap;
use garage::diff::RowStatus;
use garage::event::{Event, SourceEvent};
use garage::model::{BytecodeRow, IcState, LineInfo};
use garage::source::LogSource;
use garage::ui::bars::Tone;
use garage::ui::frame::{centred, viewport_rows};
use garage::ui::links::RowLinks;
use garage::ui::paint::{paint_line, paint_linked, Class, Palette};
use garage::ui::style::{diff_gutter_style, Colour, Style};

fn app_with(trace: &str) -> App {
    let keys = Keymap::build(&Vec::new()).unwrap();
    let mut app = App::new(&[LogSource::Stdin], None, keys);
    app.handle(Event::Source(SourceEvent::Chunk {
        source: 0,
        bytes: trace.as_bytes().to_vec(),
    }));
    app.handle(Event::Source(SourceEvent::Eof { source: 0 }));
    app.follow = false;
    app
}

fn classes(parts: &[(Class, String)], text: &str) -> Vec<Class> {
    parts
        .iter()
        .filter(|(_, s)| s == text)
        .map(|(c, _)| *c)
        .collect()
}

fn slot(ic: IcState) -> LineInfo {
    LineInfo::FeedbackSlot {
        index: 3,
        def_span: 2..9,
        kind: 10..12,
        state: 13..24,
        ic,
    }
}

#[test]
fn classes_have_their_colours() {
    let many = Palette { indexed: true };
    let few = Palette { indexed: false };
    let plain = many.style(Class::Base);
    assert_eq!(
        plain,
        Style {
            fg: None,
            bg: None,
            bold: false,
            dim: false,
            italic: false,
            reversed: false
        }
    );
    assert_eq!(many.dim(), Colour::Indexed(244));
    assert_eq!(few.dim(), Colour::DarkGray);
    assert_eq!(
        many.style(Class::Guard),
        Style {
            fg: Some(Colour::Red),
            bold: true,
            ..plain
        }
    );
    assert_eq!(
        many.style(Class::BytecodeLine),
        Style {
            fg: Some(Colour::Indexed(108)),
            dim: true,
            ..plain
        }
    );
    assert_eq!(few.style(Class::FrameLine).fg, Some(Colour::Red));
    assert_eq!(
        many.style(Class::DefHl),
        Style {
            fg: Some(Colour::Black),
            bg: Some(Colour::Green),
            bold: true,
            ..plain
        }
    );
    assert!(many.style(Class::SearchHl).reversed);
    assert!(many.style(Class::Annotation).italic);
    assert_ne!(
        many.style(Class::Gutter(0)).fg,
        many.style(Class::Gutter(1)).fg
    );
    assert_eq!(Tone::RedBold.style(), many.style(Class::Guard));
    assert_eq!(Tone::Accent.style().fg, Some(Colour::Cyan));
}

#[test]
fn marks_of_aligned_rows_have_their_colours() {
    assert_eq!(
        diff_gutter_style(&RowStatus::Added).fg,
        Some(Colour::Green)
    );
    assert_eq!(
        diff_gutter_style(&RowStatus::Moved { changed: false }).fg,
        Some(Colour::Cyan)
    );
    assert!(!diff_gutter_style(&RowStatus::Same).bold);
}

#[test]
fn feedback_slots_are_coloured_by_state() {
    let line = "  - slot #3 xx MEGAMORPHIC";
    for (ic, class) in [
        (IcState::Megamorphic, Class::Guard),
        (IcState::Polymorphic, Class::PhiOp),
        (IcState::Monomorphic, Class::NodeDef),
        (IcState::Uninitialized, Class::BytecodeLine),
    ] {
        let parts = paint_line(line, Some(&slot(ic)), None, None, None, 0);
        assert_eq!(parts, vec![(class, line.to_string())]);
    }
}

#[test]
fn a_bytecode_row_is_painted_like_a_node() {
    let row = |primary| {
        LineInfo::Bytecode(BytecodeRow {
            offset: 7,
            offset_span: 0..1,
            mnemonic: 4..8,
            targets: vec![(9, 10..12)],
            fbv: vec![(3, 13..15)],
            pool: vec![],
            primary,
            src_pos: None,
        })
    };
    let line = "7 : Jump [9 F3";
    let parts = paint_line(line, Some(&row(true)), None, None, None, 0);
    assert_eq!(parts[0], (Class::NodeDef, "7".to_string()));
    assert_eq!(classes(&parts, "Jump"), vec![Class::ControlOp]);
    let dim = paint_line(line, Some(&row(false)), None, None, None, 0);
    assert_eq!(dim, vec![(Class::BytecodeLine, line.to_string())]);
}

#[test]
fn the_links_of_a_listing_light_up() {
    let row = LineInfo::Bytecode(BytecodeRow {
        offset: 7,
        offset_span: 0..1,
        mnemonic: 4..8,
        targets: vec![(9, 9..10)],
        fbv: vec![],
        pool: vec![],
        primary: true,
        src_pos: None,
    });
    let line = "7 : Jump 9";
    let links = |anchor, refs| RowLinks {
        anchor,
        addr: None,
        refs,
        to: None,
    };
    let own = links(Anchor::Offset(7), vec![Anchor::Offset(9)]);
    let parts = paint_linked(line, Some(&row), None, &own, None, 0);
    assert_eq!(parts[0], (Class::DefHl, "7".to_string()));
    let target = links(Anchor::Offset(9), vec![]);
    let parts = paint_linked(line, Some(&row), None, &target, None, 0);
    assert_eq!(classes(&parts, "9"), vec![Class::ConsumerHl]);
    let source = links(Anchor::Offset(1), vec![Anchor::Offset(7)]);
    let parts = paint_linked(line, Some(&row), None, &source, None, 0);
    assert_eq!(parts[0], (Class::InputHl, "7".to_string()));
}

#[test]
fn source_is_painted_token_by_token() {
    let line = "let x = 'a\\'b' + 1.5; // done";
    let parts = paint_line(line, Some(&LineInfo::Source), None, None, None, 0);
    assert_eq!(classes(&parts, "let"), vec![Class::Keyword]);
    assert_eq!(classes(&parts, "'a\\'b'"), vec![Class::Text]);
    assert_eq!(classes(&parts, "1.5"), vec![Class::Number]);
    assert_eq!(classes(&parts, "// done"), vec![Class::Comment]);
    assert_eq!(classes(&parts, " x = "), vec![Class::Base]);
    let open = paint_line("a /* b", Some(&LineInfo::Source), None, None, None, 0);
    assert_eq!(classes(&open, "/* b"), vec![Class::Comment]);
    let closed = paint_line("/* b */c", Some(&LineInfo::Source), None, None, None, 0);
    assert_eq!(classes(&closed, "c"), vec![Class::Base]);
    let word = paint_line("letter", Some(&LineInfo::Source), None, None, None, 0);
    assert_eq!(word, vec![(Class::Base, "letter".to_string())]);
}

#[test]
fn the_gutter_has_a_colour_per_column() {
    let parts = paint_line(
        "││ Block b1",
        Some(&LineInfo::BlockHeader { block: 1 }),
        None,
        None,
        None,
        0,
    );
    assert_eq!(parts[0], (Class::Gutter(0), "│".to_string()));
    assert_eq!(parts[1], (Class::Gutter(1), "│".to_string()));
    assert_eq!(parts[2], (Class::BlockHeader, " Block b1".to_string()));
    let raw = paint_line("│ x", None, None, None, None, 0);
    assert_eq!(raw, vec![(Class::Base, "│ x".to_string())]);
}

#[test]
fn a_centred_line_is_in_the_middle_where_it_can_be() {
    assert_eq!(centred(50, 100, 10), 45);
    assert_eq!(centred(2, 100, 10), 0);
    assert_eq!(centred(99, 100, 10), 90);
    assert_eq!(centred(3, 5, 10), 0);
}

#[test]
fn the_cursor_row_of_a_listing_lights_up_in_the_viewport() {
    let mut app = app_with(
        "Compiling 0x1 <JSFunction f (sfi = 0x10)> with Maglev\n\
         ----- Bytecode array -----\n         \
         0x1 @    0 : 8b 02             Jump [2] (0x1 @ 2)\n         \
         0x2 @    2 : af                Return\n",
    );
    app.selected = 0;
    app.cursor = 2;
    let vm = app.view_model();
    let state = app.view_state();
    let rows = viewport_rows(&app, &vm, &state, 10, true);
    assert!(rows[2].parts.iter().any(|p| p.0 == Class::DefHl));
    assert!(rows[3].parts.iter().any(|p| p.0 == Class::InputHl));
}
