use garage::index::TraceIndex;
use garage::parse::compilation::parse_compilation;
use garage::source::LogBuffer;
use garage::view::{model_rows, FoldSet, RowKind, ViewModel, ViewRow};
use std::sync::Arc;

fn setup(trace: &str) -> (LogBuffer, TraceIndex) {
    let mut buffer = LogBuffer::new();
    buffer.append(trace.as_bytes());
    buffer.finish();
    let mut idx = TraceIndex::new(None);
    idx.ingest(&buffer, true);
    (buffer, idx)
}

const TRACE: &str = "\
Compiling 0x1 <JSFunction f (sfi = 0x10)> with Maglev
----- Maglev graph building -----
 Block b0
   1: Foo
   2: Bar [n1]
 Block b1
   3: Baz [n2]
   some regalloc trace line
   another trace line
   4: Quux [n3]
";

fn build(
    buffer: &LogBuffer,
    idx: &TraceIndex,
    folded: &FoldSet,
    show_annotations: bool,
) -> Vec<ViewRow> {
    let section = &idx.compilations[0];
    let parsed = Arc::new(parse_compilation(buffer, section));
    model_rows(
        &parsed,
        section,
        &section.lines.clone(),
        0,
        0,
        folded,
        show_annotations,
        buffer,
        None,
    )
}

#[test]
fn annotations_fold_into_one_marker_by_default() {
    let (buffer, idx) = setup(TRACE);
    let rows = build(&buffer, &idx, &FoldSet::new(), false);
    let fold = rows
        .iter()
        .find(|r| matches!(r.kind, RowKind::AnnotationFold { .. }))
        .expect("annotation fold marker");
    assert_eq!(fold.kind, RowKind::AnnotationFold { count: 2 });
    assert_eq!(rows.len(), 9);

    let shown = build(&buffer, &idx, &FoldSet::new(), true);
    assert_eq!(shown.len(), 10, "t shows the annotations inline");
}

#[test]
fn folding_a_block_hides_its_lines() {
    let (buffer, idx) = setup(TRACE);
    let mut folded = FoldSet::new();
    folded.insert((0usize, 0usize, 0usize, 0u32)); // block b0 in phase 0
    let rows = build(&buffer, &idx, &folded, false);
    let fold = rows
        .iter()
        .find(|r| matches!(r.kind, RowKind::BlockFold { .. }))
        .expect("block fold marker");
    assert_eq!(
        fold.kind,
        RowKind::BlockFold {
            block: 0,
            hidden: 2
        }
    );
    assert!(rows.iter().all(|r| r.line != 3 && r.line != 4));
    assert!(rows.iter().any(|r| r.line == 6));
}

#[test]
fn row_of_line_skips_hidden_lines() {
    let (buffer, idx) = setup(TRACE);
    let mut folded = FoldSet::new();
    folded.insert((0usize, 0usize, 0usize, 0u32));
    let rows = build(&buffer, &idx, &folded, false);
    let parsed = Arc::new(parse_compilation(
        &buffer,
        &idx.compilations[0],
    ));
    let vm = ViewModel::Modeled {
        rows,
        parsed,
        comp: 0,
    };
    assert!(vm.row_of_line(3).is_none(), "line inside the fold");
    assert!(vm.row_of_line(6).is_some(), "line in the open block");
}

#[test]
fn plain_model_is_a_window() {
    let vm = ViewModel::Plain { range: 10..20 };
    assert_eq!(vm.len(), 10);
    assert_eq!(vm.line_at(0), Some(10));
    assert_eq!(vm.line_at(9), Some(19));
    assert_eq!(vm.line_at(10), None);
    assert_eq!(vm.row_of_line(15), Some(5));
    assert_eq!(vm.row_of_line(25), None);
}
