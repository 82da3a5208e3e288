use garage::index::TraceIndex;
use garage::model::{Confidence, EventKind, PhaseKind, Tier};
use garage::pattern::Pattern;
use garage::source::LogBuffer;

fn index(text: &str) -> TraceIndex {
    let mut buffer = LogBuffer::new();
    buffer.append(text.as_bytes());
    buffer.finish();
    let mut idx = TraceIndex::new(None);
    idx.ingest(&buffer, true);
    idx
}
fn assert_partition(idx: &TraceIndex, line_count: usize) {
    let mut ranges: Vec<(usize, usize)> = idx
        .compilations
        .iter()
        .map(|c| (c.lines.start, c.lines.end))
        .chain(idx.raw.iter().map(|r| (r.lines.start, r.lines.end)))
        .collect();
    ranges.sort();
    let mut at = 0;
    for (start, end) in ranges {
        assert_eq!(start, at, "gap or overlap at line {at}");
        assert!(end >= start);
        at = end;
    }
    assert_eq!(at, line_count, "sections do not cover the file");
}

const V152: &str = "\
V8 is running with developer-only features enabled.
---------------------------------------------------
Begin compiling method add using Maglev
Compiling 0x09b80101e371 <JSFunction add (sfi = 0x9b80101e2cd)> with Maglev
----- Bytecode array -----
Parameter count 3
----- Maglev graph building -----
Graph
   9: CheckedSmiUntag [n2], 1 uses
----- Register allocation -----
9/9: CheckedSmiUntag [v5/n2:[x0|R|t]] \u{2192} [x0|R|w32]
---------------------------------------------------
Finished compiling method add using Maglev
";

#[test]
fn v152_shape_indexes_one_compilation() {
    let idx = index(V152);
    assert_eq!(idx.compilations.len(), 1);
    let c = &idx.compilations[0];
    assert_eq!(c.name, "add");
    assert_eq!(c.key.tier, Tier::Maglev);
    assert_eq!(c.key.ordinal, 1);
    assert_eq!(c.lines, 1..13);
    assert_eq!(c.phases.len(), 3);
    assert_eq!(c.phases[0].kind, PhaseKind::Bytecode);
    assert_eq!(c.phases[1].kind, PhaseKind::Graph { known: true });
    assert_eq!(c.phases[2].lines, 9..13);
    assert_partition(&idx, 13);
    assert_eq!(idx.detected(), Some("15.2"));
}

#[test]
fn v149_shape_without_begin_finished() {
    let idx = index(
        "\
Compiling 0x1 <JSFunction a (sfi = 0x10)> with Maglev
----- After graph building -----
   1: Foo
Compiling 0x2 <JSFunction b (sfi = 0x20)> with Maglev
----- After graph building -----
   1: Bar
",
    );
    assert_eq!(idx.compilations.len(), 2);
    assert_eq!(idx.compilations[0].lines, 0..3);
    assert_eq!(idx.compilations[1].lines, 3..6);
    assert_partition(&idx, 6);
    assert_eq!(idx.detected(), Some("14.9"));
}

#[test]
fn toplevel_empty_name_parses() {
    let idx = index("Compiling 0x1 <JSFunction (sfi = 0x10)> with Maglev\n");
    assert_eq!(idx.compilations.len(), 1);
    assert_eq!(idx.compilations[0].name, "");
    assert_eq!(idx.compilations[0].display_name(), "<toplevel>");
}

#[test]
fn same_key_gets_ordinals() {
    let idx = index(
        "\
Compiling 0x1 <JSFunction f (sfi = 0x10)> with Maglev
Compiling 0x1 <JSFunction f (sfi = 0x10)> with Maglev
",
    );
    assert_eq!(idx.compilations[0].key.ordinal, 1);
    assert_eq!(idx.compilations[1].key.ordinal, 2);
}

#[test]
fn events_are_parsed_and_close_compilations() {
    let idx = index(
        "\
[marking 0x09b8 <JSFunction f (sfi = 0x10)> for optimization to MAGLEV, ConcurrencyMode::kConcurrent, reason: hot and stable]
Compiling 0x1 <JSFunction f (sfi = 0x10)> with Maglev
----- Maglev graph building -----
   1: Foo
[bailout (kind: deopt-eager, reason: not a Smi): begin. deoptimizing 0x09b8 <JSFunction f (sfi = 0x10)>, 0x031a <Code MAGLEV>, opt id 1, bytecode offset 2, deopt exit 0, FP to SP delta 32, caller SP 0x0001, pc 0x0002]
trailing program output
",
    );
    assert_eq!(idx.events.len(), 2);
    assert!(matches!(
        idx.events[0].kind,
        EventKind::Marking { ref name, .. } if name == "f"
    ));
    let EventKind::DeoptBegin {
        ref reason,
        bytecode_offset,
        ..
    } = idx.events[1].kind
    else {
        panic!("expected deopt event");
    };
    assert_eq!(reason, "not a Smi");
    assert_eq!(bytecode_offset, Some(2));
    assert_eq!(idx.compilations[0].lines, 1..4);
    assert_partition(&idx, 6);
}

#[test]
fn osr_flag_binds_by_sfi_and_tier() {
    let idx = index(
        "\
[OSR - compilation started. function: hot, osr offset: 28, mode: ConcurrencyMode::kSynchronous]
[compiling method 0x1 <JSFunction hot (sfi = 0x10)> (target MAGLEV) OSR, mode: ConcurrencyMode::kSynchronous]
Compiling 0x1 <JSFunction hot (sfi = 0x10)> with Maglev
----- Maglev graph building -----
",
    );
    let osr = idx.compilations[0].osr.as_ref().expect("osr flagged");
    assert_eq!(osr.offset, Some(28));
    assert_eq!(osr.confidence, Confidence::Heuristic);
}

#[test]
fn non_event_bracket_lines_are_content() {
    let idx = index("[object Object]\n[1, 2, 3]\n");
    assert!(idx.events.is_empty());
    assert_eq!(idx.raw.len(), 1);
    assert_eq!(idx.raw[0].label, "[object Object]");
}

#[test]
fn function_filter_marks_but_keeps_sections() {
    let mut buffer = LogBuffer::new();
    buffer.append(
        b"Compiling 0x1 <JSFunction keepme (sfi = 0x10)> with Maglev
Compiling 0x2 <JSFunction dropme (sfi = 0x20)> with Maglev
",
    );
    buffer.finish();
    let mut idx = TraceIndex::new(Some(Pattern::new("^keep").unwrap()));
    idx.ingest(&buffer, true);
    assert!(!idx.compilations[0].filtered_out);
    assert!(idx.compilations[1].filtered_out);
    assert_partition(&idx, 2);
}

#[test]
fn streaming_holds_back_the_partial_line() {
    let mut buffer = LogBuffer::new();
    let mut idx = TraceIndex::new(None);
    buffer.append(b"Compiling 0x1 <JSFunction f (sfi = 0x10)> with Mag");
    idx.ingest(&buffer, false);
    assert_eq!(idx.compilations.len(), 0);
    buffer.append(b"lev\n----- Maglev graph building -----\n");
    idx.ingest(&buffer, false);
    assert_eq!(idx.compilations.len(), 1);
    buffer.finish();
    idx.ingest(&buffer, true);
    assert_eq!(idx.compilations[0].phases.len(), 1);
}

#[test]
fn ansi_wrapped_boundaries_still_match() {
    let idx =
        index("\u{1b}[0;32mCompiling 0x1 <JSFunction f (sfi = 0x10)> with Maglev\u{1b}[0m\n");
    assert_eq!(idx.compilations.len(), 1);
}

#[test]
fn garbage_never_panics_and_partitions() {
    let noise = "-----\n---- x ----\nCompiling gibberish\n[bailout mangled\n\u{fffd}\u{1b}[9\n";
    let idx = index(noise);
    assert_partition(&idx, 5);
}
