use garage::diff::canon::canonicalize;
use garage::diff::side::SideInput;
use garage::diff::{diff_phases, DiffModel, DiffRow, RowStatus, Summary};
use garage::index::TraceIndex;
use garage::parse::compilation::parse_compilation;
use garage::source::LogBuffer;
use std::sync::Arc;

fn setup(trace: &str) -> (LogBuffer, TraceIndex) {
    let mut buffer = LogBuffer::new();
    buffer.append(trace.as_bytes());
    buffer.finish();
    let mut idx = TraceIndex::new(None);
    idx.ingest(&buffer, true);
    (buffer, idx)
}
fn diff(trace: &str, a: usize, b: usize) -> DiffModel {
    let (buffer, idx) = setup(trace);
    let section = &idx.compilations[0];
    let parsed = Arc::new(parse_compilation(&buffer, section));
    diff_phases(
        &SideInput {
            buffer: &buffer,
            parsed: &parsed,
            section,
            phase: a,
            comp_id: (0, 0),
        },
        &SideInput {
            buffer: &buffer,
            parsed: &parsed,
            section,
            phase: b,
            comp_id: (0, 0),
        },
    )
}

#[test]
fn canonicalizer_masks_volatile_content() {
    assert_eq!(
        canonicalize("Compiling 0x09b80101e371 <JSFunction add (sfi = 0x9b80101e2cd)>"),
        "Compiling 0x· <JSFunction add (sfi = 0x·)>"
    );
    assert_eq!(
        canonicalize("[ML:38612] ⚡ INLINE small"),
        "⚡ INLINE small"
    );
    assert_eq!(
        canonicalize("took 0.000, 1.110, 0.025 ms"),
        "took ·, ·, · ms"
    );
    assert_eq!(
        canonicalize("  11: Foo [n9], 2 uses"),
        "11: Foo [n9], 2 uses"
    );
    assert_eq!(
        canonicalize("      ↳ lazy @-1 (4 live vars)"),
        canonicalize("         ↳ lazy @-1 (4 live vars)")
    );
    assert_eq!(canonicalize("│   ↓"), canonicalize("      ↓"));
    assert_eq!(canonicalize("(addr:0x124011b0fb8)"), "(addr:0x·)");
}

const TWO_PHASES: &str = "\
Compiling 0x1 <JSFunction f (sfi = 0x10)> with Maglev
----- Maglev graph building -----
 Block b0
   1: InitialValue(a0)
   2: SmiConstant(3)
   5: Int32Add [n1, n2], 1 uses
   6: CheckSmth [n5]
   9: Foo [n5]
 Block b1
   7: Jump b0
----- Phi untagging -----
 Block b0
   1: InitialValue(a0)
   2: SmiConstant(3)
   5: Identity [n12], 1 uses
  12: Float64Add [n1, n2], 1 uses
   9: Foo [n5]
 Block b1
   7: Jump b0
";

#[test]
fn identity_replacement_and_additions_are_identified() {
    let m = diff(TWO_PHASES, 0, 1);
    let replaced: Vec<&DiffRow> = m
        .rows
        .iter()
        .filter(|r| matches!(r.status, RowStatus::Replaced { .. }))
        .collect();
    assert_eq!(replaced.len(), 1);
    assert_eq!(replaced[0].status, RowStatus::Replaced { by: 12 });
    assert!(
        m.describe_row(
            m.rows
                .iter()
                .position(|r| r.status == RowStatus::Replaced { by: 12 })
                .unwrap()
        )
        .unwrap()
        .contains("n5 replaced by n12"),
    );
    assert_eq!(m.summary.nodes_added, 1);
    assert_eq!(m.summary.nodes_deleted, 1);
    assert_eq!(m.summary.nodes_replaced, 1);
    assert_eq!(m.summary.nodes_changed, 0);
    assert!(m.rows.iter().any(|r| r.left.is_some() && r.right.is_some()));
}

const REROUTE: &str = "\
Compiling 0x1 <JSFunction f (sfi = 0x10)> with Maglev
----- Maglev graph building -----
 Block b0
   5: Int32Add [n1, n2]
   9: Foo [n5]
----- Phi untagging -----
 Block b0
   5: Identity [n12]
  12: Float64Add [n1, n2]
   9: Foo [n12]
";

#[test]
fn rerouted_inputs_are_distinguished_from_real_input_changes() {
    let m = diff(REROUTE, 0, 1);
    let changed: Vec<&DiffRow> = m
        .rows
        .iter()
        .filter(|r| matches!(r.status, RowStatus::Changed { .. }))
        .collect();
    assert_eq!(changed.len(), 1);
    assert_eq!(
        changed[0].status,
        RowStatus::Changed {
            opcode: false,
            inputs: true,
            operands: false,
            rerouted: true
        }
    );
    let at = m
        .rows
        .iter()
        .position(|r| matches!(r.status, RowStatus::Changed { .. }))
        .unwrap();
    let detail = m.describe_row(at).unwrap();
    assert!(detail.contains("rerouted"), "{detail}");
}

const MOVED: &str = "\
Compiling 0x1 <JSFunction f (sfi = 0x10)> with Maglev
----- Maglev graph building -----
 Block b0
   3: Alpha
   4: Beta
 Block b1
   5: Gamma
----- Phi untagging -----
 Block b0
   4: Beta
 Block b1
   5: Gamma
   3: Alpha
";

#[test]
fn a_node_that_changes_blocks_is_moved_not_deleted() {
    let m = diff(MOVED, 0, 1);
    let moved: Vec<&RowStatus> = m
        .rows
        .iter()
        .filter(|r| matches!(r.status, RowStatus::Moved { .. }))
        .map(|r| &r.status)
        .collect();
    assert_eq!(moved.len(), 2, "one leave row, one arrive row");
    assert_eq!(m.summary.nodes_moved, 1, "counted once");
    assert_eq!(m.summary.nodes_deleted, 0);
    assert_eq!(m.summary.nodes_added, 0);
}

#[test]
fn opcode_and_input_changes_are_reported_precisely() {
    let m = diff(
        "\
Compiling 0x1 <JSFunction f (sfi = 0x10)> with Maglev
----- A -----
   5: Int32Add [n1, n2]
   6: Baz [n1]
----- B -----
   5: Float64Add [n1, n2]
   6: Baz [n1, n5]
",
        0,
        1,
    );
    let statuses: Vec<&RowStatus> = m
        .rows
        .iter()
        .filter(|r| !matches!(r.status, RowStatus::Same))
        .map(|r| &r.status)
        .collect();
    assert_eq!(
        statuses,
        vec![
            &RowStatus::Changed {
                opcode: true,
                inputs: false,
                operands: false,
                rerouted: false
            },
            &RowStatus::Changed {
                opcode: false,
                inputs: true,
                operands: false,
                rerouted: false
            },
        ]
    );
    assert_eq!(m.summary.nodes_changed, 2);
    assert_eq!(m.summary.describe(), "~2 nodes");
}

#[test]
fn cross_compilation_diff_matches_structurally() {
    let trace = "\
Compiling 0x1 <JSFunction f (sfi = 0x10)> with Maglev
----- Maglev graph building -----
 Block b0
   4: InitialValue(a0)
   7: CheckSmth [n4]
   9: Foo [n4]
Compiling 0x1 <JSFunction f (sfi = 0x10)> with Maglev
----- Maglev graph building -----
 Block b0
   3: InitialValue(a0)
   8: Foo [n3]
";
    let (buffer, idx) = setup(trace);
    let a = &idx.compilations[0];
    let b = &idx.compilations[1];
    let pa = Arc::new(parse_compilation(&buffer, a));
    let pb = Arc::new(parse_compilation(&buffer, b));
    let m = diff_phases(
        &SideInput {
            buffer: &buffer,
            parsed: &pa,
            section: a,
            phase: 0,
            comp_id: (0, 0),
        },
        &SideInput {
            buffer: &buffer,
            parsed: &pb,
            section: b,
            phase: 0,
            comp_id: (0, 1),
        },
    );
    assert_eq!(m.summary.nodes_deleted, 1);
    assert_eq!(m.summary.nodes_added, 0);
    let matched = m
        .rows
        .iter()
        .filter(|r| r.left.is_some() && r.right.is_some())
        .count();
    assert!(matched >= 3, "banner, header, and two structural matches");
}
#[test]
fn payload_only_changes_are_reported() {
    let m = diff(
        "\
Compiling 0x1 <JSFunction f (sfi = 0x10)> with Maglev
----- A -----
 Block b0
  25: Int32Constant(0), 1 uses
  30: RootConstant(undefined_value), 1 uses
  31: CheckMaps [n25] 0xaaaa <Map[HeapNumber]>, 1 uses
  40: BranchIfToBooleanTrue [n25] b1 b2
  26: Int32BitwiseOr [n25, n25], 1 uses, cannot truncate to int32
----- B -----
 Block b0
  25: Int32Constant(7), 1 uses
  30: RootConstant(null_value), 1 uses
  31: CheckMaps [n25] 0xbbbb <Map[String]>, 1 uses
  40: BranchIfToBooleanTrue [n25] b3 b2
  26: Int32BitwiseOr [n25, n25], 1 uses, can truncate to int32 [-1, 1]
",
        0,
        1,
    );
    let changed: Vec<_> = m
        .rows
        .iter()
        .filter(|r| matches!(r.status, RowStatus::Changed { operands: true, .. }))
        .collect();
    assert_eq!(
        changed.len(),
        5,
        "constant, root, map, branch target, truncation verdict all reported"
    );
    assert_eq!(m.summary.nodes_changed, 5);
    let details: Vec<String> = (0..m.rows.len())
        .filter_map(|i| m.describe_row(i))
        .collect();
    assert!(
        details.iter().any(|d| d.contains("(0) → (7)")),
        "{details:?}"
    );
    assert!(
        details.iter().any(|d| d.contains("b1 b2 → b3 b2")),
        "{details:?}"
    );
    assert!(
        details
            .iter()
            .any(|d| d.contains("cannot truncate → can truncate")),
        "{details:?}"
    );
    assert!(
        details.iter().any(|d| d.contains("Map[HeapNumber]")),
        "{details:?}"
    );
}
#[test]
fn decorations_stay_invisible_to_the_diff() {
    let m = diff(
        "\
Compiling 0x1 <JSFunction f (sfi = 0x10)> with Maglev
----- A -----
 Block b0
   9: CheckedSmiUntag [n2], 1 uses, cannot truncate to int32
  ↳ lazy @-1 (4 live vars)
  12: HeapConstant(0xaaaa <FeedbackCell>), 1 uses
   ↓
----- B -----
 Block b0
9/9: CheckedSmiUntag [v5/n2:[x0|R|t]] → [x0|R|w32], live range: [9-11]
     ↳ lazy @-1 (4 live vars)
1/12: HeapConstant(0xbbbb <FeedbackCell>) → v-1, live range: [1-12]
  ↓
",
        0,
        1,
    );
    assert_eq!(
        m.summary,
        Summary::default(),
        "schedule ids, registers, live ranges, indentation: no changes"
    );
    assert!(m.rows.iter().all(|r| r.status == RowStatus::Same));
}
#[test]
fn moved_and_changed_reports_both() {
    let m = diff(
        "\
Compiling 0x1 <JSFunction f (sfi = 0x10)> with Maglev
----- A -----
 Block b0
   3: Alpha [n1]
   4: Beta
 Block b1
   5: Gamma
----- B -----
 Block b0
   4: Beta
 Block b1
   5: Gamma
   3: Alpha [n2]
",
        0,
        1,
    );
    let moved: Vec<_> = m
        .rows
        .iter()
        .filter(|r| matches!(r.status, RowStatus::Moved { changed: true }))
        .collect();
    assert_eq!(moved.len(), 2, "leave and arrive rows both say changed");
    assert_eq!(m.summary.nodes_moved, 1);
    assert_eq!(m.summary.nodes_changed, 1, "the input change is counted");
    let details: Vec<String> = (0..m.rows.len())
        .filter_map(|i| m.describe_row(i))
        .collect();
    assert!(
        details.iter().any(|d| d.contains("moved and changed")),
        "{details:?}"
    );
}
#[test]
fn cross_compilation_loop_phis_match_structurally() {
    let trace = "\
Compiling 0x1 <JSFunction f (sfi = 0x10)> with Maglev
----- Maglev graph building -----
 Block b0
   1: InitialValue(a0)
 Block b1
   2: φ r0 (n1, n3)
   3: Int32Add [n2, n1]
Compiling 0x1 <JSFunction f (sfi = 0x10)> with Maglev
----- Maglev graph building -----
 Block b0
  11: InitialValue(a0)
 Block b1
  12: φ r0 (n11, n13)
  13: Int32Add [n12, n11]
";
    let (buffer, idx) = setup(trace);
    let a = &idx.compilations[0];
    let b = &idx.compilations[1];
    let pa = Arc::new(parse_compilation(&buffer, a));
    let pb = Arc::new(parse_compilation(&buffer, b));
    let m = diff_phases(
        &SideInput {
            buffer: &buffer,
            parsed: &pa,
            section: a,
            phase: 0,
            comp_id: (0, 0),
        },
        &SideInput {
            buffer: &buffer,
            parsed: &pb,
            section: b,
            phase: 0,
            comp_id: (0, 1),
        },
    );
    assert_eq!(m.summary.nodes_added, 0, "{:?}", m.summary);
    assert_eq!(m.summary.nodes_deleted, 0, "the phi matches despite ids");
}
#[test]
fn cross_compilation_payload_change_is_reported() {
    let trace = "\
Compiling 0x1 <JSFunction f (sfi = 0x10)> with Maglev
----- Maglev graph building -----
 Block b0
   4: SmiConstant(3)
Compiling 0x1 <JSFunction f (sfi = 0x10)> with Maglev
----- Maglev graph building -----
 Block b0
   9: SmiConstant(7)
";
    let (buffer, idx) = setup(trace);
    let a = &idx.compilations[0];
    let b = &idx.compilations[1];
    let pa = Arc::new(parse_compilation(&buffer, a));
    let pb = Arc::new(parse_compilation(&buffer, b));
    let m = diff_phases(
        &SideInput {
            buffer: &buffer,
            parsed: &pa,
            section: a,
            phase: 0,
            comp_id: (0, 0),
        },
        &SideInput {
            buffer: &buffer,
            parsed: &pb,
            section: b,
            phase: 0,
            comp_id: (0, 1),
        },
    );
    assert_eq!(m.summary.nodes_changed, 1, "{:?}", m.summary);
    assert!(
        m.rows
            .iter()
            .any(|r| matches!(r.status, RowStatus::Changed { operands: true, .. })),
    );
}

#[test]
fn identity_chains_resolve_with_cycle_guard() {
    let m = diff(
        "\
Compiling 0x1 <JSFunction f (sfi = 0x10)> with Maglev
----- A -----
   5: Foo [n1]
----- B -----
   5: Identity [n6]
   6: Identity [n7]
   7: Bar
",
        0,
        1,
    );
    assert!(
        m.rows
            .iter()
            .any(|r| r.status == RowStatus::Replaced { by: 7 }),
        "chain n5→n6→n7 resolves to the end"
    );
    let m = diff(
        "\
Compiling 0x1 <JSFunction f (sfi = 0x10)> with Maglev
----- A -----
   5: Foo [n1]
----- B -----
   5: Identity [n6]
   6: Identity [n5]
",
        0,
        1,
    );
    assert!(
        m.rows
            .iter()
            .any(|r| matches!(r.status, RowStatus::Replaced { .. })),
    );
}
