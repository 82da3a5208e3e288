use garage::index::TraceIndex;
use garage::model::{
    BytecodeRow, FrameArrow, IRNode, IcState, InlineDecision, LineInfo, ParsedCompilation,
    ParsedPhase, SCHEDULE_ONLY,
};
use garage::parse::bytecode::parse_slot_header;
use garage::parse::compilation::parse_compilation;
use garage::parse::graph::{parse_dump_phase, parse_graph_phase};
use garage::parse::intern::Interner;
use garage::parse::maglev::classify_preamble;
use garage::source::LogBuffer;

fn parse_lines(lines: &[&str]) -> (ParsedPhase, ParsedCompilation) {
    let mut text = String::from("----- Maglev graph building -----\n");
    for l in lines {
        text.push_str(l);
        text.push('\n');
    }
    let mut buffer = LogBuffer::new();
    buffer.append(text.as_bytes());
    buffer.finish();
    let mut parsed = ParsedCompilation::default();
    let mut interner = Interner::new();
    let phase = parse_graph_phase(&buffer, 0..buffer.line_count(), &mut interner, &mut parsed);
    parsed.opcodes = interner.opcodes;
    parsed.frames = interner.frames;
    (phase, parsed)
}

fn parse_dump_lines(lines: &[&str]) -> ParsedPhase {
    let mut text = String::from("----- Bytecode array -----\n");
    for l in lines {
        text.push_str(l);
        text.push('\n');
    }
    let mut buffer = LogBuffer::new();
    buffer.append(text.as_bytes());
    buffer.finish();
    let mut parsed = ParsedCompilation::default();
    parse_dump_phase(&buffer, 0..buffer.line_count(), &mut parsed)
}

fn bc(info: &LineInfo) -> &BytecodeRow {
    match info {
        LineInfo::Bytecode(bc) => bc,
        other => panic!("expected bytecode row, got {other:?}"),
    }
}

#[test]
fn bytecode_rows_parse_offset_mnemonic_and_refs() {
    let phase = parse_dump_lines(&[
        "Parameter count 2",
        "         0x31a010001b0 @    0 : 33 03 00 00       GetNamedProperty a0, [0:\"v\"], FBV[0]",
        "         0x31a010001fa @   14 : a8 11             JumpIfFalse [17] (0x31a0100020b @ 31)",
        "         0x31a0100013f @   67 : 97 33 00 09       JumpLoop [51], [0], FBV[9] (0x31a0100010c @ 16)",
        "         0x31a010001f4 @    8 : d3                Star1",
    ]);
    assert!(matches!(phase.infos[1], LineInfo::Control));

    let get = bc(&phase.infos[2]);
    assert_eq!(get.offset, 0);
    assert!(get.primary);
    assert_eq!(get.fbv.len(), 1, "FBV[0] operand: {:?}", get.fbv);
    assert_eq!(get.fbv[0].0, 0);
    assert_eq!(get.pool.len(), 1, "[0:\"v\"] operand: {:?}", get.pool);
    assert_eq!(get.pool[0].0, 0);
    assert!(get.targets.is_empty());

    let jif = bc(&phase.infos[3]);
    assert_eq!(jif.offset, 14);
    assert_eq!(jif.targets.len(), 1);
    assert_eq!(jif.targets[0].0, 31);
    assert!(jif.pool.is_empty());

    let loop_ = bc(&phase.infos[4]);
    assert_eq!(loop_.targets[0].0, 16);
    assert_eq!(loop_.fbv[0].0, 9);

    let star = bc(&phase.infos[5]);
    assert_eq!(star.offset, 8);
    assert!(star.targets.is_empty() && star.fbv.is_empty() && star.pool.is_empty());
}

#[test]
fn bytecode_wide_mnemonics_and_embedded_feedback() {
    let phase = parse_dump_lines(&[
        "         0x31a010001ee @    2 : 00 57 ff 03 00 00 BitwiseAndSmi.Wide [1023], FBV[0]",
        "         0x31a010000d0 @   16 : 01 0d a0 86 01 00 LdaSmi.ExtraWide [100000]",
        "         0x31a010001f6 @   10 : 78 f8 01 00       TestEqualStrict r1, EmbeddedFeedback[0]",
    ]);
    let and = bc(&phase.infos[1]);
    assert_eq!(and.fbv.len(), 1);
    let smi = bc(&phase.infos[2]);
    assert!(smi.fbv.is_empty() && smi.pool.is_empty());
    let test = bc(&phase.infos[3]);
    assert!(test.fbv.is_empty(), "{:?}", test.fbv);
}

#[test]
fn bytecode_switch_jump_table_targets() {
    let phase = parse_dump_lines(&[
        "         0x31a01000115 @   25 : ab 00 03 00       SwitchOnSmiNoFeedback [0], [3], [0] { 0: @44, 1: @48, 2: @52 }",
    ]);
    let sw = bc(&phase.infos[1]);
    let ids: Vec<u32> = sw.targets.iter().map(|(t, _)| *t).collect();
    assert_eq!(ids, vec![44, 48, 52]);
}

#[test]
fn bytecode_source_position_markers_are_tolerated() {
    let phase = parse_dump_lines(&[
        "   45 S> 0x2f9d0829f26e @    0 : 0b 03             Ldar a0",
        "   57 E> 0x2f9d0829f270 @    2 : 46 03 00          MulSmi [3], [0]",
        "         0x2f9d0829f273 @    5 : ab                Return",
    ]);
    assert_eq!(bc(&phase.infos[1]).offset, 0);
    assert_eq!(bc(&phase.infos[1]).src_pos, Some(45), "S> char offset");
    assert_eq!(bc(&phase.infos[2]).src_pos, Some(57), "E> char offset");
    assert_eq!(bc(&phase.infos[3]).src_pos, None, "markerless row");
}

#[test]
fn constant_pool_entries_and_regions() {
    let phase = parse_dump_lines(&[
        "         0x31a010001b0 @    0 : 33 03 00 00       GetNamedProperty a0, [0:\"v\"], FBV[0]",
        "Constant pool (size = 1)",
        "0x31a0100017d: [TrustedFixedArray]",
        " - map: 0x09b800000605 <Map(TRUSTED_FIXED_ARRAY_TYPE)>",
        " - length: 1",
        "           0: 0x09b8000034d5 <String[1]: #v>",
        "Handler Table (size = 0)",
        "Source Position Table (size = 0)",
    ]);
    assert!(matches!(phase.infos[2], LineInfo::Control), "pool header");
    assert!(matches!(phase.infos[3], LineInfo::Control), "array object");
    let LineInfo::PoolEntry { index, .. } = &phase.infos[6] else {
        panic!("expected pool entry, got {:?}", phase.infos[6]);
    };
    assert_eq!(*index, 0);
    assert!(matches!(phase.infos[7], LineInfo::Control), "handler table");
}

#[test]
fn feedback_vector_slots_classify_states() {
    let phase = parse_dump_lines(&[
        "0x9b80101e9c1: [FeedbackVector] in OldSpace",
        " - map: 0x09b800000895 <Map(FEEDBACK_VECTOR_TYPE)>",
        " - slot #0 LoadProperty MONOMORPHIC",
        "   [weak] 0x09b80101e519 <Map[16](HOLEY_ELEMENTS)>: LoadHandler(Smi)(kind = kField) {",
        "     [0]: [weak] 0x09b80101e519 <Map[16](HOLEY_ELEMENTS)>",
        "  }",
        " - slot #1 LoadProperty POLYMORPHIC",
        " - slot #2 LoadProperty MEGAMORPHIC {",
        " - slot #3 BinaryOp BinaryOp:SignedSmall {",
        " - slot #4 Literal  {",
        " - slot #5 LoadGlobalNotInsideTypeof UNINITIALIZED {",
    ]);
    let slot = |i: usize| match &phase.infos[i] {
        LineInfo::FeedbackSlot { index, ic, .. } => (*index, *ic),
        other => panic!("expected slot, got {other:?}"),
    };
    assert_eq!(slot(3), (0, IcState::Monomorphic));
    assert!(matches!(phase.infos[4], LineInfo::Control), "payload");
    assert_eq!(slot(7), (1, IcState::Polymorphic));
    assert_eq!(slot(8), (2, IcState::Megamorphic));
    assert_eq!(slot(9), (3, IcState::Other));
    assert_eq!(slot(10), (4, IcState::Other));
    assert_eq!(slot(11), (5, IcState::Uninitialized));
}

#[test]
fn slot_kind_and_state_spans_cover_the_tokens() {
    let text = " - slot #3 BinaryOp BinaryOp:SignedSmall {";
    let Some(LineInfo::FeedbackSlot {
        def_span,
        kind,
        state,
        ..
    }) = parse_slot_header(text.as_bytes())
    else {
        panic!("no slot");
    };
    assert_eq!(
        &text[def_span.start as usize..def_span.end as usize],
        "slot #3"
    );
    assert_eq!(&text[kind.start as usize..kind.end as usize], "BinaryOp");
    assert_eq!(
        &text[state.start as usize..state.end as usize],
        "BinaryOp:SignedSmall"
    );
}

fn node(info: &LineInfo) -> &IRNode {
    match info {
        LineInfo::Node(n) => n,
        other => panic!("expected node, got {other:?}"),
    }
}

#[test]
fn early_phase_node_line() {
    let (phase, parsed) = parse_lines(&[
        "  11: Int32AddWithOverflow [n9, n10], 1 uses, can truncate to int32 [-2147483648, 2147483647]",
    ]);
    let n = node(&phase.infos[1]);
    assert_eq!(n.id, 11);
    assert_eq!(n.schedule_pos, None);
    assert_eq!(parsed.opcodes[n.opcode as usize], "Int32AddWithOverflow");
    assert_eq!(
        n.inputs.iter().map(|r| r.node).collect::<Vec<_>>(),
        vec![9, 10]
    );
    assert_eq!(n.uses, Some(1));
    assert!(!n.dead);
}

#[test]
fn scheduled_node_line_with_decorated_inputs() {
    let (phase, parsed) = parse_lines(&[
        "    9/9: CheckedSmiUntag [v5/n2:[x0|R|t]] → [x0|R|w32], live range: [9-11]",
    ]);
    let n = node(&phase.infos[1]);
    assert_eq!(n.id, 9);
    assert_eq!(n.schedule_pos, Some(9));
    assert_eq!(parsed.opcodes[n.opcode as usize], "CheckedSmiUntag");
    assert_eq!(n.inputs.iter().map(|r| r.node).collect::<Vec<_>>(), vec![2]);
    assert_eq!(n.uses, None);
}

#[test]
fn opcode_tag_is_attached_bracket_not_inputs() {
    let (phase, parsed) =
        parse_lines(&["  14: Int32ToNumber[kCanonicalizeSmi] [v0/n11:(x)] → (x)"]);
    let n = node(&phase.infos[1]);
    assert_eq!(
        parsed.opcodes[n.opcode as usize],
        "Int32ToNumber[kCanonicalizeSmi]"
    );
    assert_eq!(
        n.inputs.iter().map(|r| r.node).collect::<Vec<_>>(),
        vec![11]
    );
}

#[test]
fn dead_marker_and_zero_uses() {
    let (phase, _) = parse_lines(&["   6: RootConstant(undefined_value), 0 uses 🪦"]);
    let n = node(&phase.infos[1]);
    assert_eq!(n.uses, Some(0));
    assert!(n.dead);
}

#[test]
fn branch_targets_are_collected() {
    let (phase, _) = parse_lines(&["╭────16: BranchIfInt32Compare(LessThan) [n13, n14] b2 b8"]);
    let n = node(&phase.infos[1]);
    assert_eq!(
        n.targets.iter().map(|t| t.block).collect::<Vec<_>>(),
        vec![2, 8]
    );
    assert_eq!(
        n.inputs.iter().map(|r| r.node).collect::<Vec<_>>(),
        vec![13, 14]
    );
}

#[test]
fn phi_line_with_paren_inputs() {
    let (phase, parsed) = parse_lines(&["││   30: φᵀ r0 (n28, n44), 3 uses"]);
    let n = node(&phase.infos[1]);
    assert_eq!(parsed.opcodes[n.opcode as usize], "φᵀ");
    assert_eq!(
        n.inputs.iter().map(|r| r.node).collect::<Vec<_>>(),
        vec![28, 44]
    );
    assert_eq!(n.uses, Some(3));
}

#[test]
fn gap_moves_define_no_node() {
    let (phase, _) = parse_lines(&[
        "    1/12: HeapConstant(0x1 <FeedbackCell>) → v-1, live range: [1-12]",
        "     16: GapMove([stack:-7|t] → [x0|R|t])",
    ]);
    let dual = node(&phase.infos[1]);
    assert_eq!(dual.id, 12);
    let gap = node(&phase.infos[2]);
    assert_eq!(gap.id, SCHEDULE_ONLY);
    assert!(!phase.defs.contains_key(&SCHEDULE_ONLY));
    assert_eq!(phase.node_count, 2);
}

#[test]
fn block_headers_behind_gutter() {
    let (phase, _) = parse_lines(&["│╭─►Block b4 peeled (effects: c1)", " Block b0"]);
    assert!(matches!(phase.infos[1], LineInfo::BlockHeader { block: 4 }));
    assert!(matches!(phase.infos[2], LineInfo::BlockHeader { block: 0 }));
    assert_eq!(phase.block_count, 2);
}

#[test]
fn eager_frame_attaches_forward_lazy_backward() {
    let (phase, parsed) = parse_lines(&[
        "   7: FunctionEntryStackCheck",
        "      ↳ lazy @-1 (4 live vars)",
        "      ↱ eager @2 (5 live vars)",
        "   9: CheckedSmiUntag [n2], 1 uses, cannot truncate to int32",
    ]);
    let LineInfo::Frame {
        after_node: lazy_at,
        frame: lazy_frame,
        ..
    } = &phase.infos[2]
    else {
        panic!("lazy frame expected");
    };
    assert_eq!(*lazy_at, Some(7));
    assert_eq!(parsed.frames[*lazy_frame as usize].arrow, FrameArrow::Lazy);
    assert_eq!(
        parsed.frames[*lazy_frame as usize].bytecode_offset,
        Some(-1)
    );
    let LineInfo::Frame {
        after_node: eager_at,
        ..
    } = &phase.infos[3]
    else {
        panic!("eager frame expected");
    };
    assert_eq!(
        *eager_at,
        Some(9),
        "eager frames belong to the node after them"
    );
}

#[test]
fn verbose_frames_intern_on_addr() {
    let (phase, parsed) = parse_lines(&[
        "   1: A",
        "      ↱ eager @0 : {<closure>:n3:, <this>:n1:, a0:n2:} (addr:0x124011b0fb8)",
        "   2: B",
        "      ↳ lazy @0 : {<closure>:n3:[stack:-2|t], <this>:n1:[stack:-6|t], a0:n2:[x1|R|t]} (addr:0x124011b0fb8)",
    ]);
    let LineInfo::Frame {
        frame: f1, refs, ..
    } = &phase.infos[2]
    else {
        panic!()
    };
    let LineInfo::Frame { frame: f2, .. } = &phase.infos[4] else {
        panic!()
    };
    assert_eq!(f1, f2, "same (addr:…) is the same frame");
    assert_eq!(parsed.frames.len(), 1);
    assert_eq!(parsed.frames[0].occurrences, 2);
    assert_eq!(
        refs.iter().map(|r| r.node).collect::<Vec<_>>(),
        vec![3, 1, 2],
        "verbose payload node refs are collected"
    );
}

#[test]
fn throw_frames_both_forms() {
    let (phase, parsed) = parse_lines(&[
        "   5: CallRuntime",
        "      ↳ throw @26 (b2) : {<this>:n1, a0:n2, <context>:n4, r0:n10}",
        "      ↳ throw (b3)",
    ]);
    let LineInfo::Frame { frame: f1, .. } = &phase.infos[2] else {
        panic!()
    };
    let LineInfo::Frame { frame: f2, .. } = &phase.infos[3] else {
        panic!()
    };
    assert_eq!(parsed.frames[*f1 as usize].catch_block, Some(2));
    assert_eq!(parsed.frames[*f1 as usize].bytecode_offset, Some(26));
    assert_eq!(parsed.frames[*f2 as usize].catch_block, Some(3));
    assert_eq!(parsed.frames[*f2 as usize].bytecode_offset, None);
}

#[test]
fn continuation_frame_lines_join_the_chain() {
    let (phase, _) = parse_lines(&[
        "        ↱ eager @46 (4 live vars)",
        "        │       @24 (6 live vars)",
        "   38: Int32AddWithOverflow [n34, n37], 2 uses",
    ]);
    assert!(matches!(phase.infos[1], LineInfo::Frame { .. }));
    assert!(matches!(phase.infos[2], LineInfo::Frame { .. }));
    for i in [1, 2] {
        let LineInfo::Frame { after_node, .. } = &phase.infos[i] else {
            panic!()
        };
        assert_eq!(*after_node, Some(38));
    }
}

#[test]
fn interleaved_bytecode_and_sfi_context() {
    let (phase, parsed) = parse_lines(&[
        "   2 : 42 03 01          Add a0, EmbeddedFeedback[1]",
        "0x09b80101e2cd <SharedFunctionInfo add> (0x09b80104a3e5 <String[19]: \"workloads/simple.js\">:2:12)",
    ]);
    assert!(matches!(&phase.infos[1], LineInfo::Bytecode(bc) if bc.offset == 2 && !bc.primary));
    let LineInfo::SfiContext {
        line,
        col,
        same_script,
    } = &phase.infos[2]
    else {
        panic!("expected sfi context, got {:?}", phase.infos[2]);
    };
    assert_eq!((*line, *col), (2, 12), "0-based definition anchor");
    assert!(*same_script);
    assert_eq!(parsed.script.as_deref(), Some("workloads/simple.js"));
}

#[test]
fn section_trailers_inside_a_phase_are_structure_not_annotations() {
    let (phase, _) = parse_lines(&[
        "  10: Foo [n2]",
        "---------------------------------------------------",
        "Finished compiling method bnpFromString using TurboFan",
    ]);
    assert!(matches!(phase.infos[2], LineInfo::Control), "closing rule");
    assert!(matches!(phase.infos[3], LineInfo::Control), "trailer");
    assert_eq!(phase.annotation_count, 0);
}

#[test]
fn unmatched_lines_attach_to_the_preceding_node() {
    let (phase, _) = parse_lines(&[
        "  10: Foo [n2]",
        "     allocating v5 to x0 (regalloc trace)",
    ]);
    let LineInfo::Annotation { after_node } = &phase.infos[2] else {
        panic!("expected annotation, got {:?}", phase.infos[2]);
    };
    assert_eq!(*after_node, Some(10));
    assert_eq!(phase.annotation_count, 1);
}

#[test]
fn def_use_maps_are_built() {
    let (phase, _) = parse_lines(&[
        "   9: CheckedSmiUntag [n2], 1 uses",
        "  11: Int32AddWithOverflow [n9, n10], 1 uses",
    ]);
    assert_eq!(phase.defs[&9], 1);
    assert_eq!(phase.defs[&11], 2);
    assert_eq!(phase.users[&9], vec![2]);
    assert_eq!(phase.users[&2], vec![1]);
}

#[test]
fn spans_index_the_stripped_text() {
    let (phase, _) = parse_lines(&["  11: Int32AddWithOverflow [n9, n10], 1 uses"]);
    let n = node(&phase.infos[1]);
    let text = "  11: Int32AddWithOverflow [n9, n10], 1 uses";
    assert_eq!(
        &text[n.def_span.start as usize..n.def_span.end as usize],
        "11"
    );
    assert_eq!(
        &text[n.opcode_span.start as usize..n.opcode_span.end as usize],
        "Int32AddWithOverflow"
    );
    let spans: Vec<&str> = n
        .inputs
        .iter()
        .map(|r| &text[r.span.start as usize..r.span.end as usize])
        .collect();
    assert_eq!(spans, vec!["n9", "n10"]);
}
#[test]
fn turboshaft_phase_inside_turbolev_routes_to_turboshaft_grammar() {
    let trace = "\
----- Bytecode before MaglevGraphBuilding -----
Function: 0x9 <JSFunction add (sfi = 0x77)>
----- Maglev graph building -----
   1: Foo
----- Turboshaft lowering -----
MERGE B2 <- B0, B1
   47: OverflowCheckedBinop(#42, #42)[signed add, Word32]
   51: Branch(#49)[B5, B4, False]
";
    let mut buffer = LogBuffer::new();
    buffer.append(trace.as_bytes());
    buffer.finish();
    let mut idx = TraceIndex::new(None);
    idx.ingest(&buffer, true);
    let section = &idx.compilations[0];
    assert_eq!(section.phases.len(), 3);

    let parsed = parse_compilation(&buffer, section);
    assert!(matches!(
        parsed.phases[1].infos[1],
        LineInfo::Node(ref n) if n.id == 1
    ));
    let ts = &parsed.phases[2];
    assert!(matches!(ts.infos[1], LineInfo::BlockHeader { block: 2 }));
    let LineInfo::Node(ref binop) = ts.infos[2] else {
        panic!("expected node, got {:?}", ts.infos[2]);
    };
    assert_eq!(binop.id, 47);
    assert_eq!(
        binop.inputs.iter().map(|r| r.node).collect::<Vec<_>>(),
        vec![42, 42]
    );
    let LineInfo::Node(ref branch) = ts.infos[3] else {
        panic!()
    };
    assert_eq!(
        branch.targets.iter().map(|t| t.block).collect::<Vec<_>>(),
        vec![5, 4]
    );
    assert_eq!(ts.defs[&47], 2, "defs feed i/u jumps");
    assert_eq!(ts.users[&42], vec![2, 2], "one entry per reference");
    assert_eq!(ts.block_count, 1);
}

#[test]
fn preamble_inline_decisions_with_and_without_ids() {
    let mut decisions = Vec::new();
    classify_preamble(
        "⚡ INLINE small                          Small function, skipping max-depth".as_bytes(),
        5,
        &mut decisions,
    );
    classify_preamble(
        "[ML:38612] ❌ SKIP   big                            big function, size (174) >= max-size (100)".as_bytes(),
        6,
        &mut decisions,
    );
    assert_eq!(
        decisions,
        vec![
            InlineDecision {
                line: 5,
                inlined: true,
                callee: "small".into(),
                reason: "Small function, skipping max-depth".into(),
            },
            InlineDecision {
                line: 6,
                inlined: false,
                callee: "big".into(),
                reason: "big function, size (174) >= max-size (100)".into(),
            },
        ]
    );
}
#[test]
fn object_descriptor_text_is_not_a_node_ref() {
    let (phase, _) = parse_lines(&[
        "  12: CallKnownJSFunction(0x1 <JSFunction n1 (sfi = 0x2)>) [n3, n4], 1 uses",
        "  13: LoadField(0x3 <String[4]: \"n9x\">) [n12], 1 uses",
    ]);
    let call = node(&phase.infos[1]);
    assert_eq!(
        call.inputs.iter().map(|r| r.node).collect::<Vec<_>>(),
        vec![3, 4],
        "the callee named n1 must not become an input"
    );
    let load = node(&phase.infos[2]);
    assert_eq!(
        load.inputs.iter().map(|r| r.node).collect::<Vec<_>>(),
        vec![12],
        "quoted string content must not become an input"
    );
}

#[test]
fn garbage_is_annotations_not_panics() {
    let (phase, _) = parse_lines(&[
        "\u{fffd}\u{fffd}\u{fffd}",
        "1234567890123456789012345678901234567890: ",
        "-9/x: huh",
        "↱",
        "@@",
        ": no ids",
    ]);
    assert_eq!(phase.infos.len(), 7);
}
