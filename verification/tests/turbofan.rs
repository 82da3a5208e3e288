use garage::model::{IRNode, LineInfo, ParsedCompilation, ParsedPhase, SCHEDULE_ONLY};
use garage::parse::intern::Interner;
use garage::parse::turbofan::parse_phase;
use garage::source::LogBuffer;

fn parse(name: &str, body: &[&str]) -> (ParsedPhase, ParsedCompilation) {
    let mut text = format!("----- {name} -----\n");
    for l in body {
        text.push_str(l);
        text.push('\n');
    }
    let mut buffer = LogBuffer::new();
    buffer.append(text.as_bytes());
    buffer.finish();
    let mut interner = Interner::new();
    let phase = parse_phase(&buffer, 0..buffer.line_count(), name, &mut interner);
    let parsed = ParsedCompilation {
        opcodes: interner.opcodes,
        ..Default::default()
    };
    (phase, parsed)
}

fn node(info: &LineInfo) -> &IRNode {
    match info {
        LineInfo::Node(n) => n,
        other => panic!("expected node, got {other:?}"),
    }
}

#[test]
fn sea_of_nodes_line() {
    let (phase, parsed) = parse(
        "Graph after V8.TFTyper",
        &[
            "#17:SpeculativeSmallIntegerAdd[SignedSmall](#2:Parameter, #3:Parameter, #15:Checkpoint, #9:JSStackCheck)",
            "#18:NumberConstant[0]()",
        ],
    );
    let n = node(&phase.infos[1]);
    assert_eq!(n.id, 17);
    assert_eq!(
        parsed.opcodes[n.opcode as usize],
        "SpeculativeSmallIntegerAdd"
    );
    assert_eq!(
        n.inputs.iter().map(|r| r.node).collect::<Vec<_>>(),
        vec![2, 3, 15, 9]
    );
    let c = node(&phase.infos[2]);
    assert_eq!(c.id, 18);
    assert!(c.inputs.is_empty(), "the [0] parameter is not an input");
    assert_eq!(phase.defs[&17], 1);
    assert_eq!(phase.users[&2], vec![1]);
}

#[test]
fn schedule_block_and_node() {
    let (phase, parsed) = parse(
        "schedule",
        &[
            "--- BLOCK B0 id0 ---",
            "  5: Parameter[6, debug name: %context](0) : OtherInternal",
            "  17: CheckedInt32Add(33, 34, 34, 9) : (MinusZero | Range(-1, 1))",
            "  19: Return(35, 36, 17, 9) -> B1",
            "--- BLOCK B1 id1 <- B0 ---",
        ],
    );
    assert!(matches!(phase.infos[1], LineInfo::BlockHeader { block: 0 }));
    assert!(matches!(phase.infos[5], LineInfo::BlockHeader { block: 1 }));
    let p = node(&phase.infos[2]);
    assert_eq!(parsed.opcodes[p.opcode as usize], "Parameter");
    assert_eq!(p.inputs.iter().map(|r| r.node).collect::<Vec<_>>(), vec![0]);
    let add = node(&phase.infos[3]);
    assert_eq!(
        add.inputs.iter().map(|r| r.node).collect::<Vec<_>>(),
        vec![33, 34, 34, 9],
        "type annotation numbers must not become inputs"
    );
    let ret = node(&phase.infos[4]);
    assert_eq!(
        ret.targets.iter().map(|t| t.block).collect::<Vec<_>>(),
        vec![1]
    );
}

#[test]
fn turboshaft_blocks_ops_and_targets() {
    let (phase, parsed) = parse(
        "V8.TFTurboshaftMachineLowering",
        &[
            "BLOCK B3 <- B2",
            "   47: OverflowCheckedBinop(#42, #42)[signed add, Word32]",
            "   51: Branch(#49)[B5, B4, False]",
            "MERGE B9 <- B7, B8",
            "   79: Store *(#85 + #86) = #84 [raw, TaggedPointer, NoWriteBarrier]",
            "   61: Goto()[B6, 0]",
        ],
    );
    assert!(matches!(phase.infos[1], LineInfo::BlockHeader { block: 3 }));
    assert!(matches!(phase.infos[4], LineInfo::BlockHeader { block: 9 }));
    let binop = node(&phase.infos[2]);
    assert_eq!(
        parsed.opcodes[binop.opcode as usize],
        "OverflowCheckedBinop"
    );
    assert_eq!(
        binop.inputs.iter().map(|r| r.node).collect::<Vec<_>>(),
        vec![42, 42]
    );
    let branch = node(&phase.infos[3]);
    assert_eq!(
        branch.targets.iter().map(|t| t.block).collect::<Vec<_>>(),
        vec![5, 4]
    );
    let store = node(&phase.infos[5]);
    assert_eq!(
        store.inputs.iter().map(|r| r.node).collect::<Vec<_>>(),
        vec![85, 86, 84],
        "memory-form refs outside the parens are collected"
    );
    let goto = node(&phase.infos[6]);
    assert_eq!(
        goto.targets.iter().map(|t| t.block).collect::<Vec<_>>(),
        vec![6]
    );
}

#[test]
fn instruction_sequence_defs_and_uses() {
    let (phase, parsed) = parse(
        "Instruction sequence after instruction selection",
        &[
            "IMM#0: 0x09b8001a9659 <Code BUILTIN AllocateInYoungGeneration>",
            "B0: AO#0  instructions: [0, 7)",
            " predecessors:",
            "       5: gap () ()",
            "          v35(R) = Arm64Ldr : Root #-224",
            "          v28(=x0) = ArchCallCodeObject [immediate:4] v23(S) v30(=x1)",
            "          ArchJmp [rpo_immediate:3]",
            " successors: B2 B1",
        ],
    );
    assert!(matches!(phase.infos[1], LineInfo::Control));
    assert!(matches!(phase.infos[2], LineInfo::BlockHeader { block: 0 }));
    assert!(matches!(phase.infos[3], LineInfo::Control));
    let gap = node(&phase.infos[4]);
    assert_eq!(gap.id, SCHEDULE_ONLY);
    let ldr = node(&phase.infos[5]);
    assert_eq!(ldr.id, 35);
    assert_eq!(parsed.opcodes[ldr.opcode as usize], "Arm64Ldr");
    let call = node(&phase.infos[6]);
    assert_eq!(call.id, 28);
    assert_eq!(
        call.inputs.iter().map(|r| r.node).collect::<Vec<_>>(),
        vec![23, 30]
    );
    assert_eq!(phase.defs[&28], 6);
    assert_eq!(phase.users[&23], vec![6]);
    let jmp = node(&phase.infos[7]);
    assert_eq!(jmp.id, SCHEDULE_ONLY);
    assert_eq!(parsed.opcodes[jmp.opcode as usize], "ArchJmp");
}
#[test]
fn instruction_edge_shapes() {
    let (phase, parsed) = parse(
        "Instruction sequence after register allocation",
        &[
            "          [x3|R|w32] = Arm64Asr32 [x2|R|t] #1",
            "          [constant:v32] = ArchNop",
            "          phi: v6 = v8 v9",
            "          phi: [r9|R|w64] = v28 v29",
            "Process memory usage:",
            "Uncaught TypeError: x is not a function",
        ],
    );
    let asr = node(&phase.infos[1]);
    assert_eq!(asr.id, SCHEDULE_ONLY);
    assert_eq!(
        parsed.opcodes[asr.opcode as usize], "Arm64Asr32",
        "bracket destinations must not lose the opcode"
    );
    let nop = node(&phase.infos[2]);
    assert_eq!(parsed.opcodes[nop.opcode as usize], "ArchNop");
    assert_eq!(
        nop.inputs.iter().map(|r| r.node).collect::<Vec<_>>(),
        vec![32]
    );
    let phi = node(&phase.infos[3]);
    assert_eq!(phi.id, 6, "vreg destination is a def");
    assert_eq!(parsed.opcodes[phi.opcode as usize], "phi");
    assert_eq!(
        phi.inputs.iter().map(|r| r.node).collect::<Vec<_>>(),
        vec![8, 9]
    );
    assert_eq!(phase.defs[&6], 3);
    let loc_phi = node(&phase.infos[4]);
    assert_eq!(
        loc_phi.id, SCHEDULE_ONLY,
        "location destination defs nothing"
    );
    assert_eq!(
        loc_phi.inputs.iter().map(|r| r.node).collect::<Vec<_>>(),
        vec![28, 29]
    );
    assert!(
        matches!(phase.infos[5], LineInfo::Annotation { .. }),
        "prose is not IR: {:?}",
        phase.infos[5]
    );
    assert!(matches!(phase.infos[6], LineInfo::Annotation { .. }));
}

#[test]
fn turboshaft_loop_header_and_schedule_parenless_rows() {
    let (phase, _) = parse(
        "V8.TFTurboshaftLoopUnrolling",
        &["LOOP B2 <- B1, B4", "   12: JSStackCheck(#9, #7)[loop]"],
    );
    assert!(matches!(phase.infos[1], LineInfo::BlockHeader { block: 2 }));

    let (phase, parsed) = parse(
        "schedule",
        &["  0: Start : Internal", "  33: Int32Constant[0]"],
    );
    let start = node(&phase.infos[1]);
    assert_eq!(parsed.opcodes[start.opcode as usize], "Start");
    assert!(start.inputs.is_empty());
    let c = node(&phase.infos[2]);
    assert_eq!(c.id, 33);
    assert!(c.inputs.is_empty());
}

#[test]
fn garbage_degrades_to_annotations() {
    let (phase, _) = parse(
        "Graph after V8.TFTyper",
        &[
            "#:broken",
            "#12",
            "not a node at all",
            "#999999999999999999:Op()",
        ],
    );
    for info in &phase.infos[1..] {
        assert!(matches!(info, LineInfo::Annotation { .. }), "got {info:?}");
    }
}
