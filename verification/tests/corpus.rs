use garage::index::TraceIndex;
use garage::parse::compilation::parse_compilation;
use garage::source::LogBuffer;

const MAGLEV: &str = "\
V8 is running with developer-only features enabled.
---------------------------------------------------
Begin compiling method add using Maglev
Compiling 0x09b80101e371 <JSFunction add (sfi = 0x9b80101e2cd)> with Maglev
\u{26a1} INLINE small                          Small function
----- Bytecode array -----
Parameter count 3
         0x31a010001b0 @    0 : 33 03 00 00       GetNamedProperty a0, [0:\"v\"], FBV[0]
----- Maglev graph building -----
Graph
\u{256d}\u{2500}\u{25ba}Block b0
   7: FunctionEntryStackCheck
      \u{21b3} lazy @-1 (4 live vars)
   9: CheckedSmiUntag [n2], 1 uses
----- Register allocation -----
    9/9: CheckedSmiUntag [v5/n2:[x0|R|t]] \u{2192} [x0|R|w32]
---------------------------------------------------
Finished compiling method add using Maglev
[bailout (kind: deopt-eager, reason: not a Smi): begin. deoptimizing 0x09b8 <JSFunction add (sfi = 0x9b80101e2cd)>, 0x031a <Code MAGLEV>, opt id 1, bytecode offset 2, deopt exit 0, FP to SP delta 32, caller SP 0x0001, pc 0x0002]
            ;;; deoptimize at <x.js:1:1>
[bailout end. took 0.010 ms]
done
";

const TURBOFAN: &str = "\
Begin compiling method g using TurboFan
----- Graph after V8.TFTyper -----
#17:SpeculativeSmallIntegerAdd[SignedSmall](#2:Parameter, #3:Parameter)
----- V8.TFTurboshaftMachineLowering -----
BLOCK B3 <- B2
   47: OverflowCheckedBinop(#42, #42)[signed add, Word32]
Finished compiling method g using TurboFan
--- Raw source ---
(a) {
  return a;
}
--- Optimized code ---
kind = TURBOFAN_JS
name = g
Instructions (size = 8)
0x200    0  aa  ret
--- End code ---
";

fn index(buffer: &LogBuffer) -> TraceIndex {
    let mut idx = TraceIndex::new(None);
    idx.ingest(buffer, true);
    idx
}

fn load(bytes: &[u8]) -> LogBuffer {
    let mut buffer = LogBuffer::new();
    buffer.append(bytes);
    buffer.finish();
    buffer
}

fn assert_partition(idx: &TraceIndex, line_count: usize, name: &str) {
    let mut ranges: Vec<(usize, usize)> = idx
        .compilations
        .iter()
        .map(|c| (c.lines.start, c.lines.end))
        .chain(idx.raw.iter().map(|r| (r.lines.start, r.lines.end)))
        .collect();
    ranges.sort();
    let mut at = 0;
    for (start, end) in ranges {
        assert_eq!(start, at, "{name}: gap or overlap at line {at}");
        assert!(end >= start, "{name}: negative section");
        at = end;
    }
    assert_eq!(at, line_count, "{name}: sections do not cover the file");
}

fn assert_parses(buffer: &LogBuffer, idx: &TraceIndex, name: &str) {
    for c in &idx.compilations {
        let parsed = parse_compilation(buffer, c);
        assert_eq!(parsed.phases.len(), c.phases.len(), "{name}");
        for (section, phase) in c.phases.iter().zip(&parsed.phases) {
            assert_eq!(
                phase.infos.len(),
                section.lines.len(),
                "{name}: every line of {:?} classified",
                section.name
            );
        }
    }
}

fn noise(mut state: u64) -> impl FnMut() -> u64 {
    move || {
        state ^= state << 13;
        state ^= state >> 7;
        state ^= state << 17;
        state
    }
}

#[test]
fn every_trace_partitions_and_is_classified() {
    for trace in [MAGLEV, TURBOFAN] {
        let buffer = load(trace.as_bytes());
        let idx = index(&buffer);
        assert!(!idx.compilations.is_empty());
        assert_partition(&idx, buffer.line_count(), "whole");
        assert_parses(&buffer, &idx, "whole");
    }
}

#[test]
fn every_prefix_of_a_trace_is_survivable() {
    for trace in [MAGLEV, TURBOFAN] {
        for cut in 0..trace.len() {
            let buffer = load(&trace.as_bytes()[..cut]);
            let idx = index(&buffer);
            assert_partition(&idx, buffer.line_count(), "cut");
            assert_parses(&buffer, &idx, "cut");
        }
    }
}

#[test]
fn mutated_traces_never_panic() {
    let mut rand = noise(0x9e37_79b9_7f4a_7c15);
    for round in 0..200 {
        let mut data = MAGLEV.as_bytes().to_vec();
        for _ in 0..(rand() % 8 + 1) {
            match rand() % 4 {
                0 => {
                    let at = (rand() as usize) % data.len();
                    data[at] = (rand() & 0xff) as u8;
                }
                1 => {
                    let at = (rand() as usize) % data.len();
                    data.truncate(at.max(1));
                }
                2 => {
                    let fragments: [&[u8]; 4] = [
                        b"\nCompiling 0x1 <JSFunction f (sfi = 0x10)> with Maglev\n",
                        b"\n----- Register allocation -----\n",
                        b"\n      \xe2\x86\xb1 eager @2 (5 live vars)\n",
                        b"\n[bailout (kind: deopt-eager, reason: x): begin. deoptimizing ",
                    ];
                    let frag = fragments[(rand() as usize) % fragments.len()];
                    let at = (rand() as usize) % data.len();
                    data.splice(at..at, frag.iter().copied());
                }
                _ => {
                    let a = (rand() as usize) % data.len();
                    let b = ((rand() as usize) % data.len()).max(a);
                    let slice = data[a..b.min(a + 4096)].to_vec();
                    data.extend_from_slice(&slice);
                }
            }
        }
        let buffer = load(&data);
        let idx = index(&buffer);
        assert_partition(&idx, buffer.line_count(), &format!("round {round}"));
        assert_parses(&buffer, &idx, "round");
    }
}

#[test]
fn garbage_around_boundaries_is_survivable() {
    let mut rand = noise(0x243f_6a88_85a3_08d3);
    let garbage: Vec<u8> = (0..(1 << 14)).map(|_| (rand() & 0xff) as u8).collect();
    let spliced = [
        &garbage[..1024],
        b"\nCompiling 0x1 <JSFunction f (sfi = 0x10)> with Maglev\n".as_slice(),
        &garbage[1024..2048],
        b"\n----- Maglev graph building -----\n",
        &garbage[2048..4096],
        b"\n   9: CheckedSmiUntag [n2], 1 uses\n      \xe2\x86\xb1 eager @2 (5 live vars)\n",
        &garbage[4096..],
    ]
    .concat();
    let buffer = load(&spliced);
    let idx = index(&buffer);
    assert_partition(&idx, buffer.line_count(), "garbage");
    assert_parses(&buffer, &idx, "garbage");
}

#[test]
fn decisions_do_not_depend_on_the_id_prefix() {
    let decisions = |trace: &str| {
        let buffer = load(trace.as_bytes());
        let idx = index(&buffer);
        let mut all: Vec<(bool, String, String)> = Vec::new();
        for c in &idx.compilations {
            for d in parse_compilation(&buffer, c).inline_decisions {
                all.push((d.inlined, d.callee, d.reason));
            }
        }
        all
    };
    let plain = decisions(MAGLEV);
    let tagged = decisions(&MAGLEV.replace("\u{26a1} INLINE", "[ML:38612] \u{26a1} INLINE"));
    assert_eq!(plain.len(), 1);
    assert_eq!(plain, tagged);
}

#[test]
fn arriving_in_pieces_changes_nothing() {
    let whole = load(MAGLEV.as_bytes());
    let once = index(&whole);
    for size in [1, 7, 64] {
        let mut buffer = LogBuffer::new();
        let mut idx = TraceIndex::new(None);
        for chunk in MAGLEV.as_bytes().chunks(size) {
            buffer.append(chunk);
            idx.ingest(&buffer, false);
        }
        buffer.finish();
        idx.ingest(&buffer, true);
        assert_eq!(idx.compilations.len(), once.compilations.len());
        for (a, b) in idx.compilations.iter().zip(&once.compilations) {
            assert_eq!(a.lines, b.lines);
            assert_eq!(a.name, b.name);
            assert_eq!(a.phases.len(), b.phases.len());
        }
        assert_eq!(idx.events.len(), once.events.len());
        assert_eq!(idx.raw.len(), once.raw.len());
    }
}
