use garage::survey::{
    begin_compiling, block_label, compiling_with, is_finished_compiling, node_id, parse,
    phase_banner, shape, strip_ansi, timeline_event, trace_channel,
};

fn pair(a: &str, b: &str) -> Option<(String, String)> {
    Some((a.to_string(), b.to_string()))
}

#[test]
fn escapes_end_at_a_letter() {
    assert_eq!(strip_ansi("\u{1b}[1;32mx\u{1b}[0my"), "xy");
    assert_eq!(strip_ansi("plain → text"), "plain → text");
    assert_eq!(strip_ansi("cut \u{1b}[12"), "cut ");
    assert_eq!(strip_ansi("\u{1b}x"), "\u{1b}x");
}

#[test]
fn node_lines_are_told_from_bytecode() {
    assert_eq!(node_id("  12: Float64Add [n9, n11], 2 uses"), Some(12));
    assert_eq!(node_id("  11/6: InitialValue(a0) -> v-1"), Some(6));
    assert_eq!(node_id("   0 : 0b 04   Ldar a1"), None);
    assert_eq!(node_id("12"), None);
    assert_eq!(node_id("x12: y"), None);
    assert_eq!(node_id("4294967295: A"), Some(u32::MAX));
    assert_eq!(node_id("4294967296: A"), None);
    assert_eq!(node_id("7/: A"), None);
}

#[test]
fn the_anchor_names_function_and_tier() {
    assert_eq!(
        compiling_with("Compiling 0x09b8 <JSFunction add (sfi = 0x9b8)> with Maglev "),
        pair("add", "Maglev")
    );
    assert_eq!(
        compiling_with("Compiling 0x1 <JSFunction (sfi = 0x9)> with Turbofan"),
        pair("", "Turbofan")
    );
    assert_eq!(compiling_with("Compiling nothing"), None);
    assert_eq!(compiling_with("compiling x with Maglev"), None);
}

#[test]
fn the_begin_line_may_have_no_name() {
    assert_eq!(
        begin_compiling("Begin compiling method foo using Maglev"),
        pair("foo", "Maglev")
    );
    assert_eq!(
        begin_compiling("Begin compiling method  using Maglev"),
        pair("", "Maglev")
    );
    assert_eq!(begin_compiling("Begin compiling method foo"), None);
    assert!(is_finished_compiling("Finished compiling method foo"));
    assert!(!is_finished_compiling(" Finished compiling method foo"));
}

#[test]
fn banners_may_trail_white_space() {
    assert_eq!(
        phase_banner("----- Graph after V8.TFTyper ----- "),
        Some("Graph after V8.TFTyper".to_string())
    );
    assert_eq!(phase_banner("----- -----"), None);
    assert_eq!(phase_banner("-----  -----"), None);
    assert_eq!(phase_banner("----- x ----"), None);
}

#[test]
fn blocks_channels_and_events_have_labels() {
    assert_eq!(block_label(" Block b12 (effects)"), Some("b12".to_string()));
    assert_eq!(block_label(" Block x"), None);
    assert_eq!(block_label("Block "), None);
    assert_eq!(trace_channel("[ML:38564] INLINE"), Some("ML".to_string()));
    assert_eq!(trace_channel("[OSR] x"), Some("OSR".to_string()));
    assert_eq!(trace_channel("[TOOLONG:1] x"), None);
    assert_eq!(trace_channel("[ML:38564"), None);
    assert_eq!(trace_channel("[marking x]"), None);
    assert_eq!(
        timeline_event("[bailout (kind: x)]"),
        Some("bailout".to_string())
    );
    assert_eq!(timeline_event("[12]"), None);
    assert_eq!(timeline_event("x"), None);
}

#[test]
fn shapes_forget_numbers_and_addresses() {
    assert_eq!(shape("  at 0x1fA2:   12 foo  "), "at H: # foo");
    assert_eq!(shape("0x"), "H");
    assert_eq!(shape(&"a".repeat(100)), "a".repeat(90));
    assert_eq!(shape(""), "");
}

#[test]
fn a_survey_counts_every_line_once() {
    let st = parse(
        "hello\r\n\
         Compiling 0x1 <JSFunction f (sfi = 0x10)> with Maglev\n\
         early\n\
         ----- Graph building -----\n \
         Block b0\n   \
         1: Foo\n   \
         2: Bar [n1]\n   \
         at 0x12: 7\n   \
         at 0x99: 8\n\n\
         [ML:1] INLINE\n\
         [bailout (x)]\n\
         Finished compiling method f",
    );
    assert_eq!(st.orphan, 1);
    assert_eq!(st.compilations.len(), 1);
    let c = &st.compilations[0];
    assert_eq!((c.name.as_str(), c.tier.as_str(), c.line), ("f", "Maglev", 2));
    assert_eq!(c.preamble_annotations, 1);
    let p = &c.phases[0];
    assert_eq!((p.name.as_str(), p.line), ("Graph building", 4));
    assert_eq!((p.blocks, p.nodes, p.annotations), (1, 2, 3));
    assert_eq!(st.unclassified.get("at H: #"), 2);
    assert_eq!(st.channels.get("ML"), 1);
    assert_eq!(st.timeline.get("bailout"), 1);
    assert_eq!(st.timeline.get("marking"), 0);
}

#[test]
fn a_banner_outside_any_compilation_is_an_orphan() {
    let st = parse("----- x -----\n\n[ML:1] y");
    assert_eq!(st.orphan, 2);
    assert!(st.compilations.is_empty());
}
