use garage::model::LineInfo;
use garage::parse::listing::parse_disasm_row;

fn row(text: &str) -> Option<LineInfo> {
    parse_disasm_row(text.as_bytes())
}

#[test]
fn arm64_row_with_target_and_comment() {
    let text = "0x170000234    94  5800033b       ldr cp, pc+100 (addr 0x0000000170000298)    ;; object: 0x09b8010049f9 <NativeContext[310]>";
    let Some(LineInfo::Disasm {
        offset,
        mnemonic,
        target,
        comment,
        ..
    }) = row(text)
    else {
        panic!("disasm row expected");
    };
    assert_eq!(offset, 0x94);
    assert_eq!(&text[mnemonic.start as usize..mnemonic.end as usize], "ldr");
    let t = target.unwrap();
    assert_eq!(
        &text[t.start as usize..t.end as usize],
        "(addr 0x0000000170000298)"
    );
    let c = comment.unwrap();
    assert!(text[c.start as usize..c.end as usize].starts_with(";; object"));
}

#[test]
fn x64_row_with_relative_target() {
    let text = "0x1639401d3    13  0f8658000000         jna 0x163940231  <+0x71>";
    let Some(LineInfo::Disasm {
        offset,
        mnemonic,
        target,
        comment,
        ..
    }) = row(text)
    else {
        panic!("disasm row expected");
    };
    assert_eq!(offset, 0x13);
    assert_eq!(&text[mnemonic.start as usize..mnemonic.end as usize], "jna");
    assert_eq!(
        &text[target.clone().unwrap().start as usize..target.unwrap().end as usize],
        "<+0x71>"
    );
    assert!(comment.is_none());
}

#[test]
fn lookalikes_are_rejected() {
    assert!(row("0x09b80101e2cd <SharedFunctionInfo add> (…)").is_none());
    assert!(row("0x31a01000085: [TrustedFixedArray]").is_none());
    assert!(row("0x17000023c     9c  slots (sp->fp): 100000").is_none());
    assert!(row("0x170000234  full embedded object  (0x09b8…)").is_none());
    assert!(row("     0                2    NA ").is_none());
}

#[test]
fn x64_variable_length_encodings_parse() {
    let text = "0x1639401c1     1  488bec               REX.W movq rbp,rsp";
    let Some(LineInfo::Disasm {
        offset, mnemonic, ..
    }) = row(text)
    else {
        panic!()
    };
    assert_eq!(offset, 1);
    assert_eq!(
        &text[mnemonic.start as usize..mnemonic.end as usize],
        "REX.W"
    );
}
