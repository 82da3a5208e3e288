use garage::model::{Addr, CompilationKey, CompilationSection, Tier};

#[test]
fn addr_ignores_zero_padding() {
    assert_eq!(
        Addr::parse("0x09b80101e2cd").unwrap(),
        Addr::parse("0x9b80101e2cd").unwrap()
    );
    assert!(Addr::parse("not-hex").is_none());
}

#[test]
fn tier_maps_both_spellings() {
    assert_eq!(Tier::parse("Maglev"), Tier::parse("MAGLEV"));
    assert_eq!(Tier::parse("TURBOFAN_JS"), Tier::parse("Turbofan"));
    assert_eq!(Tier::parse("Weird"), Tier::Other("Weird".into()));
}

#[test]
fn toplevel_display_name_falls_back() {
    let c = CompilationSection {
        key: CompilationKey {
            sfi: Addr(1),
            tier: Tier::Maglev,
            ordinal: 1,
        },
        name: String::new(),
        function_addr: None,
        lines: 0..0,
        osr: None,
        phases: vec![],
        preamble: 0..0,
        filtered_out: false,
    };
    assert_eq!(c.display_name(), "<toplevel>");
}
