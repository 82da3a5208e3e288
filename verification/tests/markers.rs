use garage::markers::{MarkerTable, VersionVotes};

#[test]
fn embedded_table_parses_and_knows_both_versions() {
    let t = MarkerTable::get();
    assert_eq!(
        *t.phase_versions("Maglev graph building").unwrap(),
        vec!["15.2".to_string()]
    );
    assert_eq!(
        *t.phase_versions("After graph building").unwrap(),
        vec!["14.9".to_string()]
    );
    assert!(t.phase_versions("Bytecode array").is_none());
    assert!(t.phase_versions("No such phase").is_none());
}

#[test]
fn version_detection_takes_the_majority() {
    let t = MarkerTable::get();
    let mut votes = VersionVotes::default();
    votes.record(t.phase_versions("Maglev graph building").unwrap());
    votes.record(t.phase_versions("Phi untagging").unwrap());
    votes.record(t.phase_versions("After truncation").unwrap());
    assert_eq!(votes.detected(), Some("15.2"));
}
