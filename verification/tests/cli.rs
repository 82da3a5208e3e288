use garage::cli::{
    choose_sources, log_filter, split_at_double_dash, Cli, CliError, Invocation,
};
use garage::source::{LogSource, SourceError};

fn words(list: &[&str]) -> Vec<Vec<u8>> {
    list.iter().map(|w| w.as_bytes().to_vec()).collect()
}

fn cli(files: &[&str], function: Option<&str>) -> Cli {
    Cli {
        files: words(files),
        function: function.map(|f| f.to_string()),
        config: None,
        debug: false,
        log_file: b"garage.log".to_vec(),
    }
}

#[test]
fn double_dash_separates_the_wrapped_command() {
    let (head, command) = split_at_double_dash(&words(&[
        "garage",
        "--debug",
        "--",
        "d8",
        "--print-maglev-graphs",
        "x.js",
    ]));
    assert_eq!(head, words(&["garage", "--debug"]));
    let inv = Invocation::from_argv(cli(&[], None), command).unwrap();
    assert!(inv.cli.files.is_empty());
    assert_eq!(
        inv.command.unwrap(),
        words(&["d8", "--print-maglev-graphs", "x.js"])
    );
}

#[test]
fn wrapped_command_keeps_its_own_flags() {
    let (head, command) = split_at_double_dash(&words(&[
        "garage",
        "--",
        "d8",
        "--debug",
        "--function",
        "foo",
    ]));
    assert_eq!(head, words(&["garage"]));
    let inv = Invocation::from_argv(cli(&[], None), command).unwrap();
    assert!(inv.cli.function.is_none());
    assert_eq!(inv.command.unwrap().len(), 4);
}

#[test]
fn trailing_double_dash_is_an_error() {
    let (_, command) = split_at_double_dash(&words(&["garage", "--"]));
    let error = Invocation::from_argv(cli(&[], None), command).err().unwrap();
    assert!(matches!(error, CliError::NoCommand));
    assert!(error.describe().starts_with("expected a command after `--`"));
}

#[test]
fn files_and_wrapped_command_are_exclusive() {
    let (_, command) = split_at_double_dash(&words(&["garage", "a.log", "--", "d8", "x.js"]));
    let error = Invocation::from_argv(cli(&["a.log"], None), command)
        .err()
        .unwrap();
    assert!(matches!(error, CliError::FilesAndCommand));
    assert_eq!(
        error.describe(),
        "cannot read files and wrap a command at the same time"
    );
}

#[test]
fn bad_function_regex_fails_at_parse_time() {
    let error = Invocation::from_argv(cli(&[], Some("foo(")), None)
        .err()
        .unwrap();
    assert!(matches!(error, CliError::BadFunction(_)));
    assert!(error
        .describe()
        .starts_with("--function is not a valid regex: "));
    assert!(Invocation::from_argv(cli(&[], Some("^process")), None).is_ok());
}

#[test]
fn a_command_comes_before_files_and_files_before_stdin() {
    let (_, command) = split_at_double_dash(&words(&["garage", "--", "d8", "x.js"]));
    let inv = Invocation::from_argv(cli(&[], None), command).unwrap();
    let sources = choose_sources(&inv, true).unwrap();
    assert!(matches!(&sources[0], LogSource::Command(argv) if argv.len() == 2));

    let inv = Invocation::from_argv(cli(&["a.log", "b.log"], None), None).unwrap();
    let sources = choose_sources(&inv, true).unwrap();
    assert_eq!(sources.len(), 2);
    assert!(matches!(&sources[1], LogSource::File(path) if path == b"b.log"));

    let inv = Invocation::from_argv(cli(&[], None), None).unwrap();
    assert!(matches!(
        choose_sources(&inv, true).unwrap()[0],
        LogSource::Stdin
    ));
    let error = choose_sources(&inv, false).err().unwrap();
    assert!(matches!(error, CliError::NoInput));
    assert!(error.describe().starts_with("no input:"));
}

#[test]
fn diagnostics_only_when_asked_for() {
    assert_eq!(log_filter(false, None), None);
    assert_eq!(log_filter(false, Some(String::new())), None);
    assert_eq!(log_filter(true, None).unwrap(), "garage=debug");
    assert_eq!(
        log_filter(true, Some("garage=trace".to_string())).unwrap(),
        "garage=trace"
    );
}

#[test]
fn a_path_need_not_be_text() {
    let odd = b"tr\xffce.log".to_vec();
    let argv = vec![b"garage".to_vec(), odd.clone(), b"--\xff".to_vec()];
    let (head, command) = split_at_double_dash(&argv);
    assert_eq!(head, argv);
    assert!(command.is_none());
    let mut flags = cli(&[], None);
    flags.files = vec![odd.clone()];
    let inv = Invocation::from_argv(flags, None).unwrap();
    let sources = choose_sources(&inv, false).unwrap();
    assert!(matches!(&sources[0], LogSource::File(path) if *path == odd));
    assert_eq!(sources[0].label(), "tr\u{fffd}ce.log");
    let error = SourceError::Open {
        path: odd,
        source: "not found".to_string(),
    };
    assert_eq!(error.describe(), "tr\u{fffd}ce.log: not found");
    let error = SourceError::MemoryMap {
        path: b"a.log".to_vec(),
        source: "too large".to_string(),
    };
    assert_eq!(error.describe(), "a.log: cannot memory-map: too large");
}

#[test]
fn the_words_of_a_command_are_decoded() {
    let command = Some(vec![b"d8".to_vec(), b"\xc3\xa9.js".to_vec(), b"\xff".to_vec()]);
    let inv = Invocation::from_argv(cli(&[], None), command).unwrap();
    let sources = choose_sources(&inv, true).unwrap();
    match &sources[0] {
        LogSource::Command(argv) => assert_eq!(*argv, vec!["d8", "é.js", "\u{fffd}"]),
        other => panic!("expected a command, got {other:?}"),
    }
    assert_eq!(sources[0].label(), "d8 é.js \u{fffd}");
}
