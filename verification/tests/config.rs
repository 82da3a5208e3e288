use garage::config::{Action, Chord, Config, Keymap};
use garage::keys::{KeyCode, KeyEvent, KeyModifiers};

#[test]
fn defaults_have_no_conflicts() {
    let keymap = Keymap::build(&Vec::new()).unwrap();
    let key = |code, mods| KeyEvent::new(code, mods);
    assert_eq!(
        keymap.lookup(&key(KeyCode::Char('q'), KeyModifiers::none())),
        Some(Action::Quit)
    );
    assert_eq!(
        keymap.lookup(&key(KeyCode::Char('N'), KeyModifiers::shift())),
        Some(Action::SearchPrev)
    );
    assert_eq!(
        keymap.lookup(&key(KeyCode::Char('d'), KeyModifiers::control())),
        Some(Action::HalfPageDown)
    );
}

#[test]
fn chord_parsing() {
    assert_eq!(
        Chord::parse("Ctrl+d").unwrap(),
        Chord {
            mods: KeyModifiers::control(),
            code: KeyCode::Char('d')
        }
    );
    assert_eq!(Chord::parse("Space").unwrap().code, KeyCode::Char(' '));
    assert_eq!(Chord::parse("?").unwrap().code, KeyCode::Char('?'));
    assert!(Chord::parse("Hyper+x").is_err());
    assert!(Chord::parse("").is_err());
}

#[test]
fn remapping_frees_the_default_key() {
    let mut overrides = Vec::new();
    overrides.push(("quit".to_string(), vec!["x".to_string()]));
    let keymap = Keymap::build(&overrides).unwrap();
    let key = |c| KeyEvent::new(KeyCode::Char(c), KeyModifiers::none());
    assert_eq!(keymap.lookup(&key('x')), Some(Action::Quit));
    assert_eq!(keymap.lookup(&key('q')), None, "q was freed by the remap");
}

#[test]
fn conflicting_bindings_are_an_error() {
    let mut overrides = Vec::new();
    overrides.push(("help".to_string(), vec!["q".to_string()]));
    let err = Keymap::build(&overrides).err().unwrap().describe();
    assert!(err.contains("bound to both"), "{err}");
}

#[test]
fn config_toml_round_trip() {
    let config = Config::parse("[keys]\nquit = \"x\"\ndown = [\"j\", \"Down\"]\n").unwrap();
    let key = KeyEvent::new(KeyCode::Char('x'), KeyModifiers::none());
    assert_eq!(config.keys.lookup(&key), Some(Action::Quit));

    assert!(Config::parse("[keys]\nnope = \"x\"\n").is_err());
    assert!(Config::parse("[keys]\nquit = 3\n").is_err());
    assert!(Config::parse("not toml [").is_err());
}

#[test]
fn errors_quote_what_was_written() {
    let overrides = vec![("quit".to_string(), vec!["no\"key".to_string()])];
    let err = Keymap::build(&overrides).err().unwrap();
    assert_eq!(err.describe(), "in [keys] quit = [... \"no\\\"key\" ...]");
    let overrides = vec![("nope".to_string(), vec!["x".to_string()])];
    let err = Keymap::build(&overrides).err().unwrap().describe();
    assert!(err.starts_with("unknown action \"nope\" in [keys] (known: "), "{err}");
    let err = Config::parse("[keys]\nquit = [1]\n").err().unwrap();
    assert_eq!(err.describe(), "[keys] quit: entries must be strings");
    let err = Config::parse("[keys]\nquit = 3\n").err().unwrap();
    assert_eq!(
        err.describe(),
        "[keys] quit: expected a string or array of strings"
    );
    let err = Config::parse("not toml [").err().unwrap();
    assert_eq!(err.describe(), "config is not valid TOML");
}
