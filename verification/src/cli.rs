//! The command line.
//!
//! Three ways to start: with trace files, with a trace piped in, or with a
//! command behind `--` whose output is the trace. What stands behind `--`
//! belongs to the command, flags included, so the split comes before anything
//! reads the flags.

use vstd::prelude::*;
#[allow(unused_imports)]
use vstd::string::*;

#[allow(unused_imports)]
use crate::model::opt_text;
use crate::pattern::Pattern;
#[allow(unused_imports)]
use crate::pattern::{opt_pattern, regex_error};
use crate::source::LogSource;
use crate::text;
#[allow(unused_imports)]
use crate::text::decoded;

verus! {

/// What the flags say.
#[derive(Debug)]
pub struct Cli {
    /// Trace files, by the bytes of their paths.
    pub files: Vec<Vec<u8>>,
    /// Only functions whose name matches are kept.
    pub function: Option<String>,
    /// The configuration to load in place of the default one.
    pub config: Option<Vec<u8>>,
    /// Diagnostics are written.
    pub debug: bool,
    pub log_file: Vec<u8>,
}

/// A command line. Its words are bytes, for a path need not be text.
#[derive(Debug)]
pub struct Invocation {
    pub cli: Cli,
    /// The command behind `--`, which is not empty.
    pub command: Option<Vec<Vec<u8>>>,
    pub function: Option<Pattern>,
}

/// Why a command line is refused.
#[derive(Debug)]
pub enum CliError {
    /// Nothing stands behind `--`.
    NoCommand,
    FilesAndCommand,
    /// The pattern for functions does not compile, and why.
    BadFunction(String),
    /// There is nothing to read.
    NoInput,
}

/// The view of a `CliError`.
pub enum CliErrorModel {
    NoCommand,
    FilesAndCommand,
    BadFunction(Seq<char>),
    NoInput,
}

impl View for CliError {
    type V = CliErrorModel;

    open spec fn view(&self) -> CliErrorModel {
        match self {
            CliError::NoCommand => CliErrorModel::NoCommand,
            CliError::FilesAndCommand => CliErrorModel::FilesAndCommand,
            CliError::BadFunction(why) => CliErrorModel::BadFunction(why@),
            CliError::NoInput => CliErrorModel::NoInput,
        }
    }
}

/// An error in words.
pub open spec fn cli_error_text(error: CliErrorModel) -> Seq<char> {
    match error {
        CliErrorModel::NoCommand => "expected a command after `--`, e.g. `garage -- d8 --print-maglev-graphs x.js`"@,
        CliErrorModel::FilesAndCommand => "cannot read files and wrap a command at the same time"@,
        CliErrorModel::BadFunction(why) => "--function is not a valid regex: "@ + why,
        CliErrorModel::NoInput => "no input: pass a trace file, or pipe one in (`d8 ... | garage`)"@,
    }
}

impl CliError {
    /// The error in words.
    pub fn describe(&self) -> (out: String)
        ensures
            out@ == cli_error_text(self@),
    {
        match self {
            CliError::NoCommand => text::owned(
                "expected a command after `--`, e.g. `garage -- d8 --print-maglev-graphs x.js`",
            ),
            CliError::FilesAndCommand => text::owned(
                "cannot read files and wrap a command at the same time",
            ),
            CliError::BadFunction(why) => {
                let mut out = text::owned("--function is not a valid regex: ");
                out.append(why.as_str());
                out
            },
            CliError::NoInput => text::owned(
                "no input: pass a trace file, or pipe one in (`d8 ... | garage`)",
            ),
        }
    }
}

/// The views of words.
pub open spec fn word_models(words: Seq<Vec<u8>>) -> Seq<Seq<u8>> {
    words.map_values(|w: Vec<u8>| w@)
}

/// A bare `--`.
pub open spec fn double_dash() -> Seq<u8> {
    seq![0x2d, 0x2d]
}

/// The first bare `--` at or after word `i`.
pub open spec fn double_dash_from(words: Seq<Seq<u8>>, i: int) -> Option<int>
    decreases words.len() - i,
{
    if i < 0 || i >= words.len() {
        None
    } else if words[i] == double_dash() {
        Some(i)
    } else {
        double_dash_from(words, i + 1)
    }
}

/// The words before the first bare `--`, and those behind it. A `--` at the
/// end gives an empty command, which is not the same as none.
pub open spec fn split_words(words: Seq<Seq<u8>>) -> (Seq<Seq<u8>>, Option<Seq<Seq<u8>>>) {
    match double_dash_from(words, 0) {
        Some(i) => (words.take(i), Some(words.skip(i + 1))),
        None => (words, None),
    }
}

/// The view of an optional command.
pub open spec fn opt_command(command: Option<Vec<Vec<u8>>>) -> Option<Seq<Seq<u8>>> {
    match command {
        Some(words) => Some(word_models(words@)),
        None => None,
    }
}

fn copy_word(word: &Vec<u8>) -> (out: Vec<u8>)
    ensures
        out@ == word@,
{
    let mut out: Vec<u8> = Vec::new();
    out.extend_from_slice(word.as_slice());
    assert(out@ =~= word@);
    out
}

fn is_double_dash(word: &Vec<u8>) -> (yes: bool)
    ensures
        yes == (word@ == double_dash()),
{
    let yes: bool = word.len() == 2 && word[0] == 0x2d && word[1] == 0x2d;
    assert(yes ==> word@ =~= double_dash());
    yes
}

fn copy_words(words: &Vec<Vec<u8>>, from: usize, to: usize) -> (out: Vec<Vec<u8>>)
    requires
        from <= to <= words@.len(),
    ensures
        word_models(out@) == word_models(words@).subrange(from as int, to as int),
{
    let ghost all = word_models(words@);
    let mut out: Vec<Vec<u8>> = Vec::new();
    let mut k: usize = from;
    assert(word_models(out@) =~= all.subrange(from as int, from as int));
    while k < to
        invariant
            from <= k <= to <= words@.len(),
            all == word_models(words@),
            word_models(out@) == all.subrange(from as int, k as int),
        decreases to - k,
    {
        let ghost before = out@;
        out.push(copy_word(&words[k]));
        assert(word_models(out@) =~= word_models(before).push(all[k as int]));
        assert(word_models(out@) =~= all.subrange(from as int, k + 1));
        k += 1;
    }
    out
}

/// Splits a command line at the first bare `--`.
pub fn split_at_double_dash(argv: &Vec<Vec<u8>>) -> (parts: (Vec<Vec<u8>>, Option<Vec<Vec<u8>>>))
    ensures
        (word_models(parts.0@), opt_command(parts.1)) == split_words(word_models(argv@)),
{
    let ghost all = word_models(argv@);
    let n: usize = argv.len();
    assert(all.len() == n);
    let mut i: usize = 0;
    while i < n
        invariant
            i <= n,
            n == argv@.len(),
            all == word_models(argv@),
            all.len() == n,
            double_dash_from(all, 0) == double_dash_from(all, i as int),
        decreases n - i,
    {
        assert(all[i as int] == argv@[i as int]@);
        if is_double_dash(&argv[i]) {
            assert(all.subrange(0, i as int) =~= all.take(i as int));
            assert(all.subrange(i + 1, n as int) =~= all.skip(i + 1));
            return (copy_words(argv, 0, i), Some(copy_words(argv, i + 1, n)));
        }
        i += 1;
    }
    assert(all.subrange(0, n as int) =~= all);
    (copy_words(argv, 0, n), None)
}

/// What is wrong with a command line, if anything is.
pub open spec fn refusal(
    files: int,
    function: Option<Seq<char>>,
    command: Option<Seq<Seq<u8>>>,
) -> Option<CliErrorModel> {
    if command matches Some(words) && words.len() == 0 {
        Some(CliErrorModel::NoCommand)
    } else if command is Some && files > 0 {
        Some(CliErrorModel::FilesAndCommand)
    } else {
        match function {
            Some(pattern) => match regex_error(pattern) {
                Some(why) => Some(CliErrorModel::BadFunction(why)),
                None => None,
            },
            None => None,
        }
    }
}

impl Invocation {
    /// Puts a command line together from its flags and the command behind
    /// `--`. A pattern that does not compile is refused here, before the
    /// screen is taken.
    pub fn from_argv(cli: Cli, command: Option<Vec<Vec<u8>>>) -> (invocation: Result<
        Invocation,
        CliError,
    >)
        ensures
            match (
                refusal(cli.files@.len() as int, opt_text(cli.function), opt_command(command)),
                invocation,
            ) {
                (Some(e), Err(error)) => error@ == e,
                (None, Ok(inv)) => inv.cli == cli && inv.command == command && opt_pattern(
                    inv.function,
                ) == opt_text(cli.function),
                _ => false,
            },
    {
        if let Some(words) = &command {
            assert(word_models(words@).len() == words@.len());
            if words.len() == 0 {
                return Err(CliError::NoCommand);
            }
            if cli.files.len() > 0 {
                return Err(CliError::FilesAndCommand);
            }
        }
        let function: Option<Pattern> = match &cli.function {
            Some(pattern) => match Pattern::new(pattern.as_str()) {
                Ok(p) => Some(p),
                Err(why) => {
                    return Err(CliError::BadFunction(why));
                },
            },
            None => None,
        };
        Ok(Invocation { cli, command, function })
    }
}

/// Where the trace comes from.
pub enum Origin {
    Command(Seq<Seq<u8>>),
    Files(Seq<Seq<u8>>),
    Stdin,
    Nowhere,
}

/// Where the trace comes from: a command, or else files, or else what is piped
/// in.
pub open spec fn origin(
    files: Seq<Seq<u8>>,
    command: Option<Seq<Seq<u8>>>,
    piped: bool,
) -> Origin {
    match command {
        Some(words) => Origin::Command(words),
        None => if files.len() > 0 {
            Origin::Files(files)
        } else if piped {
            Origin::Stdin
        } else {
            Origin::Nowhere
        },
    }
}

/// Sources are what an origin says. The words of a command are decoded; a path
/// stays the bytes that it is.
pub open spec fn sources_from(list: Seq<LogSource>, from: Origin) -> bool {
    match from {
        Origin::Command(words) => list.len() == 1 && (list[0] matches LogSource::Command(argv)
            && argv@.len() == words.len() && forall|k: int|
            0 <= k < words.len() ==> decoded((#[trigger] argv@[k])@, words[k])),
        Origin::Files(files) => list.len() == files.len() && forall|k: int|
            0 <= k < list.len() ==> (#[trigger] list[k] matches LogSource::File(path) && path@
                == files[k]),
        Origin::Stdin => list.len() == 1 && list[0] is Stdin,
        Origin::Nowhere => false,
    }
}

fn decode_words(words: &Vec<Vec<u8>>) -> (argv: Vec<String>)
    ensures
        argv@.len() == words@.len(),
        forall|k: int| 0 <= k < words@.len() ==> decoded((#[trigger] argv@[k])@, words@[k]@),
{
    let mut argv: Vec<String> = Vec::new();
    let mut k: usize = 0;
    while k < words.len()
        invariant
            k <= words@.len(),
            argv@.len() == k,
            forall|m: int| 0 <= m < k ==> decoded((#[trigger] argv@[m])@, words@[m]@),
        decreases words.len() - k,
    {
        argv.push(text::decode_lossy(words[k].as_slice()));
        k += 1;
    }
    argv
}

/// Decides where the trace comes from.
pub fn choose_sources(invocation: &Invocation, stdin_is_data: bool) -> (sources: Result<
    Vec<LogSource>,
    CliError,
>)
    ensures
        ({
            let from = origin(
                word_models(invocation.cli.files@),
                opt_command(invocation.command),
                stdin_is_data,
            );
            match sources {
                Ok(list) => sources_from(list@, from),
                Err(e) => from is Nowhere && e is NoInput,
            }
        }),
{
    let mut list: Vec<LogSource> = Vec::new();
    if let Some(words) = &invocation.command {
        let argv = decode_words(words);
        assert forall|k: int| 0 <= k < words@.len() implies decoded(
            (#[trigger] argv@[k])@,
            word_models(words@)[k],
        ) by {}
        list.push(LogSource::Command(argv));
        return Ok(list);
    }
    let files = &invocation.cli.files;
    let ghost all = word_models(files@);
    assert(all.len() == files@.len());
    if files.len() > 0 {
        let mut k: usize = 0;
        while k < files.len()
            invariant
                k <= files@.len(),
                list@.len() == k,
                all == word_models(files@),
                forall|m: int|
                    0 <= m < k ==> (#[trigger] list@[m] matches LogSource::File(path) && path@
                        == all[m]),
            decreases files.len() - k,
        {
            assert(all[k as int] == files@[k as int]@);
            list.push(LogSource::File(copy_word(&files[k])));
            k += 1;
        }
        return Ok(list);
    }
    if stdin_is_data {
        list.push(LogSource::Stdin);
        return Ok(list);
    }
    Err(CliError::NoInput)
}

/// Which diagnostics are written, if any are: what the environment asks for,
/// or else those of this program.
pub open spec fn log_wanted(debug: bool, spec_var: Option<Seq<char>>) -> Option<Seq<char>> {
    match spec_var {
        Some(s) => if s.len() > 0 {
            Some(s)
        } else if debug {
            Some("garage=debug"@)
        } else {
            None
        },
        None => if debug {
            Some("garage=debug"@)
        } else {
            None
        },
    }
}

/// Which diagnostics are written.
pub fn log_filter(debug: bool, asked: Option<String>) -> (filter: Option<String>)
    ensures
        opt_text(filter) == log_wanted(debug, opt_text(asked)),
{
    if let Some(s) = asked {
        if !s.as_str().is_empty() {
            return Some(s);
        }
    }
    if debug {
        Some(text::owned("garage=debug"))
    } else {
        None
    }
}

} // verus!
