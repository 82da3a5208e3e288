//! Regular expressions that the user types.

use vstd::prelude::*;
#[allow(unused_imports)]
use vstd::string::*;

use crate::text;

verus! {

/// The message with which the `regex` crate refuses a pattern, if it does.
pub uninterp spec fn regex_error(pattern: Seq<char>) -> Option<Seq<char>>;

/// Whether a pattern matches somewhere in a text; a pattern that is refused
/// never does.
pub uninterp spec fn regex_found(pattern: Seq<char>, text: Seq<char>) -> bool;

/// The byte ranges of the matches of a pattern in a text, leftmost first.
pub uninterp spec fn regex_spans(pattern: Seq<char>, text: Seq<char>) -> Seq<(usize, usize)>;

/// `regex::Regex::new`: says whether a pattern compiles, and why not.
///
/// Claimed of it: whether it fails, and with which message, depends on the
/// pattern alone.
#[verifier::external_body]
fn compile(pattern: &str) -> (refused: Option<String>)
    ensures
        crate::model::opt_text(refused) == regex_error(pattern@),
{
    regex::Regex::new(pattern).err().map(|e| e.to_string())
}

/// `regex::Regex::is_match`, on the expression compiled from `pattern`.
///
/// Claimed of it: the answer depends on the pattern and the text alone.
#[verifier::external_body]
fn match_text(pattern: &str, subject: &str) -> (found: bool)
    ensures
        found == regex_found(pattern@, subject@),
{
    regex::Regex::new(pattern).map(|re| re.is_match(subject)).unwrap_or(false)
}

/// `regex::Regex::find_iter`, on the expression compiled from `pattern`.
///
/// Claimed of it: the ranges depend on the pattern and the text alone.
#[verifier::external_body]
fn find_all(pattern: &str, subject: &str) -> (spans: Vec<(usize, usize)>)
    ensures
        spans@ == regex_spans(pattern@, subject@),
{
    regex::Regex::new(pattern).map(
        |re| re.find_iter(subject).map(|m| (m.start(), m.end())).collect(),
    ).unwrap_or_default()
}

/// A pattern that compiles.
#[derive(Debug)]
pub struct Pattern {
    source: String,
}

impl View for Pattern {
    type V = Seq<char>;

    closed spec fn view(&self) -> Seq<char> {
        self.source@
    }
}

/// What compiling a pattern gave: the pattern, or the message that refuses it.
pub open spec fn pattern_result(r: Result<Pattern, String>) -> Result<Seq<char>, Seq<char>> {
    match r {
        Ok(p) => Ok(p@),
        Err(e) => Err(e@),
    }
}

/// What compiling a pattern gives.
pub open spec fn compiled(pattern: Seq<char>) -> Result<Seq<char>, Seq<char>> {
    match regex_error(pattern) {
        None => Ok(pattern),
        Some(message) => Err(message),
    }
}

/// The views of optional patterns.
pub open spec fn opt_pattern(p: Option<Pattern>) -> Option<Seq<char>> {
    match p {
        Some(p) => Some(p@),
        None => None,
    }
}

impl Pattern {
    /// Compiles a pattern.
    pub fn new(pattern: &str) -> (p: Result<Pattern, String>)
        ensures
            pattern_result(p) == compiled(pattern@),
    {
        match compile(pattern) {
            None => Ok(Pattern { source: text::owned(pattern) }),
            Some(message) => Err(message),
        }
    }

    /// The pattern as it was typed.
    pub fn as_str(&self) -> (s: &str)
        ensures
            s@ == self@,
    {
        self.source.as_str()
    }

    /// Does the pattern match somewhere in `subject`?
    pub fn is_match(&self, subject: &str) -> (found: bool)
        ensures
            found == regex_found(self@, subject@),
    {
        match_text(self.source.as_str(), subject)
    }

    /// The byte ranges of the matches in `subject`.
    pub fn spans(&self, subject: &str) -> (spans: Vec<(usize, usize)>)
        ensures
            spans@ == regex_spans(self@, subject@),
    {
        find_all(self.source.as_str(), subject)
    }

    /// Another copy of the pattern.
    pub fn duplicate(&self) -> (p: Pattern)
        ensures
            p@ == self@,
    {
        Pattern { source: self.source.clone() }
    }
}

} // verus!
