//! The text of the pane with the JavaScript source: the script, or the source
//! that the dump holds itself.

use vstd::prelude::*;
#[allow(unused_imports)]
use vstd::string::*;
#[allow(unused_imports)]
use vstd::utf8::encode_utf8;

#[allow(unused_imports)]
use super::PaneModel;
use super::{SourcePane, SrcRef};
use crate::diff::canon::chars_of;
use crate::model::{CompilationSection, PhaseKind};
#[allow(unused_imports)]
use crate::model::{texts, CompilationModel, PhaseSectionModel};
use crate::source::LogBuffer;
#[allow(unused_imports)]
use crate::source::{starts_within, LogModel};
use crate::text;
#[allow(unused_imports)]
use crate::text::blank_from;

verus! {

/// Larger scripts are not shown.
pub const SCRIPT_LIMIT: usize = 8 * 1024 * 1024;

// ---------------------------------------------------------------------------
// Where a script lies
// ---------------------------------------------------------------------------

/// The places where a script is looked for, in order: as it is named, in the
/// directory of the trace, in the one above it, and by its file name alone in
/// the directory of the trace. A place is a directory, if any, and a name.
pub open spec fn places_of(
    script: Seq<char>,
    file_name: Option<Seq<char>>,
    dir: Option<Seq<char>>,
    above: Option<Seq<char>>,
) -> Seq<(Option<Seq<char>>, Seq<char>)> {
    let named = seq![(None::<Seq<char>>, script)];
    match dir {
        None => named,
        Some(_) => {
            let beside = named.push((dir, script));
            let up = if above is Some {
                beside.push((above, script))
            } else {
                beside
            };
            match file_name {
                Some(base) => up.push((dir, base)),
                None => up,
            }
        },
    }
}

/// The view of a list of places.
pub open spec fn place_models(
    places: Seq<(Option<String>, String)>,
) -> Seq<(Option<Seq<char>>, Seq<char>)> {
    places.map_values(|p: (Option<String>, String)| (crate::model::opt_text(p.0), p.1@))
}

/// The view of an optional text that is borrowed.
pub open spec fn borrowed_text(s: Option<&str>) -> Option<Seq<char>> {
    match s {
        Some(s) => Some(s@),
        None => None,
    }
}

/// Lists the places where a script is looked for.
pub fn script_places(
    script: &str,
    file_name: Option<&str>,
    dir: Option<&str>,
    above: Option<&str>,
) -> (places: Vec<(Option<String>, String)>)
    ensures
        place_models(places@) == places_of(
            script@,
            borrowed_text(file_name),
            borrowed_text(dir),
            borrowed_text(above),
        ),
{
    let mut places: Vec<(Option<String>, String)> = Vec::new();
    places.push((None, text::owned(script)));
    assert(place_models(places@) =~= seq![(None::<Seq<char>>, script@)]);
    if let Some(d) = dir {
        let ghost named = place_models(places@);
        places.push((Some(text::owned(d)), text::owned(script)));
        assert(place_models(places@) =~= named.push((Some(d@), script@)));
        if let Some(a) = above {
            let ghost beside = place_models(places@);
            places.push((Some(text::owned(a)), text::owned(script)));
            assert(place_models(places@) =~= beside.push((Some(a@), script@)));
        }
        if let Some(base) = file_name {
            let ghost up = place_models(places@);
            places.push((Some(text::owned(d)), text::owned(base)));
            assert(place_models(places@) =~= up.push((Some(d@), base@)));
        }
    }
    places
}

/// Is a script small enough to be shown?
pub fn script_fits(script: &str) -> (yes: bool)
    ensures
        yes == (encode_utf8(script@).len() <= SCRIPT_LIMIT),
{
    script.as_bytes().len() <= SCRIPT_LIMIT
}

// ---------------------------------------------------------------------------
// The lines of a text
// ---------------------------------------------------------------------------

/// Where the line begins that character `n` stands in.
pub open spec fn line_from(s: Seq<char>, n: int) -> int
    decreases n,
{
    if n <= 0 {
        0
    } else if s[n - 1] == '\n' {
        n
    } else {
        line_from(s, n - 1)
    }
}

/// A line without the carriage return of its terminator.
pub open spec fn chomped(line: Seq<char>) -> Seq<char> {
    if line.len() > 0 && line.last() == '\r' {
        line.drop_last()
    } else {
        line
    }
}

/// The lines that end within the first `n` characters.
pub open spec fn ended_lines(s: Seq<char>, n: int) -> Seq<Seq<char>>
    decreases n,
{
    if n <= 0 {
        Seq::empty()
    } else if s[n - 1] == '\n' {
        ended_lines(s, n - 1).push(chomped(s.subrange(line_from(s, n - 1), n - 1)))
    } else {
        ended_lines(s, n - 1)
    }
}

/// The lines of a text. What follows the last terminator is a line unless it
/// is empty.
pub open spec fn text_lines(s: Seq<char>) -> Seq<Seq<char>> {
    let n = s.len() as int;
    let from = line_from(s, n);
    if from < n {
        ended_lines(s, n).push(s.subrange(from, n))
    } else {
        ended_lines(s, n)
    }
}

/// The lines of a text.
pub(crate) fn split_lines(text: &str) -> (lines: Vec<String>)
    ensures
        texts(lines@) == text_lines(text@),
{
    let s = chars_of(text);
    let ghost all = text@;
    let mut lines: Vec<String> = Vec::new();
    let mut from: usize = 0;
    let mut k: usize = 0;
    assert(texts(lines@) =~= ended_lines(all, 0));
    while k < s.len()
        invariant
            k <= s@.len(),
            s@ == all,
            from <= k,
            from == line_from(all, k as int),
            texts(lines@) == ended_lines(all, k as int),
        decreases s.len() - k,
    {
        if s[k] == '\n' {
            let ghost before = lines@;
            let ghost whole = all.subrange(from as int, k as int);
            let line: String = if k > from && s[k - 1] == '\r' {
                assert(all.subrange(from as int, k - 1) =~= chomped(whole));
                text::from_chars(&s, from, k - 1)
            } else {
                assert(k > from ==> whole.last() == all[k - 1]);
                text::from_chars(&s, from, k)
            };
            assert(line@ == chomped(whole));
            lines.push(line);
            assert(texts(lines@) =~= texts(before).push(chomped(whole)));
            from = k + 1;
        }
        k += 1;
    }
    if from < s.len() {
        let ghost before = lines@;
        let line = text::from_chars(&s, from, s.len());
        lines.push(line);
        assert(texts(lines@) =~= texts(before).push(all.subrange(from as int, all.len() as int)));
    }
    lines
}

/// Where the first `count` lines of a text begin, in bytes. A text without a
/// line has one beginning.
pub open spec fn script_starts(bytes: Seq<u8>, count: int) -> Seq<u32> {
    let all = (seq![0int] + starts_within(bytes, 0, bytes.len() as int)).map_values(
        |at: int| at as u32,
    );
    let wanted = if count > 1 {
        count
    } else {
        1
    };
    if all.len() > wanted {
        all.take(wanted)
    } else {
        all
    }
}

fn find_starts(bytes: &[u8], count: usize) -> (starts: Vec<u32>)
    requires
        bytes@.len() <= SCRIPT_LIMIT,
    ensures
        starts@ == script_starts(bytes@, count as int),
{
    let ghost s = bytes@;
    let mut starts: Vec<u32> = Vec::new();
    starts.push(0);
    let mut k: usize = 0;
    assert(starts@ =~= (seq![0int] + starts_within(s, 0, 0)).map_values(|at: int| at as u32));
    while k < bytes.len()
        invariant
            bytes@ == s,
            k <= s.len() <= SCRIPT_LIMIT,
            starts@ == (seq![0int] + starts_within(s, 0, k as int)).map_values(
                |at: int| at as u32,
            ),
        decreases s.len() - k,
    {
        if bytes[k] == 0x0a {
            let ghost before = starts@;
            starts.push(k as u32 + 1);
            assert(starts_within(s, 0, k + 1) == starts_within(s, 0, k as int).push(k + 1));
            assert(starts@ =~= (seq![0int] + starts_within(s, 0, k + 1)).map_values(
                |at: int| at as u32,
            ));
        }
        k += 1;
    }
    let wanted: usize = if count > 1 {
        count
    } else {
        1
    };
    starts.truncate(wanted);
    starts
}

// ---------------------------------------------------------------------------
// The source in the dump
// ---------------------------------------------------------------------------

/// The first phase at or after `i` that holds the source.
pub open spec fn raw_source_from(phases: Seq<PhaseSectionModel>, i: int) -> Option<int>
    decreases phases.len() - i,
{
    if i < 0 || i >= phases.len() {
        None
    } else if phases[i].name == "Raw source"@ {
        Some(i)
    } else {
        raw_source_from(phases, i + 1)
    }
}

/// The lines of a compilation that hold its source: those behind the header of
/// the first phase with source, or else what a dump of code begins with.
pub open spec fn source_lines(section: CompilationModel) -> Option<(int, int)> {
    match raw_source_from(section.phases, 0) {
        Some(p) => Some((section.phases[p].start + 1, section.phases[p].end)),
        None => if section.phases.len() > 0 && section.phases[0].kind is Listing
            && section.preamble_start < section.preamble_end {
            Some((section.preamble_start, section.preamble_end))
        } else {
            None
        },
    }
}

/// Finds the lines that hold the source of a compilation.
fn find_source_lines(section: &CompilationSection) -> (range: Option<(usize, usize)>)
    ensures
        match range {
            Some((a, b)) => source_lines(section@) matches Some((x, y)) && ((a == x && b == y) || (
            a >= b && x >= y)),
            None => source_lines(section@) is None,
        },
{
    let wanted = text::owned("Raw source");
    let mut p: usize = 0;
    while p < section.phases.len()
        invariant
            p <= section.phases@.len(),
            wanted@ == "Raw source"@,
            raw_source_from(section@.phases, 0) == raw_source_from(section@.phases, p as int),
        decreases section.phases.len() - p,
    {
        assert(section@.phases[p as int] == section.phases@[p as int]@);
        if section.phases[p].name == wanted {
            let lines = &section.phases[p].lines;
            return if lines.start < lines.end {
                Some((lines.start + 1, lines.end))
            } else {
                Some((0, 0))
            };
        }
        p += 1;
    }
    if section.phases.len() > 0 {
        assert(section@.phases[0] == section.phases@[0]@);
        let listing: bool = match section.phases[0].kind {
            PhaseKind::Listing => true,
            _ => false,
        };
        if listing && section.preamble.start < section.preamble.end {
            return Some((section.preamble.start, section.preamble.end));
        }
    }
    None
}

/// Lines without the blank ones at the end.
pub open spec fn without_blank_end(lines: Seq<Seq<char>>) -> Seq<Seq<char>>
    decreases lines.len(),
{
    if lines.len() > 0 && blank_from(encode_utf8(lines.last()), 0) {
        without_blank_end(lines.drop_last())
    } else {
        lines
    }
}

/// The texts of the lines in `from..to`.
pub open spec fn lines_between(buffer: LogModel, from: int, to: int) -> Seq<Seq<char>> {
    Seq::new((if from < to { to - from } else { 0 }) as nat, |k: int| buffer.line_chars(from + k))
}

fn read_lines(buffer: &LogBuffer, from: usize, to: usize) -> (lines: Vec<String>)
    requires
        buffer.wf(),
    ensures
        texts(lines@) == without_blank_end(lines_between(buffer@, from as int, to as int)),
{
    let ghost all = lines_between(buffer@, from as int, to as int);
    let mut lines: Vec<String> = Vec::new();
    let mut k: usize = from;
    assert(texts(lines@) =~= all.take(0));
    while k < to
        invariant
            buffer.wf(),
            from <= k,
            k <= to || lines@.len() == 0,
            lines@.len() == k - from,
            all == lines_between(buffer@, from as int, to as int),
            texts(lines@) == all.take(k - from),
        decreases to - k,
    {
        let ghost before = lines@;
        lines.push(buffer.line_text(k));
        assert(texts(lines@) =~= texts(before).push(all[k - from]));
        assert(texts(lines@) =~= all.take(k + 1 - from));
        k += 1;
    }
    assert(texts(lines@) =~= all);
    while lines.len() > 0 && text::is_blank(lines[lines.len() - 1].as_str().as_bytes(), 0)
        invariant
            without_blank_end(all) == without_blank_end(texts(lines@)),
        decreases lines@.len(),
    {
        let ghost before = lines@;
        assert(texts(before).last() == before.last()@);
        lines.pop();
        assert(texts(lines@) =~= texts(before).drop_last());
    }
    assert(lines@.len() > 0 ==> texts(lines@).last() == lines@.last()@);
    lines
}

/// Where line `k` begins when the first line begins at `base`.
pub open spec fn offset_of(lines: Seq<Seq<char>>, base: int, k: int) -> int
    decreases k,
{
    if k <= 0 {
        base
    } else {
        offset_of(lines, base, k - 1) + encode_utf8(lines[k - 1]).len() + 1
    }
}

/// Where the lines begin. An offset that is too large becomes the largest.
pub open spec fn embedded_starts(lines: Seq<Seq<char>>, base: int) -> Seq<u32> {
    Seq::new(
        lines.len(),
        |k: int|
            {
                if offset_of(lines, base, k) <= u32::MAX {
                    offset_of(lines, base, k) as u32
                } else {
                    u32::MAX
                }
            },
    )
}

fn count_starts(lines: &Vec<String>, base: u32) -> (starts: Vec<u32>)
    ensures
        starts@ == embedded_starts(texts(lines@), base as int),
{
    let ghost all = texts(lines@);
    let ghost wanted = embedded_starts(all, base as int);
    let mut starts: Vec<u32> = Vec::new();
    let mut at: u32 = base;
    let mut k: usize = 0;
    while k < lines.len()
        invariant
            k <= lines@.len(),
            all == texts(lines@),
            wanted == embedded_starts(all, base as int),
            starts@ == wanted.take(k as int),
            offset_of(all, base as int, k as int) >= 0,
            at == (if offset_of(all, base as int, k as int) <= u32::MAX {
                offset_of(all, base as int, k as int)
            } else {
                u32::MAX as int
            }),
        decreases lines.len() - k,
    {
        starts.push(at);
        assert(starts@ =~= wanted.take(k + 1));
        assert(all[k as int] == lines@[k as int]@);
        let bytes = lines[k].as_str().as_bytes();
        assert(bytes@.len() == bytes.len());
        let next: u128 = at as u128 + bytes.len() as u128 + 1;
        at = if next <= u32::MAX as u128 {
            next as u32
        } else {
            u32::MAX
        };
        k += 1;
    }
    assert(starts@ =~= wanted);
    starts
}

// ---------------------------------------------------------------------------
// The pane
// ---------------------------------------------------------------------------

/// The pane of a script.
pub open spec fn script_pane(
    title: Seq<char>,
    script: Seq<char>,
    key: (usize, usize),
) -> PaneModel {
    let lines = text_lines(script);
    PaneModel {
        title,
        lines,
        base_line: 0,
        line_starts: script_starts(encode_utf8(script), lines.len() as int),
        chars_usable: true,
        top: 0,
        cursor: 0,
        key,
    }
}

/// The pane of the source that the dump holds.
pub open spec fn embedded_pane(
    buffer: LogModel,
    range: (int, int),
    script: Option<Seq<char>>,
    script_line: Option<u32>,
    source_position: Option<u32>,
    key: (usize, usize),
) -> PaneModel {
    let lines = without_blank_end(lines_between(buffer, range.0, range.1));
    PaneModel {
        title: match script {
            Some(s) => s + " (embedded raw source; file not found)"@,
            None => "Raw source (embedded)"@,
        },
        lines,
        base_line: match script_line {
            Some(l) => l,
            None => 0,
        },
        line_starts: embedded_starts(
            lines,
            match source_position {
                Some(p) => p as int,
                None => 0,
            },
        ),
        chars_usable: source_position is Some,
        top: 0,
        cursor: 0,
        key,
    }
}

/// Why there is no pane.
pub open spec fn no_source(script: Option<Seq<char>>) -> Seq<char> {
    match script {
        Some(s) => "cannot open "@ + s + ", and the dump has no Raw source block"@,
        None => "no script path and no Raw source block in this dump"@,
    }
}

/// The pane of a script.
pub(crate) fn open_script(title: String, script: &str, key: (usize, usize)) -> (pane: SourcePane)
    requires
        encode_utf8(script@).len() <= SCRIPT_LIMIT,
    ensures
        pane@ == script_pane(title@, script@, key),
{
    let lines = split_lines(script);
    assert(texts(lines@).len() == lines.len());
    let line_starts = find_starts(script.as_bytes(), lines.len());
    let pane = SourcePane {
        title,
        lines,
        base_line: 0,
        line_starts,
        chars_usable: true,
        top: 0,
        cursor: 0,
        key,
    };
    assert(pane@ =~= script_pane(title@, script@, key));
    pane
}

/// The pane of the source that the dump holds, or why there is none.
pub(crate) fn open_embedded(
    buffer: &LogBuffer,
    section: &CompilationSection,
    script: &Option<String>,
    script_line: Option<u32>,
    source_position: Option<u32>,
    key: (usize, usize),
) -> (pane: Result<SourcePane, String>)
    requires
        buffer.wf(),
    ensures
        match (source_lines(section@), pane) {
            (Some(range), Ok(p)) => p@ == embedded_pane(
                buffer@,
                range,
                crate::model::opt_text(*script),
                script_line,
                source_position,
                key,
            ),
            (None, Err(e)) => e@ == no_source(crate::model::opt_text(*script)),
            _ => false,
        },
{
    let (from, to): (usize, usize) = match find_source_lines(section) {
        Some(r) => r,
        None => {
            return Err(
                match script {
                    Some(s) => {
                        let mut out = text::owned("cannot open ");
                        out.append(s.as_str());
                        out.append(", and the dump has no Raw source block");
                        out
                    },
                    None => text::owned("no script path and no Raw source block in this dump"),
                },
            );
        },
    };
    let ghost range = source_lines(section@)->0;
    assert(lines_between(buffer@, from as int, to as int) =~= lines_between(
        buffer@,
        range.0,
        range.1,
    ));
    let lines = read_lines(buffer, from, to);
    let line_starts = count_starts(
        &lines,
        match source_position {
            Some(p) => p,
            None => 0,
        },
    );
    let title: String = match script {
        Some(s) => {
            let mut out = text::owned(s.as_str());
            out.append(" (embedded raw source; file not found)");
            out
        },
        None => text::owned("Raw source (embedded)"),
    };
    let base_line: u32 = match script_line {
        Some(l) => l,
        None => 0,
    };
    let pane = SourcePane {
        title,
        lines,
        base_line,
        line_starts,
        chars_usable: source_position.is_some(),
        top: 0,
        cursor: 0,
        key,
    };
    assert(pane@ =~= embedded_pane(
        buffer@,
        range,
        crate::model::opt_text(*script),
        script_line,
        source_position,
        key,
    ));
    Ok(pane)
}

/// The first line at or after `k` that begins behind an offset.
pub open spec fn line_behind(starts: Seq<u32>, offset: u32, k: int) -> int
    decreases starts.len() - k,
{
    if k < 0 || k >= starts.len() {
        starts.len() as int
    } else if starts[k] > offset {
        k
    } else {
        line_behind(starts, offset, k + 1)
    }
}

/// The line of the pane that a place in the script is on.
pub open spec fn displayed(pane: PaneModel, r: SrcRef) -> Option<int> {
    let at = match r {
        SrcRef::Char(c) => if !pane.chars_usable || pane.line_starts.len() == 0 || c
            < pane.line_starts[0] {
            None
        } else {
            Some(line_behind(pane.line_starts, c, 0) - 1)
        },
        SrcRef::FnLine(l) => if l < pane.base_line {
            None
        } else {
            Some(l - pane.base_line)
        },
    };
    match at {
        Some(d) => if d < pane.lines.len() {
            Some(d)
        } else {
            None
        },
        None => None,
    }
}

impl SourcePane {
    /// The line of the pane that a place in the script is on.
    pub fn display_line(&self, r: &SrcRef) -> (line: Option<usize>)
        ensures
            text::pos(line) == displayed(self@, *r),
    {
        let at: usize = match r {
            SrcRef::Char(c) => {
                if !self.chars_usable || self.line_starts.len() == 0 || *c < self.line_starts[0] {
                    return None;
                }
                let mut k: usize = 1;
                while k < self.line_starts.len() && self.line_starts[k] <= *c
                    invariant
                        1 <= k <= self.line_starts@.len(),
                        line_behind(self.line_starts@, *c, 0) == line_behind(
                            self.line_starts@,
                            *c,
                            k as int,
                        ),
                    decreases self.line_starts.len() - k,
                {
                    k += 1;
                }
                k - 1
            },
            SrcRef::FnLine(l) => {
                if *l < self.base_line {
                    return None;
                }
                (*l - self.base_line) as usize
            },
        };
        if at < self.lines.len() {
            Some(at)
        } else {
            None
        }
    }
}

} // verus!
