//! The parses that are kept.
//!
//! A parse is kept under the place of its compilation, together with the end
//! line that the compilation had. A compilation that is still growing is
//! parsed again once it has grown.

use std::collections::HashMap;
use std::sync::Arc;
use vstd::prelude::*;

use super::compilation::parse_compilation;
#[allow(unused_imports)]
use super::compilation::parsed_compilation;
#[allow(unused_imports)]
use crate::model::{CompilationModel, ParsedModel};
use crate::model::{CompilationSection, ParsedCompilation};
use crate::source::LogBuffer;
#[allow(unused_imports)]
use crate::source::LogModel;

verus! {

/// Another handle on a shared value, by `Arc::clone`.
///
/// Claimed of it: the new handle points to the same value.
#[verifier::external_body]
pub(crate) fn share<T>(value: &Arc<T>) -> (other: Arc<T>)
    ensures
        *other == **value,
{
    Arc::clone(value)
}

/// A kept parse.
pub struct Entry {
    /// Where the compilation ended when it was parsed.
    end_line: usize,
    parsed: Arc<ParsedCompilation>,
}

impl View for Entry {
    type V = (int, ParsedModel);

    closed spec fn view(&self) -> (int, ParsedModel) {
        (self.end_line as int, (*self.parsed)@)
    }
}

/// The parses that are kept.
pub struct ParseCache {
    entries: HashMap<usize, Entry>,
}

impl View for ParseCache {
    type V = Map<usize, (int, ParsedModel)>;

    closed spec fn view(&self) -> Map<usize, (int, ParsedModel)> {
        self.entries@.map_values(|e: Entry| e@)
    }
}

/// A parse is kept for the compilation as it stands.
pub open spec fn is_kept(
    cache: Map<usize, (int, ParsedModel)>,
    index: usize,
    section: CompilationModel,
) -> bool {
    cache.dom().contains(index) && cache[index].0 == section.end
}

/// The parse of a compilation: the kept one, or a new one.
pub open spec fn parse_of(
    cache: Map<usize, (int, ParsedModel)>,
    buffer: LogModel,
    section: CompilationModel,
    index: usize,
) -> ParsedModel {
    if is_kept(cache, index, section) {
        cache[index].1
    } else {
        parsed_compilation(buffer, section)
    }
}

/// What is kept once a compilation was asked for.
pub open spec fn kept_after(
    cache: Map<usize, (int, ParsedModel)>,
    buffer: LogModel,
    section: CompilationModel,
    index: usize,
) -> Map<usize, (int, ParsedModel)> {
    if is_kept(cache, index, section) {
        cache
    } else {
        cache.insert(index, (section.end, parsed_compilation(buffer, section)))
    }
}

impl ParseCache {
    /// Nothing is kept yet.
    pub fn new() -> (cache: ParseCache)
        ensures
            cache@ == Map::<usize, (int, ParsedModel)>::empty(),
    {
        broadcast use vstd::std_specs::hash::group_hash_axioms;

        let cache = ParseCache { entries: HashMap::new() };
        assert(cache@ =~= Map::<usize, (int, ParsedModel)>::empty());
        cache
    }

    /// The parse of compilation `index`, which is kept.
    pub fn get_or_parse(
        &mut self,
        buffer: &LogBuffer,
        section: &CompilationSection,
        index: usize,
    ) -> (parsed: Arc<ParsedCompilation>)
        requires
            buffer.wf(),
        ensures
            (*parsed)@ == parse_of(old(self)@, buffer@, section@, index),
            final(self)@ == kept_after(old(self)@, buffer@, section@, index),
    {
        broadcast use vstd::std_specs::hash::group_hash_axioms;

        if let Some(entry) = self.entries.get(&index) {
            assert(self@[index] == entry@);
            if entry.end_line == section.lines.end {
                return share(&entry.parsed);
            }
        }
        let parsed = Arc::new(parse_compilation(buffer, section));
        let entry = Entry { end_line: section.lines.end, parsed: share(&parsed) };
        let ghost made = entry@;
        let ghost before = self.entries@;
        self.entries.insert(index, entry);
        assert(self@ =~= before.map_values(|e: Entry| e@).insert(index, made));
        parsed
    }
}

impl Default for ParseCache {
    fn default() -> (cache: ParseCache)
        ensures
            cache@ == Map::<usize, (int, ParsedModel)>::empty(),
    {
        ParseCache::new()
    }
}

/// Asking twice for a compilation that did not grow gives the same parse, and
/// the second time keeps nothing new.
pub proof fn law_the_second_view_is_kept(
    cache: Map<usize, (int, ParsedModel)>,
    buffer: LogModel,
    later: LogModel,
    section: CompilationModel,
    index: usize,
)
    ensures
        ({
            let once = kept_after(cache, buffer, section, index);
            &&& is_kept(once, index, section)
            &&& parse_of(once, later, section, index) == parse_of(cache, buffer, section, index)
            &&& kept_after(once, later, section, index) == once
        }),
{
}

/// A compilation that has another end than the one that was kept is parsed
/// again.
pub proof fn law_a_grown_compilation_is_parsed_again(
    cache: Map<usize, (int, ParsedModel)>,
    buffer: LogModel,
    section: CompilationModel,
    index: usize,
)
    requires
        cache.dom().contains(index) ==> cache[index].0 != section.end,
    ensures
        parse_of(cache, buffer, section, index) == parsed_compilation(buffer, section),
        kept_after(cache, buffer, section, index)[index].0 == section.end,
{
}

} // verus!
