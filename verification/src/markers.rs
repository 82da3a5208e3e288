//! Which V8 version uses which phase name.
//!
//! Phase names change between versions while the banner grammar stays, so the
//! names live in a table. A trace never says which version wrote it; the names
//! of its phases vote.

use vstd::prelude::*;
#[allow(unused_imports)]
use vstd::string::*;

use crate::document;
use crate::document::TomlItem;
#[allow(unused_imports)]
use crate::document::{entry_models, held, one_level, table_named, toml_document, ItemModel};
#[allow(unused_imports)]
use crate::model::texts;
use crate::text;

verus! {

/// The table of phase names per version.
pub const MARKERS_TOML: &'static str = "[maglev.\"14.9\"]\nphases = [\"After graph building\", \"After truncation\"]\n\n[maglev.\"15.2\"]\nphases = [\"Maglev graph building\", \"Phi untagging\", \"Register allocation\"]\n";

/// The known phase names, each with the versions that use it.
pub struct MarkerTable {
    phases: Vec<(String, Vec<String>)>,
}

/// The view of a `MarkerTable`: names and versions in the order of the table.
pub open spec fn phase_versions_model(
    phases: Seq<(String, Vec<String>)>,
) -> Seq<(Seq<char>, Seq<Seq<char>>)> {
    phases.map_values(|p: (String, Vec<String>)| (p.0@, texts(p.1@)))
}

impl View for MarkerTable {
    type V = Seq<(Seq<char>, Seq<Seq<char>>)>;

    closed spec fn view(&self) -> Seq<(Seq<char>, Seq<Seq<char>>)> {
        phase_versions_model(self.phases@)
    }
}

/// The place of `name` in a table, from `i` on.
pub open spec fn row_named(
    table: Seq<(Seq<char>, Seq<Seq<char>>)>,
    name: Seq<char>,
    i: int,
) -> Option<int>
    decreases table.len() - i,
{
    if i < 0 || i >= table.len() {
        None
    } else if table[i].0 == name {
        Some(i)
    } else {
        row_named(table, name, i + 1)
    }
}

/// The versions that use a phase name, if any does.
pub open spec fn versions_of(
    table: Seq<(Seq<char>, Seq<Seq<char>>)>,
    name: Seq<char>,
) -> Option<Seq<Seq<char>>> {
    match row_named(table, name, 0) {
        Some(k) => Some(table[k].1),
        None => None,
    }
}

/// A table in which `version` uses `name` too.
pub open spec fn with_marker(
    table: Seq<(Seq<char>, Seq<Seq<char>>)>,
    name: Seq<char>,
    version: Seq<char>,
) -> Seq<(Seq<char>, Seq<Seq<char>>)> {
    match row_named(table, name, 0) {
        Some(k) => table.update(k, (table[k].0, table[k].1.push(version))),
        None => table.push((name, seq![version])),
    }
}

/// A table in which `version` uses the first `n` names of a list too; elements
/// that are no text are passed over.
pub open spec fn with_markers(
    table: Seq<(Seq<char>, Seq<Seq<char>>)>,
    names: Seq<Option<Seq<char>>>,
    n: int,
    version: Seq<char>,
) -> Seq<(Seq<char>, Seq<Seq<char>>)>
    decreases n,
{
    if n <= 0 {
        table
    } else {
        let before = with_markers(table, names, n - 1, version);
        match names[n - 1] {
            Some(name) => with_marker(before, name, version),
            None => before,
        }
    }
}

/// The list called `phases` among some entries.
pub open spec fn phase_list(
    entries: Seq<(Seq<char>, ItemModel)>,
    i: int,
) -> Option<Seq<Option<Seq<char>>>>
    decreases entries.len() - i,
{
    if i < 0 || i >= entries.len() {
        None
    } else if entries[i].0 == "phases"@ {
        match entries[i].1 {
            ItemModel::List(list) => Some(list),
            _ => None,
        }
    } else {
        phase_list(entries, i + 1)
    }
}

/// The table made of the first `n` versions, each with the entries of its
/// table; a version that is no table, or without a list of phases, has no names.
pub open spec fn markers_from(
    versions: Seq<(Seq<char>, Option<Seq<(Seq<char>, ItemModel)>>)>,
    n: int,
) -> Seq<(Seq<char>, Seq<Seq<char>>)>
    decreases n,
{
    if n <= 0 {
        Seq::empty()
    } else {
        let before = markers_from(versions, n - 1);
        let (version, table) = versions[n - 1];
        match table {
            Some(entries) => match phase_list(entries, 0) {
                Some(names) => with_markers(before, names, names.len() as int, version),
                None => before,
            },
            None => before,
        }
    }
}

/// The versions in a table of versions, each with the entries of its table.
pub open spec fn version_tables(table: Seq<(Seq<char>, ItemModel)>) -> Seq<
    (Seq<char>, Option<Seq<(Seq<char>, ItemModel)>>),
> {
    table.map_values(
        |e: (Seq<char>, ItemModel)|
            (
                e.0,
                match table_named(table, e.0) {
                    Some(entries) => Some(one_level(entries)),
                    None => None,
                },
            ),
    )
}

/// The table of what a document holds. One that cannot be read gives an empty
/// table: every phase is then unknown, and nothing is lost.
pub open spec fn markers_in(
    document: Result<Seq<(Seq<char>, ItemModel)>, Seq<char>>,
) -> Seq<(Seq<char>, Seq<Seq<char>>)> {
    match document {
        Ok(entries) => match table_named(entries, "maglev"@) {
            Some(versions) => {
                let tables = version_tables(versions);
                markers_from(tables, tables.len() as int)
            },
            None => Seq::empty(),
        },
        Err(_) => Seq::empty(),
    }
}

/// The table of a document.
pub open spec fn markers_of(doc: Seq<char>) -> Seq<(Seq<char>, Seq<Seq<char>>)> {
    markers_in(toml_document(doc))
}

/// The view of versions with the entries of their tables.
pub open spec fn version_models(
    versions: Seq<(String, Option<Vec<(String, TomlItem)>>)>,
) -> Seq<(Seq<char>, Option<Seq<(Seq<char>, ItemModel)>>)> {
    versions.map_values(
        |v: (String, Option<Vec<(String, TomlItem)>>)|
            (
                v.0@,
                match v.1 {
                    Some(entries) => Some(entry_models(entries@)),
                    None => None,
                },
            ),
    )
}

fn find_row(phases: &Vec<(String, Vec<String>)>, name: &String) -> (at: Option<usize>)
    ensures
        text::pos(at) == row_named(phase_versions_model(phases@), name@, 0),
        at matches Some(k) ==> k < phases.len(),
{
    let ghost model = phase_versions_model(phases@);
    let mut k: usize = 0;
    while k < phases.len()
        invariant
            k <= phases.len(),
            model == phase_versions_model(phases@),
            row_named(model, name@, 0) == row_named(model, name@, k as int),
        decreases phases.len() - k,
    {
        assert(model[k as int].0 == phases@[k as int].0@);
        if phases[k].0 == *name {
            return Some(k);
        }
        k += 1;
    }
    None
}

fn add_marker(phases: &mut Vec<(String, Vec<String>)>, name: &String, version: &String)
    ensures
        phase_versions_model(final(phases)@) == with_marker(
            phase_versions_model(old(phases)@),
            name@,
            version@,
        ),
{
    let ghost before = phases@;
    match find_row(phases, name) {
        Some(k) => {
            let mut row: (String, Vec<String>) = (String::new(), Vec::new());
            std::mem::swap(&mut phases[k], &mut row);
            let ghost list = row.1@;
            row.1.push(version.clone());
            assert(texts(row.1@) =~= texts(list).push(version@));
            phases.set(k, row);
            assert(phase_versions_model(phases@) =~= with_marker(
                phase_versions_model(before),
                name@,
                version@,
            ));
        },
        None => {
            let mut list: Vec<String> = Vec::new();
            list.push(version.clone());
            assert(texts(list@) =~= seq![version@]);
            phases.push((name.clone(), list));
            assert(phase_versions_model(phases@) =~= with_marker(
                phase_versions_model(before),
                name@,
                version@,
            ));
        },
    }
}

fn add_markers(phases: &mut Vec<(String, Vec<String>)>, names: &Vec<Option<String>>, version: &String)
    ensures
        phase_versions_model(final(phases)@) == with_markers(
            phase_versions_model(old(phases)@),
            names@.map_values(|s: Option<String>| crate::model::opt_text(s)),
            names@.len() as int,
            version@,
        ),
{
    let ghost list = names@.map_values(|s: Option<String>| crate::model::opt_text(s));
    let mut k: usize = 0;
    while k < names.len()
        invariant
            k <= names.len(),
            list == names@.map_values(|s: Option<String>| crate::model::opt_text(s)),
            phase_versions_model(phases@) == with_markers(
                phase_versions_model(old(phases)@),
                list,
                k as int,
                version@,
            ),
        decreases names.len() - k,
    {
        assert(list[k as int] == crate::model::opt_text(names@[k as int]));
        if let Some(name) = &names[k] {
            add_marker(phases, name, version);
        }
        k += 1;
    }
}

fn find_phase_list(entries: &Vec<(String, TomlItem)>) -> (list: Option<&Vec<Option<String>>>)
    ensures
        match list {
            Some(l) => phase_list(entry_models(entries@), 0) == Some(
                l@.map_values(|s: Option<String>| crate::model::opt_text(s)),
            ),
            None => phase_list(entry_models(entries@), 0) is None,
        },
{
    let ghost model = entry_models(entries@);
    let wanted: String = text::owned("phases");
    let mut k: usize = 0;
    while k < entries.len() && !(entries[k].0 == wanted)
        invariant
            k <= entries.len(),
            model == entry_models(entries@),
            wanted@ == "phases"@,
            phase_list(model, 0) == phase_list(model, k as int),
        decreases entries.len() - k,
    {
        assert(model[k as int].0 == entries@[k as int].0@);
        k += 1;
    }
    if k >= entries.len() {
        return None;
    }
    assert(model[k as int].0 == entries@[k as int].0@);
    assert(model[k as int].1 == entries@[k as int].1@);
    match &entries[k].1 {
        TomlItem::List(list) => Some(list),
        _ => None,
    }
}

fn read_versions(table: &toml::Table) -> (versions: Vec<
    (String, Option<Vec<(String, TomlItem)>>),
>)
    ensures
        version_models(versions@) == version_tables(held(*table)),
{
    let ghost wanted = version_tables(held(*table));
    let entries: Vec<(String, TomlItem)> = document::table_entries(table);
    let mut versions: Vec<(String, Option<Vec<(String, TomlItem)>>)> = Vec::new();
    assert(entry_models(entries@).len() == held(*table).len());
    let mut k: usize = 0;
    assert(version_models(versions@) =~= wanted.take(0));
    while k < entries.len()
        invariant
            k <= entries.len(),
            entries@.len() == held(*table).len(),
            entry_models(entries@) == one_level(held(*table)),
            wanted == version_tables(held(*table)),
            version_models(versions@) == wanted.take(k as int),
        decreases entries.len() - k,
    {
        let ghost before = version_models(versions@);
        assert(entry_models(entries@)[k as int].0 == entries@[k as int].0@);
        assert(one_level(held(*table))[k as int].0 == held(*table)[k as int].0);
        let inner = match document::table_under(table, entries[k].0.as_str()) {
            Some(t) => Some(document::table_entries(t)),
            None => None,
        };
        versions.push((entries[k].0.clone(), inner));
        assert(version_models(versions@) =~= before.push(wanted[k as int]));
        assert(wanted.take(k + 1) =~= wanted.take(k as int).push(wanted[k as int]));
        k += 1;
    }
    assert(wanted.take(wanted.len() as int) =~= wanted);
    versions
}

impl MarkerTable {
    /// The built-in table.
    pub fn get() -> (table: MarkerTable)
        ensures
            table@ == markers_of(MARKERS_TOML@),
    {
        MarkerTable::parse(MARKERS_TOML)
    }

    /// The table of a document.
    pub fn parse(doc: &str) -> (table: MarkerTable)
        ensures
            table@ == markers_of(doc@),
    {
        let mut versions: Vec<(String, Option<Vec<(String, TomlItem)>>)> = Vec::new();
        assert(version_models(versions@) =~= Seq::empty());
        if let Ok(root) = document::parse_document(doc) {
            if let Some(table) = document::table_under(&root, "maglev") {
                versions = read_versions(table);
            }
        }
        MarkerTable::from_versions(&versions)
    }

    /// The table of versions that were read, each with the entries of its
    /// table.
    pub fn from_versions(
        versions: &Vec<(String, Option<Vec<(String, TomlItem)>>)>,
    ) -> (table: MarkerTable)
        ensures
            table@ == markers_from(version_models(versions@), versions@.len() as int),
    {
        let ghost model = version_models(versions@);
        let mut phases: Vec<(String, Vec<String>)> = Vec::new();
        assert(phase_versions_model(phases@) =~= Seq::empty());
        let mut k: usize = 0;
        while k < versions.len()
            invariant
                k <= versions.len(),
                model == version_models(versions@),
                phase_versions_model(phases@) == markers_from(model, k as int),
            decreases versions.len() - k,
        {
            let version = &versions[k].0;
            assert(model[k as int].0 == version@);
            if let Some(entries) = &versions[k].1 {
                assert(model[k as int].1 == Some(entry_models(entries@)));
                if let Some(names) = find_phase_list(entries) {
                    add_markers(&mut phases, names, version);
                }
            }
            k += 1;
        }
        MarkerTable { phases }
    }

    /// The versions that use a phase name.
    pub fn phase_versions(&self, name: &str) -> (versions: Option<&Vec<String>>)
        ensures
            match versions {
                Some(v) => versions_of(self@, name@) == Some(texts(v@)),
                None => versions_of(self@, name@) is None,
            },
    {
        let wanted: String = text::owned(name);
        match find_row(&self.phases, &wanted) {
            Some(k) => {
                assert(self@[k as int].1 == texts(self.phases@[k as int].1@));
                Some(&self.phases[k].1)
            },
            None => None,
        }
    }
}

// ---------------------------------------------------------------------------
// Votes
// ---------------------------------------------------------------------------

/// How often the phases of a trace named each version.
pub struct VersionVotes {
    votes: Vec<(String, u32)>,
}

/// The view of the votes: versions and counts in the order in which they came.
pub open spec fn vote_models(votes: Seq<(String, u32)>) -> Seq<(Seq<char>, u32)> {
    votes.map_values(|v: (String, u32)| (v.0@, v.1))
}

impl View for VersionVotes {
    type V = Seq<(Seq<char>, u32)>;

    closed spec fn view(&self) -> Seq<(Seq<char>, u32)> {
        vote_models(self.votes@)
    }
}

/// The place of a version among the votes, from `i` on.
pub open spec fn vote_place(votes: Seq<(Seq<char>, u32)>, version: Seq<char>, i: int) -> Option<int>
    decreases votes.len() - i,
{
    if i < 0 || i >= votes.len() {
        None
    } else if votes[i].0 == version {
        Some(i)
    } else {
        vote_place(votes, version, i + 1)
    }
}

/// The votes after one more for `version`.
pub open spec fn with_vote(votes: Seq<(Seq<char>, u32)>, version: Seq<char>) -> Seq<
    (Seq<char>, u32),
> {
    match vote_place(votes, version, 0) {
        Some(k) => votes.update(k, (votes[k].0, crate::model::next_count(votes[k].1))),
        None => votes.push((version, 1)),
    }
}

/// The votes after one more for each of the first `n` versions.
pub open spec fn with_votes(
    votes: Seq<(Seq<char>, u32)>,
    versions: Seq<Seq<char>>,
    n: int,
) -> Seq<(Seq<char>, u32)>
    decreases n,
{
    if n <= 0 {
        votes
    } else {
        with_vote(with_votes(votes, versions, n - 1), versions[n - 1])
    }
}

/// `a` comes before `b` in the order of bytes, from place `i` on.
pub open spec fn bytes_before(a: Seq<u8>, b: Seq<u8>, i: int) -> bool
    decreases a.len() - i,
{
    if i < 0 || i >= b.len() {
        false
    } else if i >= a.len() {
        true
    } else if a[i] != b[i] {
        a[i] < b[i]
    } else {
        bytes_before(a, b, i + 1)
    }
}

/// `a` comes before `b` in the order of texts.
pub open spec fn text_before(a: Seq<char>, b: Seq<char>) -> bool {
    bytes_before(vstd::utf8::encode_utf8(a), vstd::utf8::encode_utf8(b), 0)
}

/// Does `a` come before `b` in the order of texts?
pub fn comes_before(a: &str, b: &str) -> (yes: bool)
    ensures
        yes == text_before(a@, b@),
{
    let x = a.as_bytes();
    let y = b.as_bytes();
    let mut i: usize = 0;
    while i < x.len() && i < y.len() && x[i] == y[i]
        invariant
            i <= x.len(),
            i <= y.len(),
            bytes_before(x@, y@, 0) == bytes_before(x@, y@, i as int),
        decreases x.len() - i,
    {
        i += 1;
    }
    if i >= y.len() {
        false
    } else if i >= x.len() {
        true
    } else {
        x[i] < y[i]
    }
}

/// The vote `a` beats the vote `b`: more votes, or as many for the earlier
/// version.
pub open spec fn beats(a: (Seq<char>, u32), b: (Seq<char>, u32)) -> bool {
    a.1 > b.1 || (a.1 == b.1 && text_before(a.0, b.0))
}

/// The place of the winner among the first `n` votes.
pub open spec fn winner(votes: Seq<(Seq<char>, u32)>, n: int) -> int
    decreases n,
{
    if n <= 1 {
        0
    } else if beats(votes[n - 1], votes[winner(votes, n - 1)]) {
        n - 1
    } else {
        winner(votes, n - 1)
    }
}

/// The version with the most votes; among equals the one that comes first in
/// the order of texts.
pub open spec fn detected_version(votes: Seq<(Seq<char>, u32)>) -> Option<Seq<char>> {
    if votes.len() == 0 {
        None
    } else {
        Some(votes[winner(votes, votes.len() as int)].0)
    }
}

impl VersionVotes {
    /// No votes yet.
    pub fn new() -> (votes: VersionVotes)
        ensures
            votes@ == Seq::<(Seq<char>, u32)>::empty(),
    {
        let votes = VersionVotes { votes: Vec::new() };
        assert(votes@ =~= Seq::empty());
        votes
    }

    fn vote(&mut self, version: &String)
        ensures
            final(self)@ == with_vote(old(self)@, version@),
    {
        let ghost model = self@;
        let mut k: usize = 0;
        while k < self.votes.len() && !(self.votes[k].0 == *version)
            invariant
                k <= self.votes.len(),
                *self == *old(self),
                model == self@,
                vote_place(model, version@, 0) == vote_place(model, version@, k as int),
            decreases self.votes.len() - k,
        {
            assert(model[k as int].0 == self.votes@[k as int].0@);
            k += 1;
        }
        if k < self.votes.len() {
            assert(model[k as int].0 == self.votes@[k as int].0@);
            let mut row: (String, u32) = (String::new(), 0);
            std::mem::swap(&mut self.votes[k], &mut row);
            row.1 = crate::model::count_up(row.1);
            self.votes.set(k, row);
        } else {
            self.votes.push((version.clone(), 1));
        }
        assert(self@ =~= with_vote(model, version@));
    }

    /// Counts one vote for each version.
    pub fn record(&mut self, versions: &Vec<String>)
        ensures
            final(self)@ == with_votes(
                old(self)@,
                texts(versions@),
                versions@.len() as int,
            ),
    {
        let mut k: usize = 0;
        while k < versions.len()
            invariant
                k <= versions.len(),
                self@ == with_votes(old(self)@, texts(versions@), k as int),
            decreases versions.len() - k,
        {
            assert(texts(versions@)[k as int] == versions@[k as int]@);
            self.vote(&versions[k]);
            k += 1;
        }
    }

    /// The version that the votes point at.
    pub fn detected(&self) -> (version: Option<&str>)
        ensures
            match version {
                Some(v) => detected_version(self@) == Some(v@),
                None => detected_version(self@) is None,
            },
    {
        if self.votes.len() == 0 {
            return None;
        }
        let ghost model = self@;
        let mut best: usize = 0;
        let mut n: usize = 1;
        while n < self.votes.len()
            invariant
                1 <= n <= self.votes.len(),
                model == self@,
                best < n,
                best == winner(model, n as int),
            decreases self.votes.len() - n,
        {
            let a = &self.votes[n];
            let b = &self.votes[best];
            assert(model[n as int] == (a.0@, a.1));
            assert(model[best as int] == (b.0@, b.1));
            if a.1 > b.1 || (a.1 == b.1 && comes_before(a.0.as_str(), b.0.as_str())) {
                best = n;
            }
            n += 1;
        }
        assert(model[best as int].0 == self.votes@[best as int].0@);
        Some(self.votes[best].0.as_str())
    }
}

impl Default for VersionVotes {
    fn default() -> (votes: VersionVotes)
        ensures
            votes@ == Seq::<(Seq<char>, u32)>::empty(),
    {
        VersionVotes::new()
    }
}

// ---------------------------------------------------------------------------
// Laws
// ---------------------------------------------------------------------------

proof fn lemma_vote_place(votes: Seq<(Seq<char>, u32)>, version: Seq<char>, i: int)
    requires
        0 <= i <= votes.len(),
    ensures
        match vote_place(votes, version, i) {
            Some(k) => i <= k < votes.len() && votes[k].0 == version,
            None => forall|k: int| i <= k < votes.len() ==> (#[trigger] votes[k]).0 != version,
        },
    decreases votes.len() - i,
{
    if i < votes.len() && votes[i].0 != version {
        lemma_vote_place(votes, version, i + 1);
    }
}

/// Every version that was named has one row, with how often it was named.
spec fn tallied(votes: Seq<(Seq<char>, u32)>, named: Seq<Seq<char>>) -> bool {
    &&& forall|i: int, j: int|
        0 <= i < j < votes.len() ==> (#[trigger] votes[i]).0 != (#[trigger] votes[j]).0
    &&& forall|k: int|
        0 <= k < votes.len() ==> (#[trigger] votes[k]).1 == named.to_multiset().count(votes[k].0)
            && votes[k].1 > 0
    &&& forall|v: Seq<char>|
        named.to_multiset().count(v) > 0 ==> #[trigger] vote_place(votes, v, 0) is Some
}

proof fn lemma_tallied(named: Seq<Seq<char>>, n: int)
    requires
        0 <= n <= named.len() <= u32::MAX,
    ensures
        tallied(with_votes(Seq::empty(), named, n), named.take(n)),
    decreases n,
{
    broadcast use vstd::seq_lib::group_to_multiset_ensures;

    let votes = with_votes(Seq::empty(), named, n);
    if n > 0 {
        lemma_tallied(named, n - 1);
        let before = with_votes(Seq::empty(), named, n - 1);
        let v = named[n - 1];
        let counts = named.take(n - 1).to_multiset();
        assert(named.take(n) =~= named.take(n - 1).push(v));
        assert(named.take(n).to_multiset() == counts.insert(v));
        assert(counts.len() == n - 1);
        lemma_vote_place(before, v, 0);
        assert(counts.count(v) <= n - 1) by {
            lemma_count_bound(counts, v);
        }
        assert forall|w: Seq<char>| named.take(n).to_multiset().count(w) > 0 implies #[trigger]
        vote_place(votes, w, 0) is Some by {
            lemma_vote_place(before, w, 0);
            lemma_vote_place(votes, w, 0);
            if w != v {
                assert(vote_place(before, w, 0) is Some);
                let k = vote_place(before, w, 0)->0;
                assert(votes[k].0 == w);
            } else {
                match vote_place(before, v, 0) {
                    Some(k) => {
                        assert(votes[k].0 == v);
                    },
                    None => {
                        assert(votes[before.len() as int].0 == v);
                    },
                }
            }
        }
        if vote_place(before, v, 0) is None {
            assert(counts.count(v) == 0);
        }
    } else {
        assert(named.take(0) =~= Seq::empty());
        assert(named.take(0).to_multiset().len() == 0);
        assert forall|w: Seq<char>| named.take(0).to_multiset().count(w) == 0 by {
            assert(!named.take(0).contains(w));
        }
    }
}

proof fn lemma_count_bound(m: vstd::multiset::Multiset<Seq<char>>, v: Seq<char>)
    ensures
        m.count(v) <= m.len(),
{
    broadcast use vstd::multiset::group_multiset_axioms;

    let same = vstd::multiset::Multiset::from_map(map![v => m.count(v)]);
    let others = m.sub(same);
    assert(same.subset_of(m));
    assert(same.add(others) =~= m);
}

proof fn lemma_one_is_first(a: Seq<u8>, b: Seq<u8>, i: int)
    requires
        0 <= i <= a.len(),
        i <= b.len(),
        a.take(i) == b.take(i),
        a != b,
    ensures
        bytes_before(a, b, i) != bytes_before(b, a, i),
    decreases a.len() - i,
{
    if i < a.len() && i < b.len() {
        if a[i] == b[i] {
            assert(a.take(i + 1) =~= a.take(i).push(a[i]));
            assert(b.take(i + 1) =~= b.take(i).push(b[i]));
            lemma_one_is_first(a, b, i + 1);
        }
    } else if a.len() == b.len() {
        assert(a =~= a.take(i));
        assert(b =~= b.take(i));
    }
}

proof fn lemma_order_chains(a: Seq<u8>, b: Seq<u8>, c: Seq<u8>, i: int)
    requires
        0 <= i,
        bytes_before(a, b, i),
        bytes_before(b, c, i),
    ensures
        bytes_before(a, c, i),
    decreases a.len() - i,
{
    if i < a.len() && a[i] == b[i] && b[i] == c[i] {
        lemma_order_chains(a, b, c, i + 1);
    }
}

/// Of two different texts exactly one comes before the other.
pub proof fn law_texts_are_ordered(a: Seq<char>, b: Seq<char>)
    requires
        a != b,
    ensures
        text_before(a, b) != text_before(b, a),
{
    vstd::utf8::encode_utf8_decode_utf8(a);
    vstd::utf8::encode_utf8_decode_utf8(b);
    let x = vstd::utf8::encode_utf8(a);
    let y = vstd::utf8::encode_utf8(b);
    assert(x.take(0) =~= y.take(0));
    lemma_one_is_first(x, y, 0);
}

proof fn lemma_not_before_itself(a: Seq<u8>, i: int)
    ensures
        !bytes_before(a, a, i),
    decreases a.len() - i,
{
    if 0 <= i < a.len() {
        lemma_not_before_itself(a, i + 1);
    }
}

/// No text comes before itself, and a text that comes before another comes
/// before all that the other comes before.
pub proof fn law_the_order_of_texts_chains(a: Seq<char>, b: Seq<char>, c: Seq<char>)
    ensures
        !text_before(a, a),
        text_before(a, b) && text_before(b, c) ==> text_before(a, c),
{
    let x = vstd::utf8::encode_utf8(a);
    lemma_not_before_itself(x, 0);
    if text_before(a, b) && text_before(b, c) {
        lemma_order_chains(x, vstd::utf8::encode_utf8(b), vstd::utf8::encode_utf8(c), 0);
    }
}

proof fn lemma_winner_beats(votes: Seq<(Seq<char>, u32)>, n: int)
    requires
        1 <= n <= votes.len(),
        forall|i: int, j: int|
            0 <= i < j < votes.len() ==> (#[trigger] votes[i]).0 != (#[trigger] votes[j]).0,
    ensures
        0 <= winner(votes, n) < n,
        forall|k: int|
            0 <= k < n && k != winner(votes, n) ==> beats(
                votes[winner(votes, n)],
                #[trigger] votes[k],
            ),
    decreases n,
{
    if n > 1 {
        lemma_winner_beats(votes, n - 1);
        let w = winner(votes, n - 1);
        law_texts_are_ordered(votes[w].0, votes[n - 1].0);
        if beats(votes[n - 1], votes[w]) {
            assert forall|k: int| 0 <= k < n - 1 implies beats(
                votes[n - 1],
                #[trigger] votes[k],
            ) by {
                if k != w && votes[n - 1].1 == votes[w].1 && votes[w].1 == votes[k].1 {
                    law_the_order_of_texts_chains(votes[n - 1].0, votes[w].0, votes[k].0);
                }
            }
        }
    }
}

/// The votes after each version in `named` was named once more.
pub open spec fn votes_for(named: Seq<Seq<char>>) -> Seq<(Seq<char>, u32)> {
    with_votes(Seq::empty(), named, named.len() as int)
}

/// Lists recorded in turn count as one list.
pub proof fn law_lists_count_in_turn(
    votes: Seq<(Seq<char>, u32)>,
    first: Seq<Seq<char>>,
    second: Seq<Seq<char>>,
    n: int,
)
    requires
        0 <= n <= second.len(),
    ensures
        with_votes(with_votes(votes, first, first.len() as int), second, n) == with_votes(
            votes,
            first + second,
            first.len() + n,
        ),
    decreases n,
{
    if n > 0 {
        law_lists_count_in_turn(votes, first, second, n - 1);
        assert((first + second)[first.len() + n - 1] == second[n - 1]);
    } else {
        lemma_same_names(votes, first, first + second, first.len() as int);
    }
}

proof fn lemma_same_names(
    votes: Seq<(Seq<char>, u32)>,
    a: Seq<Seq<char>>,
    b: Seq<Seq<char>>,
    n: int,
)
    requires
        n <= a.len(),
        n <= b.len(),
        forall|k: int| 0 <= k < n ==> a[k] == b[k],
    ensures
        with_votes(votes, a, n) == with_votes(votes, b, n),
    decreases n,
{
    if n > 0 {
        lemma_same_names(votes, a, b, n - 1);
    }
}

/// The version that is detected was named most often, and comes before every
/// other one that was named as often. None is detected only where none was
/// named.
pub proof fn law_the_earliest_majority_is_detected(named: Seq<Seq<char>>)
    requires
        named.len() <= u32::MAX,
    ensures
        detected_version(votes_for(named)) is None <==> named.len() == 0,
        detected_version(votes_for(named)) matches Some(v) ==> named.contains(v) && forall|
            w: Seq<char>,
        |
            #![trigger named.to_multiset().count(w)]
            {
                &&& named.to_multiset().count(w) <= named.to_multiset().count(v)
                &&& w != v && named.to_multiset().count(w) == named.to_multiset().count(v)
                    ==> text_before(v, w)
            },
{
    broadcast use vstd::seq_lib::group_to_multiset_ensures;

    let votes = votes_for(named);
    lemma_tallied(named, named.len() as int);
    assert(named.take(named.len() as int) =~= named);
    if named.len() == 0 {
        assert(votes =~= Seq::empty());
    } else {
        assert(named.contains(named[0]));
        assert(vote_place(votes, named[0], 0) is Some);
        lemma_vote_place(votes, named[0], 0);
        lemma_winner_beats(votes, votes.len() as int);
        let at = winner(votes, votes.len() as int);
        let v = votes[at].0;
        assert(votes[at].1 == named.to_multiset().count(v));
        assert forall|w: Seq<char>|
            #![trigger named.to_multiset().count(w)]
            {
                &&& named.to_multiset().count(w) <= named.to_multiset().count(v)
                &&& w != v && named.to_multiset().count(w) == named.to_multiset().count(v)
                    ==> text_before(v, w)
            } by {
            if named.to_multiset().count(w) > 0 {
                assert(vote_place(votes, w, 0) is Some);
                lemma_vote_place(votes, w, 0);
                let k = vote_place(votes, w, 0)->0;
                assert(votes[k].1 == named.to_multiset().count(w));
                if k != at {
                    assert(beats(votes[at], votes[k]));
                }
            }
        }
    }
}

/// The order in which the votes come does not matter.
pub proof fn law_the_order_of_votes_does_not_matter(a: Seq<Seq<char>>, b: Seq<Seq<char>>)
    requires
        a.len() <= u32::MAX,
        a.to_multiset() == b.to_multiset(),
    ensures
        detected_version(votes_for(a)) == detected_version(votes_for(b)),
{
    broadcast use vstd::seq_lib::group_to_multiset_ensures;

    assert(a.len() == b.len()) by {
        a.to_multiset_ensures();
        b.to_multiset_ensures();
    }
    law_the_earliest_majority_is_detected(a);
    law_the_earliest_majority_is_detected(b);
    if a.len() > 0 {
        let v = detected_version(votes_for(a))->0;
        let w = detected_version(votes_for(b))->0;
        assert(a.to_multiset().count(w) <= a.to_multiset().count(v));
        assert(b.to_multiset().count(v) <= b.to_multiset().count(w));
        if v != w {
            law_texts_are_ordered(v, w);
        }
    }
}

} // verus!
