//! TOML documents as plain values.

use vstd::prelude::*;
#[allow(unused_imports)]
use vstd::string::*;

verus! {

// ---------------------------------------------------------------------------
// Values
// ---------------------------------------------------------------------------

/// A value of a TOML table, as far as one table shows it.
#[derive(Debug)]
pub enum TomlItem {
    Text(String),
    /// The elements that are texts; `None` stands for any other.
    List(Vec<Option<String>>),
    /// A table, a number, a truth value or a date.
    Other,
}

/// A TOML value: the view of a `TomlItem`, and what a table holds all the way
/// down.
pub enum ItemModel {
    Text(Seq<char>),
    List(Seq<Option<Seq<char>>>),
    Table(Seq<(Seq<char>, ItemModel)>),
    Other,
}

/// The views of optional texts.
pub open spec fn opt_texts(list: Seq<Option<String>>) -> Seq<Option<Seq<char>>> {
    list.map_values(|s: Option<String>| crate::model::opt_text(s))
}

impl View for TomlItem {
    type V = ItemModel;

    open spec fn view(&self) -> ItemModel {
        match self {
            TomlItem::Text(s) => ItemModel::Text(s@),
            TomlItem::List(list) => ItemModel::List(opt_texts(list@)),
            TomlItem::Other => ItemModel::Other,
        }
    }
}

/// The view of the entries of a table.
pub open spec fn entry_models(entries: Seq<(String, TomlItem)>) -> Seq<(Seq<char>, ItemModel)> {
    entries.map_values(|e: (String, TomlItem)| (e.0@, e.1@))
}

/// The view of what reading a table gave.
pub open spec fn table_model(
    r: Result<Option<Vec<(String, TomlItem)>>, String>,
) -> Result<Option<Seq<(Seq<char>, ItemModel)>>, Seq<char>> {
    match r {
        Ok(Some(entries)) => Ok(Some(entry_models(entries@))),
        Ok(None) => Ok(None),
        Err(message) => Err(message@),
    }
}

/// The value under a key, from entry `i` on.
pub open spec fn item_named(
    entries: Seq<(Seq<char>, ItemModel)>,
    key: Seq<char>,
    i: int,
) -> Option<ItemModel>
    decreases entries.len() - i,
{
    if i < 0 || i >= entries.len() {
        None
    } else if entries[i].0 == key {
        Some(entries[i].1)
    } else {
        item_named(entries, key, i + 1)
    }
}

/// The table under a key, if a table stands there.
pub open spec fn table_named(entries: Seq<(Seq<char>, ItemModel)>, key: Seq<char>) -> Option<
    Seq<(Seq<char>, ItemModel)>,
> {
    match item_named(entries, key, 0) {
        Some(ItemModel::Table(inner)) => Some(inner),
        _ => None,
    }
}

/// The entries of a table without a look into the tables among them.
pub open spec fn one_level(entries: Seq<(Seq<char>, ItemModel)>) -> Seq<(Seq<char>, ItemModel)> {
    entries.map_values(
        |e: (Seq<char>, ItemModel)|
            match e.1 {
                ItemModel::Table(_) => (e.0, ItemModel::Other),
                _ => e,
            },
    )
}

/// The entries of the table under a key of a document.
pub open spec fn entries_under(
    document: Result<Seq<(Seq<char>, ItemModel)>, Seq<char>>,
    key: Seq<char>,
) -> Result<Option<Seq<(Seq<char>, ItemModel)>>, Seq<char>> {
    match document {
        Ok(entries) => Ok(
            match table_named(entries, key) {
                Some(inner) => Some(one_level(inner)),
                None => None,
            },
        ),
        Err(message) => Err(message),
    }
}

// ---------------------------------------------------------------------------
// Tables of the `toml` crate
// ---------------------------------------------------------------------------

/// The map that `toml::Table` is made of.
#[verifier::external_type_specification]
#[verifier::external_body]
#[verifier::reject_recursive_types(K)]
#[verifier::reject_recursive_types(V)]
pub struct ExMap<K, V>(toml::map::Map<K, V>);

/// A value of a `toml::Table`.
#[verifier::external_type_specification]
#[verifier::external_body]
pub struct ExValue(toml::Value);

/// What a table holds, in the order in which it is walked: its texts, its lists
/// with the texts among their elements, and its tables with what they hold.
pub uninterp spec fn held(table: toml::Table) -> Seq<(Seq<char>, ItemModel)>;

/// What parsing a document gives: what its root table holds, or the message
/// that refuses it.
pub uninterp spec fn toml_document(text: Seq<char>) -> Result<
    Seq<(Seq<char>, ItemModel)>,
    Seq<char>,
>;

/// The view of a parsed document.
pub open spec fn document_model(r: Result<toml::Table, String>) -> Result<
    Seq<(Seq<char>, ItemModel)>,
    Seq<char>,
> {
    match r {
        Ok(table) => Ok(held(table)),
        Err(message) => Err(message@),
    }
}

/// `str::parse::<toml::Table>`.
///
/// Claimed of it: what the table holds, or the message of the error, depends on
/// the document alone.
#[verifier::external_body]
pub(crate) fn parse_document(text: &str) -> (r: Result<toml::Table, String>)
    ensures
        document_model(r) == toml_document(text@),
{
    text.parse().map_err(|e: toml::de::Error| e.to_string())
}

/// `toml::Table::get`, for a value that is a table itself.
///
/// Claimed of it: it finds the entry with this key, of which a table has at
/// most one.
#[verifier::external_body]
pub(crate) fn table_under<'a>(table: &'a toml::Table, key: &str) -> (t: Option<&'a toml::Table>)
    ensures
        match t {
            Some(inner) => table_named(held(*table), key@) == Some(held(*inner)),
            None => table_named(held(*table), key@) is None,
        },
{
    match table.get(key) {
        Some(toml::Value::Table(inner)) => Some(inner),
        _ => None,
    }
}

/// `toml::Table::iter`, with the keys and the values as plain values.
///
/// Claimed of it: it walks every entry once, in the table's order.
#[verifier::external_body]
pub(crate) fn table_entries(table: &toml::Table) -> (entries: Vec<(String, TomlItem)>)
    ensures
        entry_models(entries@) == one_level(held(*table)),
{
    table.iter().map(|(key, value)| (key.clone(), match value {
        toml::Value::String(s) => TomlItem::Text(s.clone()),
        toml::Value::Array(a) => TomlItem::List(
            a.iter().map(|v| v.as_str().map(String::from)).collect(),
        ),
        _ => TomlItem::Other,
    })).collect()
}

/// Reads the table under a key of a document.
pub fn read_table(text: &str, key: &str) -> (r: Result<Option<Vec<(String, TomlItem)>>, String>)
    ensures
        table_model(r) == entries_under(toml_document(text@), key@),
{
    match parse_document(text) {
        Err(message) => Err(message),
        Ok(root) => match table_under(&root, key) {
            Some(table) => Ok(Some(table_entries(table))),
            None => Ok(None),
        },
    }
}

} // verus!
