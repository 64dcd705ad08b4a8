//! The TOML documents that manifests and lockfiles are written in.
//!
//! Parsing is the work of the `toml` crate. This module declares its value
//! types, names what they hold, and states what the few of its functions
//! that the library calls return. Nothing here is proved: the rest of the
//! library is verified against these statements.

use vstd::prelude::*;

verus! {

/// A value of a TOML document, as `toml` holds it.
#[verifier::external_type_specification]
#[verifier::external_body]
pub struct ExValue(toml::Value);

/// A table of a TOML document, as `toml` holds it.
#[verifier::external_type_specification]
#[verifier::external_body]
#[verifier::reject_recursive_types(K)]
#[verifier::reject_recursive_types(V)]
pub struct ExMap<K, V>(toml::map::Map<K, V>);

/// What a TOML value holds, as far as this library reads it: a string, a
/// boolean, an array, a table with its entries in the table's own order, or
/// anything else.
pub enum Content {
    Text(Seq<char>),
    Flag(bool),
    List(Seq<Content>),
    Table(Seq<(Seq<char>, Content)>),
    Other,
}

/// The entries of the document that `text` is in TOML, or the parser's
/// message where `text` is no TOML document.
pub uninterp spec fn document(text: Seq<char>) -> Result<Seq<(Seq<char>, Content)>, Seq<char>>;

/// The entries that a table holds: each key with what its value holds, in
/// the order in which the table hands them out.
pub uninterp spec fn table_content(table: toml::map::Map<String, toml::Value>) -> Seq<
    (Seq<char>, Content),
>;

/// What a value holds.
pub uninterp spec fn value_content(value: toml::Value) -> Content;

/// Calls `toml::from_str` for a table. A text that parses gives the table of
/// the document's entries; any other text gives the parser's message, which
/// the error shows through `Display`. Both depend on the text alone.
#[verifier::external_body]
pub(crate) fn parse_document(text: &str) -> (r: Result<
    toml::map::Map<String, toml::Value>,
    String,
>)
    ensures
        match r {
            Ok(table) => document(text@) matches Ok(entries) && entries == table_content(table),
            Err(message) => document(text@) matches Err(fault) && fault == message@,
        },
{
    match toml::from_str::<toml::map::Map<String, toml::Value>>(text) {
        Ok(table) => Ok(table),
        Err(e) => Err(e.to_string()),
    }
}

/// Calls `toml::map::Map::iter` and collects what it yields: one pair of
/// key and value for each entry of the table, in the table's order.
#[verifier::external_body]
pub(crate) fn table_items<'a>(table: &'a toml::map::Map<String, toml::Value>) -> (r: Vec<
    (&'a String, &'a toml::Value),
>)
    ensures
        r@.len() == table_content(*table).len(),
        forall|i: int|
            0 <= i < r@.len() ==> (#[trigger] r@[i]).0@ == table_content(*table)[i].0
                && value_content(*r@[i].1) == table_content(*table)[i].1,
{
    table.iter().collect()
}

/// `toml::Value::as_str` gives the string of a value that is a string, and
/// `None` for any other value.
pub assume_specification[ toml::Value::as_str ](value: &toml::Value) -> (r: Option<&str>)
    ensures
        match r {
            Some(s) => value_content(*value) == Content::Text(s@),
            None => !(value_content(*value) is Text),
        },
;

/// `toml::Value::as_bool` gives the boolean of a value that is a boolean,
/// and `None` for any other value.
pub assume_specification[ toml::Value::as_bool ](value: &toml::Value) -> (r: Option<bool>)
    ensures
        match r {
            Some(b) => value_content(*value) == Content::Flag(b),
            None => !(value_content(*value) is Flag),
        },
;

/// `toml::Value::as_table` gives the table of a value that is a table, and
/// `None` for any other value.
pub assume_specification[ toml::Value::as_table ](value: &toml::Value) -> (r: Option<
    &toml::map::Map<String, toml::Value>,
>)
    ensures
        match r {
            Some(table) => value_content(*value) == Content::Table(table_content(*table)),
            None => !(value_content(*value) is Table),
        },
;

/// `toml::Value::as_array` gives the items of a value that is an array, and
/// `None` for any other value.
pub assume_specification[ toml::Value::as_array ](value: &toml::Value) -> (r: Option<
    &Vec<toml::Value>,
>)
    ensures
        match r {
            Some(items) => value_content(*value) == Content::List(
                items@.map_values(|item: toml::Value| value_content(item)),
            ),
            None => !(value_content(*value) is List),
        },
;

} // verus!
