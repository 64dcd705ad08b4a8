//! Looking things up in a parsed TOML document.

use vstd::prelude::*;
use crate::toml_doc::table_content;
use crate::toml_doc::table_items;
use crate::toml_doc::value_content;
use crate::toml_doc::Content;

verus! {

/// What the first entry with the key `key` holds, if there is one.
pub open spec fn content_at(items: Seq<(Seq<char>, Content)>, key: Seq<char>) -> Option<Content>
    decreases items.len(),
{
    if items.len() == 0 {
        None
    } else if items[0].0 == key {
        Some(items[0].1)
    } else {
        content_at(items.drop_first(), key)
    }
}

/// The string under `key`, where the entry is there and holds a string.
pub open spec fn text_at(items: Seq<(Seq<char>, Content)>, key: Seq<char>) -> Option<Seq<char>> {
    match content_at(items, key) {
        Some(Content::Text(text)) => Some(text),
        _ => None,
    }
}

/// Whether the entry under `key` is there and holds the boolean `true`.
pub open spec fn flag_at(items: Seq<(Seq<char>, Content)>, key: Seq<char>) -> bool {
    content_at(items, key) == Some(Content::Flag(true))
}

/// What a list of key and value pairs holds.
pub open spec fn items_content(items: Seq<(&String, &toml::Value)>) -> Seq<(Seq<char>, Content)> {
    items.map_values(|item: (&String, &toml::Value)| (item.0@, value_content(*item.1)))
}

/// The entries of `table`, each key with its value.
pub(crate) fn entries_of<'a>(table: &'a toml::map::Map<String, toml::Value>) -> (r: Vec<
    (&'a String, &'a toml::Value),
>)
    ensures
        items_content(r@) == table_content(*table),
{
    let items = table_items(table);
    assert(items_content(items@) =~= table_content(*table));
    items
}

/// The value of the first of `items` whose key is `key`.
pub(crate) fn find_value<'a>(items: &Vec<(&'a String, &'a toml::Value)>, key: &str) -> (r: Option<
    &'a toml::Value,
>)
    ensures
        match r {
            Some(value) => content_at(items_content(items@), key@) == Some(value_content(*value)),
            None => content_at(items_content(items@), key@) is None,
        },
{
    let wanted = key.to_owned();
    let ghost all = items_content(items@);
    let mut i: usize = 0;
    assert(all.skip(0) == all);
    while i < items.len()
        invariant
            i <= items.len(),
            wanted@ == key@,
            all == items_content(items@),
            content_at(all, key@) == content_at(all.skip(i as int), key@),
        decreases items.len() - i,
    {
        let item = items[i];
        assert(all.skip(i as int)[0] == (item.0@, value_content(*item.1)));
        if *item.0 == wanted {
            return Some(item.1);
        }
        assert(all.skip(i as int).drop_first() == all.skip(i as int + 1));
        i += 1;
    }
    assert(all.skip(i as int).len() == 0);
    None
}

/// The string under `key`, where there is one.
pub(crate) fn find_text(items: &Vec<(&String, &toml::Value)>, key: &str) -> (r: Option<String>)
    ensures
        match r {
            Some(text) => text_at(items_content(items@), key@) == Some(text@),
            None => text_at(items_content(items@), key@) is None,
        },
{
    match find_value(items, key) {
        Some(value) => match value.as_str() {
            Some(text) => Some(text.to_owned()),
            None => None,
        },
        None => None,
    }
}

/// Whether `key` is set to `true`.
pub(crate) fn find_flag(items: &Vec<(&String, &toml::Value)>, key: &str) -> (r: bool)
    ensures
        r == flag_at(items_content(items@), key@),
{
    match find_value(items, key) {
        Some(value) => match value.as_bool() {
            Some(flag) => flag,
            None => false,
        },
        None => false,
    }
}

} // verus!
