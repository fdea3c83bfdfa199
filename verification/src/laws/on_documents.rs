//! Laws of [`crate::document`].
use vstd::prelude::*;

use crate::document;
use crate::document::{Toml, TomlView};

verus! {

/// A table gives the value that stands under a key, and nothing under a key
/// that it lacks.
pub proof fn law_get(
    before: Seq<(Seq<char>, TomlView)>,
    key: Seq<char>,
    value: TomlView,
    after: Seq<(Seq<char>, TomlView)>,
)
    requires
        forall|i: int| 0 <= i < before.len() ==> (#[trigger] before[i]).0 != key,
    ensures
        TomlView::Table(before + seq![(key, value)] + after).get(key) == Some(value),
        TomlView::Table(before).get(key) is None,
{
    let entries = before + seq![(key, value)] + after;
    assert(entries[before.len() as int] == (key, value));
    assert forall|j: int| 0 <= j < before.len() implies (#[trigger] entries[j]).0 != key by {
        assert(entries[j] == before[j]);
    }
    document::lemma_lookup(entries, key, before.len() as int);
    document::lemma_lookup(before, key, before.len() as int);
}

/// Only tables have keys.
pub proof fn law_only_tables_have_keys(value: TomlView, key: Seq<char>)
    ensures
        value.get(key) is Some ==> value is Table,
{
}

/// Texts, arrays and tables are found under their keys as they are, and
/// nothing else is taken for one.
pub proof fn law_typed_values(table: TomlView, key: Seq<char>)
    ensures
        match table.get(key) {
            Some(TomlView::Text(s)) => table.text_at(key) == Some(s),
            _ => table.text_at(key) is None,
        },
        match table.get(key) {
            Some(TomlView::Array(items)) => table.array_at(key) == Some(items),
            _ => table.array_at(key) is None,
        },
        match table.get(key) {
            Some(TomlView::Table(entries)) => table.table_at(key) == Some(
                TomlView::Table(entries),
            ),
            _ => table.table_at(key) is None,
        },
{
}

/// A value is a text, a flag or an array exactly if it was made as one.
pub proof fn law_kinds(value: TomlView)
    ensures
        forall|s: Seq<char>| value.as_text() == Some(s) <==> value == TomlView::Text(s),
        forall|b: bool| value.as_flag() == Some(b) <==> value == TomlView::Flag(b),
        forall|items: Seq<TomlView>|
            value.as_array() == Some(items) <==> value == TomlView::Array(items),
{
}

/// The tree of a value keeps its kind and everything in it.
pub proof fn law_tree(value: Toml)
    ensures
        match value {
            Toml::Text(s) => value@ == TomlView::Text(s@),
            Toml::Integer(n) => value@ == TomlView::Integer(n),
            Toml::Float => value@ == TomlView::Float,
            Toml::Flag(b) => value@ == TomlView::Flag(b),
            Toml::Datetime => value@ == TomlView::Datetime,
            Toml::Array(items) => value@ matches TomlView::Array(trees) && trees.len()
                == items@.len() && forall|i: int|
                0 <= i < items@.len() ==> #[trigger] trees[i] == items@[i]@,
            Toml::Table(entries) => value@ matches TomlView::Table(trees) && trees.len()
                == entries@.len() && forall|i: int|
                0 <= i < entries@.len() ==> #[trigger] trees[i] == (
                    entries@[i].0@,
                    entries@[i].1@,
                ),
        },
{
}

/// A list of values has their trees, in their order.
pub proof fn law_trees(items: Seq<Toml>)
    ensures
        document::trees(items).len() == items.len(),
        forall|i: int| 0 <= i < items.len() ==> #[trigger] document::trees(items)[i] == items[i]@,
{
}

/// A document is the tree of what was read from its text, or the error that
/// reading it gave.
pub proof fn law_document(text: Seq<char>)
    ensures
        match document::toml_value(text) {
            Ok(value) => document::toml_document(text) == Ok::<_, toml::de::Error>(
                document::toml_tree(value),
            ),
            Err(e) => document::toml_document(text) == Err::<TomlView, _>(e),
        },
{
}

} // verus!
