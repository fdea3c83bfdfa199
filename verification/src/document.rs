//! TOML documents as plain trees.
use vstd::prelude::*;

use crate::text;

verus! {

/// A value of a TOML document. Numbers and dates are told apart but not read.
#[derive(Debug)]
pub enum Toml {
    Text(String),
    Integer(i64),
    Float,
    Flag(bool),
    Datetime,
    Array(Vec<Toml>),
    Table(Vec<(String, Toml)>),
}

/// The mathematical tree of a [`Toml`] value.
pub enum TomlView {
    Text(Seq<char>),
    Integer(i64),
    Float,
    Flag(bool),
    Datetime,
    Array(Seq<TomlView>),
    Table(Seq<(Seq<char>, TomlView)>),
}

impl View for Toml {
    type V = TomlView;

    open spec fn view(&self) -> TomlView {
        self.tree()
    }
}

impl Toml {
    /// The mathematical tree of this value.
    pub open spec fn tree(&self) -> TomlView
        decreases self,
    {
        match self {
            Toml::Text(s) => TomlView::Text(s@),
            Toml::Integer(n) => TomlView::Integer(*n),
            Toml::Float => TomlView::Float,
            Toml::Flag(b) => TomlView::Flag(*b),
            Toml::Datetime => TomlView::Datetime,
            Toml::Array(items) => TomlView::Array(
                Seq::new(
                    items@.len(),
                    |i: int|
                        if 0 <= i < items@.len() {
                            items@[i].tree()
                        } else {
                            TomlView::Float
                        },
                ),
            ),
            Toml::Table(entries) => TomlView::Table(
                Seq::new(
                    entries@.len(),
                    |i: int|
                        if 0 <= i < entries@.len() {
                            (entries@[i].0@, entries@[i].1.tree())
                        } else {
                            (seq![], TomlView::Float)
                        },
                ),
            ),
        }
    }
}

impl TomlView {
    /// The value under `key`, in a table that has one.
    pub open spec fn get(self, key: Seq<char>) -> Option<TomlView> {
        match self {
            TomlView::Table(entries) => lookup(entries, key),
            _ => None,
        }
    }

    pub open spec fn as_text(self) -> Option<Seq<char>> {
        match self {
            TomlView::Text(s) => Some(s),
            _ => None,
        }
    }

    pub open spec fn as_flag(self) -> Option<bool> {
        match self {
            TomlView::Flag(b) => Some(b),
            _ => None,
        }
    }

    pub open spec fn as_array(self) -> Option<Seq<TomlView>> {
        match self {
            TomlView::Array(items) => Some(items),
            _ => None,
        }
    }

    /// The text under `key`, in a table that has one.
    pub open spec fn text_at(self, key: Seq<char>) -> Option<Seq<char>> {
        match self.get(key) {
            Some(value) => value.as_text(),
            None => None,
        }
    }

    /// The array under `key`, in a table that has one.
    pub open spec fn array_at(self, key: Seq<char>) -> Option<Seq<TomlView>> {
        match self.get(key) {
            Some(value) => value.as_array(),
            None => None,
        }
    }

    /// The table under `key`, in a table that has one.
    pub open spec fn table_at(self, key: Seq<char>) -> Option<TomlView> {
        match self.get(key) {
            Some(value) => if value is Table {
                Some(value)
            } else {
                None
            },
            None => None,
        }
    }
}

/// The value of the first entry under `key`.
pub open spec fn lookup(entries: Seq<(Seq<char>, TomlView)>, key: Seq<char>) -> Option<TomlView>
    decreases entries.len(),
{
    if entries.len() == 0 {
        None
    } else if entries[0].0 == key {
        Some(entries[0].1)
    } else {
        lookup(entries.drop_first(), key)
    }
}

/// The value under `key` is that of the entry at `i`, the first with that key.
pub proof fn lemma_lookup(entries: Seq<(Seq<char>, TomlView)>, key: Seq<char>, i: int)
    requires
        0 <= i <= entries.len(),
        forall|j: int| 0 <= j < i ==> (#[trigger] entries[j]).0 != key,
        i < entries.len() ==> entries[i].0 == key,
    ensures
        lookup(entries, key) == if i < entries.len() {
            Some(entries[i].1)
        } else {
            None
        },
    decreases i,
{
    if i > 0 {
        let rest = entries.drop_first();
        assert(entries[0].0 != key);
        assert forall|j: int| 0 <= j < i - 1 implies (#[trigger] rest[j]).0 != key by {
            assert(rest[j] == entries[j + 1]);
        }
        lemma_lookup(rest, key, i - 1);
    }
}

impl Toml {
    /// The value under `key`, in a table that has one.
    pub fn get(&self, key: &str) -> (r: Option<&Toml>)
        ensures
            match r {
                Some(value) => self@.get(key@) == Some(value@),
                None => self@.get(key@) is None,
            },
    {
        match self {
            Toml::Table(entries) => {
                let ghost all = self@->Table_0;
                let mut i: usize = 0;
                while i < entries.len()
                    invariant
                        i <= entries.len(),
                        self@ == TomlView::Table(all),
                        all.len() == entries@.len(),
                        forall|j: int|
                            0 <= j < all.len() ==> #[trigger] all[j] == (
                                entries@[j].0@,
                                entries@[j].1@,
                            ),
                        forall|j: int| 0 <= j < i ==> (#[trigger] all[j]).0 != key@,
                    decreases entries.len() - i,
                {
                    assert(all[i as int] == (entries@[i as int].0@, entries@[i as int].1@));
                    if text::same_text(entries[i].0.as_str(), key) {
                        proof {
                            lemma_lookup(all, key@, i as int);
                        }
                        return Some(&entries[i].1);
                    }
                    i += 1;
                }
                proof {
                    lemma_lookup(all, key@, i as int);
                }
                None
            },
            _ => None,
        }
    }

    pub fn as_text(&self) -> (r: Option<&str>)
        ensures
            match r {
                Some(s) => self@.as_text() == Some(s@),
                None => self@.as_text() is None,
            },
    {
        match self {
            Toml::Text(s) => Some(s.as_str()),
            _ => None,
        }
    }

    pub fn as_flag(&self) -> (r: Option<bool>)
        ensures
            r == self@.as_flag(),
    {
        match self {
            Toml::Flag(b) => Some(*b),
            _ => None,
        }
    }

    pub fn as_array(&self) -> (r: Option<&Vec<Toml>>)
        ensures
            match r {
                Some(items) => self@.as_array() == Some(trees(items@)),
                None => self@.as_array() is None,
            },
    {
        match self {
            Toml::Array(items) => {
                assert(trees(items@) =~= self@->Array_0);
                Some(items)
            },
            _ => None,
        }
    }

    pub fn is_table(&self) -> (r: bool)
        ensures
            r == (self@ is Table),
    {
        match self {
            Toml::Table(_) => true,
            _ => false,
        }
    }

    /// The text under `key`, in a table that has one.
    pub fn text_at(&self, key: &str) -> (r: Option<&str>)
        ensures
            match r {
                Some(s) => self@.text_at(key@) == Some(s@),
                None => self@.text_at(key@) is None,
            },
    {
        match self.get(key) {
            Some(value) => value.as_text(),
            None => None,
        }
    }

    /// The array under `key`, in a table that has one.
    pub fn array_at(&self, key: &str) -> (r: Option<&Vec<Toml>>)
        ensures
            match r {
                Some(items) => self@.array_at(key@) == Some(trees(items@)),
                None => self@.array_at(key@) is None,
            },
    {
        match self.get(key) {
            Some(value) => value.as_array(),
            None => None,
        }
    }

    /// The table under `key`, in a table that has one.
    pub fn table_at(&self, key: &str) -> (r: Option<&Toml>)
        ensures
            match r {
                Some(value) => self@.table_at(key@) == Some(value@),
                None => self@.table_at(key@) is None,
            },
    {
        match self.get(key) {
            Some(value) => if value.is_table() {
                Some(value)
            } else {
                None
            },
            None => None,
        }
    }
}

/// The trees of a list of values.
pub open spec fn trees(items: Seq<Toml>) -> Seq<TomlView> {
    items.map_values(|v: Toml| v@)
}

/// A value as the `toml` crate holds it.
#[verifier::external_type_specification]
#[verifier::external_body]
pub struct ExValue(toml::Value);

/// A syntax error as the `toml` crate reports it.
#[verifier::external_type_specification]
#[verifier::external_body]
pub struct ExSyntaxError(toml::de::Error);

/// What `toml::from_str` reads from a text, or the error that it gives.
pub uninterp spec fn toml_value(text: Seq<char>) -> Result<toml::Value, toml::de::Error>;

/// The tree that a `toml::Value` holds.
pub uninterp spec fn toml_tree(value: toml::Value) -> TomlView;

/// The tree of the TOML document `text`, or why it is none.
pub open spec fn toml_document(text: Seq<char>) -> Result<TomlView, toml::de::Error> {
    match toml_value(text) {
        Ok(value) => Ok(toml_tree(value)),
        Err(e) => Err(e),
    }
}

/// Calls `toml::from_str` for a `toml::Value`. What it reads, or the error that
/// it gives, depends on the text alone.
#[verifier::external_body]
fn read_value(text: &str) -> (r: Result<toml::Value, toml::de::Error>)
    ensures
        r == toml_value(text@),
{
    toml::from_str(text)
}

/// Takes a `toml::Value` apart: each variant becomes the one of the same kind,
/// arrays and tables item by item, in the order in which `toml` hands them out.
#[verifier::external_body]
fn tree_of(value: toml::Value) -> (r: Toml)
    ensures
        r@ == toml_tree(value),
{
    match value {
        toml::Value::String(s) => Toml::Text(s),
        toml::Value::Integer(n) => Toml::Integer(n),
        toml::Value::Float(_) => Toml::Float,
        toml::Value::Boolean(b) => Toml::Flag(b),
        toml::Value::Datetime(_) => Toml::Datetime,
        toml::Value::Array(items) => Toml::Array(items.into_iter().map(tree_of).collect()),
        toml::Value::Table(t) => Toml::Table(t.into_iter().map(|(k, v)| (k, tree_of(v))).collect()),
    }
}

/// Reads a TOML document.
pub fn parse_document(text: &str) -> (r: Result<Toml, toml::de::Error>)
    ensures
        match r {
            Ok(document) => toml_document(text@) == Ok::<_, toml::de::Error>(document@),
            Err(e) => toml_document(text@) == Err::<TomlView, _>(e),
        },
{
    match read_value(text) {
        Ok(value) => Ok(tree_of(value)),
        Err(e) => Err(e),
    }
}

} // verus!
