//! TOML documents as the library sees them.
//!
//! `toml` reads a document into a `toml::Value`, whose contents are not
//! visible to the proofs here. `TomlValue` holds the same tree with the
//! strings, booleans, date-times, arrays and tables spelled out; integers and
//! floats, which no rule of this library reads, are carried through
//! unchanged inside `Other`. Lookups follow `toml::Value::get`, `as_str`,
//! `as_bool` and `as_array`.

use vstd::prelude::*;
use crate::text::same_text;

verus! {

/// `toml::Value`, carried through unread.
#[verifier::external_type_specification]
#[verifier::external_body]
pub struct ExTomlValue(toml::Value);

/// `toml::value::Datetime`, carried through unread.
#[verifier::external_type_specification]
#[verifier::external_body]
pub struct ExTomlDatetime(toml::value::Datetime);

/// The error of `toml::from_str`.
#[verifier::external_type_specification]
#[verifier::external_body]
pub struct ExTomlDeError(toml::de::Error);

/// The error of `toml::to_string_pretty`.
#[verifier::external_type_specification]
#[verifier::external_body]
pub struct ExTomlSerError(toml::ser::Error);

/// A TOML value. A table lists its entries in order; one read by `toml`
/// lists them in the order of their keys.
pub enum TomlValue {
    Text(String),
    Boolean(bool),
    /// A date-time: its text as `toml` writes it (`Display`), and the value.
    Datetime(String, toml::value::Datetime),
    Array(Vec<TomlValue>),
    Table(Vec<(String, TomlValue)>),
    /// An integer or float.
    Other(toml::Value),
}

/// A TOML value as a mathematical tree.
pub enum TomlTree {
    Text(Seq<char>),
    Boolean(bool),
    Datetime(Seq<char>, toml::value::Datetime),
    Array(Seq<TomlTree>),
    Table(Seq<(Seq<char>, TomlTree)>),
    Other(toml::Value),
}

/// The tree of a value.
pub open spec fn tree_view(v: TomlValue) -> TomlTree
    decreases v,
{
    match v {
        TomlValue::Text(s) => TomlTree::Text(s@),
        TomlValue::Boolean(b) => TomlTree::Boolean(b),
        TomlValue::Datetime(s, d) => TomlTree::Datetime(s@, d),
        TomlValue::Array(a) => TomlTree::Array(trees_view(a@)),
        TomlValue::Table(t) => TomlTree::Table(entries_view(t@)),
        TomlValue::Other(o) => TomlTree::Other(o),
    }
}

/// The trees of a list of values.
pub open spec fn trees_view(s: Seq<TomlValue>) -> Seq<TomlTree>
    decreases s,
{
    if s.len() == 0 {
        Seq::empty()
    } else {
        trees_view(s.drop_last()).push(tree_view(s.last()))
    }
}

/// The entries of a table, keys and values taken as trees.
pub open spec fn entries_view(s: Seq<(String, TomlValue)>) -> Seq<(Seq<char>, TomlTree)>
    decreases s,
{
    if s.len() == 0 {
        Seq::empty()
    } else {
        entries_view(s.drop_last()).push((s.last().0@, tree_view(s.last().1)))
    }
}

impl View for TomlValue {
    type V = TomlTree;

    open spec fn view(&self) -> TomlTree {
        tree_view(*self)
    }
}

/// The trees of a list are the trees of its items.
pub proof fn lemma_trees_view(s: Seq<TomlValue>)
    ensures
        trees_view(s).len() == s.len(),
        forall|i: int| 0 <= i < s.len() ==> #[trigger] trees_view(s)[i] == s[i]@,
    decreases s.len(),
{
    if s.len() > 0 {
        lemma_trees_view(s.drop_last());
    }
}

/// The entries of a table seen as trees are its entries, one by one.
pub proof fn lemma_entries_view(s: Seq<(String, TomlValue)>)
    ensures
        entries_view(s).len() == s.len(),
        forall|i: int| 0 <= i < s.len() ==> #[trigger] entries_view(s)[i] == (s[i].0@, s[i].1@),
    decreases s.len(),
{
    if s.len() > 0 {
        lemma_entries_view(s.drop_last());
    }
}

/// The tree that `toml::from_str::<toml::Value>` reads from the document
/// `text`, each date-time with the text that its `Display` writes, or
/// `None` where it reports an error.
pub uninterp spec fn toml_document(text: Seq<char>) -> Option<TomlTree>;

/// The text that `toml::to_string_pretty` writes for the tree `v`, or
/// `None` where it reports an error.
pub uninterp spec fn toml_pretty_text(v: TomlTree) -> Option<Seq<char>>;

/// The same tree as `v`, one node for one node: the conversion that
/// `parse_toml` applies to what `toml` returns; a date-time also gets the
/// text that `toml::value::Datetime`'s `Display` writes for it. It has no
/// contract of its own; what is claimed of the result is claimed by
/// `parse_toml`.
#[verifier::external_body]
fn tree_of(v: toml::Value) -> TomlValue {
    match v {
        toml::Value::String(s) => TomlValue::Text(s),
        toml::Value::Boolean(b) => TomlValue::Boolean(b),
        toml::Value::Datetime(d) => TomlValue::Datetime(d.to_string(), d),
        toml::Value::Array(a) => TomlValue::Array(a.into_iter().map(tree_of).collect()),
        toml::Value::Table(t) => TomlValue::Table(t.into_iter().map(|(k, x)| (k, tree_of(x))).collect()),
        other => TomlValue::Other(other),
    }
}

/// The same tree as `v`, one node for one node: the conversion that
/// `pretty_toml` applies before handing the tree to `toml`. It has no
/// contract of its own; what is claimed of the text is claimed by
/// `pretty_toml`.
#[verifier::external_body]
fn value_of(v: TomlValue) -> toml::Value {
    match v {
        TomlValue::Text(s) => toml::Value::String(s),
        TomlValue::Boolean(b) => toml::Value::Boolean(b),
        TomlValue::Datetime(_, d) => toml::Value::Datetime(d),
        TomlValue::Array(a) => toml::Value::Array(a.into_iter().map(value_of).collect()),
        TomlValue::Table(t) => toml::Value::Table(t.into_iter().map(|(k, x)| (k, value_of(x))).collect()),
        TomlValue::Other(o) => o,
    }
}

/// Reads `text` as a TOML document with `toml::from_str::<toml::Value>`.
/// Claimed: the call succeeds exactly where `toml_document` has a value, and
/// then returns that value, which is a table, or a date-time where the
/// document's first key is toml's private date-time key (`toml::Value`'s
/// `Deserialize` goes through `visit_map` for the document's root table).
/// What the parser accepts, and what else it builds, is left to `toml` and
/// named, not stated.
#[verifier::external_body]
pub(crate) fn parse_toml(text: &str) -> (r: Result<TomlValue, toml::de::Error>)
    ensures
        r is Ok <==> toml_document(text@) is Some,
        r matches Ok(v) ==> toml_document(text@) == Some(v@),
        r matches Ok(v) ==> (v@ is Table || v@ is Datetime),
{
    toml::from_str::<toml::Value>(text).map(tree_of)
}

/// Writes `v` as TOML text with `toml::to_string_pretty`.
/// Claimed: the call succeeds exactly where `toml_pretty_text` has a value,
/// and then returns that text. The layout of the text is left to `toml`.
#[verifier::external_body]
pub(crate) fn pretty_toml(v: TomlValue) -> (r: Result<String, toml::ser::Error>)
    ensures
        r is Ok <==> toml_pretty_text(v@) is Some,
        r matches Ok(s) ==> toml_pretty_text(v@) == Some(s@),
{
    toml::to_string_pretty(&value_of(v))
}

/// The value of the first entry of `entries` whose key is `key`.
pub open spec fn entry_value(entries: Seq<(Seq<char>, TomlTree)>, key: Seq<char>) -> Option<TomlTree>
    decreases entries.len(),
{
    if entries.len() == 0 {
        None
    } else if entries[0].0 == key {
        Some(entries[0].1)
    } else {
        entry_value(entries.drop_first(), key)
    }
}

/// What `toml::Value::get(key)` finds: the entry `key` of a table; nothing
/// in any other value.
pub open spec fn value_at(v: TomlTree, key: Seq<char>) -> Option<TomlTree> {
    match v {
        TomlTree::Table(entries) => entry_value(entries, key),
        _ => None,
    }
}

/// The text at `key` of `v`, or the empty text where there is no string there.
pub open spec fn text_at(v: TomlTree, key: Seq<char>) -> Seq<char> {
    match value_at(v, key) {
        Some(TomlTree::Text(s)) => s,
        _ => Seq::empty(),
    }
}

/// The text at `key` of `v` where it is a string or a date-time (the
/// date-time's text), or the empty text.
pub open spec fn date_text_at(v: TomlTree, key: Seq<char>) -> Seq<char> {
    match value_at(v, key) {
        Some(TomlTree::Text(s)) => s,
        Some(TomlTree::Datetime(s, _)) => s,
        _ => Seq::empty(),
    }
}

/// The strings among `items`, in order; the other items are left out.
pub open spec fn texts_among(items: Seq<TomlTree>) -> Seq<Seq<char>>
    decreases items.len(),
{
    if items.len() == 0 {
        Seq::empty()
    } else {
        let init = texts_among(items.drop_last());
        match items.last() {
            TomlTree::Text(s) => init.push(s),
            _ => init,
        }
    }
}

/// The strings of the array at `key` of `v`; empty where there is no array.
pub open spec fn texts_at(v: TomlTree, key: Seq<char>) -> Seq<Seq<char>> {
    match value_at(v, key) {
        Some(TomlTree::Array(items)) => texts_among(items),
        _ => Seq::empty(),
    }
}

/// The boolean at `key` of `v`, or `default` where there is none.
pub open spec fn bool_at(v: TomlTree, key: Seq<char>, default: bool) -> bool {
    match value_at(v, key) {
        Some(TomlTree::Boolean(b)) => b,
        _ => default,
    }
}

/// `toml::Value::get`: the entry `key` of the table `v`.
pub fn get<'a>(v: &'a TomlValue, key: &str) -> (r: Option<&'a TomlValue>)
    ensures
        r matches Some(x) ==> value_at(v@, key@) == Some(x@),
        r is None ==> value_at(v@, key@) is None,
{
    match v {
        TomlValue::Table(entries) => {
            let mut i: usize = 0;
            let ghost ev = entries_view(entries@);
            proof {
                lemma_entries_view(entries@);
                assert(ev.skip(0) =~= ev);
            }
            while i < entries.len()
                invariant
                    i <= entries.len(),
                    ev == entries_view(entries@),
                    ev.len() == entries@.len(),
                    forall|k: int| 0 <= k < entries@.len() ==> #[trigger] ev[k] == (entries@[k].0@, entries@[k].1@),
                    value_at(v@, key@) == entry_value(ev, key@),
                    entry_value(ev, key@) == entry_value(ev.skip(i as int), key@),
                decreases entries.len() - i,
            {
                let ghost rest = ev.skip(i as int);
                assert(rest.drop_first() =~= ev.skip(i + 1));
                assert(rest[0] == ev[i as int]);
                if same_text(entries[i].0.as_str(), key) {
                    assert(entry_value(rest, key@) == Some(entries@[i as int].1@));
                    return Some(&entries[i].1);
                }
                i = i + 1;
            }
            None
        },
        _ => None,
    }
}

/// The text at `key` of the table `v` (`get` then `as_str`), or an empty text.
pub fn extract_string(v: &TomlValue, key: &str) -> (r: String)
    ensures
        r@ == text_at(v@, key@),
{
    match get(v, key) {
        Some(TomlValue::Text(s)) => s.clone(),
        _ => String::new(),
    }
}

/// The text at `key` of the table `v` where it is a string or a date-time,
/// or an empty text.
pub fn extract_date_text(v: &TomlValue, key: &str) -> (r: String)
    ensures
        r@ == date_text_at(v@, key@),
{
    match get(v, key) {
        Some(TomlValue::Text(s)) => s.clone(),
        Some(TomlValue::Datetime(s, _)) => s.clone(),
        _ => String::new(),
    }
}

/// The strings of the array at `key` of the table `v` (`get`, `as_array`,
/// then the items for which `as_str` answers), or an empty list.
pub fn extract_string_array(v: &TomlValue, key: &str) -> (r: Vec<String>)
    ensures
        r@.map_values(|s: String| s@) == texts_at(v@, key@),
{
    let mut out: Vec<String> = Vec::new();
    match get(v, key) {
        Some(TomlValue::Array(items)) => {
            let mut i: usize = 0;
            let ghost tv = trees_view(items@);
            proof {
                lemma_trees_view(items@);
            }
            while i < items.len()
                invariant
                    i <= items.len(),
                    tv == trees_view(items@),
                    tv.len() == items@.len(),
                    forall|k: int| 0 <= k < items@.len() ==> #[trigger] tv[k] == items@[k]@,
                    out@.map_values(|s: String| s@) == texts_among(tv.take(i as int)),
                decreases items.len() - i,
            {
                assert(tv.take(i + 1).drop_last() =~= tv.take(i as int));
                assert(tv.take(i + 1).last() == items@[i as int]@);
                match &items[i] {
                    TomlValue::Text(s) => {
                        out.push(s.clone());
                    },
                    _ => {},
                }
                assert(out@.map_values(|s: String| s@) =~= texts_among(tv.take(i + 1)));
                i = i + 1;
            }
            assert(tv.take(items.len() as int) =~= tv);
            out
        },
        _ => {
            assert(out@.map_values(|s: String| s@) =~= Seq::<Seq<char>>::empty());
            out
        },
    }
}

/// The boolean at `key` of the table `v` (`get` then `as_bool`), or `default`.
pub fn extract_bool(v: &TomlValue, key: &str, default: bool) -> (r: bool)
    ensures
        r == bool_at(v@, key@, default),
{
    match get(v, key) {
        Some(TomlValue::Boolean(b)) => *b,
        _ => default,
    }
}

} // verus!
