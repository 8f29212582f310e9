//! The trusted boundary to `toml_edit`'s format-preserving document tree.
//!
//! Every function here is `external_body`: its contract states, over the
//! model of `tree_model`, what the named `toml_edit` operation does
//! according to that crate's source.  Nothing else in the crate is trusted.

use vstd::prelude::*;
use crate::strutil::strs;
use crate::tree_model::Toml;
use crate::tree_model::empty_like;
use crate::tree_model::str_arr;
use crate::tree_model::tl_has;
use crate::tree_model::tl_keys;
use crate::tree_model::tl_lookup;
use crate::tree_model::tl_remove;
use crate::tree_model::tl_set;
use toml_edit::Document;
use toml_edit::Item;
use toml_edit::Value;

verus! {

#[verifier::external_type_specification]
#[verifier::external_body]
pub struct ExItem(Item);

#[verifier::external_type_specification]
#[verifier::external_body]
pub struct ExDocument(Document);

/// What a tree node holds, as the editing logic observes it.
pub uninterp spec fn item_model(i: Item) -> Toml;

/// What a parsed document's root table holds.
pub uninterp spec fn doc_model(d: Document) -> Toml;

/// What parsing a text yields: the root table's model, or nothing when the
/// text is not valid TOML.
pub uninterp spec fn parse_toml(s: Seq<char>) -> Option<Toml>;

/// What serializing a document yields: a function of the document value
/// alone, byte-stable for untouched regions.
pub uninterp spec fn text_of(d: Document) -> Seq<char>;

/// Relies on `Document::from_str` (`toml_edit::parser`): parsing fails
/// exactly on malformed text and otherwise yields a root block table whose
/// ordered maps bind each key once.
#[verifier::external_body]
pub fn parse_document(s: &str) -> (r: Result<Document, String>)
    ensures
        r is Ok <==> parse_toml(s@) is Some,
        r matches Ok(d) ==> {
            &&& doc_model(d) == parse_toml(s@)->Some_0
            &&& doc_model(d) is Block
            &&& doc_model(d).wf()
        },
{
    match s.parse::<Document>() {
        Ok(d) => Ok(d),
        Err(e) => Err(e.to_string()),
    }
}

/// Relies on `Document::as_item`: the root item of the document.
#[verifier::external_body]
pub fn doc_item(d: &Document) -> (r: &Item)
    ensures
        item_model(*r) == doc_model(*d),
{
    d.as_item()
}

/// Relies on `Document::as_item_mut`: the root item of the document.
#[verifier::external_body]
pub fn doc_item_mut(d: &mut Document) -> (r: &mut Item)
    ensures
        item_model(*r) == doc_model(*old(d)),
        doc_model(*final(d)) == item_model(*final(r)),
{
    d.as_item_mut()
}

/// Relies on `Document`'s `Display`: serializes the tree back to text,
/// byte-stable for untouched regions.  The text is a function of the
/// document value alone, named by `text_of`.
#[verifier::external_body]
pub fn doc_to_text(d: &Document) -> (r: String)
    ensures
        r@ == text_of(*d),
{
    d.to_string()
}

/// Relies on `Item::as_str` (`Value::as_str`): yields the characters of a
/// string node and nothing for any other kind.
#[verifier::external_body]
pub fn item_as_str<'a>(i: &'a Item) -> (r: Option<&'a str>)
    ensures
        r is Some <==> item_model(*i) is Str,
        r matches Some(s) ==> item_model(*i) == Toml::Str(s@),
{
    i.as_str()
}

/// Relies on `Item::as_bool` (`Value::as_bool`).
#[verifier::external_body]
pub fn item_as_bool(i: &Item) -> (r: Option<bool>)
    ensures
        r is Some <==> item_model(*i) is Bool,
        r matches Some(b) ==> item_model(*i) == Toml::Bool(b),
{
    i.as_bool()
}

/// Relies on `Item::is_table_like`: true for block and inline tables.
#[verifier::external_body]
pub fn item_is_table_like(i: &Item) -> (r: bool)
    ensures
        r == item_model(*i).is_table_like(),
{
    i.is_table_like()
}

/// Relies on `Item::is_table`: true for block tables only.
#[verifier::external_body]
pub fn item_is_block_table(i: &Item) -> (r: bool)
    ensures
        r == (item_model(*i) is Block),
{
    i.is_table()
}

/// Relies on `Item::is_array`: true for value arrays.
#[verifier::external_body]
pub fn item_is_array(i: &Item) -> (r: bool)
    ensures
        r == (item_model(*i) is Arr),
{
    i.is_array()
}

/// Relies on the `Item` and `Value` variant set: the display name of the
/// node's kind, exactly as `toml_edit` reports it.
#[verifier::external_body]
pub fn item_kind_name(i: &Item) -> (r: String)
    ensures
        r@ == item_model(*i).kind_name(),
{
    let name = match i {
        Item::None => "none",
        Item::Table(..) => "table",
        Item::ArrayOfTables(..) => "array of tables",
        Item::Value(Value::String(..)) => "string",
        Item::Value(Value::Integer(..)) => "integer",
        Item::Value(Value::Float(..)) => "float",
        Item::Value(Value::Boolean(..)) => "boolean",
        Item::Value(Value::Datetime(..)) => "datetime",
        Item::Value(Value::Array(..)) => "array",
        Item::Value(Value::InlineTable(..)) => "inline table",
    };
    name.to_owned()
}

/// Relies on `TableLike::len`: the number of visible entries.
#[verifier::external_body]
pub fn item_table_len(i: &Item) -> (r: usize)
    requires
        item_model(*i).is_table_like(),
    ensures
        r == item_model(*i).entries().len(),
{
    i.as_table_like().unwrap().len()
}

/// Relies on `TableLike::get`: the value bound to `key`, if the node is a
/// table of either style and binds the key.
#[verifier::external_body]
pub fn item_table_get<'a>(i: &'a Item, key: &str) -> (r: Option<&'a Item>)
    ensures
        r is Some <==> (item_model(*i).is_table_like() && tl_has(item_model(*i).entries(), key@)),
        r matches Some(v) ==> tl_lookup(item_model(*i).entries(), key@) == Some(item_model(*v)),
{
    i.as_table_like().and_then(|t| t.get(key))
}

/// Relies on `TableLike::iter`: the keys of the visible entries, in order.
#[verifier::external_body]
pub fn item_table_keys(i: &Item) -> (r: Vec<String>)
    requires
        item_model(*i).is_table_like(),
    ensures
        strs(r@) == tl_keys(item_model(*i).entries()),
{
    i.as_table_like().unwrap().iter().map(|(k, _)| k.to_owned()).collect()
}

/// Relies on `Array::len`.
#[verifier::external_body]
pub fn item_array_len(i: &Item) -> (r: usize)
    requires
        item_model(*i) is Arr,
    ensures
        r == item_model(*i)->Arr_0.len(),
{
    i.as_array().unwrap().len()
}

/// Relies on `Array::get` and `Value::as_str`: the characters of the
/// element when it is a string, nothing otherwise.
#[verifier::external_body]
pub fn item_array_str(i: &Item, idx: usize) -> (r: Option<String>)
    requires
        item_model(*i) is Arr,
        idx < item_model(*i)->Arr_0.len(),
    ensures
        r is Some <==> item_model(*i)->Arr_0[idx as int] is Str,
        r matches Some(s) ==> item_model(*i)->Arr_0[idx as int] == Toml::Str(s@),
{
    i.as_array().and_then(|a| a.get(idx)).and_then(|v| v.as_str()).map(|s| s.to_owned())
}

/// Relies on `Array::get` and the `Value` variant set: the display name of
/// the element's kind.
#[verifier::external_body]
pub fn item_array_kind_name(i: &Item, idx: usize) -> (r: String)
    requires
        item_model(*i) is Arr,
        idx < item_model(*i)->Arr_0.len(),
    ensures
        r@ == item_model(*i)->Arr_0[idx as int].kind_name(),
{
    let name = match i.as_array().and_then(|a| a.get(idx)) {
        None => "none",
        Some(Value::String(..)) => "string",
        Some(Value::Integer(..)) => "integer",
        Some(Value::Float(..)) => "float",
        Some(Value::Boolean(..)) => "boolean",
        Some(Value::Datetime(..)) => "datetime",
        Some(Value::Array(..)) => "array",
        Some(Value::InlineTable(..)) => "inline table",
    };
    name.to_owned()
}

/// Relies on `Array::remove` (`Vec::remove` underneath): drops the element
/// at `idx` and keeps the order of the rest.
#[verifier::external_body]
pub fn item_array_remove(i: &mut Item, idx: usize)
    requires
        item_model(*old(i)) is Arr,
        idx < item_model(*old(i))->Arr_0.len(),
    ensures
        item_model(*final(i)) == Toml::Arr(
            item_model(*old(i))->Arr_0.remove(idx as int),
        ),
{
    let a = i.as_array_mut().unwrap();
    let _ = a.remove(idx);
}

/// Relies on `TableLike::insert` (`IndexMap::insert` underneath): an
/// existing key keeps its position and gets the new value; a new key is
/// appended at the end.  Inserting a block table into an inline table would
/// convert it, so that case is kept out.
#[verifier::external_body]
pub fn item_table_insert(i: &mut Item, key: &str, v: Item)
    requires
        item_model(*old(i)).is_table_like(),
        item_model(*old(i)) is Block || (item_model(v) is Str || item_model(v) is Bool
            || item_model(v) is Int || item_model(v) is Arr || item_model(v) is Inline),
    ensures
        item_model(*final(i)) == item_model(*old(i)).with_entries(
            tl_set(item_model(*old(i)).entries(), key@, item_model(v)),
        ),
{
    let t = i.as_table_like_mut().unwrap();
    let _ = t.insert(key, v);
}

/// Relies on `TableLike::remove` (`IndexMap::shift_remove` underneath):
/// drops the entry and keeps the order of the rest.
#[verifier::external_body]
pub fn item_table_remove(i: &mut Item, key: &str)
    requires
        item_model(*old(i)).is_table_like(),
    ensures
        item_model(*final(i)) == item_model(*old(i)).with_entries(
            tl_remove(item_model(*old(i)).entries(), key@),
        ),
{
    let t = i.as_table_like_mut().unwrap();
    let _ = t.remove(key);
}

/// Relies on `TableLike::fmt` (`decorate_table`, `decorate_inline_table`):
/// normalizes whitespace decoration only; keys and values stay as they are.
#[verifier::external_body]
pub fn item_table_fmt(i: &mut Item)
    requires
        item_model(*old(i)).is_table_like(),
    ensures
        item_model(*final(i)) == item_model(*old(i)),
{
    i.as_table_like_mut().unwrap().fmt()
}

/// Relies on `TableLike::contains_key`, `TableLike::insert` and
/// `TableLike::get_mut`: yields the value bound to `key`, first binding the
/// key to a fresh empty table (of the parent's style) when it is absent.
#[verifier::external_body]
pub fn item_or_insert_table<'a>(i: &'a mut Item, key: &str) -> (r: &'a mut Item)
    requires
        item_model(*old(i)).is_table_like(),
    ensures
        item_model(*r) == (match tl_lookup(item_model(*old(i)).entries(), key@) {
            Some(v) => v,
            None => empty_like(item_model(*old(i))),
        }),
        item_model(*final(i)) == item_model(*old(i)).with_entries(
            tl_set(item_model(*old(i)).entries(), key@, item_model(*final(r))),
        ),
{
    let t = i.as_table_like_mut().unwrap();
    if !t.contains_key(key) {
        let _ = t.insert(key, toml_edit::table());
    }
    t.get_mut(key).unwrap()
}

/// Relies on `Item`'s derived `Clone`: a deep copy of the node.
#[verifier::external_body]
pub fn item_clone(i: &Item) -> (r: Item)
    ensures
        item_model(r) == item_model(*i),
{
    i.clone()
}

/// Relies on `toml_edit::value`: a string node holding `s`.
#[verifier::external_body]
pub fn mk_str_item(s: &str) -> (r: Item)
    ensures
        item_model(r) == Toml::Str(s@),
{
    toml_edit::value(s)
}

/// Relies on `toml_edit::value`: a boolean node holding `b`.
#[verifier::external_body]
pub fn mk_bool_item(b: bool) -> (r: Item)
    ensures
        item_model(r) == Toml::Bool(b),
{
    toml_edit::value(b)
}

/// Relies on `Value`'s `FromIterator`: an array node holding the given
/// strings, in order.
#[verifier::external_body]
pub fn mk_str_array_item(vs: &Vec<String>) -> (r: Item)
    ensures
        item_model(r) == str_arr(strs(vs@)),
{
    toml_edit::value(vs.iter().map(|s| s.as_str()).collect::<Value>())
}

/// Relies on `InlineTable::default`: an empty inline table node.
#[verifier::external_body]
pub fn mk_inline_table_item() -> (r: Item)
    ensures
        item_model(r) == Toml::Inline(Seq::empty()),
{
    Item::Value(Value::InlineTable(toml_edit::InlineTable::default()))
}

} // verus!
