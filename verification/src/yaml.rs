//! What the chain file takes from `serde_yaml`: parsing a document, and looking into a value.
use serde_yaml::Value;
use vstd::prelude::*;

verus! {

#[verifier::external_type_specification]
#[verifier::external_body]
pub struct ExValue(serde_yaml::Value);

/// What a YAML value holds.
pub enum Tree {
    Text(Seq<char>),
    /// The bit pattern of the number as an IEEE 754 double.
    Number(u64),
    List(Seq<Tree>),
    /// The entries in the order of the document; no key occurs twice.
    Table(Seq<(Tree, Tree)>),
    Tagged(Box<Tree>),
    /// A null or a boolean.
    Other,
}

/// The value under the tags.
pub open spec fn untag(t: Tree) -> Tree
    decreases t,
{
    match t {
        Tree::Tagged(inner) => untag(*inner),
        _ => t,
    }
}

/// The text, if the value is one.
pub open spec fn text_in(t: Tree) -> Option<Seq<char>> {
    match untag(t) {
        Tree::Text(s) => Some(s),
        _ => None,
    }
}

/// The number, if the value is one.
pub open spec fn number_in(t: Tree) -> Option<u64> {
    match untag(t) {
        Tree::Number(bits) => Some(bits),
        _ => None,
    }
}

/// The items, if the value is a list.
pub open spec fn items_in(t: Tree) -> Option<Seq<Tree>> {
    match untag(t) {
        Tree::List(items) => Some(items),
        _ => None,
    }
}

/// The entries, if the value is a table.
pub open spec fn entries_in(t: Tree) -> Option<Seq<(Tree, Tree)>> {
    match untag(t) {
        Tree::Table(entries) => Some(entries),
        _ => None,
    }
}

/// The value of the first entry whose key is the text `key`, without a tag.
pub open spec fn entry_with(entries: Seq<(Tree, Tree)>, key: Seq<char>) -> Option<Tree>
    decreases entries.len(),
{
    if entries.len() == 0 {
        None
    } else if entries[0].0 == Tree::Text(key) {
        Some(entries[0].1)
    } else {
        entry_with(entries.drop_first(), key)
    }
}

/// The value under the text `key`, if the value is a table that has it.
pub open spec fn value_at(t: Tree, key: Seq<char>) -> Option<Tree> {
    match entries_in(t) {
        Some(entries) => entry_with(entries, key),
        None => None,
    }
}

/// What a value holds.
pub uninterp spec fn contents(value: Value) -> Tree;

/// What a document holds, or the message that says why it is none: what
/// `serde_yaml::from_slice` makes of the bytes.
pub uninterp spec fn document(bytes: Seq<u8>) -> Result<Tree, Seq<char>>;

/// `serde_yaml::from_slice` into a `Value`, the error given as its message. What the bytes
/// stand for has the name `document`.
#[verifier::external_body]
pub(crate) fn parse_document(bytes: &[u8]) -> (r: Result<Value, String>)
    ensures
        match r {
            Ok(value) => document(bytes@) == Ok::<Tree, Seq<char>>(contents(value)),
            Err(message) => document(bytes@) == Err::<Tree, Seq<char>>(message@),
        },
{
    match serde_yaml::from_slice::<Value>(bytes) {
        Ok(value) => Ok(value),
        Err(e) => Err(e.to_string()),
    }
}

/// `Value::as_str`: the text, if the value is one, under any tags.
#[verifier::external_body]
pub(crate) fn as_text(value: &Value) -> (r: Option<String>)
    ensures
        match r {
            Some(s) => text_in(contents(*value)) == Some(s@),
            None => text_in(contents(*value)) is None,
        },
{
    match value.as_str() {
        Some(s) => Some(s.to_string()),
        None => None,
    }
}

/// `Value::as_f64`, given as its bit pattern: the number, if the value is one, under any
/// tags.
#[verifier::external_body]
pub(crate) fn as_number(value: &Value) -> (r: Option<u64>)
    ensures
        r == number_in(contents(*value)),
{
    match value.as_f64() {
        Some(number) => Some(number.to_bits()),
        None => None,
    }
}

/// `Value::as_sequence`: the items in order, if the value is a list, under any tags.
#[verifier::external_body]
pub(crate) fn as_items(value: &Value) -> (r: Option<Vec<&Value>>)
    ensures
        match r {
            Some(list) => items_in(contents(*value)) == Some(
                list@.map_values(|item: &Value| contents(*item)),
            ),
            None => items_in(contents(*value)) is None,
        },
{
    match value.as_sequence() {
        Some(list) => Some(list.iter().collect()),
        None => None,
    }
}

/// `Value::as_mapping`: the entries in order, if the value is a table, under any tags.
#[verifier::external_body]
pub(crate) fn as_entries(value: &Value) -> (r: Option<Vec<(&Value, &Value)>>)
    ensures
        match r {
            Some(list) => entries_in(contents(*value)) == Some(
                list@.map_values(
                    |entry: (&Value, &Value)| (contents(*entry.0), contents(*entry.1)),
                ),
            ),
            None => entries_in(contents(*value)) is None,
        },
{
    match value.as_mapping() {
        Some(table) => Some(table.iter().collect()),
        None => None,
    }
}

/// `Value::get` with a text: the value under that key, if the value is a table, under any
/// tags, that has the key. A tagged key is another key.
#[verifier::external_body]
pub(crate) fn get<'a>(value: &'a Value, key: &str) -> (r: Option<&'a Value>)
    ensures
        match r {
            Some(found) => value_at(contents(*value), key@) == Some(contents(*found)),
            None => value_at(contents(*value), key@) is None,
        },
{
    value.get(key)
}

} // verus!
