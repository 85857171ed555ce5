//! JSON documents, read through `serde_json`.

use vstd::prelude::*;

verus! {

/// What a JSON document says.
pub enum Tree {
    Null,
    Bool(bool),
    /// A number written without a fraction or exponent that fits 64 bits.
    Integer(int),
    /// Any other number, by its bit pattern.
    Real(u64),
    Text(Seq<char>),
    Array(Seq<Tree>),
    Object(Map<Seq<char>, Tree>),
}

impl Tree {
    /// The member called `key`, where this is an object that has one.
    pub open spec fn member(self, key: Seq<char>) -> Option<Tree> {
        match self {
            Tree::Object(members) => if members.contains_key(key) {
                Some(members[key])
            } else {
                None
            },
            _ => None,
        }
    }

    /// The text, where this is one.
    pub open spec fn text(self) -> Option<Seq<char>> {
        match self {
            Tree::Text(s) => Some(s),
            _ => None,
        }
    }

    /// The elements, where this is an array.
    pub open spec fn elements(self) -> Option<Seq<Tree>> {
        match self {
            Tree::Array(items) => Some(items),
            _ => None,
        }
    }

    /// The truth value, where this is one.
    pub open spec fn truth(self) -> Option<bool> {
        match self {
            Tree::Bool(b) => Some(b),
            _ => None,
        }
    }

    /// The integer, where this is one that fits in 64 bits with a sign.
    pub open spec fn integer(self) -> Option<int> {
        match self {
            Tree::Integer(n) => if i64::MIN <= n <= i64::MAX {
                Some(n)
            } else {
                None
            },
            _ => None,
        }
    }
}

/// What the given values hold, one after the other.
pub open spec fn trees(values: Seq<serde_json::Value>) -> Seq<Tree> {
    values.map_values(|v: serde_json::Value| tree_of(v))
}

/// A JSON value of `serde_json`. What it holds is named by [`tree_of`].
#[verifier::external_type_specification]
#[verifier::external_body]
pub struct ExValue(serde_json::Value);

/// The error of a text that `serde_json` cannot read. Nothing is claimed of it.
#[verifier::external_type_specification]
#[verifier::external_body]
pub struct ExError(serde_json::Error);

/// What a value of `serde_json` holds.
pub uninterp spec fn tree_of(v: serde_json::Value) -> Tree;

/// What `serde_json::from_slice` reads from the given bytes, where they are one JSON document.
pub uninterp spec fn document(bytes: Seq<u8>) -> Option<Tree>;

/// The text that `serde_json` writes for a value, without spaces or line breaks of its own.
pub uninterp spec fn written(tree: Tree) -> Seq<char>;

/// Calls `serde_json::from_slice` for a `serde_json::Value`.
///
/// Claims that success and what is read depend on the bytes alone.
#[verifier::external_body]
pub(crate) fn parse(bytes: &[u8]) -> (r: Result<serde_json::Value, serde_json::Error>)
    ensures
        r is Ok <==> document(bytes@) is Some,
        r matches Ok(v) ==> document(bytes@) == Some(tree_of(v)),
{
    serde_json::from_slice(bytes)
}

/// Calls `serde_json::Value::get` with a string key.
///
/// Claims that it finds the member of an object and nothing in any other value.
#[verifier::external_body]
pub(crate) fn get<'a>(v: &'a serde_json::Value, key: &str) -> (r: Option<&'a serde_json::Value>)
    ensures
        r is Some <==> tree_of(*v).member(key@) is Some,
        r matches Some(m) ==> tree_of(*v).member(key@) == Some(tree_of(*m)),
{
    v.get(key)
}

/// Calls `serde_json::Value::to_string`.
///
/// Claims that the text depends on what the value holds alone.
#[verifier::external_body]
pub(crate) fn compact(v: &serde_json::Value) -> (r: String)
    ensures
        r@ == written(tree_of(*v)),
{
    v.to_string()
}

/// `serde_json::Value::as_bool` gives the truth value, where the value is one.
pub assume_specification[ serde_json::Value::as_bool ](v: &serde_json::Value) -> (r: Option<bool>)
    ensures
        r == tree_of(*v).truth(),
;

/// `serde_json::Value::as_i64` gives the integer, where the value is one that fits.
pub assume_specification[ serde_json::Value::as_i64 ](v: &serde_json::Value) -> (r: Option<i64>)
    ensures
        r is Some <==> tree_of(*v).integer() is Some,
        r matches Some(n) ==> tree_of(*v).integer() == Some(n as int),
;

/// `serde_json::Value::as_str` gives the text, where the value is one.
pub assume_specification[ serde_json::Value::as_str ](v: &serde_json::Value) -> (r: Option<&str>)
    ensures
        r is Some <==> tree_of(*v).text() is Some,
        r matches Some(t) ==> tree_of(*v).text() == Some(t@),
;

/// `serde_json::Value::as_array` gives the elements, where the value is an array.
pub assume_specification[ serde_json::Value::as_array ](v: &serde_json::Value) -> (r: Option<&Vec<serde_json::Value>>)
    ensures
        r is Some <==> tree_of(*v).elements() is Some,
        r matches Some(a) ==> tree_of(*v).elements() == Some(trees(a@)),
;

/// The member of a member, where there is one.
pub open spec fn inner(tree: Tree, outer: Seq<char>, key: Seq<char>) -> Option<Tree> {
    match tree.member(outer) {
        Some(t) => t.member(key),
        None => None,
    }
}

/// The text of the member called `key`, where there is one.
pub open spec fn text_at(tree: Tree, key: Seq<char>) -> Option<Seq<char>> {
    match tree.member(key) {
        Some(t) => t.text(),
        None => None,
    }
}

/// The elements of `result.list`, where there are some.
pub open spec fn result_list(tree: Tree) -> Option<Seq<Tree>> {
    match inner(tree, "result"@, "list"@) {
        Some(t) => t.elements(),
        None => None,
    }
}

/// What an optional text says.
pub open spec fn text_view(t: Option<String>) -> Option<Seq<char>> {
    match t {
        Some(s) => Some(s@),
        None => None,
    }
}

/// The text of the member called `key`, where there is one.
pub(crate) fn text_member(v: &serde_json::Value, key: &str) -> (r: Option<String>)
    ensures
        text_view(r) == text_at(tree_of(*v), key@),
{
    match get(v, key) {
        Some(m) => match m.as_str() {
            Some(t) => Some(t.to_owned()),
            None => None,
        },
        None => None,
    }
}

/// The elements of `result.list`, where there are some.
pub(crate) fn list_member(v: &serde_json::Value) -> (r: Option<&Vec<serde_json::Value>>)
    ensures
        r is Some <==> result_list(tree_of(*v)) is Some,
        r matches Some(a) ==> result_list(tree_of(*v)) == Some(trees(a@)),
{
    match get(v, "result") {
        Some(result) => match get(result, "list") {
            Some(list) => list.as_array(),
            None => None,
        },
        None => None,
    }
}

} // verus!
