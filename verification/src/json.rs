//! Structured text: the documents in which the engine persists its state.
//!
//! A document is a tree of the usual kinds: null, truth values, numbers,
//! text, lists, and objects that send names to documents. Reading and
//! writing the text of a document is the work of `serde_json`; what a
//! document means for the engine is decided here, on the tree.

use vstd::prelude::*;
use crate::error::DvcsError;

verus! {

#[verifier::external_type_specification]
#[verifier::external_body]
pub struct ExValue(serde_json::Value);

#[verifier::external_type_specification]
#[verifier::external_body]
pub struct ExNumber(serde_json::Number);

#[verifier::external_type_specification]
#[verifier::external_body]
pub struct ExJsonError(serde_json::Error);

/// A document. In an object a name may be written more than once; the last
/// one counts.
#[derive(Debug)]
pub enum Json {
    Null,
    Bool(bool),
    Number(serde_json::Number),
    Text(String),
    List(Vec<Json>),
    Object(Vec<(String, Json)>),
}

/// A document as a mathematical value: text is a sequence of characters and
/// an object is a map.
pub enum JsonModel {
    Null,
    Bool(bool),
    Number(serde_json::Number),
    Text(Seq<char>),
    List(Seq<JsonModel>),
    Object(Map<Seq<char>, JsonModel>),
}

/// The last position at which `name` stands in `names`, or -1.
pub open spec fn last_index_of(names: Seq<Seq<char>>, name: Seq<char>) -> int
    decreases names.len(),
{
    if names.len() == 0 {
        -1
    } else if names.last() == name {
        names.len() - 1
    } else {
        last_index_of(names.drop_last(), name)
    }
}

/// The names of an object's fields, in the order in which they are written.
pub open spec fn field_names(fields: Seq<(String, Json)>) -> Seq<Seq<char>> {
    fields.map_values(|f: (String, Json)| f.0@)
}

impl Json {
    pub open spec fn view(&self) -> JsonModel
        decreases self,
    {
        match self {
            Json::Null => JsonModel::Null,
            Json::Bool(b) => JsonModel::Bool(*b),
            Json::Number(n) => JsonModel::Number(*n),
            Json::Text(s) => JsonModel::Text(s@),
            Json::List(items) => JsonModel::List(
                Seq::new(
                    items.len() as nat,
                    |i: int|
                        if 0 <= i < items.len() {
                            items[i].view()
                        } else {
                            JsonModel::Null
                        },
                ),
            ),
            Json::Object(fields) => JsonModel::Object(
                Map::new(
                    |name: Seq<char>| last_index_of(field_names(fields@), name) >= 0,
                    |name: Seq<char>|
                        {
                            let i = last_index_of(field_names(fields@), name);
                            if 0 <= i < fields.len() {
                                fields[i].1.view()
                            } else {
                                JsonModel::Null
                            }
                        },
                ),
            ),
        }
    }
}

/// The document that a `serde_json::Value` holds.
pub uninterp spec fn value_model(value: serde_json::Value) -> JsonModel;

/// The document that a text stands for, if it stands for one.
pub uninterp spec fn parsed(text: Seq<char>) -> Option<JsonModel>;

/// The text in which a document is written.
pub uninterp spec fn rendered(document: JsonModel) -> Seq<char>;

/// Calls `serde_json::from_str` for a `serde_json::Value`. Trusted: whether
/// the text is accepted, and the document that comes out, depend on the
/// text alone.
#[verifier::external_body]
fn read_value(text: &str) -> (r: Result<serde_json::Value, serde_json::Error>)
    ensures
        match r {
            Ok(value) => parsed(text@) == Some(value_model(value)),
            Err(_) => parsed(text@).is_none(),
        },
{
    serde_json::from_str::<serde_json::Value>(text)
}

/// Calls `serde_json::to_string` on a `serde_json::Value`. Trusted: the
/// call succeeds, and the text that comes out depends on the document
/// alone. It fails only where a value refuses to be written, where the
/// name of a field is no text, or where its writer fails; a `Value` writes
/// every one of its variants, the names of its fields are texts, and the
/// writer is a vector of bytes in memory.
#[verifier::external_body]
fn write_value(value: &serde_json::Value) -> (r: Result<String, serde_json::Error>)
    ensures
        r.is_ok(),
        r.unwrap()@ == rendered(value_model(*value)),
{
    serde_json::to_string(value)
}

/// Takes a `serde_json::Value` apart, variant by variant. Trusted: the
/// tree that comes out holds what the value holds; an object's fields come
/// in the order in which its map hands them out.
#[verifier::external_body]
fn json_of_value(value: &serde_json::Value) -> (r: Json)
    ensures
        r@ == value_model(*value),
{
    match value {
        serde_json::Value::Null => Json::Null,
        serde_json::Value::Bool(b) => Json::Bool(*b),
        serde_json::Value::Number(n) => Json::Number(n.clone()),
        serde_json::Value::String(s) => Json::Text(s.clone()),
        serde_json::Value::Array(a) => Json::List(a.iter().map(json_of_value).collect()),
        serde_json::Value::Object(m) => Json::Object(
            m.iter().map(|(k, v)| (k.clone(), json_of_value(v))).collect(),
        ),
    }
}

/// Builds a `serde_json::Value`, variant by variant; an object's fields
/// are put into a `serde_json::Map` by `insert`, one after the other, which
/// replaces what was put under the same name before. Trusted: the value
/// holds what the tree holds, and of a name that is written twice the
/// last, as the tree's model does.
#[verifier::external_body]
fn value_of_json(document: &Json) -> (r: serde_json::Value)
    ensures
        value_model(r) == document@,
{
    match document {
        Json::Null => serde_json::Value::Null,
        Json::Bool(b) => serde_json::Value::Bool(*b),
        Json::Number(n) => serde_json::Value::Number(n.clone()),
        Json::Text(s) => serde_json::Value::String(s.clone()),
        Json::List(a) => serde_json::Value::Array(a.iter().map(value_of_json).collect()),
        Json::Object(fields) => {
            let mut map = serde_json::Map::new();
            for field in fields {
                map.insert(field.0.clone(), value_of_json(&field.1));
            }
            serde_json::Value::Object(map)
        },
    }
}

/// Reads a document from its text.
pub fn parse(text: &str) -> (r: Result<Json, DvcsError>)
    ensures
        match r {
            Ok(document) => parsed(text@) == Some(document@),
            Err(e) => e == DvcsError::CorruptIndex && parsed(text@).is_none(),
        },
{
    match read_value(text) {
        Ok(value) => Ok(json_of_value(&value)),
        Err(_) => Err(DvcsError::CorruptIndex),
    }
}

/// Writes a document as text. Every document can be written.
pub fn render(document: &Json) -> (r: Result<String, DvcsError>)
    ensures
        r.is_ok(),
        r.unwrap()@ == rendered(document@),
{
    let value = value_of_json(document);
    match write_value(&value) {
        Ok(text) => Ok(text),
        Err(_) => Err(DvcsError::WriteFailed),
    }
}

} // verus!
