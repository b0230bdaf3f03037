//! JSON documents as plain values.

use crate::entries::{find_value, value_of};
use vstd::prelude::*;

verus! {

/// A JSON document. Of a number only its presence is kept: nothing here
/// reads one. The members of an object stand in the order in which they were
/// handed over; a name is looked up from the front.
#[derive(Debug)]
pub enum Json {
    Null,
    Bool(bool),
    Number,
    Text(String),
    Array(Vec<Json>),
    Object(Vec<(String, Json)>),
}

/// `serde_json::Value`, a document as `serde_json` holds it. Nothing of its
/// inside is known here.
#[verifier::external_type_specification]
#[verifier::external_body]
pub struct ExValue(serde_json::Value);

/// The document that `serde_json::from_str` reads from a text, or nothing
/// where it refuses the text.
pub uninterp spec fn json_document(text: Seq<char>) -> Option<Json>;

/// Turns a value of `serde_json` into a [`Json`], variant by variant. The
/// members of an object come in the order in which `serde_json` walks them.
#[verifier::external_body]
fn json_from_value(value: serde_json::Value) -> Json {
    match value {
        serde_json::Value::Null => Json::Null,
        serde_json::Value::Bool(flag) => Json::Bool(flag),
        serde_json::Value::Number(_) => Json::Number,
        serde_json::Value::String(text) => Json::Text(text),
        serde_json::Value::Array(items) => Json::Array(
            items.into_iter().map(json_from_value).collect(),
        ),
        serde_json::Value::Object(members) => Json::Object(
            members.into_iter().map(|(name, value)| (name, json_from_value(value))).collect(),
        ),
    }
}

/// Reads a text with `serde_json::from_str`. The contract claims only that
/// the outcome is the one that goes by the name `json_document`: the text
/// alone decides it. An error of the crate is handed on as `None`.
#[verifier::external_body]
fn json_from_str(text: &str) -> (document: Option<Json>)
    ensures
        document == json_document(text@),
{
    serde_json::from_str::<serde_json::Value>(text).ok().map(json_from_value)
}

impl Json {
    /// The member of an object that stands under `key`. Anything that is no
    /// object has no members.
    pub open spec fn member(self, key: Seq<char>) -> Option<Json> {
        match self {
            Json::Object(members) => value_of(members@, key),
            _ => None,
        }
    }

    /// Reads a JSON text. The members of an object come sorted by name,
    /// character by character, and each name once: where the text gives a
    /// name twice, its last value stands. This is how `serde_json` hands
    /// them over; the contract does not state it.
    pub fn parse(text: &str) -> (document: Option<Json>)
        ensures
            document == json_document(text@),
    {
        json_from_str(text)
    }

    /// Whether this is an object.
    pub fn is_object(&self) -> (r: bool)
        ensures
            r == (self is Object),
    {
        match self {
            Json::Object(_) => true,
            _ => false,
        }
    }

    /// The members, where this is an object.
    pub fn as_object(&self) -> (members: Option<&Vec<(String, Json)>>)
        ensures
            match members {
                Some(m) => *self == Json::Object(*m),
                None => !(self is Object),
            },
    {
        match self {
            Json::Object(members) => Some(members),
            _ => None,
        }
    }

    /// The text, where this is a string.
    pub fn as_str(&self) -> (text: Option<&str>)
        ensures
            match text {
                Some(t) => self matches Json::Text(held) && held@ == t@,
                None => !(self is Text),
            },
    {
        match self {
            Json::Text(text) => Some(text.as_str()),
            _ => None,
        }
    }

    /// The truth value, where this is one.
    pub fn as_bool(&self) -> (flag: Option<bool>)
        ensures
            match flag {
                Some(b) => *self == Json::Bool(b),
                None => !(self is Bool),
            },
    {
        match self {
            Json::Bool(flag) => Some(*flag),
            _ => None,
        }
    }

    /// The member of an object that stands under `key`.
    pub fn get(&self, key: &str) -> (value: Option<&Json>)
        ensures
            match value {
                Some(v) => self.member(key@) == Some(*v),
                None => self.member(key@) is None,
            },
    {
        match self {
            Json::Object(members) => find_value(members, key),
            _ => None,
        }
    }
}

} // verus!
