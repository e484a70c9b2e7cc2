//! JSON texts by their top-level shape: as much of a text as has to be known
//! before it is decoded any further.
use vstd::prelude::*;

use crate::text;

verus! {

/// A JSON text, by its top-level shape.
#[derive(Debug, PartialEq)]
pub enum JsonReply {
    /// The items of an array, each as JSON text.
    Array(Vec<String>),
    /// The members of an object: name, and text where the value is a string.
    Object(Vec<(String, Option<String>)>),
    /// Anything else, as JSON text.
    Other(String),
}

/// A reply, its strings as texts.
pub enum ReplyShape {
    Array(Seq<Seq<char>>),
    Object(Seq<(Seq<char>, Option<Seq<char>>)>),
    Other(Seq<char>),
}

impl View for JsonReply {
    type V = ReplyShape;

    open spec fn view(&self) -> ReplyShape {
        match self {
            JsonReply::Array(items) => ReplyShape::Array(text::texts(items@)),
            JsonReply::Object(members) => ReplyShape::Object(
                Seq::new(
                    members@.len(),
                    |i: int| (members@[i].0@, text::opt_text(members@[i].1)),
                ),
            ),
            JsonReply::Other(value) => ReplyShape::Other(value@),
        }
    }
}

/// What `serde_json` makes of a body: the top-level shape of the JSON value in
/// it, or nothing where it holds no JSON value.
pub uninterp spec fn json_shape(body: Seq<u8>) -> Option<ReplyShape>;

/// `serde_json::from_slice` on a `serde_json::Value`, by whose variant the
/// result is told apart: the items of an array and any other value are
/// rendered by the value's `to_string`, the members of an object are taken in
/// the map's own order, a member's text being what `Value::as_str` gives. All
/// of it depends on the body alone; a body that is no JSON gives nothing.
#[verifier::external_body]
pub(crate) fn parse_json(body: &[u8]) -> (r: Option<JsonReply>)
    ensures
        (match r {
            Some(reply) => Some(reply@),
            None => None,
        }) == json_shape(body@),
{
    match serde_json::from_slice::<serde_json::Value>(body) {
        Ok(serde_json::Value::Array(items)) => Some(
            JsonReply::Array(items.iter().map(|item| item.to_string()).collect()),
        ),
        Ok(serde_json::Value::Object(map)) => Some(
            JsonReply::Object(
                map.iter().map(|(k, v)| (k.clone(), v.as_str().map(String::from))).collect(),
            ),
        ),
        Ok(other) => Some(JsonReply::Other(other.to_string())),
        Err(_) => None,
    }
}

} // verus!
