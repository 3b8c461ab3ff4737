//! Reading JSON: what stands at a place in a document.

use vstd::prelude::*;

use matrix_sdk::ruma::events::AnySyncTimelineEvent;
use matrix_sdk::ruma::serde::Raw;

verus! {

/// What stands at a place in a JSON document.
pub enum Json {
    /// The document is not JSON.
    Invalid,
    /// There is nothing at that place.
    Absent,
    Null,
    Bool(bool),
    /// A number, and its value where it is a natural one that 64 bits hold.
    Number(Option<u64>),
    Text(String),
    /// An array, and how many items it has.
    Array(usize),
    /// An object, and how many members it has.
    Object(usize),
}

/// `Json` with its text as characters.
pub enum Place {
    Invalid,
    Absent,
    Null,
    Bool(bool),
    Number(Option<u64>),
    Text(Seq<char>),
    Array(nat),
    Object(nat),
}

impl Json {
    pub open spec fn view(&self) -> Place {
        match self {
            Json::Invalid => Place::Invalid,
            Json::Absent => Place::Absent,
            Json::Null => Place::Null,
            Json::Bool(b) => Place::Bool(*b),
            Json::Number(n) => Place::Number(*n),
            Json::Text(s) => Place::Text(s@),
            Json::Array(n) => Place::Array(*n as nat),
            Json::Object(n) => Place::Object(*n as nat),
        }
    }
}

/// What stands in the JSON document `doc` at the JSON pointer `at`.
pub uninterp spec fn json_at(doc: Seq<char>, at: Seq<char>) -> Place;

/// The document read with `serde_json::from_str` and looked into with
/// `serde_json::Value::pointer`: the kind of value found there, a text's
/// characters, and a number by `serde_json::Number::as_u64`. The claim is that
/// it depends on the two texts alone.
#[verifier::external_body]
pub(crate) fn look(doc: &str, at: &str) -> (r: Json)
    ensures
        r@ == json_at(doc@, at@),
{
    match serde_json::from_str::<serde_json::Value>(doc) {
        Err(_) => Json::Invalid,
        Ok(v) => match v.pointer(at) {
            None => Json::Absent,
            Some(serde_json::Value::Null) => Json::Null,
            Some(serde_json::Value::Bool(b)) => Json::Bool(*b),
            Some(serde_json::Value::Number(n)) => Json::Number(n.as_u64()),
            Some(serde_json::Value::String(s)) => Json::Text(s.clone()),
            Some(serde_json::Value::Array(a)) => Json::Array(a.len()),
            Some(serde_json::Value::Object(o)) => Json::Object(o.len()),
        },
    }
}

/// The text that stands at a place, if a text does.
pub open spec fn text_at(doc: Seq<char>, at: Seq<char>) -> Option<Seq<char>> {
    match json_at(doc, at) {
        Place::Text(s) => Some(s),
        _ => None,
    }
}

pub fn read_text(doc: &str, at: &str) -> (r: Option<String>)
    ensures
        crate::text::opt(r) == text_at(doc@, at@),
{
    match look(doc, at) {
        Json::Text(s) => Some(s),
        _ => None,
    }
}

/// The text that is the field `name` of an event; what the other fields hold
/// does not matter.
pub uninterp spec fn field_text(raw: Seq<char>, name: Seq<char>) -> Option<Seq<char>>;

/// `Raw::get_field` of ruma, read as a text: nothing where the event is no
/// object, where the field is not there or where it is no text. The other
/// fields are passed over. The claim is that it depends on the two texts alone.
#[verifier::external_body]
pub(crate) fn read_field(raw: &str, name: &str) -> (r: Option<String>)
    ensures
        crate::text::opt(r) == field_text(raw@, name@),
{
    let event = Raw::<AnySyncTimelineEvent>::from_json_string(raw.to_owned()).ok()?;
    event.get_field::<String>(name).ok().flatten()
}

/// The field `name` of an event, written as JSON; what the other fields hold
/// does not matter.
pub uninterp spec fn field_part(raw: Seq<char>, name: Seq<char>) -> Option<Seq<char>>;

/// `Raw::get_field` of ruma, read as a `serde_json::Value`, and
/// `serde_json::Value::to_string` on it: nothing where the event is no object,
/// where the field is not there or where it cannot be read. The other fields
/// are passed over. The claim is that it depends on the two texts alone.
#[verifier::external_body]
pub(crate) fn read_part(raw: &str, name: &str) -> (r: Option<String>)
    ensures
        crate::text::opt(r) == field_part(raw@, name@),
{
    let event = Raw::<AnySyncTimelineEvent>::from_json_string(raw.to_owned()).ok()?;
    event.get_field::<serde_json::Value>(name).ok().flatten().map(|v| v.to_string())
}

/// The text at a place within the field `name` of an event.
pub open spec fn text_within(raw: Seq<char>, name: Seq<char>, at: Seq<char>) -> Option<Seq<char>> {
    match field_part(raw, name) {
        Some(part) => text_at(part, at),
        None => None,
    }
}

pub fn read_within(raw: &str, name: &str, at: &str) -> (r: Option<String>)
    ensures
        crate::text::opt(r) == text_within(raw@, name@, at@),
{
    match read_part(raw, name) {
        Some(part) => read_text(part.as_str(), at),
        None => None,
    }
}

/// The part of a JSON document at a JSON pointer, written as JSON.
pub uninterp spec fn json_part(doc: Seq<char>, at: Seq<char>) -> Option<Seq<char>>;

/// `serde_json::Value::pointer` and `serde_json::Value::to_string` on the
/// document: the value at `at`, as compact JSON. Nothing where the document
/// is not JSON or holds nothing there. The claim is that it depends on the two
/// texts alone.
#[verifier::external_body]
pub(crate) fn part(doc: &str, at: &str) -> (r: Option<String>)
    ensures
        crate::text::opt(r) == json_part(doc@, at@),
{
    let v = serde_json::from_str::<serde_json::Value>(doc).ok()?;
    v.pointer(at).map(|x| x.to_string())
}

/// Text is read where text stands, and nothing where something else or
/// nothing does.
pub proof fn lemma_text_at(doc: Seq<char>, at: Seq<char>, s: Seq<char>)
    ensures
        text_at(doc, at) == Some(s) <==> json_at(doc, at) == Place::Text(s),
        text_at(doc, at) is None <==> !(json_at(doc, at) is Text),
        field_part(doc, s) is None ==> text_within(doc, s, at) is None,
        field_part(doc, s) matches Some(part) ==> text_within(doc, s, at) == text_at(part, at),
{
}

} // verus!
