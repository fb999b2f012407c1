//! Event records in JSON: reading the text members of a value, and turning a
//! list of values into records.

use vstd::prelude::*;
use crate::event::{RawEvent, RawEventView};

verus! {

/// `serde_json::Value`, a JSON value. Of what it holds only its text
/// members are spoken of here, through [`text_members`].
#[verifier::external_type_specification]
#[verifier::external_body]
pub struct ExJsonValue(serde_json::Value);

/// `serde_json::Error`, the refusal of a text by the parser. It is only
/// turned into its message.
#[verifier::external_type_specification]
#[verifier::external_body]
pub struct ExJsonError(serde_json::Error);

/// The text members of a JSON value: for an object, its members whose value
/// is a string, by name; for any other value, none.
pub uninterp spec fn text_members(value: serde_json::Value) -> Map<Seq<char>, Seq<char>>;

/// The text that `members` holds under `name`, if any.
pub open spec fn member_text(members: Map<Seq<char>, Seq<char>>, name: Seq<char>) -> Option<
    Seq<char>,
> {
    if members.contains_key(name) {
        Some(members[name])
    } else {
        None
    }
}

/// `serde_json::Value::get` with a name yields the member of that name where
/// the value is an object that has one, and `Value::as_str` yields the text
/// of a member that is a string. The result is that text, and `None` in any
/// other case.
#[verifier::external_body]
fn text_member(value: &serde_json::Value, name: &str) -> (text: Option<String>)
    ensures
        text.deep_view() == member_text(text_members(*value), name@),
{
    value.get(name).and_then(|member| member.as_str()).map(|text| text.to_string())
}

/// What the parser makes of a text: for a JSON array, the text members of
/// each of its elements, in order; nothing where the text is no JSON array.
pub uninterp spec fn parsed_array(text: Seq<char>) -> Option<Seq<Map<Seq<char>, Seq<char>>>>;

/// `values` is the list of JSON values whose text members are `members`.
pub open spec fn holds_members(
    values: Seq<serde_json::Value>,
    members: Seq<Map<Seq<char>, Seq<char>>>,
) -> bool {
    &&& values.len() == members.len()
    &&& forall|i: int| 0 <= i < values.len() ==> text_members(#[trigger] values[i]) == members[i]
}

/// `serde_json::from_str` reads a text as a JSON array of values, or refuses
/// it. The parser reads nothing but the text, so what it finds is named
/// after the text; which texts it takes and what it finds in them is not
/// spelled out.
#[verifier::external_body]
fn parse_array(text: &str) -> (values: Result<Vec<serde_json::Value>, serde_json::Error>)
    ensures
        match parsed_array(text@) {
            Some(members) => values matches Ok(list) && holds_members(list@, members),
            None => values is Err,
        },
{
    serde_json::from_str(text)
}

/// The message of a `serde_json::Error`, as its `Display` writes it.
#[verifier::external_body]
fn error_message(error: &serde_json::Error) -> (message: String) {
    error.to_string()
}

/// Why a text was not taken as a list of events.
#[derive(Clone, Debug, PartialEq, Eq)]
pub struct EventJsonError {
    pub message: String,
}

/// Reads `text` as a JSON array. The parser decides whether the text is one;
/// what it refuses comes back as an error with the parser's message.
pub fn parse_event_array(text: &str) -> (values: Result<Vec<serde_json::Value>, EventJsonError>)
    ensures
        match parsed_array(text@) {
            Some(members) => values matches Ok(list) && holds_members(list@, members),
            None => values is Err,
        },
{
    match parse_array(text) {
        Ok(values) => Ok(values),
        Err(error) => Err(EventJsonError { message: error_message(&error) }),
    }
}

/// The record that a JSON object with the text members `members` stands for:
/// each field is the member of its name, and is missing where there is no
/// such member.
pub open spec fn raw_event_of(members: Map<Seq<char>, Seq<char>>) -> RawEventView {
    RawEventView {
        sender: member_text(members, "sender"@),
        event: member_text(members, "event"@),
        time_begin: member_text(members, "time_begin"@),
        time_end: member_text(members, "time_end"@),
        position: member_text(members, "position"@),
        abstract_text: member_text(members, "abstract"@),
        speaker_name: member_text(members, "speaker_name"@),
        speaker_title: member_text(members, "speaker_title"@),
    }
}

/// The records that a list of JSON values stands for.
pub open spec fn raw_events_of(values: Seq<serde_json::Value>) -> Seq<RawEventView> {
    Seq::new(values.len(), |i: int| raw_event_of(text_members(values[i])))
}

/// The record that `value` stands for.
pub fn event_from_json(value: &serde_json::Value) -> (raw: RawEvent)
    ensures
        raw@ == raw_event_of(text_members(*value)),
{
    RawEvent {
        sender: text_member(value, "sender"),
        event: text_member(value, "event"),
        time_begin: text_member(value, "time_begin"),
        time_end: text_member(value, "time_end"),
        position: text_member(value, "position"),
        abstract_text: text_member(value, "abstract"),
        speaker_name: text_member(value, "speaker_name"),
        speaker_title: text_member(value, "speaker_title"),
    }
}

/// The records that `values` stand for, in their order.
pub fn events_from_json(values: &Vec<serde_json::Value>) -> (raws: Vec<RawEvent>)
    ensures
        raws.deep_view() == raw_events_of(values@),
{
    let mut raws: Vec<RawEvent> = Vec::new();
    let mut at: usize = 0;
    while at < values.len()
        invariant
            at <= values.len(),
            raws.len() == at,
            forall|i: int|
                0 <= i < at ==> (#[trigger] raws[i])@ == raw_event_of(text_members(values[i])),
        decreases values.len() - at,
    {
        raws.push(event_from_json(&values[at]));
        at += 1;
    }
    assert(raws.deep_view() =~= raw_events_of(values@));
    raws
}

} // verus!
