//! JSON text, as far as a record needs it: one object whose members hold
//! strings or null. Reading and writing the text is serde_json's work; this
//! file holds the plain values that go in and come out, and what is taken on
//! trust about the two calls.

use vstd::prelude::*;
use crate::log::NEWLINE;

verus! {

/// What a member of a JSON object holds, as far as a document can use it.
#[derive(Debug)]
pub enum JsonValue {
    /// `null`.
    Null,
    /// A string.
    Text(String),
    /// A boolean, a number, an array or an object.
    Other,
}

/// A `JsonValue` as a mathematical value.
pub enum JsonValueView {
    Null,
    Text(Seq<char>),
    Other,
}

impl View for JsonValue {
    type V = JsonValueView;

    open spec fn view(&self) -> JsonValueView {
        match self {
            JsonValue::Null => JsonValueView::Null,
            JsonValue::Text(text) => JsonValueView::Text(text@),
            JsonValue::Other => JsonValueView::Other,
        }
    }
}

/// One member of a JSON object: a name and what stands under it.
#[derive(Debug)]
pub struct Member {
    pub name: String,
    pub value: JsonValue,
}

/// A `Member` as a mathematical value.
pub struct MemberView {
    pub name: Seq<char>,
    pub value: JsonValueView,
}

impl View for Member {
    type V = MemberView;

    open spec fn view(&self) -> MemberView {
        MemberView { name: self.name@, value: self.value@ }
    }
}

/// The members of a list, each as a mathematical value.
pub open spec fn members_view(members: Seq<Member>) -> Seq<MemberView> {
    Seq::new(members.len(), |i: int| members[i]@)
}

/// Some member of the list carries the name `name`.
pub open spec fn has_member(members: Seq<MemberView>, name: Seq<char>) -> bool {
    exists|i: int| 0 <= i < members.len() && #[trigger] members[i].name == name
}

/// `at` is the position of the last member that carries `name`.
pub open spec fn is_last_member(members: Seq<MemberView>, name: Seq<char>, at: int) -> bool {
    &&& 0 <= at < members.len()
    &&& members[at].name == name
    &&& forall|j: int| at < j < members.len() ==> #[trigger] members[j].name != name
}

/// The position of the last member that carries `name`.
pub open spec fn last_member(members: Seq<MemberView>, name: Seq<char>) -> int {
    choose|at: int| is_last_member(members, name, at)
}

/// The object that a list of members stands for: where a name occurs more
/// than once, its last member counts.
pub open spec fn object_of(members: Seq<MemberView>) -> Map<Seq<char>, JsonValueView> {
    Map::new(
        |name: Seq<char>| has_member(members, name),
        |name: Seq<char>| members[last_member(members, name)].value,
    )
}

/// The last member of a name is the one that the object holds under it.
pub proof fn lemma_last_member(members: Seq<MemberView>, name: Seq<char>, at: int)
    requires
        is_last_member(members, name, at),
    ensures
        has_member(members, name),
        last_member(members, name) == at,
        object_of(members).contains_key(name),
        object_of(members)[name] == members[at].value,
{
    let other: int = last_member(members, name);
    assert(is_last_member(members, name, other));
    if other < at {
        assert(members[at].name != name);
    }
    if at < other {
        assert(members[other].name != name);
    }
}

/// No member of the list holds anything but a string or null.
pub open spec fn all_scalar(members: Seq<MemberView>) -> bool {
    forall|i: int| 0 <= i < members.len() ==> !(#[trigger] members[i].value is Other)
}

/// The JSON object that `text` spells, as serde_json reads it; `None` where
/// `text` is not the text of one JSON object.
pub uninterp spec fn json_object(text: Seq<u8>) -> Option<Map<Seq<char>, JsonValueView>>;

/// The JSON text that serde_json writes for `object`; `None` where it
/// refuses to write.
pub uninterp spec fn json_text(object: Map<Seq<char>, JsonValueView>) -> Option<Seq<u8>>;

/// The error type of serde_json.
#[verifier::external_type_specification]
#[verifier::external_body]
pub struct ExJsonError(serde_json::Error);

/// Calls `serde_json::from_slice` for a `serde_json::Map`, and hands out the
/// members of the map that it returns. Taken on trust: that the outcome
/// depends on the bytes alone, which is what `json_object` names. Nothing is
/// claimed of the order in which the members come.
#[verifier::external_body]
pub(crate) fn parse_members(text: &[u8]) -> (r: Result<Vec<Member>, serde_json::Error>)
    ensures
        match r {
            Ok(members) => json_object(text@) == Some(object_of(members_view(members@))),
            Err(_) => json_object(text@) is None,
        },
{
    let object: serde_json::Map<String, serde_json::Value> = serde_json::from_slice(text)?;
    let mut members: Vec<Member> = Vec::new();
    for (name, value) in object {
        let value = match value {
            serde_json::Value::Null => JsonValue::Null,
            serde_json::Value::String(string) => JsonValue::Text(string),
            serde_json::Value::Bool(_) => JsonValue::Other,
            serde_json::Value::Number(_) => JsonValue::Other,
            serde_json::Value::Array(_) => JsonValue::Other,
            serde_json::Value::Object(_) => JsonValue::Other,
        };
        members.push(Member { name, value });
    }
    Ok(members)
}

/// Fills a `serde_json::Map` with the members, in their order, and calls
/// `serde_json::to_vec` on it. Taken on trust: that the outcome depends on
/// the object alone, which is what `json_text` names (a `serde_json::Map`
/// keeps one value for each name, the one inserted last, and writes its
/// members sorted by name); that the text holds no newline byte, since
/// serde_json writes no white space between tokens and escapes control
/// characters inside strings; and that the text, read back, spells the same
/// object. A member that holds `Other` has no JSON value to stand for it:
/// `requires` leaves such members out.
#[verifier::external_body]
pub(crate) fn write_members(members: &Vec<Member>) -> (r: Result<Vec<u8>, serde_json::Error>)
    requires
        all_scalar(members_view(members@)),
    ensures
        match r {
            Ok(text) => {
                &&& json_text(object_of(members_view(members@))) == Some(text@)
                &&& !text@.contains(NEWLINE)
                &&& json_object(text@) == Some(object_of(members_view(members@)))
            },
            Err(_) => json_text(object_of(members_view(members@))) is None,
        },
{
    let mut object = serde_json::Map::new();
    for member in members {
        let value = match &member.value {
            JsonValue::Text(string) => serde_json::Value::String(string.clone()),
            JsonValue::Null => serde_json::Value::Null,
            JsonValue::Other => serde_json::Value::Null,
        };
        object.insert(member.name.clone(), value);
    }
    serde_json::to_vec(&object)
}

} // verus!
