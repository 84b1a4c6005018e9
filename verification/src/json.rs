//! JSON documents, as the tree that a `serde_json::Value` holds.

use serde_json::Value;
use vstd::prelude::*;

verus! {

/// `serde_json::Value`, a JSON document in memory. What it holds is `json_of` it.
#[verifier::external_type_specification]
#[verifier::external_body]
pub struct ExValue(serde_json::Value);

/// `serde_json::Error`, which says why a text is no JSON document.
#[verifier::external_type_specification]
#[verifier::external_body]
pub struct ExJsonError(serde_json::Error);

/// A JSON document.
pub enum Json {
    Null,
    Bool(bool),
    /// A whole number from zero on, of 64 bits.
    Unsigned(u64),
    /// A whole number below zero, of 64 bits.
    Negative(i64),
    /// Any other number, as the bits of the double that it is kept as.
    Double(u64),
    Text(Seq<char>),
    Array(Seq<Json>),
    Object(Map<Seq<char>, Json>),
}

/// The document that a `serde_json::Value` holds.
pub uninterp spec fn json_of(value: Value) -> Json;

/// The document that a text is, as `serde_json::from_slice` reads it; `None` where the
/// text is no JSON document.
pub uninterp spec fn json_document(text: Seq<u8>) -> Option<Json>;

/// The text that `serde_json::to_vec` writes for a list of strings.
pub uninterp spec fn strings_json(strings: Seq<Seq<char>>) -> Seq<u8>;

/// The documents that some values hold, in order.
pub open spec fn jsons_of(values: Seq<Value>) -> Seq<Json> {
    Seq::new(values.len(), |i: int| json_of(values[i]))
}

/// The characters of some strings, in order.
pub open spec fn texts_of(strings: Seq<String>) -> Seq<Seq<char>> {
    Seq::new(strings.len(), |i: int| strings[i]@)
}

/// A list of texts as a document.
pub open spec fn json_texts(texts: Seq<Seq<char>>) -> Json {
    Json::Array(Seq::new(texts.len(), |i: int| Json::Text(texts[i])))
}

/// Whether no two members have one key.
pub open spec fn distinct_keys(members: Seq<(String, Value)>) -> bool {
    forall|i: int, j: int|
        0 <= i < j < members.len() ==> #[trigger] members[i].0@ != #[trigger] members[j].0@
}

/// The members of an object, by their keys.
pub open spec fn members_of(members: Seq<(String, Value)>) -> Map<Seq<char>, Json>
    decreases members.len(),
{
    if members.len() == 0 {
        Map::empty()
    } else {
        members_of(members.drop_last()).insert(members.last().0@, json_of(members.last().1))
    }
}

/// `serde_json::from_slice` of a `serde_json::Value`: reads a JSON document.
#[verifier::external_body]
pub(crate) fn json_parse(text: &[u8]) -> (result: Result<Value, serde_json::Error>)
    ensures
        json_document(text@) == match result {
            Ok(value) => Some(json_of(value)),
            Err(_) => None,
        },
{
    serde_json::from_slice(text)
}

/// `serde_json::to_vec` of a list of strings, which does not fail: what it writes, brackets
/// at least, is read back by `serde_json::from_slice` as the array of those strings.
#[verifier::external_body]
pub(crate) fn json_write_strings(strings: &Vec<String>) -> (text: Result<Vec<u8>, serde_json::Error>)
    ensures
        text is Ok,
        text->Ok_0@ == strings_json(texts_of(strings@)),
        text->Ok_0@.len() > 0,
        json_document(text->Ok_0@) == Some(json_texts(texts_of(strings@))),
{
    serde_json::to_vec(strings)
}

/// `serde_json::Value::as_array`: the items of an array, and nothing of any other document.
#[verifier::external_body]
pub(crate) fn json_items(value: &Value) -> (items: Option<&Vec<Value>>)
    ensures
        match items {
            Some(items) => json_of(*value) == Json::Array(jsons_of(items@)),
            None => !(json_of(*value) is Array),
        },
{
    value.as_array()
}

/// `serde_json::Value::as_str`: the characters of a string, and nothing of any other document.
#[verifier::external_body]
pub(crate) fn json_text(value: &Value) -> (text: Option<&str>)
    ensures
        match text {
            Some(text) => json_of(*value) == Json::Text(text@),
            None => !(json_of(*value) is Text),
        },
{
    value.as_str()
}

/// `serde_json::Value::Bool`.
#[verifier::external_body]
pub(crate) fn json_bool(value: bool) -> (json: Value)
    ensures
        json_of(json) == Json::Bool(value),
{
    Value::Bool(value)
}

/// `serde_json::Value::from` of an unsigned number.
#[verifier::external_body]
pub(crate) fn json_unsigned(value: u64) -> (json: Value)
    ensures
        json_of(json) == Json::Unsigned(value),
{
    Value::from(value)
}

/// `serde_json::Value::String`.
#[verifier::external_body]
pub(crate) fn json_string(value: String) -> (json: Value)
    ensures
        json_of(json) == Json::Text(value@),
{
    Value::String(value)
}

/// `serde_json::Value::Array`.
#[verifier::external_body]
pub(crate) fn json_array(items: Vec<Value>) -> (json: Value)
    ensures
        json_of(json) == Json::Array(jsons_of(items@)),
{
    Value::Array(items)
}

/// `serde_json::Value::Object` of `serde_json::Map::from_iter` of its members: the object
/// that has each of them under its key. No two may have one key.
#[verifier::external_body]
pub(crate) fn json_object(members: Vec<(String, Value)>) -> (json: Value)
    requires
        distinct_keys(members@),
    ensures
        json_of(json) == Json::Object(members_of(members@)),
{
    Value::Object(serde_json::Map::from_iter(members))
}

/// An array of one item.
pub(crate) fn array1(item: Value) -> (json: Value)
    ensures
        json_of(json) == Json::Array(seq![json_of(item)]),
{
    let mut items: Vec<Value> = Vec::new();
    items.push(item);
    assert(jsons_of(items@) =~= seq![json_of(item)]);
    json_array(items)
}

/// An object of one member.
pub(crate) fn object1(key: String, value: Value) -> (json: Value)
    ensures
        json_of(json) == Json::Object(map![key@ => json_of(value)]),
{
    let mut members: Vec<(String, Value)> = Vec::new();
    members.push((key, value));
    proof {
        reveal_with_fuel(members_of, 2);
        assert(members@.drop_last() =~= Seq::empty());
    }
    json_object(members)
}

/// An object of two members.
pub(crate) fn object2(key: String, value: Value, key2: String, value2: Value) -> (json: Value)
    requires
        key@ != key2@,
    ensures
        json_of(json) == Json::Object(map![key@ => json_of(value), key2@ => json_of(value2)]),
{
    let mut members: Vec<(String, Value)> = Vec::new();
    members.push((key, value));
    members.push((key2, value2));
    proof {
        reveal_with_fuel(members_of, 3);
        assert(members@.drop_last().drop_last() =~= Seq::empty());
    }
    json_object(members)
}

/// Lists keep their length and their order: each string stands for its characters, each value
/// for its document, and each text for itself.
pub proof fn lists_in_order(strings: Seq<String>, values: Seq<Value>, texts: Seq<Seq<char>>)
    ensures
        texts_of(strings).len() == strings.len(),
        forall|i: int| 0 <= i < strings.len() ==> #[trigger] texts_of(strings)[i] == strings[i]@,
        jsons_of(values).len() == values.len(),
        forall|i: int| 0 <= i < values.len() ==> #[trigger] jsons_of(values)[i] == json_of(values[i]),
        json_texts(texts) matches Json::Array(items) && items.len() == texts.len() && forall|i: int|
            0 <= i < texts.len() ==> #[trigger] items[i] == Json::Text(texts[i]),
{
}

/// An object has each of its members under its key, and no other.
pub proof fn members_by_key(members: Seq<(String, Value)>, key: Seq<char>)
    requires
        distinct_keys(members),
    ensures
        forall|i: int|
            0 <= i < members.len() ==> members_of(members).dom().contains(
                #[trigger] members[i].0@,
            ) && members_of(members)[members[i].0@] == json_of(members[i].1),
        members_of(members).dom().contains(key) ==> exists|i: int|
            0 <= i < members.len() && #[trigger] members[i].0@ == key,
    decreases members.len(),
{
    if members.len() > 0 {
        let before = members.drop_last();
        assert(members[members.len() - 1] == members.last());
        assert forall|i: int, j: int| 0 <= i < j < before.len() implies #[trigger] before[i].0@
            != #[trigger] before[j].0@ by {
            assert(before[i] == members[i] && before[j] == members[j]);
        }
        members_by_key(before, key);
        assert forall|i: int| 0 <= i < members.len() implies members_of(members).dom().contains(
            #[trigger] members[i].0@,
        ) && members_of(members)[members[i].0@] == json_of(members[i].1) by {
            if i < before.len() {
                assert(before[i] == members[i]);
                assert(members[i].0@ != members[members.len() - 1].0@);
                assert(before[i].0@ == members[i].0@);
            }
        }
        if members_of(before).dom().contains(key) {
            let i = choose|i: int| 0 <= i < before.len() && #[trigger] before[i].0@ == key;
            assert(members[i].0@ == key);
        }
    }
}

} // verus!
