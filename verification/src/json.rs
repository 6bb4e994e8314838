//! JSON documents, built and printed by `serde_json`.

use vstd::prelude::*;

verus! {

/// What a JSON document says.
pub enum Json {
    Null,
    Bool(bool),
    /// A number, by its spelling.
    Number(Seq<char>),
    Text(Seq<char>),
    List(Seq<Json>),
    Object(Map<Seq<char>, Json>),
}

/// A `serde_json` document.
#[verifier::external_type_specification]
#[verifier::external_body]
pub struct ExValue(serde_json::Value);

/// The failure of a `serde_json` call.
#[verifier::external_type_specification]
#[verifier::external_body]
pub struct ExError(serde_json::Error);

/// What a `serde_json` document holds.
pub uninterp spec fn json_contents(v: serde_json::Value) -> Json;

/// What `serde_json::to_vec_pretty` prints for a document.
pub uninterp spec fn pretty_json(doc: Json) -> Seq<u8>;

/// The keys of the given fields.
pub open spec fn keys_of(fields: Seq<(String, serde_json::Value)>) -> Seq<Seq<char>> {
    fields.map_values(|f: (String, serde_json::Value)| f.0@)
}

/// The object with the given fields, whose keys are all different.
pub open spec fn object_of(fields: Seq<(String, serde_json::Value)>) -> Map<Seq<char>, Json>
    decreases fields.len(),
{
    if fields.len() == 0 {
        Map::empty()
    } else {
        object_of(fields.drop_last()).insert(fields.last().0@, json_contents(fields.last().1))
    }
}

/// `serde_json::Value::from` on a `String`: the document is that text.
#[verifier::external_body]
pub(crate) fn json_text(s: String) -> (v: serde_json::Value)
    ensures
        json_contents(v) == Json::Text(s@),
{
    serde_json::Value::from(s)
}

/// `serde_json::Value::from` on a `Vec` of documents: the document is the list
/// of them, in order.
#[verifier::external_body]
pub(crate) fn json_list(items: Vec<serde_json::Value>) -> (v: serde_json::Value)
    ensures
        json_contents(v) == Json::List(items@.map_values(|i: serde_json::Value| json_contents(i))),
{
    serde_json::Value::from(items)
}

/// `serde_json::Value::from_iter` on different keys with documents: the document
/// is the object with these fields.
#[verifier::external_body]
pub(crate) fn json_object(fields: Vec<(String, serde_json::Value)>) -> (v: serde_json::Value)
    requires
        keys_of(fields@).no_duplicates(),
    ensures
        json_contents(v) == Json::Object(object_of(fields@)),
{
    serde_json::Value::from_iter(fields)
}

/// `serde_json::to_vec_pretty`: on a document it does not fail, as keys are texts
/// and memory can be written to, and what it prints depends on nothing but what
/// the document holds. Objects keep their keys sorted, so the order in which
/// fields were added does not show.
#[verifier::external_body]
pub(crate) fn json_pretty(v: &serde_json::Value) -> (r: Result<Vec<u8>, serde_json::Error>)
    ensures
        r is Ok,
        r matches Ok(bytes) ==> bytes@ == pretty_json(json_contents(*v)),
{
    serde_json::to_vec_pretty(v)
}

/// Of fields with different keys, each is in the object under its key, and
/// nothing else is.
pub proof fn law_object_of(fields: Seq<(String, serde_json::Value)>, key: Seq<char>)
    requires
        keys_of(fields).no_duplicates(),
    ensures
        object_of(fields).contains_key(key) <==> keys_of(fields).contains(key),
        forall|i: int|
            0 <= i < fields.len() && (#[trigger] fields[i]).0@ == key ==> object_of(fields)[key]
                == json_contents(fields[i].1),
    decreases fields.len(),
{
    let keys = keys_of(fields);
    if fields.len() > 0 {
        let rest = fields.drop_last();
        let last = fields.len() - 1;
        assert(keys_of(rest) =~= keys.drop_last());
        assert forall|i: int, j: int|
            0 <= i < keys_of(rest).len() && 0 <= j < keys_of(rest).len() && i != j implies keys_of(
            rest,
        )[i] != keys_of(rest)[j] by {
            assert(keys[i] != keys[j]);
        }
        law_object_of(rest, key);
        assert(keys[last] == fields[last].0@);
        if keys.contains(key) && key != keys[last] {
            let i = choose|i: int| 0 <= i < keys.len() && keys[i] == key;
            assert(keys_of(rest)[i] == key);
        }
        if keys_of(rest).contains(key) {
            let i = choose|i: int| 0 <= i < keys_of(rest).len() && keys_of(rest)[i] == key;
            assert(keys[i] == key);
        }
        assert forall|i: int| 0 <= i < fields.len() && (#[trigger] fields[i]).0@ == key implies
            object_of(fields)[key] == json_contents(fields[i].1) by {
            if i < last {
                assert(keys[i] == key);
                assert(keys[i] != keys[last]);
                assert(rest[i] == fields[i]);
            }
        }
    }
}

} // verus!
