//! A transparent JSON tree.
//!
//! Decoding text into the tree is the work of the `serde_json` crate, behind
//! a trusted boundary; everything that reads the tree afterwards is verified
//! against the tree itself.  Numeric payloads are dropped at the boundary:
//! no consumer in this crate reads a number out of a document.

use vstd::prelude::*;

verus! {

/// A JSON value.
pub enum Json {
    Null,
    Bool(bool),
    Num,
    Str(String),
    Arr(Vec<Json>),
    Obj(Vec<(String, Json)>),
}

/// The value under `key` in an object's field list: the first binding of
/// that key, or nothing.
pub open spec fn obj_lookup(fields: Seq<(String, Json)>, key: Seq<char>) -> Option<Json>
    decreases fields.len(),
{
    if fields.len() == 0 {
        Option::None
    } else if fields[0].0@ == key {
        Option::Some(fields[0].1)
    } else {
        obj_lookup(fields.drop_first(), key)
    }
}

proof fn lemma_obj_lookup_skip(fields: Seq<(String, Json)>, key: Seq<char>, i: int)
    requires
        0 <= i <= fields.len(),
        forall|j: int| 0 <= j < i ==> #[trigger] fields[j].0@ != key,
    ensures
        obj_lookup(fields, key) == obj_lookup(fields.skip(i), key),
    decreases i,
{
    if i == 0 {
        assert(fields.skip(0) =~= fields);
    } else {
        assert(fields.drop_first().skip(i - 1) =~= fields.skip(i));
        lemma_obj_lookup_skip(fields.drop_first(), key, i - 1);
    }
}

/// Find the value under `key` in an object's field list.
pub fn obj_get<'a>(fields: &'a Vec<(String, Json)>, key: &String) -> (r: Option<&'a Json>)
    ensures
        match r {
            Option::Some(j) => obj_lookup(fields@, key@) == Option::Some(*j),
            Option::None => obj_lookup(fields@, key@) is None,
        },
{
    let mut i: usize = 0;
    loop
        invariant
            0 <= i <= fields.len(),
            forall|j: int| 0 <= j < i ==> #[trigger] fields@[j].0@ != key@,
        decreases fields.len() - i,
    {
        proof {
            lemma_obj_lookup_skip(fields@, key@, i as int);
        }
        if i == fields.len() {
            return Option::None;
        }
        if fields[i].0.eq(key) {
            return Option::Some(&fields[i].1);
        }
        i = i + 1;
    }
}

#[verifier::external_type_specification]
#[verifier::external_body]
pub struct ExJsonValue(serde_json::Value);

/// Relies on the variants of `serde_json::Value`: each is carried over to
/// the matching `Json` variant, strings and field names unchanged; object
/// fields come out in the order `serde_json`'s map iterates them; numeric
/// payloads are dropped.
#[verifier::external_body]
fn json_of_value(v: serde_json::Value) -> Json {
    match v {
        serde_json::Value::Null => Json::Null,
        serde_json::Value::Bool(b) => Json::Bool(b),
        serde_json::Value::Number(_) => Json::Num,
        serde_json::Value::String(s) => Json::Str(s),
        serde_json::Value::Array(a) => Json::Arr(a.into_iter().map(json_of_value).collect()),
        serde_json::Value::Object(m) => Json::Obj(
            m.into_iter().map(|(k, x)| (k, json_of_value(x))).collect(),
        ),
    }
}

/// The JSON value a text decodes to, or nothing when the text is not
/// well-formed JSON.  The value is fixed by the decoder of the `serde_json`
/// crate, which reads the text alone.
pub uninterp spec fn json_of(s: Seq<char>) -> Option<Json>;

/// Relies on `serde_json::from_str`: a well-formed JSON text decodes to its
/// value, anything else is rejected.
#[verifier::external_body]
pub(crate) fn json_decode(s: &str) -> (r: Option<Json>)
    ensures
        r == json_of(s@),
{
    match serde_json::from_str::<serde_json::Value>(s) {
        Ok(v) => Some(json_of_value(v)),
        Err(_) => None,
    }
}

} // verus!
