use vstd::prelude::*;

use crate::text::{chars_of, same_chars};

verus! {

/// `serde_json::Value`, carried through as an opaque value.
#[verifier::external_type_specification]
#[verifier::external_body]
pub struct ExJsonValue(serde_json::Value);

/// A JSON document, holding what the lookups read of it: strings, arrays and
/// objects (numbers are kept only as numbers, never read).
#[derive(Debug, PartialEq, Eq)]
pub enum Json {
    Null,
    Bool(bool),
    Number,
    Str(String),
    Array(Vec<Json>),
    /// The members of an object, keys in ascending order and each once.
    Object(Vec<(String, Json)>),
}

/// The document that `serde_json` reads out of a text, if the text is JSON.
pub uninterp spec fn json_of(text: Seq<char>) -> Option<Json>;

/// Converts a `serde_json::Value` to the library's `Json`, variant by
/// variant. It makes no claim: the parse below names its result.
#[verifier::external_body]
fn from_value(v: serde_json::Value) -> Json {
    match v {
        serde_json::Value::Null => Json::Null,
        serde_json::Value::Bool(b) => Json::Bool(b),
        serde_json::Value::Number(_) => Json::Number,
        serde_json::Value::String(s) => Json::Str(s),
        serde_json::Value::Array(a) => Json::Array(a.into_iter().map(from_value).collect()),
        serde_json::Value::Object(m) => Json::Object(
            m.into_iter().map(|(k, x)| (k, from_value(x))).collect(),
        ),
    }
}

/// `serde_json::from_str::<serde_json::Value>`: the document in `text`, or
/// `None` when it is not JSON. What the parser accepts is not restated: the
/// result is named.
#[verifier::external_body]
pub(crate) fn parse_json(text: &str) -> (r: Option<Json>)
    ensures
        r == json_of(text@),
{
    serde_json::from_str::<serde_json::Value>(text).ok().map(from_value)
}

/// The value under `key` among an object's members.
pub open spec fn lookup(es: Seq<(String, Json)>, key: Seq<char>) -> Option<Json>
    decreases es.len(),
{
    if es.len() == 0 {
        None
    } else if es[0].0@ == key {
        Some(es[0].1)
    } else {
        lookup(es.drop_first(), key)
    }
}

/// `Value::get(key)`: the member `key` of an object; `None` for anything else.
pub open spec fn member(j: Json, key: Seq<char>) -> Option<Json> {
    match j {
        Json::Object(es) => lookup(es@, key),
        _ => None,
    }
}

/// `Value::get(i)`: the `i`-th item of an array; `None` for anything else.
pub open spec fn item(j: Json, i: int) -> Option<Json> {
    match j {
        Json::Array(xs) => if 0 <= i < xs@.len() {
            Some(xs@[i])
        } else {
            None
        },
        _ => None,
    }
}

/// `Option<&Value>::and_then(Value::as_str)`.
pub open spec fn text_of(j: Option<Json>) -> Option<Seq<char>> {
    match j {
        Some(Json::Str(s)) => Some(s@),
        _ => None,
    }
}

/// The member `key` of `j`, if `j` is an object that has it.
pub fn get_member<'a>(j: &'a Json, key: &str) -> (r: Option<&'a Json>)
    ensures
        match r {
            Some(x) => member(*j, key@) == Some(*x),
            None => member(*j, key@) is None,
        },
{
    match j {
        Json::Object(es) => {
            let k = chars_of(key);
            let mut i: usize = 0;
            proof {
                assert(es@.skip(0) =~= es@);
            }
            while i < es.len()
                invariant
                    i <= es@.len(),
                    k@ == key@,
                    member(*j, key@) == lookup(es@, key@),
                    lookup(es@, key@) == lookup(es@.skip(i as int), key@),
                decreases es@.len() - i,
            {
                proof {
                    assert(es@.skip(i as int)[0] == es@[i as int]);
                    assert(es@.skip(i as int).drop_first() =~= es@.skip(i + 1));
                }
                let name = chars_of(es[i].0.as_str());
                if same_chars(&name, &k) {
                    proof {
                        assert(es@[i as int].0@ == key@);
                        assert(lookup(es@.skip(i as int), key@) == Some(es@[i as int].1));
                    }
                    return Some(&es[i].1);
                }
                i = i + 1;
            }
            None
        },
        _ => None,
    }
}

/// The `i`-th item of `j`, if `j` is an array that long.
pub fn get_item<'a>(j: &'a Json, i: usize) -> (r: Option<&'a Json>)
    ensures
        match r {
            Some(x) => item(*j, i as int) == Some(*x),
            None => item(*j, i as int) is None,
        },
{
    match j {
        Json::Array(xs) => if i < xs.len() {
            Some(&xs[i])
        } else {
            None
        },
        _ => None,
    }
}

/// The text of a JSON string.
pub fn as_text<'a>(j: Option<&'a Json>) -> (r: Option<&'a String>)
    ensures
        match r {
            Some(s) => text_of(
                match j {
                    Some(x) => Some(*x),
                    None => None,
                },
            ) == Some(s@),
            None => text_of(
                match j {
                    Some(x) => Some(*x),
                    None => None,
                },
            ) is None,
        },
{
    match j {
        Some(Json::Str(s)) => Some(s),
        _ => None,
    }
}

} // verus!
