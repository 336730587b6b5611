//! A JSON document tree that the verified code can read, filled by
//! `serde_json`'s parser.

use vstd::prelude::*;

verus! {

#[verifier::external_type_specification]
#[verifier::external_body]
pub struct ExJsonValue(serde_json::Value);

/// A parsed JSON value. Strings are held as characters; an object keeps its
/// members in the parser's order, with unique keys.
#[derive(Debug)]
pub enum Json {
    Null,
    Bool(bool),
    /// A number, in the text form the parser prints it in.
    Number(Vec<char>),
    Str(Vec<char>),
    Array(Vec<Json>),
    Object(Vec<(Vec<char>, Json)>),
}

/// The document that the JSON text `s` holds, or `None` where it is not JSON.
pub uninterp spec fn json_of(s: Seq<char>) -> Option<Json>;

/// Relies on `serde_json::from_str::<serde_json::Value>`: parses JSON text; the
/// result depends on the text alone.
#[verifier::external_body]
pub fn parse_json(s: &str) -> (r: Option<Json>)
    ensures
        r == json_of(s@),
{
    serde_json::from_str::<serde_json::Value>(s).ok().map(|v| json_from_value(&v))
}

/// The same tree in this crate's type, variant for variant.
#[verifier::external_body]
fn json_from_value(v: &serde_json::Value) -> Json {
    match v {
        serde_json::Value::Null => Json::Null,
        serde_json::Value::Bool(b) => Json::Bool(*b),
        serde_json::Value::Number(n) => Json::Number(n.to_string().chars().collect()),
        serde_json::Value::String(s) => Json::Str(s.chars().collect()),
        serde_json::Value::Array(a) => Json::Array(a.iter().map(json_from_value).collect()),
        serde_json::Value::Object(m) => Json::Object(
            m.iter().map(|(k, x)| (k.chars().collect(), json_from_value(x))).collect(),
        ),
    }
}

/// The first member of `m` from index `i` on whose key is `key`.
pub open spec fn member_from(m: Seq<(Vec<char>, Json)>, key: Seq<char>, i: int) -> Option<Json>
    decreases m.len() - i,
{
    if i < 0 || i >= m.len() {
        None
    } else if m[i].0@ == key {
        Some(m[i].1)
    } else {
        member_from(m, key, i + 1)
    }
}

/// The member `key` of an object; `None` for a missing key or a non-object.
pub open spec fn field(v: Json, key: Seq<char>) -> Option<Json> {
    match v {
        Json::Object(m) => member_from(m@, key, 0),
        _ => None,
    }
}

/// The text of a string value.
pub open spec fn as_text(v: Option<Json>) -> Option<Seq<char>> {
    match v {
        Some(Json::Str(s)) => Some(s@),
        _ => None,
    }
}

/// The member `key` of `v`, where `v` is an object that has it.
pub fn get_field<'a>(v: &'a Json, key: &[char]) -> (r: Option<&'a Json>)
    ensures
        match r {
            Some(x) => field(*v, key@) == Some(*x),
            None => field(*v, key@) is None,
        },
{
    match v {
        Json::Object(m) => {
            let mut i: usize = 0;
            while i < m.len()
                invariant
                    i <= m@.len(),
                    field(*v, key@) == member_from(m@, key@, i as int),
                decreases m.len() - i,
            {
                if crate::text::chars_equal(m[i].0.as_slice(), key) {
                    let r = &m[i].1;
                    return Some(r);
                }
                i = i + 1;
            }
            None
        },
        _ => None,
    }
}

} // verus!
