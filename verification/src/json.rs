//! JSON values as the settings and session-log code reads them.
use vstd::prelude::*;
use crate::text::str_eq;

verus! {

/// A JSON number: its text, and its value when it is a non-negative
/// integer that fits in a `u64` (`Number::as_u64`).
#[derive(Debug)]
pub struct JsonNumber {
    pub text: String,
    pub as_u64: Option<u64>,
}

/// A JSON value; object members keep their order.
#[derive(Debug)]
pub enum Json {
    Null,
    Bool(bool),
    Number(JsonNumber),
    Str(String),
    Array(Vec<Json>),
    Object(Vec<(String, Json)>),
}

/// The value of the first member named `key`.
pub open spec fn member(members: Seq<(String, Json)>, key: Seq<char>) -> Option<Json>
    decreases members.len(),
{
    if members.len() == 0 {
        None
    } else if members[0].0@ == key {
        Some(members[0].1)
    } else {
        member(members.drop_first(), key)
    }
}

/// `Value::get` with a string index: an object's member.
pub open spec fn json_get(v: Json, key: Seq<char>) -> Option<Json> {
    match v {
        Json::Object(ms) => member(ms@, key),
        _ => None,
    }
}

/// `Value::get` with a string index.
pub fn get<'a>(v: &'a Json, key: &str) -> (out: Option<&'a Json>)
    ensures
        match out {
            Some(x) => json_get(*v, key@) == Some(*x),
            None => json_get(*v, key@) is None,
        },
{
    match v {
        Json::Object(ms) => {
            let mut i: usize = 0;
            assert(ms@.skip(0) =~= ms@);
            while i < ms.len()
                invariant
                    i <= ms.len(),
                    *v == Json::Object(*ms),
                    member(ms@, key@) == member(ms@.skip(i as int), key@),
                decreases ms.len() - i,
            {
                assert(ms@.skip(i as int)[0] == ms@[i as int]);
                assert(ms@.skip(i as int).drop_first() =~= ms@.skip(i + 1));
                if str_eq(ms[i].0.as_str(), key) {
                    return Some(&ms[i].1);
                }
                i += 1;
            }
            None
        },
        _ => None,
    }
}

/// Whether an object has a member named `key` (`json_field_present`).
pub open spec fn has_member(v: Json, key: Seq<char>) -> bool {
    json_get(v, key) is Some
}

/// `Value::as_str`.
pub open spec fn json_str(v: Option<Json>) -> Option<Seq<char>> {
    match v {
        Some(Json::Str(s)) => Some(s@),
        _ => None,
    }
}

} // verus!
