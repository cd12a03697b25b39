//! A JSON document as plain values, for the loosely shaped payloads the bot
//! platform sends: webhooks and recording listings.
use vstd::prelude::*;

use crate::text::{chars_of, eq_chars, eq_str};

verus! {

broadcast use vstd::string::group_string_axioms;

/// A JSON value. Numbers keep their text; an object keeps its members in
/// document order, each key once.
#[derive(Debug)]
pub enum Json {
    Null,
    Bool(bool),
    Number(String),
    Str(String),
    Array(Vec<Json>),
    Object(Vec<(String, Json)>),
}

/// The value of the first member named `key`.
pub open spec fn member(entries: Seq<(String, Json)>, key: Seq<char>) -> Option<Json>
    decreases entries.len(),
{
    if entries.len() == 0 {
        None
    } else if entries[0].0@ == key {
        Some(entries[0].1)
    } else {
        member(entries.drop_first(), key)
    }
}

/// `Value::get` with a string index: the member of an object, nothing for
/// any other value.
pub open spec fn get(j: Json, key: Seq<char>) -> Option<Json> {
    match j {
        Json::Object(entries) => member(entries@, key),
        _ => None,
    }
}

/// `Value::as_str`.
pub open spec fn as_str(j: Option<Json>) -> Option<Seq<char>> {
    match j {
        Some(Json::Str(s)) => Some(s@),
        _ => None,
    }
}

/// The value of the first member named `key`.
pub fn member_exec<'a>(entries: &'a Vec<(String, Json)>, key: &str) -> (r: Option<&'a Json>)
    ensures
        match member(entries@, key@) {
            Some(v) => r matches Some(x) && *x == v,
            None => r is None,
        },
{
    let k = chars_of(key);
    let mut i: usize = 0;
    assert(entries@.skip(0) =~= entries@);
    while i < entries.len()
        invariant
            i <= entries@.len(),
            k@ == key@,
            member(entries@, key@) == member(entries@.skip(i as int), key@),
        decreases entries.len() - i,
    {
        assert(entries@.skip(i as int).drop_first() =~= entries@.skip(i + 1));
        assert(entries@.skip(i as int)[0] == entries@[i as int]);
        let name = chars_of(entries[i].0.as_str());
        if eq_chars(&name, &k) {
            return Some(&entries[i].1);
        }
        i += 1;
    }
    None
}

/// `Value::get(key)`.
pub fn json_get<'a>(j: &'a Json, key: &str) -> (r: Option<&'a Json>)
    ensures
        match get(*j, key@) {
            Some(v) => r matches Some(x) && *x == v,
            None => r is None,
        },
{
    match j {
        Json::Object(entries) => member_exec(entries, key),
        _ => None,
    }
}

} // verus!
