//! JSON values as plain data, parsed with `serde_json`, and the lookup of an
//! object's member by key.

use vstd::prelude::*;

verus! {

/// `serde_json`'s JSON value, carried through the parser alone.
#[verifier::external_type_specification]
#[verifier::external_body]
pub struct ExJsonValue(serde_json::Value);

/// A JSON value.
#[derive(Debug)]
pub enum Json {
    Null,
    Bool(bool),
    /// A number, in `serde_json`'s decimal notation.
    Number(String),
    Str(String),
    Array(Vec<Json>),
    /// An object's members, each key once, in `serde_json`'s order for
    /// object keys.
    Object(Vec<(String, Json)>),
}

/// Names what `serde_json` parses a text into: the JSON value it holds, or
/// nothing when the text is not JSON.
pub uninterp spec fn parsed_json(text: Seq<char>) -> Option<Json>;

/// Converts a `serde_json` value into a `Json`, one variant for one
/// variant, recursively; numbers keep `serde_json`'s notation. Nothing is
/// stated of it: it serves `parse_json` alone.
#[verifier::external_body]
fn json_of(value: &serde_json::Value) -> Json {
    match value {
        serde_json::Value::Null => Json::Null,
        serde_json::Value::Bool(b) => Json::Bool(*b),
        serde_json::Value::Number(n) => Json::Number(n.to_string()),
        serde_json::Value::String(s) => Json::Str(s.clone()),
        serde_json::Value::Array(a) => Json::Array(a.iter().map(json_of).collect()),
        serde_json::Value::Object(o) => Json::Object(o.iter().map(|(k, v)| (k.clone(), json_of(v))).collect()),
    }
}

/// Parses a text with `serde_json::from_str` into a `serde_json::Value`
/// and converts it into a `Json`. The contract says that the result is
/// the named parse of the text, which depends on the text alone; what the
/// JSON grammar makes of a text is not spelled out here.
#[verifier::external_body]
pub(crate) fn parse_json(text: &str) -> (r: Option<Json>)
    ensures
        r == parsed_json(text@),
{
    serde_json::from_str::<serde_json::Value>(text).ok().map(|v| json_of(&v))
}

/// The value of the first member of `members` whose key is `key`.
pub open spec fn member_of(members: Seq<(String, Json)>, key: Seq<char>) -> Option<Json>
    decreases members.len(),
{
    if members.len() == 0 {
        None
    } else if members[0].0@ == key {
        Some(members[0].1)
    } else {
        member_of(members.drop_first(), key)
    }
}

/// The member `key` of a JSON value: none unless it is an object with such
/// a member.
pub open spec fn member(j: Json, key: Seq<char>) -> Option<Json> {
    match j {
        Json::Object(members) => member_of(members@, key),
        _ => None,
    }
}

proof fn lemma_member_of_skip(members: Seq<(String, Json)>, key: Seq<char>, i: int)
    requires
        0 <= i < members.len(),
        members[i].0@ != key,
    ensures
        member_of(members.skip(i), key) == member_of(members.skip(i + 1), key),
{
    assert(members.skip(i).drop_first() =~= members.skip(i + 1));
}

/// The position of the member `key` among `members`, the first one with
/// that key.
pub fn find_member(members: &Vec<(String, Json)>, key: &String) -> (r: Option<usize>)
    ensures
        match r {
            Some(i) => i < members@.len() && member_of(members@, key@) == Some(members@[i as int].1),
            None => member_of(members@, key@) is None,
        },
{
    proof {
        assert(members@.skip(0) =~= members@);
    }
    for i in 0..members.len()
        invariant
            member_of(members@, key@) == member_of(members@.skip(i as int), key@),
    {
        if members[i].0 == *key {
            return Some(i);
        }
        proof {
            lemma_member_of_skip(members@, key@, i as int);
        }
    }
    proof {
        assert(members@.skip(members@.len() as int).len() == 0);
    }
    None
}

} // verus!
