//! JSON values as the `serde_json` crate parses them.
//!
//! A value is not looked into here. What it holds is named by the spec
//! functions below, one for each way in which `serde_json` lets a value be
//! read; the readers hand out what those names say, as values of the
//! standard library.

use vstd::prelude::*;
use vstd::string::*;

verus! {

/// A JSON value of `serde_json`.
#[verifier::external_type_specification]
#[verifier::external_body]
pub struct ExValue(serde_json::Value);

/// A member of a JSON object.
pub struct Member {
    pub key: String,
    pub value: serde_json::Value,
}

/// The value that `serde_json::from_str` makes of a text; `None` where it
/// reports an error.
pub uninterp spec fn json_parsed(text: Seq<char>) -> Option<serde_json::Value>;

/// The members of a value that is an object, in the order in which
/// `serde_json` walks them; `None` for any other value.
pub uninterp spec fn json_members(v: serde_json::Value) -> Option<Seq<(Seq<char>, serde_json::Value)>>;

/// The elements of a value that is an array; `None` for any other value.
pub uninterp spec fn json_items(v: serde_json::Value) -> Option<Seq<serde_json::Value>>;

/// The text of a value that is a string; `None` for any other value.
pub uninterp spec fn json_text(v: serde_json::Value) -> Option<Seq<char>>;

/// The number of a value that is an integer from 0 to `u64::MAX`; `None`
/// for any other value.
pub uninterp spec fn json_natural(v: serde_json::Value) -> Option<u64>;

/// The double-precision bits of a value that is a number; `None` for any
/// other value.
pub uninterp spec fn json_number(v: serde_json::Value) -> Option<u64>;

/// The members as pairs of key and value.
pub open spec fn members_view(members: Seq<Member>) -> Seq<(Seq<char>, serde_json::Value)> {
    members.map_values(|m: Member| (m.key@, m.value))
}

/// `serde_json::from_str`, to a `Value`.
#[verifier::external_body]
pub(crate) fn parse(text: &str) -> (r: Option<serde_json::Value>)
    ensures
        r == json_parsed(text@),
{
    serde_json::from_str(text).ok()
}

/// `serde_json::Value::as_object`, each member copied out.
#[verifier::external_body]
pub(crate) fn members(v: &serde_json::Value) -> (r: Option<Vec<Member>>)
    ensures
        match r {
            Some(found) => json_members(*v) == Some(members_view(found@)),
            None => json_members(*v) is None,
        },
{
    v.as_object().map(|m| m.iter().map(|(k, x)| Member { key: k.clone(), value: x.clone() }).collect())
}

/// `serde_json::Value::as_array`, the elements copied out.
#[verifier::external_body]
pub(crate) fn items(v: &serde_json::Value) -> (r: Option<Vec<serde_json::Value>>)
    ensures
        match r {
            Some(found) => json_items(*v) == Some(found@),
            None => json_items(*v) is None,
        },
{
    v.as_array().cloned()
}

/// `serde_json::Value::as_str`, the text copied out.
#[verifier::external_body]
pub(crate) fn text(v: &serde_json::Value) -> (r: Option<String>)
    ensures
        match r {
            Some(found) => json_text(*v) == Some(found@),
            None => json_text(*v) is None,
        },
{
    v.as_str().map(|s| s.to_string())
}

/// `serde_json::Value::as_u64`.
#[verifier::external_body]
pub(crate) fn natural(v: &serde_json::Value) -> (r: Option<u64>)
    ensures
        r == json_natural(*v),
{
    v.as_u64()
}

/// `serde_json::Value::as_f64`, the number given by its bits.
#[verifier::external_body]
pub(crate) fn number(v: &serde_json::Value) -> (r: Option<u64>)
    ensures
        r == json_number(*v),
{
    v.as_f64().map(|x| x.to_bits())
}

/// The value under the first key `key` among `members`.
pub open spec fn lookup(members: Seq<(Seq<char>, serde_json::Value)>, key: Seq<char>, from: int) -> Option<
    serde_json::Value,
>
    decreases members.len() - from,
{
    if from < 0 || from >= members.len() {
        None
    } else if members[from].0 == key {
        Some(members[from].1)
    } else {
        lookup(members, key, from + 1)
    }
}

/// The member `key` of a value: `None` where the value is no object or
/// has no such member.
pub open spec fn json_field(v: serde_json::Value, key: Seq<char>) -> Option<serde_json::Value> {
    match json_members(v) {
        Some(members) => lookup(members, key, 0),
        None => None,
    }
}

/// The position of the first member `key`.
pub fn find_member(members: &Vec<Member>, key: &str) -> (r: Option<usize>)
    ensures
        match r {
            Some(at) => at < members.len() && lookup(members_view(members@), key@, 0) == Some(
                members@[at as int].value,
            ),
            None => lookup(members_view(members@), key@, 0) is None,
        },
{
    let wanted = String::from_str(key);
    let ghost pairs = members_view(members@);
    let mut at: usize = 0;
    while at < members.len()
        invariant
            at <= members.len(),
            wanted@ == key@,
            pairs == members_view(members@),
            lookup(pairs, key@, at as int) == lookup(pairs, key@, 0),
        decreases members.len() - at,
    {
        assert(pairs[at as int] == (members@[at as int].key@, members@[at as int].value));
        if members[at].key == wanted {
            return Some(at);
        }
        at += 1;
    }
    None
}

} // verus!
