//! JSON values as the protocol code reads them. Parsing and printing are
//! `serde_json`'s; what a value holds is plain data here.

use vstd::prelude::*;
use crate::text::{owned, str_eq};

verus! {

/// `serde_json::Number`, carried through unread when it is not an
/// integer.
#[verifier::external_type_specification]
#[verifier::external_body]
pub struct ExNumber(serde_json::Number);

/// `serde_json::Value`, only converted from and to.
#[verifier::external_type_specification]
#[verifier::external_body]
pub struct ExValue(serde_json::Value);

/// A JSON number.
#[derive(Debug)]
pub enum JsonNumber {
    /// A non-negative integer.
    Unsigned(u64),
    /// A negative integer.
    Negative(i64),
    /// Any other number (a fraction or an exponent form).
    Other(serde_json::Number),
}

/// A JSON value. Object members keep the order `serde_json` gives them
/// (its map is ordered by key), each key once.
#[derive(Debug)]
pub enum Json {
    /// `null`.
    Null,
    /// `true` / `false`.
    Bool(bool),
    /// A number.
    Number(JsonNumber),
    /// A string.
    Str(String),
    /// An array.
    Array(Vec<Json>),
    /// An object.
    Object(Vec<(String, Json)>),
}

/// The value `serde_json::from_str::<Value>` reads from `text`, if the
/// text is valid JSON.
pub uninterp spec fn json_parse(text: Seq<char>) -> Option<Json>;

/// The compact text `serde_json::to_string` writes for `v`.
pub uninterp spec fn json_text(v: Json) -> Seq<char>;

/// Convert a parsed `serde_json` value, member by member.
#[verifier::external_body]
fn json_from_value(v: serde_json::Value) -> Json {
    match v {
        serde_json::Value::Null => Json::Null,
        serde_json::Value::Bool(b) => Json::Bool(b),
        serde_json::Value::Number(n) => Json::Number(number_from_serde(n)),
        serde_json::Value::String(s) => Json::Str(s),
        serde_json::Value::Array(a) => Json::Array(a.into_iter().map(json_from_value).collect()),
        serde_json::Value::Object(o) => Json::Object(
            o.into_iter().map(|(k, x)| (k, json_from_value(x))).collect(),
        ),
    }
}

/// Convert a `serde_json::Number`, telling its integer kinds apart
/// (`as_u64`, then `as_i64`).
#[verifier::external_body]
fn number_from_serde(n: serde_json::Number) -> JsonNumber {
    match (n.as_u64(), n.as_i64()) {
        (Some(u), _) => JsonNumber::Unsigned(u),
        (None, Some(i)) => JsonNumber::Negative(i),
        (None, None) => JsonNumber::Other(n),
    }
}

/// Convert back to a `serde_json::Number`.
#[verifier::external_body]
fn number_to_serde(n: &JsonNumber) -> serde_json::Number {
    match n {
        JsonNumber::Unsigned(u) => serde_json::Number::from(*u),
        JsonNumber::Negative(i) => serde_json::Number::from(*i),
        JsonNumber::Other(x) => x.clone(),
    }
}

/// Convert back to a `serde_json` value, member by member.
#[verifier::external_body]
fn value_from_json(v: &Json) -> serde_json::Value {
    match v {
        Json::Null => serde_json::Value::Null,
        Json::Bool(b) => serde_json::Value::Bool(*b),
        Json::Number(n) => serde_json::Value::Number(number_to_serde(n)),
        Json::Str(s) => serde_json::Value::String(s.clone()),
        Json::Array(a) => serde_json::Value::Array(a.iter().map(value_from_json).collect()),
        Json::Object(o) => serde_json::Value::Object(
            o.iter().map(|(k, x)| (k.clone(), value_from_json(x))).collect(),
        ),
    }
}

/// `serde_json::from_str::<serde_json::Value>`: the value `text` holds,
/// `None` when it is not valid JSON.
#[verifier::external_body]
pub(crate) fn parse_json(text: &str) -> (r: Option<Json>)
    ensures
        r == json_parse(text@),
{
    serde_json::from_str::<serde_json::Value>(text).ok().map(json_from_value)
}

/// `serde_json::to_string` of the value (which cannot fail for a value
/// whose keys are strings).
#[verifier::external_body]
pub(crate) fn json_to_string(v: &Json) -> (r: String)
    ensures
        r@ == json_text(*v),
{
    serde_json::to_string(&value_from_json(v)).unwrap_or_default()
}

/// The member `key` of an object (`Value::get` with a string index);
/// `None` for a missing key or a value that is not an object.
pub open spec fn json_get(v: Json, key: Seq<char>) -> Option<Json> {
    match v {
        Json::Object(es) => member(es@, key),
        _ => None,
    }
}

/// The first member named `key`.
pub open spec fn member(es: Seq<(String, Json)>, key: Seq<char>) -> Option<Json>
    decreases es.len(),
{
    if es.len() == 0 {
        None
    } else if es[0].0@ == key {
        Some(es[0].1)
    } else {
        member(es.skip(1), key)
    }
}

/// The member `key` of `v` when it is a string (`get(key)` then `as_str`).
pub open spec fn json_get_str(v: Json, key: Seq<char>) -> Option<Seq<char>> {
    match json_get(v, key) {
        Some(Json::Str(s)) => Some(s@),
        _ => None,
    }
}

/// The value at member path `path`, if every step is an object member.
pub open spec fn json_path(v: Json, path: Seq<Seq<char>>) -> Option<Json>
    decreases path.len(),
{
    if path.len() == 0 {
        Some(v)
    } else {
        match json_get(v, path[0]) {
            Some(c) => json_path(c, path.skip(1)),
            None => None,
        }
    }
}

/// Looking past `i` leading members that are not `key` changes nothing.
pub proof fn lemma_member_skip(es: Seq<(String, Json)>, key: Seq<char>, i: int)
    requires
        0 <= i <= es.len(),
        forall|j: int| 0 <= j < i ==> (#[trigger] es[j]).0@ != key,
    ensures
        member(es, key) == member(es.skip(i), key),
    decreases i,
{
    if i == 0 {
        assert(es.skip(0) =~= es);
    } else {
        assert forall|j: int| 0 <= j < i - 1 implies (#[trigger] es.skip(1)[j]).0@ != key by {
            assert(es.skip(1)[j] == es[j + 1]);
        }
        lemma_member_skip(es.skip(1), key, i - 1);
        assert(es.skip(1).skip(i - 1) =~= es.skip(i));
    }
}

/// The member `key` of an object (`Value::get`).
pub fn json_member<'a>(v: &'a Json, key: &str) -> (r: Option<&'a Json>)
    ensures
        match r {
            Some(x) => json_get(*v, key@) == Some(*x),
            None => json_get(*v, key@) is None,
        },
{
    match v {
        Json::Object(es) => {
            let mut i: usize = 0;
            while i < es.len()
                invariant
                    i <= es@.len(),
                    json_get(*v, key@) == member(es@, key@),
                    forall|j: int| 0 <= j < i ==> (#[trigger] es@[j]).0@ != key@,
                decreases es@.len() - i,
            {
                if str_eq(es[i].0.as_str(), key) {
                    proof {
                        lemma_member_skip(es@, key@, i as int);
                        assert(es@.skip(i as int)[0] == es@[i as int]);
                    }
                    return Some(&es[i].1);
                }
                i = i + 1;
            }
            proof {
                lemma_member_skip(es@, key@, i as int);
            }
            None
        },
        _ => None,
    }
}

/// The member `key` when it is a string (`get(key)` then `as_str`).
pub fn json_str_member(v: &Json, key: &str) -> (r: Option<String>)
    ensures
        match r {
            Some(s) => json_get_str(*v, key@) == Some(s@),
            None => json_get_str(*v, key@) is None,
        },
{
    match json_member(v, key) {
        Some(Json::Str(s)) => Some(owned(s.as_str())),
        _ => None,
    }
}

/// The member `key` when it is a non-negative integer that fits in
/// `u64` (`get(key)` then `as_u64`).
pub open spec fn json_get_u64(v: Json, key: Seq<char>) -> Option<u64> {
    match json_get(v, key) {
        Some(Json::Number(JsonNumber::Unsigned(n))) => Some(n),
        _ => None,
    }
}

/// The member `key` when it is a boolean (`get(key)` then `as_bool`).
pub open spec fn json_get_bool(v: Json, key: Seq<char>) -> Option<bool> {
    match json_get(v, key) {
        Some(Json::Bool(b)) => Some(b),
        _ => None,
    }
}

/// The member `key` as a `u64`, if it is one.
pub fn json_u64_member(v: &Json, key: &str) -> (r: Option<u64>)
    ensures
        r == json_get_u64(*v, key@),
{
    match json_member(v, key) {
        Some(Json::Number(JsonNumber::Unsigned(n))) => Some(*n),
        _ => None,
    }
}

/// The member `key` as a `bool`, if it is one.
pub fn json_bool_member(v: &Json, key: &str) -> (r: Option<bool>)
    ensures
        r == json_get_bool(*v, key@),
{
    match json_member(v, key) {
        Some(Json::Bool(b)) => Some(*b),
        _ => None,
    }
}

/// Index of the first member named `key`.
pub open spec fn member_index(es: Seq<(String, Json)>, key: Seq<char>) -> Option<int>
    decreases es.len(),
{
    if es.len() == 0 {
        None
    } else if es[0].0@ == key {
        Some(0)
    } else {
        match member_index(es.skip(1), key) {
            Some(i) => Some(i + 1),
            None => None,
        }
    }
}

/// `member_index` finds the member `member` finds.
pub proof fn lemma_member_index(es: Seq<(String, Json)>, key: Seq<char>)
    ensures
        match member_index(es, key) {
            Some(i) => 0 <= i < es.len() && es[i].0@ == key && member(es, key) == Some(es[i].1)
                && forall|j: int| 0 <= j < i ==> (#[trigger] es[j]).0@ != key,
            None => member(es, key) is None && forall|j: int|
                0 <= j < es.len() ==> (#[trigger] es[j]).0@ != key,
        },
    decreases es.len(),
{
    if es.len() > 0 && es[0].0@ != key {
        lemma_member_index(es.skip(1), key);
        assert forall|j: int| 1 <= j < es.len() implies es[j] == es.skip(1)[j - 1] by {}
    }
}

/// Split object `v` at its member `key`: the other members, where the
/// member stood, its key and its value; `None` when `v` is not an object
/// or has no such member.
pub fn split_member(v: Json, key: &str) -> (r: Option<(Vec<(String, Json)>, usize, String, Json)>)
    ensures
        match v {
            Json::Object(es) => match member_index(es@, key@) {
                Some(i) => r matches Some((rest, j, k, child)) && j == i && j <= rest@.len()
                    && rest@ == es@.remove(i) && (k, child) == es@[i],
                None => r is None,
            },
            _ => r is None,
        },
{
    match v {
        Json::Object(mut es) => {
            let ghost orig = es@;
            proof {
                lemma_member_index(orig, key@);
            }
            let mut i: usize = 0;
            while i < es.len()
                invariant
                    es@ == orig,
                    v matches Json::Object(e) && e@ == orig,
                    i <= orig.len(),
                    forall|j: int| 0 <= j < i ==> (#[trigger] orig[j]).0@ != key@,
                decreases orig.len() - i,
            {
                if str_eq(es[i].0.as_str(), key) {
                    proof {
                        lemma_member_index(orig, key@);
                        assert(orig[i as int].0@ == key@);
                        assert(member_index(orig, key@) == Some(i as int));
                    }
                    let (k, child) = es.remove(i);
                    return Some((es, i, k, child));
                }
                i = i + 1;
            }
            None
        },
        _ => None,
    }
}

/// Put member `(key, child)` back at `i` among `rest`.
pub fn put_member(rest: Vec<(String, Json)>, i: usize, key: String, child: Json) -> (r: Json)
    requires
        i <= rest@.len(),
    ensures
        r matches Json::Object(es) && es@ == rest@.insert(i as int, (key, child)),
{
    let mut rest = rest;
    rest.insert(i, (key, child));
    Json::Object(rest)
}

} // verus!
