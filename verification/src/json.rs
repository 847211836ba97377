//! JSON values as the template engine hands them to filters and takes them in
//! contexts, held as plain data.

use vstd::prelude::*;
use crate::text::str_eq;
use tera::Value;

verus! {

/// A JSON value of the template engine.
#[verifier::external_type_specification]
#[verifier::external_body]
pub struct ExValue(tera::Value);

/// A JSON value. Numbers are held as the text the JSON library writes for them,
/// and objects as their members in order.
#[derive(Debug)]
pub enum Json {
    Null,
    Bool(bool),
    Number(String),
    Str(String),
    Array(Vec<Json>),
    Object(Vec<(String, Json)>),
}

/// The value of the first member called `key`, if any.
pub open spec fn member(members: Seq<(String, Json)>, key: Seq<char>) -> Option<Json>
    decreases members.len(),
{
    if members.len() == 0 {
        None
    } else if members[0].0@ == key {
        Some(members[0].1)
    } else {
        member(members.drop_first(), key)
    }
}

/// The value of `j`'s member called `key`, when `j` is an object that has one.
pub open spec fn field(j: Json, key: Seq<char>) -> Option<Json> {
    match j {
        Json::Object(m) => member(m@, key),
        _ => None,
    }
}

/// Whether a number's text is that of a floating-point zero, `0.0` or `-0.0`.
pub open spec fn is_float_zero(t: Seq<char>) -> bool {
    t == "0.0"@ || t == "-0.0"@
}

/// Whether two numbers, given by their text, are equal: the same text, or both
/// a floating-point zero (which compare equal whatever their sign).
pub open spec fn same_number(a: Seq<char>, b: Seq<char>) -> bool {
    a == b || (is_float_zero(a) && is_float_zero(b))
}

/// Whether two JSON values are equal: same kind, same scalars, and containers
/// equal item by item (objects member by member, in order).
pub open spec fn json_same(a: Json, b: Json) -> bool
    decreases a,
{
    match a {
        Json::Null => b is Null,
        Json::Bool(x) => b matches Json::Bool(y) && x == y,
        Json::Number(x) => b matches Json::Number(y) && same_number(x@, y@),
        Json::Str(x) => b matches Json::Str(y) && x@ == y@,
        Json::Array(x) => match b {
            Json::Array(y) => x@.len() == y@.len() && forall|i: int|
                0 <= i < x@.len() ==> json_same(#[trigger] x@[i], y@[i]),
            _ => false,
        },
        Json::Object(x) => match b {
            Json::Object(y) => x@.len() == y@.len() && forall|i: int|
                0 <= i < x@.len() ==> (#[trigger] x@[i]).0@ == y@[i].0@ && json_same(x@[i].1, y@[i].1),
            _ => false,
        },
    }
}

/// Whether `j` holds no number anywhere.
pub open spec fn number_free(j: Json) -> bool
    decreases j,
{
    match j {
        Json::Number(_) => false,
        Json::Array(x) => forall|i: int| 0 <= i < x@.len() ==> number_free(#[trigger] x@[i]),
        Json::Object(x) => forall|i: int| 0 <= i < x@.len() ==> number_free((#[trigger] x@[i]).1),
        _ => true,
    }
}

/// Whether a number's text is that of a floating-point zero (see [`is_float_zero`]).
fn float_zero(t: &str) -> (r: bool)
    ensures
        r == is_float_zero(t@),
{
    str_eq(t, "0.0") || str_eq(t, "-0.0")
}

/// Whether two JSON values are equal (see [`json_same`]).
pub fn json_eq(a: &Json, b: &Json) -> (r: bool)
    ensures
        r == json_same(*a, *b),
    decreases *a,
{
    match (a, b) {
        (Json::Null, Json::Null) => true,
        (Json::Bool(x), Json::Bool(y)) => *x == *y,
        (Json::Number(x), Json::Number(y)) => str_eq(x.as_str(), y.as_str())
            || (float_zero(x.as_str()) && float_zero(y.as_str())),
        (Json::Str(x), Json::Str(y)) => str_eq(x.as_str(), y.as_str()),
        (Json::Array(x), Json::Array(y)) => {
            if x.len() != y.len() {
                return false;
            }
            let mut i: usize = 0;
            while i < x.len()
                invariant
                    x.len() == y.len(),
                    i <= x.len(),
                    *a == Json::Array(*x),
                    *b == Json::Array(*y),
                    forall|k: int| 0 <= k < i ==> #[trigger] json_same(x@[k], y@[k]),
                decreases x.len() - i,
            {
                proof {
                    assert(decreases_to!(*a => (*a)->Array_0));
                    assert(decreases_to!(*x => x@));
                    assert(decreases_to!(x@ => x@[i as int]));
                }
                if !json_eq(&x[i], &y[i]) {
                    assert(!json_same(x@[i as int], y@[i as int]));
                    assert(!json_same(*a, *b));
                    return false;
                }
                assert(json_same(x@[i as int], y@[i as int]));
                i = i + 1;
            }
            assert(forall|k: int| 0 <= k < x@.len() ==> json_same(#[trigger] x@[k], y@[k]));
            assert(json_same(Json::Array(*x), Json::Array(*y)));
            true
        },
        (Json::Object(x), Json::Object(y)) => {
            if x.len() != y.len() {
                return false;
            }
            let mut i: usize = 0;
            while i < x.len()
                invariant
                    x.len() == y.len(),
                    i <= x.len(),
                    *a == Json::Object(*x),
                    *b == Json::Object(*y),
                    forall|k: int| 0 <= k < i ==> ((#[trigger] x@[k]).0@ == y@[k].0@ && json_same(x@[k].1, y@[k].1)),
                decreases x.len() - i,
            {
                proof {
                    assert(decreases_to!(*a => (*a)->Object_0));
                    assert(decreases_to!(*x => x@));
                    assert(decreases_to!(x@ => x@[i as int]));
                    assert(decreases_to!(x@[i as int] => x@[i as int].1));
                }
                if !str_eq(x[i].0.as_str(), y[i].0.as_str()) || !json_eq(&x[i].1, &y[i].1) {
                    assert(!(x@[i as int].0@ == y@[i as int].0@ && json_same(x@[i as int].1, y@[i as int].1)));
                    return false;
                }
                assert((x@[i as int].0@ == y@[i as int].0@ && json_same(x@[i as int].1, y@[i as int].1)));
                i = i + 1;
            }
            assert(json_same(*a, *b));
            true
        },
        _ => {
            assert(!json_same(*a, *b));
            false
        },
    }
}

/// The value of the first member called `key`.
pub fn member_of<'a>(members: &'a Vec<(String, Json)>, key: &str) -> (r: Option<&'a Json>)
    ensures
        match member(members@, key@) {
            Some(v) => r matches Some(x) && *x == v,
            None => r is None,
        },
{
    let mut i: usize = 0;
    assert(members@.skip(0) == members@);
    while i < members.len()
        invariant
            i <= members.len(),
            member(members@, key@) == member(members@.skip(i as int), key@),
        decreases members.len() - i,
    {
        assert(members@.skip(i as int).drop_first() == members@.skip(i + 1));
        if str_eq(members[i].0.as_str(), key) {
            return Some(&members[i].1);
        }
        i = i + 1;
    }
    None
}

/// The value of `j`'s member called `key`, when `j` is an object that has one.
pub fn field_of<'a>(j: &'a Json, key: &str) -> (r: Option<&'a Json>)
    ensures
        match field(*j, key@) {
            Some(v) => r matches Some(x) && *x == v,
            None => r is None,
        },
{
    match j {
        Json::Object(m) => member_of(m, key),
        _ => None,
    }
}

/// What converting a JSON value of the template engine into plain data gives:
/// one variant for another, members in the engine's own order, a number as the
/// text `serde_json` writes for it.
pub uninterp spec fn json_of(v: tera::Value) -> Json;

/// The JSON value of the template engine that plain data converts to: one
/// variant for another, a number read back from its text by `serde_json`.
pub uninterp spec fn value_of(j: Json) -> tera::Value;

/// Converts a JSON value of the template engine into plain data, one variant
/// for another; a number becomes the text `serde_json` writes for it. The
/// result is named `json_of`; what it holds for a given value is not stated.
#[verifier::external_body]
pub fn json_from_value(v: &Value) -> (j: Json)
    ensures
        j == json_of(*v),
{
    match v {
        Value::Null => Json::Null,
        Value::Bool(b) => Json::Bool(*b),
        Value::Number(n) => Json::Number(n.to_string()),
        Value::String(s) => Json::Str(s.clone()),
        Value::Array(a) => Json::Array(a.iter().map(json_from_value).collect()),
        Value::Object(o) => Json::Object(o.iter().map(|(k, x)| (k.clone(), json_from_value(x))).collect()),
    }
}

/// Converts plain data into a JSON value of the template engine, one variant for
/// another; a number is read back from its text by `serde_json`, and nothing comes
/// back when some number's text does not parse. The value is named `value_of`;
/// what it holds for given data is not stated.
#[verifier::external_body]
pub fn json_to_value(j: &Json) -> (v: Option<Value>)
    ensures
        number_free(*j) ==> v is Some,
        v matches Some(x) ==> x == value_of(*j),
{
    match j {
        Json::Null => Some(Value::Null),
        Json::Bool(b) => Some(Value::Bool(*b)),
        Json::Number(n) => n.parse::<tera::Number>().ok().map(Value::Number),
        Json::Str(s) => Some(Value::String(s.clone())),
        Json::Array(a) => a.iter().map(json_to_value).collect::<Option<Vec<_>>>().map(Value::Array),
        Json::Object(o) => o.iter().map(|(k, x)| json_to_value(x).map(|v| (k.clone(), v))).collect::<Option<tera::Map<_, _>>>().map(Value::Object),
    }
}

} // verus!
