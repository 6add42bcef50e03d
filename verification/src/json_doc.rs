//! A JSON document as plain data, and the lookups that manifest readers
//! make in it. Numbers keep their text: nothing here reads them.
use vstd::prelude::*;

use crate::text::{chars_of, chars_eq};

verus! {

/// A JSON value. Object members keep their order, and no key occurs twice
/// in one object.
pub enum JsonValue {
    Null,
    Bool(bool),
    Number(String),
    Text(String),
    Array(Vec<JsonValue>),
    Object(Vec<JsonMember>),
}

/// One member of a JSON object.
pub struct JsonMember {
    pub key: String,
    pub value: JsonValue,
}

/// The value of the first member named `key`.
pub open spec fn member_value(members: Seq<JsonMember>, key: Seq<char>) -> Option<JsonValue>
    decreases members.len(),
{
    if members.len() == 0 {
        None
    } else if members[0].key@ == key {
        Some(members[0].value)
    } else {
        member_value(members.drop_first(), key)
    }
}

/// `value.get(key)`: the member `key` of an object; nothing for any other
/// value.
pub open spec fn json_member_of(value: JsonValue, key: Seq<char>) -> Option<JsonValue> {
    match value {
        JsonValue::Object(members) => member_value(members@, key),
        _ => None,
    }
}

/// The member `key` of an optional value.
pub open spec fn json_member_in(value: Option<JsonValue>, key: Seq<char>) -> Option<JsonValue> {
    match value {
        Some(v) => json_member_of(v, key),
        None => None,
    }
}

/// `as_str`: the text of a string value.
pub open spec fn json_text(value: Option<JsonValue>) -> Option<Seq<char>> {
    match value {
        Some(JsonValue::Text(s)) => Some(s@),
        _ => None,
    }
}

/// Whether an object has a member named `key`.
pub open spec fn has_member(members: Seq<JsonMember>, key: Seq<char>) -> bool {
    exists|i: int| 0 <= i < members.len() && #[trigger] members[i].key@ == key
}

/// `value.get(key)`.
pub fn json_get<'a>(value: &'a JsonValue, key: &str) -> (r: Option<&'a JsonValue>)
    ensures
        match r {
            Some(v) => json_member_of(*value, key@) == Some(*v),
            None => json_member_of(*value, key@) is None,
        },
{
    match value {
        JsonValue::Object(members) => {
            assert(json_member_of(*value, key@) == member_value(members@, key@));
            member_get(members, key)
        },
        _ => None,
    }
}

/// The member `key` of an optional value.
pub fn json_get_in<'a>(value: Option<&'a JsonValue>, key: &str) -> (r: Option<&'a JsonValue>)
    ensures
        match r {
            Some(v) => json_member_in(
                match value {
                    Some(x) => Some(*x),
                    None => None,
                },
                key@,
            ) == Some(*v),
            None => json_member_in(
                match value {
                    Some(x) => Some(*x),
                    None => None,
                },
                key@,
            ) is None,
        },
{
    match value {
        Some(v) => json_get(v, key),
        None => None,
    }
}

/// `as_str`.
pub fn json_as_str(value: Option<&JsonValue>) -> (r: Option<&str>)
    ensures
        match r {
            Some(s) => json_text(
                match value {
                    Some(x) => Some(*x),
                    None => None,
                },
            ) == Some(s@),
            None => json_text(
                match value {
                    Some(x) => Some(*x),
                    None => None,
                },
            ) is None,
        },
{
    match value {
        Some(JsonValue::Text(s)) => Some(s.as_str()),
        _ => None,
    }
}

/// Whether an object has a member named `key`.
pub fn members_have(members: &Vec<JsonMember>, key: &str) -> (r: bool)
    ensures
        r == has_member(members@, key@),
{
    let k = chars_of(key);
    let mut i: usize = 0;
    while i < members.len()
        invariant
            i <= members@.len(),
            k@ == key@,
            forall|j: int| 0 <= j < i ==> members@[j].key@ != key@,
        decreases members@.len() - i,
    {
        let name = chars_of(members[i].key.as_str());
        if chars_eq(name.as_slice(), k.as_slice()) {
            return true;
        }
        i = i + 1;
    }
    false
}

/// The value of the first member named `key`.
pub fn member_get<'a>(members: &'a Vec<JsonMember>, key: &str) -> (r: Option<&'a JsonValue>)
    ensures
        match r {
            Some(v) => member_value(members@, key@) == Some(*v),
            None => member_value(members@, key@) is None,
        },
{
    let k = chars_of(key);
    let mut i: usize = 0;
    assert(members@.skip(0) =~= members@);
    while i < members.len()
        invariant
            i <= members@.len(),
            k@ == key@,
            member_value(members@, key@) == member_value(members@.skip(i as int), key@),
        decreases members@.len() - i,
    {
        assert(members@.skip(i as int)[0] == members@[i as int]);
        assert(members@.skip(i as int).drop_first() =~= members@.skip(i + 1));
        let name = chars_of(members[i].key.as_str());
        if chars_eq(name.as_slice(), k.as_slice()) {
            assert(members@[i as int].key@ == key@);
            return Some(&members[i].value);
        }
        i = i + 1;
    }
    assert(members@.skip(i as int) =~= Seq::<JsonMember>::empty());
    None
}

} // verus!

verus! {

/// Whether two JSON values hold the same data.
pub open spec fn json_same(a: JsonValue, b: JsonValue) -> bool
    decreases a,
{
    match a {
        JsonValue::Null => b is Null,
        JsonValue::Bool(x) => b matches JsonValue::Bool(y) && x == y,
        JsonValue::Number(x) => b matches JsonValue::Number(y) && x@ == y@,
        JsonValue::Text(x) => b matches JsonValue::Text(y) && x@ == y@,
        JsonValue::Array(x) => b matches JsonValue::Array(y) && x@.len() == y@.len() && forall|i: int|
            0 <= i < x@.len() ==> json_same(#[trigger] x@[i], y@[i]),
        JsonValue::Object(x) => b matches JsonValue::Object(y) && x@.len() == y@.len() && forall|i: int|
            0 <= i < x@.len() ==> (#[trigger] x@[i]).key@ == y@[i].key@ && json_same(x@[i].value, y@[i].value),
    }
}

/// A copy of a JSON value.
pub fn json_copy(v: &JsonValue) -> (r: JsonValue)
    ensures
        json_same(*v, r),
    decreases v,
{
    match v {
        JsonValue::Null => JsonValue::Null,
        JsonValue::Bool(b) => JsonValue::Bool(*b),
        JsonValue::Number(n) => JsonValue::Number(n.clone()),
        JsonValue::Text(t) => JsonValue::Text(t.clone()),
        JsonValue::Array(items) => {
            let mut out: Vec<JsonValue> = Vec::new();
            let mut i: usize = 0;
            while i < items.len()
                invariant
                    i <= items@.len(),
                    out@.len() == i,
                    forall|k: int| 0 <= k < i ==> json_same(#[trigger] items@[k], out@[k]),
                    *v == JsonValue::Array(*items),
                decreases items@.len() - i,
            {
                proof {
                    assert(decreases_to!(*v => (*v)->Array_0));
                    assert(decreases_to!(*items => items@));
                    assert(decreases_to!(items@ => items@[i as int]));
                }
                out.push(json_copy(&items[i]));
                i = i + 1;
            }
            JsonValue::Array(out)
        },
        JsonValue::Object(members) => {
            let mut out: Vec<JsonMember> = Vec::new();
            let mut i: usize = 0;
            while i < members.len()
                invariant
                    i <= members@.len(),
                    out@.len() == i,
                    forall|k: int| 0 <= k < i ==> (#[trigger] members@[k]).key@ == out@[k].key@ && json_same(members@[k].value, out@[k].value),
                    *v == JsonValue::Object(*members),
                decreases members@.len() - i,
            {
                proof {
                    assert(decreases_to!(*v => (*v)->Object_0));
                    assert(decreases_to!(*members => members@));
                    assert(decreases_to!(members@ => members@[i as int]));
                    assert(decreases_to!(members@[i as int] => members@[i as int].value));
                }
                let value = json_copy(&members[i].value);
                out.push(JsonMember { key: members[i].key.clone(), value });
                i = i + 1;
            }
            JsonValue::Object(out)
        },
    }
}

} // verus!
