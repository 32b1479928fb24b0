//! JSON values as the library reads and builds them.
//!
//! A value is parsed and printed by the caller; the library sees it as a
//! [`JsonValue`] whose objects keep their members in order. Numbers the logic
//! reads are the non-negative integers within `u64`; every other number is
//! carried as a value of the parameter type `N`.
use vstd::prelude::*;

use crate::text::{owned, str_eq};

verus! {

/// A JSON value.
pub enum JsonValue<N> {
    Null,
    Bool(bool),
    /// A number that is a non-negative integer within `u64`.
    UInt(u64),
    /// Any other number.
    Num(N),
    Str(String),
    Array(Vec<JsonValue<N>>),
    /// An object: its members, in order.
    Object(Vec<(String, JsonValue<N>)>),
}

/// The content of a JSON value, with strings as character sequences.
pub ghost enum Json<N> {
    Null,
    Bool(bool),
    UInt(u64),
    Num(N),
    Str(Seq<char>),
    Array(Seq<Json<N>>),
    Object(Seq<(Seq<char>, Json<N>)>),
}

/// The content of `v`.
pub open spec fn json_of<N>(v: JsonValue<N>) -> Json<N>
    decreases v,
{
    match v {
        JsonValue::Null => Json::Null,
        JsonValue::Bool(b) => Json::Bool(b),
        JsonValue::UInt(n) => Json::UInt(n),
        JsonValue::Num(n) => Json::Num(n),
        JsonValue::Str(s) => Json::Str(s@),
        JsonValue::Array(xs) => Json::Array(
            Seq::new(
                xs@.len(),
                |k: int|
                    if 0 <= k < xs@.len() {
                        json_of(xs@[k])
                    } else {
                        Json::Null
                    },
            ),
        ),
        JsonValue::Object(fs) => Json::Object(
            Seq::new(
                fs@.len(),
                |k: int|
                    if 0 <= k < fs@.len() {
                        (fs@[k].0@, json_of(fs@[k].1))
                    } else {
                        (Seq::empty(), Json::Null)
                    },
            ),
        ),
    }
}

/// The contents of members `ms`.
pub open spec fn members_of<N>(ms: Seq<(String, JsonValue<N>)>) -> Seq<(Seq<char>, Json<N>)> {
    Seq::new(ms.len(), |k: int| (ms[k].0@, json_of(ms[k].1)))
}

/// The content of an object is the content of its members.
pub proof fn lemma_object_content<N>(ms: Vec<(String, JsonValue<N>)>)
    ensures
        json_of(JsonValue::Object(ms)) == Json::Object(members_of(ms@)),
{
    match json_of(JsonValue::Object(ms)) {
        Json::Object(x) => assert(x =~= members_of(ms@)),
        _ => {},
    }
}

/// The content of an array is the content of its elements.
pub proof fn lemma_array_content<N>(xs: Vec<JsonValue<N>>)
    ensures
        json_of(JsonValue::Array(xs)) == Json::Array(xs@.map_values(|x: JsonValue<N>| json_of(x))),
{
    match json_of(JsonValue::Array(xs)) {
        Json::Array(x) => assert(x =~= xs@.map_values(|x: JsonValue<N>| json_of(x))),
        _ => {},
    }
}

/// Index of the first member of `ms` named `key`, or -1.
pub open spec fn member_index<N>(ms: Seq<(String, JsonValue<N>)>, key: Seq<char>) -> int
    decreases ms.len(),
{
    if ms.len() == 0 {
        -1
    } else {
        let r = member_index(ms.drop_last(), key);
        if r >= 0 {
            r
        } else if ms.last().0@ == key {
            ms.len() - 1
        } else {
            -1
        }
    }
}

/// The member `key` of `v`, when `v` is an object that has one.
pub open spec fn object_get<N>(v: JsonValue<N>, key: Seq<char>) -> Option<JsonValue<N>> {
    match v {
        JsonValue::Object(ms) => {
            let i = member_index(ms@, key);
            if i >= 0 {
                Some(ms@[i].1)
            } else {
                None
            }
        },
        _ => None,
    }
}

/// The member `key` of `v`, when it exists and is a string.
pub open spec fn object_get_str<N>(v: JsonValue<N>, key: Seq<char>) -> Option<Seq<char>> {
    match object_get(v, key) {
        Some(JsonValue::Str(s)) => Some(s@),
        _ => None,
    }
}

/// The member `key` of `v`, when it exists and is an integer within `u64`.
pub open spec fn object_get_u64<N>(v: JsonValue<N>, key: Seq<char>) -> Option<u64> {
    match object_get(v, key) {
        Some(JsonValue::UInt(n)) => Some(n),
        _ => None,
    }
}

proof fn lemma_member_index_prefix<N>(ms: Seq<(String, JsonValue<N>)>, m: int, key: Seq<char>)
    requires
        0 <= m <= ms.len(),
        member_index(ms.take(m), key) >= 0,
    ensures
        member_index(ms, key) == member_index(ms.take(m), key),
    decreases ms.len() - m,
{
    if m < ms.len() {
        assert(ms.take(m + 1).drop_last() =~= ms.take(m));
        lemma_member_index_prefix(ms, m + 1, key);
    } else {
        assert(ms.take(m) =~= ms);
    }
}

/// Index of the first member of `ms` named `key`.
pub(crate) fn find_member<N>(ms: &Vec<(String, JsonValue<N>)>, key: &str) -> (r: Option<usize>)
    ensures
        match r {
            Some(i) => i as int == member_index(ms@, key@) && i < ms.len(),
            None => member_index(ms@, key@) == -1,
        },
{
    let mut i: usize = 0;
    while i < ms.len()
        invariant
            i <= ms.len(),
            member_index(ms@.take(i as int), key@) == -1,
        decreases ms.len() - i,
    {
        assert(ms@.take(i + 1).drop_last() =~= ms@.take(i as int));
        assert(ms@.take(i + 1).last() == ms@[i as int]);
        if str_eq(ms[i].0.as_str(), key) {
            proof {
                lemma_member_index_prefix(ms@, i + 1, key@);
            }
            return Some(i);
        }
        i = i + 1;
    }
    assert(ms@.take(i as int) =~= ms@);
    None
}

/// The member `key` of `v`, when `v` is an object that has one
/// (`serde_json::Value::get` with a string index).
pub fn member<'a, N>(v: &'a JsonValue<N>, key: &str) -> (r: Option<&'a JsonValue<N>>)
    ensures
        match r {
            Some(x) => object_get(*v, key@) == Some(*x),
            None => object_get(*v, key@) is None,
        },
{
    match v {
        JsonValue::Object(ms) => match find_member(ms, key) {
            Some(i) => Some(&ms[i].1),
            None => None,
        },
        _ => None,
    }
}

/// The member `key` of `v`, when it exists and is a string.
pub fn member_str<N>(v: &JsonValue<N>, key: &str) -> (r: Option<String>)
    ensures
        crate::text::opt_view(r) == object_get_str(*v, key@),
{
    match member(v, key) {
        Some(JsonValue::Str(s)) => Some(owned(s.as_str())),
        _ => None,
    }
}

/// The member `key` of `v`, when it exists and is an integer within `u64`.
pub fn member_u64<N>(v: &JsonValue<N>, key: &str) -> (r: Option<u64>)
    ensures
        r == object_get_u64(*v, key@),
{
    match member(v, key) {
        Some(JsonValue::UInt(n)) => Some(*n),
        _ => None,
    }
}

/// Appends member `key: v` to `ms`.
pub fn push_member<N>(ms: &mut Vec<(String, JsonValue<N>)>, key: &str, v: JsonValue<N>)
    ensures
        final(ms)@ == old(ms)@.push((final(ms)@.last().0, v)),
        final(ms)@.last().0@ == key@,
        members_of(final(ms)@) == members_of(old(ms)@).push((key@, json_of(v))),
{
    let ghost before = ms@;
    ms.push((owned(key), v));
    assert(members_of(ms@) =~= members_of(before).push((key@, json_of(v))));
}

/// The string `s` as a JSON value.
pub fn string_value<N>(s: &str) -> (r: JsonValue<N>)
    ensures
        r matches JsonValue::Str(x) && x@ == s@,
        json_of(r) == Json::<N>::Str(s@),
{
    JsonValue::Str(owned(s))
}

} // verus!
