//! A JSON value as plain data, as providers' answers are read.

use vstd::prelude::*;

verus! {

/// A JSON value. A number keeps its value when it is an unsigned 64-bit
/// integer.
#[derive(Debug, PartialEq, Eq)]
pub enum Json {
    Null,
    Bool(bool),
    Number(Option<u64>),
    Str(String),
    Array(Vec<Json>),
    Object(Vec<(String, Json)>),
}

/// The value of the first entry named `k`.
pub open spec fn entry_of(entries: Seq<(String, Json)>, k: Seq<char>) -> Option<Json>
    decreases entries.len(),
{
    if entries.len() == 0 {
        None
    } else if entries[0].0@ == k {
        Some(entries[0].1)
    } else {
        entry_of(entries.drop_first(), k)
    }
}

/// The member `k` of an object.
pub open spec fn member(j: Json, k: Seq<char>) -> Option<Json> {
    match j {
        Json::Object(entries) => entry_of(entries@, k),
        _ => None,
    }
}

/// The text of a string.
pub open spec fn text_of(j: Option<Json>) -> Option<Seq<char>> {
    match j {
        Some(Json::Str(s)) => Some(s@),
        _ => None,
    }
}

/// The items of an array.
pub open spec fn items_of(j: Option<Json>) -> Option<Seq<Json>> {
    match j {
        Some(Json::Array(v)) => Some(v@),
        _ => None,
    }
}

/// The value of an unsigned integer.
pub open spec fn u64_of(j: Option<Json>) -> Option<u64> {
    match j {
        Some(Json::Number(n)) => n,
        _ => None,
    }
}

impl Json {
    /// The member `key` of an object.
    pub fn get(&self, key: &str) -> (r: Option<&Json>)
        ensures
            r matches Some(v) ==> member(*self, key@) == Some(*v),
            r is None ==> member(*self, key@) is None,
    {
        match self {
            Json::Object(entries) => {
                let k = String::from_str(key);
                let mut i: usize = 0;
                assert(entries@.subrange(0, entries@.len() as int) =~= entries@);
                assert(member(*self, key@) == entry_of(entries@, key@));
                while i < entries.len()
                    invariant
                        i <= entries@.len(),
                        member(*self, key@) == entry_of(entries@, key@),
                        k@ == key@,
                        entry_of(entries@, key@) == entry_of(entries@.subrange(i as int, entries@.len() as int), key@),
                    decreases entries@.len() - i,
                {
                    assert(entries@.subrange(i as int, entries@.len() as int).drop_first() =~= entries@.subrange(i as int + 1, entries@.len() as int));
                    if entries[i].0 == k {
                        return Some(&entries[i].1);
                    }
                    i = i + 1;
                }
                None
            },
            _ => None,
        }
    }

    /// The item at `index` of an array.
    pub fn at(&self, index: usize) -> (r: Option<&Json>)
        ensures
            r matches Some(v) ==> (*self matches Json::Array(a) && index < a@.len() && a@[index as int] == *v),
            r is None ==> !(*self matches Json::Array(a) && index < a@.len()),
    {
        match self {
            Json::Array(items) => if index < items.len() {
                Some(&items[index])
            } else {
                None
            },
            _ => None,
        }
    }
}

/// The text of a string value.
pub fn as_str(j: Option<&Json>) -> (r: Option<&String>)
    ensures
        r matches Some(s) ==> text_of(match j { Some(v) => Some(*v), None => None }) == Some(s@),
        r is None ==> text_of(match j { Some(v) => Some(*v), None => None }) is None,
{
    match j {
        Some(Json::Str(s)) => Some(s),
        _ => None,
    }
}

/// The items of an array value.
pub fn as_array(j: Option<&Json>) -> (r: Option<&Vec<Json>>)
    ensures
        r matches Some(v) ==> items_of(match j { Some(x) => Some(*x), None => None }) == Some(v@),
        r is None ==> items_of(match j { Some(x) => Some(*x), None => None }) is None,
{
    match j {
        Some(Json::Array(v)) => Some(v),
        _ => None,
    }
}

/// The value of an unsigned integer.
pub fn as_u64(j: Option<&Json>) -> (r: Option<u64>)
    ensures
        r == u64_of(match j { Some(x) => Some(*x), None => None }),
{
    match j {
        Some(Json::Number(n)) => *n,
        _ => None,
    }
}

} // verus!
