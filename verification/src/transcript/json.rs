//! A JSON value as a record carries it: the parts whose shape varies per
//! tool are kept as a tree and read by key.
use vstd::prelude::*;
use crate::terminal::prompt::{all_digits, digits_value, is_digit, lemma_digits_grow};
use crate::text::{chars_of, same_chars};

verus! {

/// A JSON value. A number is kept as the text it was written as, so that no
/// figure is rounded on the way in.
#[derive(Debug)]
pub enum Json {
    Null,
    Bool(bool),
    Number(String),
    String(String),
    Array(Vec<Json>),
    Object(Vec<(String, Json)>),
}

/// The value under the first field named `key`, from field `i` on.
pub open spec fn field_from(fields: Seq<(String, Json)>, key: Seq<char>, i: int) -> Option<Json>
    decreases fields.len() - i,
{
    if i < 0 || i >= fields.len() {
        None
    } else if fields[i].0@ == key {
        Some(fields[i].1)
    } else {
        field_from(fields, key, i + 1)
    }
}

/// The value under `key` when `j` is an object that has one.
pub open spec fn json_get(j: Json, key: Seq<char>) -> Option<Json> {
    match j {
        Json::Object(fields) => field_from(fields@, key, 0),
        _ => None,
    }
}

/// The text of a string value.
pub open spec fn json_str(j: Json) -> Option<Seq<char>> {
    match j {
        Json::String(s) => Some(s@),
        _ => None,
    }
}

/// The text under `key`, when `j` has a string there.
pub open spec fn str_field(j: Json, key: Seq<char>) -> Option<Seq<char>> {
    match json_get(j, key) {
        Some(v) => json_str(v),
        None => None,
    }
}

/// The items of an array value.
pub open spec fn json_array(j: Json) -> Option<Seq<Json>> {
    match j {
        Json::Array(items) => Some(items@),
        _ => None,
    }
}

/// A boolean value.
pub open spec fn json_bool(j: Json) -> Option<bool> {
    match j {
        Json::Bool(b) => Some(b),
        _ => None,
    }
}

/// A number that is a whole count fitting a `u64`, as `as_u64` reads it:
/// written with digits alone.
pub open spec fn json_u64(j: Json) -> Option<u64> {
    match j {
        Json::Number(t) => if t@.len() > 0 && all_digits(t@) && digits_value(t@) <= u64::MAX {
            Some(digits_value(t@) as u64)
        } else {
            None
        },
        _ => None,
    }
}

impl Json {
    /// The value under `key`, when this is an object that has one.
    pub fn get(&self, key: &str) -> (v: Option<&Json>)
        ensures
            match v {
                Some(found) => json_get(*self, key@) == Some(*found),
                None => json_get(*self, key@) is None,
            },
    {
        match self {
            Json::Object(fields) => {
                let wanted = chars_of(key);
                let mut i: usize = 0;
                while i < fields.len()
                    invariant
                        i <= fields@.len(),
                        wanted@ == key@,
                        json_get(*self, key@) == field_from(fields@, key@, 0),
                        field_from(fields@, key@, i as int) == field_from(fields@, key@, 0),
                    decreases fields@.len() - i,
                {
                    let name = chars_of(fields[i].0.as_str());
                    if same_chars(name.as_slice(), wanted.as_slice()) {
                        proof {
                            assert(fields@[i as int].0@ == key@);
                        }
                        return Some(&fields[i].1);
                    }
                    i = i + 1;
                }
                None
            },
            _ => None,
        }
    }

    /// The items, when this is an array.
    pub fn as_array(&self) -> (items: Option<&Vec<Json>>)
        ensures
            match items {
                Some(v) => json_array(*self) == Some(v@),
                None => json_array(*self) is None,
            },
    {
        match self {
            Json::Array(items) => Some(items),
            _ => None,
        }
    }

    /// The value, when this is a boolean.
    pub fn as_bool(&self) -> (b: Option<bool>)
        ensures
            b == json_bool(*self),
    {
        match self {
            Json::Bool(b) => Some(*b),
            _ => None,
        }
    }

    /// The count, when this is a whole number fitting a `u64`.
    pub fn as_u64(&self) -> (n: Option<u64>)
        ensures
            n == json_u64(*self),
    {
        match self {
            Json::Number(t) => {
                let digits = chars_of(t.as_str());
                if digits.len() == 0 {
                    return None;
                }
                let mut value: u64 = 0;
                let mut i: usize = 0;
                while i < digits.len()
                    invariant
                        i <= digits@.len(),
                        digits@ == t@,
                        *self == Json::Number(*t),
                        forall|j: int| 0 <= j < i ==> is_digit(#[trigger] digits@[j]),
                        value as nat == digits_value(digits@.take(i as int)),
                    decreases digits@.len() - i,
                {
                    let c = digits[i];
                    if !('0' <= c && c <= '9') {
                        proof {
                            assert(!is_digit(digits@[i as int]));
                            assert(!all_digits(digits@));
                        }
                        return None;
                    }
                    let d = (c as u32 - '0' as u32) as u64;
                    proof {
                        assert(digits@.take(i + 1).drop_last() =~= digits@.take(i as int));
                        assert(digits@.take(i + 1).last() == c);
                    }
                    if value > (u64::MAX - d) / 10 {
                        proof {
                            assert(value * 10 + d > u64::MAX) by (nonlinear_arith)
                                requires
                                    value > (u64::MAX - d) / 10,
                                    d <= 9;
                            assert(digits_value(digits@.take(i + 1)) == digits_value(digits@.take(i as int)) * 10 + d);
                            if all_digits(digits@) {
                                lemma_digits_grow(digits@, i + 1);
                            }
                        }
                        return None;
                    }
                    proof {
                        assert(value * 10 + d <= u64::MAX) by (nonlinear_arith)
                            requires
                                value <= (u64::MAX - d) / 10,
                                d <= 9;
                    }
                    value = value * 10 + d;
                    proof {
                        assert(digits_value(digits@.take(i + 1)) == digits_value(digits@.take(i as int)) * 10 + d);
                    }
                    i = i + 1;
                }
                proof {
                    assert(digits@.take(i as int) =~= digits@);
                }
                Some(value)
            },
            _ => None,
        }
    }

    /// The text, when this is a string.
    pub fn as_str(&self) -> (s: Option<&str>)
        ensures
            match s {
                Some(t) => json_str(*self) == Some(t@),
                None => json_str(*self) is None,
            },
    {
        match self {
            Json::String(s) => Some(s.as_str()),
            _ => None,
        }
    }
}

} // verus!
