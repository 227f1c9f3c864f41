//! A minimal JSON tree the transcript scanner can reason about.
//!
//! Transcript records arrive as JSON lines.  Decoding is done by serde_json
//! behind one trusted boundary; the decoded tree is carried over into [`Json`],
//! a plain datatype whose strings are character vectors, so every lookup the
//! scanner performs on a record is ordinary verified code.  Null, booleans and
//! numbers collapse into [`Json::Prim`]: no caller reads them.

use vstd::prelude::*;
use crate::text::eq_str;

verus! {

/// One field of a JSON object.
pub struct JField {
    pub name: Vec<char>,
    pub value: Json,
}

/// A decoded JSON value, reduced to what the callers here read.
pub enum Json {
    /// Null, a boolean, or a number with no unsigned integral value —
    /// opaque to every caller.
    Prim,
    /// A number with an unsigned integral value.
    UInt(u64),
    Str(Vec<char>),
    Arr(Vec<Json>),
    Obj(Vec<JField>),
}

#[verifier::external_type_specification]
#[verifier::external_body]
pub struct ExSerdeValue(serde_json::Value);

/// What decoding one line yields: a function of the line text alone.
/// `None` stands for a line that is not valid JSON.
pub uninterp spec fn json_of(s: Seq<char>) -> Option<Json>;

/// Relies on serde_json::from_str: whether a line decodes, and to which value,
/// depends on the line text alone.  Malformed lines yield `None`.
#[verifier::external_body]
pub fn parse_json_line(line: &Vec<char>) -> (r: Option<Json>)
    ensures
        r == json_of(line@),
{
    let s: String = line.iter().collect();
    match serde_json::from_str::<serde_json::Value>(&s) {
        Ok(v) => Some(json_from_value(&v)),
        Err(_) => None,
    }
}

/// Conversion half of [`parse_json_line`]: serde_json's tree carried over
/// variant by variant, strings as character vectors, numbers through
/// `Number::as_u64`, object entries in the order serde_json's map yields
/// them.
#[verifier::external_body]
fn json_from_value(v: &serde_json::Value) -> Json {
    match v {
        serde_json::Value::Null => Json::Prim,
        serde_json::Value::Bool(_) => Json::Prim,
        serde_json::Value::Number(n) => match n.as_u64() {
            Some(u) => Json::UInt(u),
            None => Json::Prim,
        },
        serde_json::Value::String(s) => Json::Str(s.chars().collect()),
        serde_json::Value::Array(a) => Json::Arr(a.iter().map(json_from_value).collect()),
        serde_json::Value::Object(o) => Json::Obj(
            o.iter().map(
                |(k, x)| JField { name: k.chars().collect(), value: json_from_value(x) },
            ).collect(),
        ),
    }
}

/// The value of the first field named `key` in `fs`, if any.
pub open spec fn fields_get(fs: Seq<JField>, key: Seq<char>) -> Option<Json>
    decreases fs.len(),
{
    if fs.len() == 0 {
        None
    } else if fs.first().name@ == key {
        Some(fs.first().value)
    } else {
        fields_get(fs.drop_first(), key)
    }
}

/// Field lookup: the value under `key` when `j` is an object that has it.
pub open spec fn jget(j: Json, key: Seq<char>) -> Option<Json> {
    match j {
        Json::Obj(fs) => fields_get(fs@, key),
        _ => None,
    }
}

/// String field lookup.
pub open spec fn jget_str(j: Json, key: Seq<char>) -> Option<Seq<char>> {
    match jget(j, key) {
        Some(Json::Str(s)) => Some(s@),
        _ => None,
    }
}

/// Array field lookup.
pub open spec fn jget_arr(j: Json, key: Seq<char>) -> Option<Seq<Json>> {
    match jget(j, key) {
        Some(Json::Arr(a)) => Some(a@),
        _ => None,
    }
}

/// Unsigned-integer field lookup.
pub open spec fn jget_u64(j: Json, key: Seq<char>) -> Option<u64> {
    match jget(j, key) {
        Some(Json::UInt(u)) => Some(u),
        _ => None,
    }
}

impl Json {
    /// Look a field up by name.
    pub fn get<'a>(&'a self, key: &str) -> (r: Option<&'a Json>)
        ensures
            match r {
                Some(v) => jget(*self, key@) == Some(*v),
                None => jget(*self, key@) is None,
            },
    {
        match self {
            Json::Obj(fs) => {
                let n = fs.len();
                let mut i: usize = 0;
                proof {
                    assert(fs@.skip(0) =~= fs@);
                }
                while i < n
                    invariant
                        *self == Json::Obj(*fs),
                        i <= n == fs@.len(),
                        fields_get(fs@, key@) == fields_get(fs@.skip(i as int), key@),
                    decreases n - i,
                {
                    proof {
                        assert(fs@.skip(i as int).first() == fs@[i as int]);
                        assert(fs@.skip(i as int).drop_first() =~= fs@.skip(i + 1));
                    }
                    if eq_str(&fs[i].name, key) {
                        proof {
                            assert(fields_get(fs@.skip(i as int), key@) == Some(
                                fs@[i as int].value,
                            ));
                            assert(jget(*self, key@) == Some(fs@[i as int].value));
                        }
                        return Some(&fs[i].value);
                    }
                    i = i + 1;
                }
                proof {
                    assert(fs@.skip(n as int) =~= Seq::<JField>::empty());
                }
                None
            },
            _ => None,
        }
    }

    /// Look a string field up by name.
    pub fn get_str<'a>(&'a self, key: &str) -> (r: Option<&'a Vec<char>>)
        ensures
            match r {
                Some(v) => jget_str(*self, key@) == Some(v@),
                None => jget_str(*self, key@) is None,
            },
    {
        match self.get(key) {
            Some(Json::Str(s)) => Some(s),
            _ => None,
        }
    }

    /// Look an array field up by name.
    pub fn get_arr<'a>(&'a self, key: &str) -> (r: Option<&'a Vec<Json>>)
        ensures
            match r {
                Some(v) => jget_arr(*self, key@) == Some(v@),
                None => jget_arr(*self, key@) is None,
            },
    {
        match self.get(key) {
            Some(Json::Arr(a)) => Some(a),
            _ => None,
        }
    }

    /// Look an unsigned-integer field up by name.
    pub fn get_u64(&self, key: &str) -> (r: Option<u64>)
        ensures
            r == jget_u64(*self, key@),
    {
        match self.get(key) {
            Some(Json::UInt(u)) => Some(*u),
            _ => None,
        }
    }

    /// Whether a field of this name exists.
    pub fn has(&self, key: &str) -> (r: bool)
        ensures
            r == (jget(*self, key@) is Some),
    {
        match self.get(key) {
            Some(_) => true,
            None => false,
        }
    }
}

} // verus!
