//! A JSON document as plain data, and the trusted bridge that parses
//! text into it through serde_json. Everything after the parse —
//! field lookup, tolerant extraction — is verified code over this
//! model.

use vstd::prelude::*;

use crate::strutil::str_eq;

verus! {

/// serde_json's dynamic value, declared so the bridge can mention it.
#[verifier::external_type_specification]
#[verifier::external_body]
pub struct ExValue(serde_json::Value);

/// A parsed JSON document. Numbers that fit an `i64` are kept; any
/// other number becomes `Other`, which no extraction accepts.
#[derive(Debug)]
pub enum Json {
    Null,
    Bool(bool),
    Int(i64),
    Str(String),
    Arr(Vec<Json>),
    Obj(Vec<(String, Json)>),
    Other,
}

/// What parsing a text as JSON yields: a document for well-formed
/// text, nothing otherwise. A function of the text alone.
pub uninterp spec fn json_parse(s: Seq<char>) -> Option<Json>;

/// Converts serde_json's tree into the plain model, arm by arm.
#[verifier::external_body]
fn value_to_json(v: &serde_json::Value) -> Json {
    match v {
        serde_json::Value::Null => Json::Null,
        serde_json::Value::Bool(b) => Json::Bool(*b),
        serde_json::Value::Number(n) => match n.as_i64() {
            Some(i) => Json::Int(i),
            None => Json::Other,
        },
        serde_json::Value::String(s) => Json::Str(s.clone()),
        serde_json::Value::Array(a) => Json::Arr(a.iter().map(value_to_json).collect()),
        serde_json::Value::Object(m) => Json::Obj(
            m.iter().map(|(k, x)| (k.clone(), value_to_json(x))).collect(),
        ),
    }
}

/// Relies on serde_json::from_str: whether a text parses, and what it
/// holds, depend on the text alone.
#[verifier::external_body]
pub(crate) fn parse_json(s: &str) -> (r: Option<Json>)
    ensures
        r == json_parse(s@),
{
    serde_json::from_str::<serde_json::Value>(s).ok().map(|v| value_to_json(&v))
}

/// The first value bound to key `k` among an object's fields.
pub open spec fn obj_get(fields: Seq<(String, Json)>, k: Seq<char>) -> Option<Json>
    decreases fields.len(),
{
    if fields.len() == 0 {
        None
    } else if fields[0].0@ == k {
        Some(fields[0].1)
    } else {
        obj_get(fields.drop_first(), k)
    }
}

impl Json {
    /// The value under key `k`, when this document is an object that
    /// has it.
    pub open spec fn spec_get(&self, k: Seq<char>) -> Option<Json> {
        match self {
            Json::Obj(fields) => obj_get(fields@, k),
            _ => None,
        }
    }

    /// Looks key `k` up in an object document.
    pub fn get<'a>(&'a self, k: &str) -> (r: Option<&'a Json>)
        ensures
            match r {
                Some(j) => self.spec_get(k@) == Some(*j),
                None => self.spec_get(k@) is None,
            },
    {
        match self {
            Json::Obj(fields) => {
                let n = fields.len();
                let mut i: usize = 0;
                proof {
                    assert(fields@.skip(0) =~= fields@);
                }
                loop
                    invariant
                        n == fields.len(),
                        i <= n,
                        self.spec_get(k@) == obj_get(fields@, k@),
                        obj_get(fields@, k@) == obj_get(fields@.skip(i as int), k@),
                    decreases n - i,
                {
                    if i >= n {
                        return None;
                    }
                    proof {
                        assert(fields@.skip(i as int)[0] == fields@[i as int]);
                        assert(fields@.skip(i as int).drop_first() =~= fields@.skip(i + 1));
                    }
                    if str_eq(fields[i].0.as_str(), k) {
                        return Some(&fields[i].1);
                    }
                    i = i + 1;
                }
            },
            _ => None,
        }
    }
}

/// The view of an optional string.
pub open spec fn view_opt(o: Option<String>) -> Option<Seq<char>> {
    match o {
        Some(s) => Some(s@),
        None => None,
    }
}

/// The text under key `k`, when present and a string.
pub open spec fn str_field(v: Json, k: Seq<char>) -> Option<Seq<char>> {
    match v.spec_get(k) {
        Some(j) => match j {
            Json::Str(s) => Some(s@),
            _ => None,
        },
        _ => None,
    }
}

/// The text under key `k`, or the fallback when it is missing or not
/// a string.
pub open spec fn str_field_or(v: Json, k: Seq<char>, d: Seq<char>) -> Seq<char> {
    match str_field(v, k) {
        Some(s) => s,
        None => d,
    }
}

/// The integer under key `k`, when present and an integer.
pub open spec fn int_field(v: Json, k: Seq<char>) -> Option<i64> {
    match v.spec_get(k) {
        Some(j) => match j {
            Json::Int(i) => Some(i),
            _ => None,
        },
        _ => None,
    }
}

/// Reads the text under key `k`, with a fallback.
pub fn get_str_or(v: &Json, k: &str, d: &str) -> (r: String)
    ensures
        r@ == str_field_or(*v, k@, d@),
{
    match v.get(k) {
        Some(j) => match j {
            Json::Str(s) => s.clone(),
            _ => d.to_owned(),
        },
        None => d.to_owned(),
    }
}

/// Reads the text under key `k`, when it is there and a string.
pub fn get_str_opt(v: &Json, k: &str) -> (r: Option<String>)
    ensures
        view_opt(r) == str_field(*v, k@),
{
    match v.get(k) {
        Some(j) => match j {
            Json::Str(s) => Some(s.clone()),
            _ => None,
        },
        None => None,
    }
}

/// Reads the integer under key `k`, when it is there and an integer.
pub fn get_int_opt(v: &Json, k: &str) -> (r: Option<i64>)
    ensures
        r == int_field(*v, k@),
{
    match v.get(k) {
        Some(j) => match j {
            Json::Int(i) => Some(*i),
            _ => None,
        },
        None => None,
    }
}

} // verus!
