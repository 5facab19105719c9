//! JSON values.
use vstd::prelude::*;

use crate::numbers;
use crate::text;
use crate::text::{copy_text, text_eq};

verus! {

broadcast use crate::text::lemma_texts_push;

/// `serde_json`'s value: what its parser makes and its printers take.
#[verifier::external_type_specification]
#[verifier::external_body]
pub struct ExValue(serde_json::Value);

/// A JSON number: its value where it is an integer of 64 bits, signed or
/// unsigned, and its text.
#[derive(Debug, Clone, PartialEq, Eq)]
pub struct JsonNumber {
    pub int: Option<i64>,
    pub uint: Option<u64>,
    pub text: String,
}

/// A JSON value. The members of an object stand in the order of their names
/// when they come from the parser.
#[derive(Debug, PartialEq, Eq)]
pub enum Json {
    Null,
    Bool(bool),
    Number(JsonNumber),
    Text(String),
    Array(Vec<Json>),
    Object(Vec<(String, Json)>),
}

/// What a [`JsonNumber`] holds.
#[verifier::ext_equal]
pub struct NumberModel {
    pub int: Option<int>,
    pub uint: Option<int>,
    pub text: Seq<char>,
}

/// What a [`Json`] value holds.
#[verifier::ext_equal]
pub enum JsonModel {
    Null,
    Bool(bool),
    Number(NumberModel),
    Text(Seq<char>),
    Array(Seq<JsonModel>),
    Object(Seq<(Seq<char>, JsonModel)>),
}

impl View for JsonNumber {
    type V = NumberModel;

    open spec fn view(&self) -> NumberModel {
        NumberModel {
            int: match self.int {
                Some(n) => Some(n as int),
                None => None,
            },
            uint: match self.uint {
                Some(n) => Some(n as int),
                None => None,
            },
            text: self.text@,
        }
    }
}

pub open spec fn model(j: Json) -> JsonModel
    decreases j,
{
    match j {
        Json::Null => JsonModel::Null,
        Json::Bool(b) => JsonModel::Bool(b),
        Json::Number(n) => JsonModel::Number(n@),
        Json::Text(s) => JsonModel::Text(s@),
        Json::Array(a) => JsonModel::Array(
            Seq::new(
                a@.len(),
                |i: int|
                    if 0 <= i < a@.len() {
                        model(a@[i])
                    } else {
                        JsonModel::Null
                    },
            ),
        ),
        Json::Object(o) => JsonModel::Object(
            Seq::new(
                o@.len(),
                |i: int|
                    if 0 <= i < o@.len() {
                        (o@[i].0@, model(o@[i].1))
                    } else {
                        (seq![], JsonModel::Null)
                    },
            ),
        ),
    }
}

impl View for Json {
    type V = JsonModel;

    open spec fn view(&self) -> JsonModel {
        model(*self)
    }
}

// ---------------------------------------------------------------------
// Parsing and printing
// ---------------------------------------------------------------------

/// What `serde_json` parses a text to, or the text of the error that it
/// reports.
pub uninterp spec fn json_of_text(s: Seq<char>) -> Result<JsonModel, Seq<char>>;

/// What a `serde_json` value holds.
pub uninterp spec fn json_of_value(v: serde_json::Value) -> JsonModel;

/// What `serde_json` keeps of a value that is put together for it: the
/// members of an object by name, the last one where a name comes twice, and
/// numbers as it reads their text.
pub uninterp spec fn stored(j: JsonModel) -> JsonModel;

/// What `serde_json::Value`'s `Display` prints: the value on one line.
pub uninterp spec fn compact_text(j: JsonModel) -> Seq<char>;

/// What `serde_json::to_string_pretty` prints, empty where it fails.
pub uninterp spec fn pretty_text(j: JsonModel) -> Seq<char>;

/// `serde_json::from_str` into a `serde_json::Value`. The value, or the
/// failure, is a function of the text; it is only named here.
#[verifier::external_body]
fn value_from_text(s: &str) -> (r: Result<serde_json::Value, String>)
    ensures
        match r {
            Ok(v) => json_of_text(s@) == Ok::<JsonModel, Seq<char>>(json_of_value(v)),
            Err(e) => json_of_text(s@) == Err::<JsonModel, Seq<char>>(e@),
        },
{
    serde_json::from_str(s).map_err(|e: serde_json::Error| e.to_string())
}

/// Takes a `serde_json::Value` apart: each variant as the one of the same
/// kind, a number with what `Number::as_i64`, `Number::as_u64` and its
/// `Display` give. The outcome is only named here.
#[verifier::external_body]
fn json_from_value(v: &serde_json::Value) -> (r: Json)
    ensures
        r@ == json_of_value(*v),
{
    match v {
        serde_json::Value::Null => Json::Null,
        serde_json::Value::Bool(b) => Json::Bool(*b),
        serde_json::Value::Number(n) => Json::Number(
            JsonNumber { int: n.as_i64(), uint: n.as_u64(), text: n.to_string() },
        ),
        serde_json::Value::String(s) => Json::Text(s.clone()),
        serde_json::Value::Array(a) => Json::Array(a.iter().map(json_from_value).collect()),
        serde_json::Value::Object(o) => Json::Object(
            o.iter().map(|(k, x)| (k.clone(), json_from_value(x))).collect(),
        ),
    }
}

/// Builds the `serde_json::Value` of a JSON value: each variant as the one
/// of the same kind, a number as `serde_json` reads its text. The outcome is
/// only named here.
#[verifier::external_body]
fn value_from_json(j: &Json) -> (r: serde_json::Value)
    ensures
        json_of_value(r) == stored(j@),
{
    match j {
        Json::Null => serde_json::Value::Null,
        Json::Bool(b) => serde_json::Value::Bool(*b),
        Json::Number(n) => serde_json::from_str(&n.text).unwrap_or(serde_json::Value::Null),
        Json::Text(s) => serde_json::Value::String(s.clone()),
        Json::Array(a) => serde_json::Value::Array(a.iter().map(value_from_json).collect()),
        Json::Object(o) => serde_json::Value::Object(
            o.iter().map(|(k, x)| (k.clone(), value_from_json(x))).collect(),
        ),
    }
}

/// `Display` of `serde_json::Value`. What it prints is only named here.
#[verifier::external_body]
fn print_compact(v: &serde_json::Value) -> (r: String)
    ensures
        r@ == compact_text(json_of_value(*v)),
{
    v.to_string()
}

/// `serde_json::to_string_pretty`. What it prints is only named here.
#[verifier::external_body]
fn print_pretty(v: &serde_json::Value) -> (r: String)
    ensures
        r@ == pretty_text(json_of_value(*v)),
{
    serde_json::to_string_pretty(v).unwrap_or_default()
}

/// What an optional value holds.
pub open spec fn option_model(j: Option<Json>) -> Option<JsonModel> {
    match j {
        Some(v) => Some(v@),
        None => None,
    }
}

/// Parses a JSON text; the error is the parser's message. Of a member that an
/// object names twice the last value counts.
pub fn parse_json(s: &str) -> (r: Result<Json, String>)
    ensures
        match r {
            Ok(j) => json_of_text(s@) == Ok::<JsonModel, Seq<char>>(j@),
            Err(e) => json_of_text(s@) == Err::<JsonModel, Seq<char>>(e@),
        },
{
    match value_from_text(s) {
        Ok(v) => Ok(json_from_value(&v)),
        Err(e) => Err(e),
    }
}

/// A JSON value on one line.
pub fn to_compact(j: &Json) -> (r: String)
    ensures
        r@ == compact_text(stored(j@)),
{
    print_compact(&value_from_json(j))
}

/// A JSON value over several lines, indented.
pub fn to_pretty(j: &Json) -> (r: String)
    ensures
        r@ == pretty_text(stored(j@)),
{
    print_pretty(&value_from_json(j))
}

// ---------------------------------------------------------------------
// Building and reading
// ---------------------------------------------------------------------

/// The number of a signed integer.
pub open spec fn number_of(n: int) -> NumberModel {
    NumberModel {
        int: Some(n),
        uint: if n >= 0 {
            Some(n)
        } else {
            None
        },
        text: numbers::signed_decimal(n),
    }
}

/// A JSON number from an integer.
pub fn json_int(n: i64) -> (r: Json)
    ensures
        r@ == JsonModel::Number(number_of(n as int)),
{
    let uint: Option<u64> = if n >= 0 {
        Some(n as u64)
    } else {
        None
    };
    Json::Number(JsonNumber { int: Some(n), uint, text: numbers::signed_decimal_text(n) })
}

/// A JSON string.
pub fn json_text(s: &str) -> (r: Json)
    ensures
        r@ == JsonModel::Text(s@),
{
    Json::Text(copy_text(s))
}

/// What a list of values holds.
pub open spec fn models(v: Seq<Json>) -> Seq<JsonModel> {
    Seq::new(v.len(), |i: int| v[i]@)
}

/// What the members of an object hold.
pub open spec fn member_models(v: Seq<(String, Json)>) -> Seq<(Seq<char>, JsonModel)> {
    Seq::new(v.len(), |i: int| (v[i].0@, v[i].1@))
}

pub proof fn lemma_array_model(v: Vec<Json>)
    ensures
        Json::Array(v)@ == JsonModel::Array(models(v@)),
{
    assert(Json::Array(v)@->Array_0 =~= models(v@));
}

pub proof fn lemma_object_model(v: Vec<(String, Json)>)
    ensures
        Json::Object(v)@ == JsonModel::Object(member_models(v@)),
{
    assert(Json::Object(v)@->Object_0 =~= member_models(v@));
}

/// The first member of this name.
pub open spec fn member(o: Seq<(Seq<char>, JsonModel)>, name: Seq<char>) -> Option<JsonModel>
    decreases o.len(),
{
    if o.len() == 0 {
        None
    } else if o[0].0 == name {
        Some(o[0].1)
    } else {
        member(o.skip(1), name)
    }
}

/// The member of an object; none when the value is no object or lacks it.
pub open spec fn get(j: JsonModel, name: Seq<char>) -> Option<JsonModel> {
    match j {
        JsonModel::Object(o) => member(o, name),
        _ => None,
    }
}

/// What an optional reference holds.
pub open spec fn ref_model(j: Option<&Json>) -> Option<JsonModel> {
    match j {
        Some(v) => Some(v@),
        None => None,
    }
}

impl Json {
    /// The member of an object; none when the value is no object or lacks
    /// it.
    pub fn get(&self, name: &str) -> (r: Option<&Json>)
        ensures
            ref_model(r) == get(self@, name@),
    {
        match self {
            Json::Object(o) => {
                proof {
                    lemma_object_model(*o);
                }
                let ghost m = member_models(o@);
                let mut i: usize = 0;
                assert(m.skip(0) =~= m);
                while i < o.len()
                    invariant
                        i <= o@.len(),
                        m == member_models(o@),
                        get(self@, name@) == member(m, name@),
                        member(m, name@) == member(m.skip(i as int), name@),
                    decreases o@.len() - i,
                {
                    let ghost rest = m.skip(i as int);
                    assert(rest[0] == (o@[i as int].0@, o@[i as int].1@));
                    assert(rest.skip(1) =~= m.skip(i + 1));
                    if text_eq(o[i].0.as_str(), name) {
                        return Some(&o[i].1);
                    }
                    i = i + 1;
                }
                None
            },
            _ => None,
        }
    }
}

/// A copy of a JSON value.
pub fn copy_json(j: &Json) -> (r: Json)
    ensures
        r@ == j@,
    decreases j,
{
    match j {
        Json::Null => Json::Null,
        Json::Bool(b) => Json::Bool(*b),
        Json::Number(n) => {
            let t: String = copy_text(n.text.as_str());
            Json::Number(JsonNumber { int: n.int, uint: n.uint, text: t })
        },
        Json::Text(s) => Json::Text(copy_text(s.as_str())),
        Json::Array(a) => {
            let mut out: Vec<Json> = Vec::new();
            let mut i: usize = 0;
            while i < a.len()
                invariant
                    i <= a@.len(),
                    *j == Json::Array(*a),
                    models(out@) =~= models(a@).take(i as int),
                decreases a@.len() - i,
            {
                let ghost done = models(out@);
                assert(decreases_to!(*j => j->Array_0));
                assert(decreases_to!(a@ => a@[i as int]));
                let c: Json = copy_json(&a[i]);
                out.push(c);
                assert(models(out@) =~= done.push(a@[i as int]@));
                i = i + 1;
            }
            proof {
                lemma_array_model(out);
                lemma_array_model(*a);
                assert(models(out@) =~= models(a@));
            }
            Json::Array(out)
        },
        Json::Object(o) => {
            let mut out: Vec<(String, Json)> = Vec::new();
            let mut i: usize = 0;
            while i < o.len()
                invariant
                    i <= o@.len(),
                    *j == Json::Object(*o),
                    member_models(out@) =~= member_models(o@).take(i as int),
                decreases o@.len() - i,
            {
                let ghost done = member_models(out@);
                let k: String = copy_text(o[i].0.as_str());
                assert(decreases_to!(*j => j->Object_0));
                assert(decreases_to!(o@ => o@[i as int]));
                let c: Json = copy_json(&o[i].1);
                out.push((k, c));
                assert(member_models(out@) =~= done.push((o@[i as int].0@, o@[i as int].1@)));
                i = i + 1;
            }
            proof {
                lemma_object_model(out);
                lemma_object_model(*o);
                assert(member_models(out@) =~= member_models(o@));
            }
            Json::Object(out)
        },
    }
}

impl Clone for Json {
    fn clone(&self) -> (r: Json)
        ensures
            r@ == self@,
    {
        copy_json(self)
    }
}

/// A copy of a list of JSON values.
pub fn copy_jsons(v: &Vec<Json>) -> (r: Vec<Json>)
    ensures
        models(r@) == models(v@),
{
    let mut out: Vec<Json> = Vec::new();
    let mut i: usize = 0;
    while i < v.len()
        invariant
            i <= v@.len(),
            models(out@) =~= models(v@).take(i as int),
        decreases v@.len() - i,
    {
        let ghost done = models(out@);
        let c: Json = copy_json(&v[i]);
        out.push(c);
        assert(models(out@) =~= done.push(v@[i as int]@));
        i = i + 1;
    }
    assert(models(out@) =~= models(v@));
    out
}

} // verus!
