//! Strict reading of JSON fields, by name in an object and by place in an
//! array: a field of the wrong kind is an error.
use vstd::prelude::*;

use crate::json;
use crate::json::{Json, JsonModel};
use crate::models;
use crate::models::field;
use crate::text;
use crate::text::{concat3, copy_text};

verus! {

broadcast use crate::text::lemma_texts_push;

pub open spec fn missing_field(name: Seq<char>) -> Seq<char> {
    "missing field `"@ + name + "`"@
}

pub open spec fn invalid_field(name: Seq<char>) -> Seq<char> {
    "invalid field `"@ + name + "`"@
}

fn missing(name: &str) -> (r: String)
    ensures
        r@ == missing_field(name@),
{
    concat3("missing field `", name, "`")
}

fn invalid(name: &str) -> (r: String)
    ensures
        r@ == invalid_field(name@),
{
    concat3("invalid field `", name, "`")
}

/// Why a value is refused that is no row of so many fields.
pub open spec fn not_a_row() -> Seq<char> {
    "invalid type or length"@
}

/// Refuses a value that is no row of `n` fields.
pub fn check_row(j: &Json, n: usize) -> (r: Result<(), String>)
    ensures
        match r {
            Ok(_) => models::is_row(j@, n as int),
            Err(e) => !models::is_row(j@, n as int) && e@ == not_a_row(),
        },
{
    if models::row(j, n) {
        Ok(())
    } else {
        Err(copy_text("invalid type or length"))
    }
}

/// A string that has to be there.
pub open spec fn text_of(j: JsonModel, name: Seq<char>, i: int) -> Result<Seq<char>, Seq<char>> {
    match models::row_field(j, name, i) {
        None => Err(missing_field(name)),
        Some(JsonModel::Text(s)) => Ok(s),
        Some(_) => Err(invalid_field(name)),
    }
}

pub fn read_text(j: &Json, name: &str, i: usize) -> (r: Result<String, String>)
    ensures
        match r {
            Ok(s) => text_of(j@, name@, i as int) == Ok::<Seq<char>, Seq<char>>(s@),
            Err(e) => text_of(j@, name@, i as int) == Err::<Seq<char>, Seq<char>>(e@),
        },
{
    match field(j, name, i) {
        None => Err(missing(name)),
        Some(Json::Text(s)) => Ok(copy_text(s.as_str())),
        Some(_) => Err(invalid(name)),
    }
}

/// A 64-bit integer.
pub open spec fn as_int(v: JsonModel) -> Option<int> {
    match v {
        JsonModel::Number(n) => n.int,
        _ => None,
    }
}

/// An integer that has to be there.
pub open spec fn int_of(j: JsonModel, name: Seq<char>, i: int) -> Result<int, Seq<char>> {
    match models::row_field(j, name, i) {
        None => Err(missing_field(name)),
        Some(v) => match as_int(v) {
            Some(n) => Ok(n),
            None => Err(invalid_field(name)),
        },
    }
}

fn int_value(v: &Json) -> (r: Option<i64>)
    ensures
        match r {
            Some(n) => as_int(v@) == Some(n as int),
            None => as_int(v@) is None,
        },
{
    match v {
        Json::Number(n) => n.int,
        _ => None,
    }
}

pub fn read_int(j: &Json, name: &str, i: usize) -> (r: Result<i64, String>)
    ensures
        match r {
            Ok(n) => int_of(j@, name@, i as int) == Ok::<int, Seq<char>>(n as int),
            Err(e) => int_of(j@, name@, i as int) == Err::<int, Seq<char>>(e@),
        },
{
    match field(j, name, i) {
        None => Err(missing(name)),
        Some(v) => match int_value(v) {
            Some(n) => Ok(n),
            None => Err(invalid(name)),
        },
    }
}

/// An integer, 0 when it is absent.
pub open spec fn int_or_zero_of(j: JsonModel, name: Seq<char>, i: int) -> Result<int, Seq<char>> {
    match models::row_field(j, name, i) {
        None => Ok(0),
        Some(v) => match as_int(v) {
            Some(n) => Ok(n),
            None => Err(invalid_field(name)),
        },
    }
}

pub fn read_int_or_zero(j: &Json, name: &str, i: usize) -> (r: Result<i64, String>)
    ensures
        match r {
            Ok(n) => int_or_zero_of(j@, name@, i as int) == Ok::<int, Seq<char>>(n as int),
            Err(e) => int_or_zero_of(j@, name@, i as int) == Err::<int, Seq<char>>(e@),
        },
{
    match field(j, name, i) {
        None => Ok(0),
        Some(v) => match int_value(v) {
            Some(n) => Ok(n),
            None => Err(invalid(name)),
        },
    }
}

/// An integer, none when it is absent or null.
pub open spec fn optional_int_of(j: JsonModel, name: Seq<char>, i: int) -> Result<
    Option<int>,
    Seq<char>,
> {
    match models::row_field(j, name, i) {
        None => Ok(None),
        Some(JsonModel::Null) => Ok(None),
        Some(v) => match as_int(v) {
            Some(n) => Ok(Some(n)),
            None => Err(invalid_field(name)),
        },
    }
}

pub open spec fn option_int(n: Option<i64>) -> Option<int> {
    match n {
        Some(n) => Some(n as int),
        None => None,
    }
}

pub fn read_optional_int(j: &Json, name: &str, i: usize) -> (r: Result<Option<i64>, String>)
    ensures
        match r {
            Ok(n) => optional_int_of(j@, name@, i as int) == Ok::<Option<int>, Seq<char>>(
                option_int(n),
            ),
            Err(e) => optional_int_of(j@, name@, i as int) == Err::<Option<int>, Seq<char>>(e@),
        },
{
    match field(j, name, i) {
        None => Ok(None),
        Some(Json::Null) => Ok(None),
        Some(v) => match int_value(v) {
            Some(n) => Ok(Some(n)),
            None => Err(invalid(name)),
        },
    }
}

/// A string, none when it is absent or null.
pub open spec fn optional_text_of(j: JsonModel, name: Seq<char>, i: int) -> Result<
    Option<Seq<char>>,
    Seq<char>,
> {
    match models::row_field(j, name, i) {
        None => Ok(None),
        Some(JsonModel::Null) => Ok(None),
        Some(JsonModel::Text(s)) => Ok(Some(s)),
        Some(_) => Err(invalid_field(name)),
    }
}

pub fn read_optional_text(j: &Json, name: &str, i: usize) -> (r: Result<Option<String>, String>)
    ensures
        match r {
            Ok(s) => optional_text_of(j@, name@, i as int) == Ok::<Option<Seq<char>>, Seq<char>>(
                text::option_text(s),
            ),
            Err(e) => optional_text_of(j@, name@, i as int) == Err::<Option<Seq<char>>, Seq<char>>(
                e@,
            ),
        },
{
    match field(j, name, i) {
        None => Ok(None),
        Some(Json::Null) => Ok(None),
        Some(Json::Text(s)) => Ok(Some(copy_text(s.as_str()))),
        Some(_) => Err(invalid(name)),
    }
}

/// The strings of a list; none when one of its values is no string.
pub open spec fn all_texts(a: Seq<JsonModel>) -> Option<Seq<Seq<char>>>
    decreases a.len(),
{
    if a.len() == 0 {
        Some(seq![])
    } else {
        match (all_texts(a.drop_last()), a.last()) {
            (Some(init), JsonModel::Text(s)) => Some(init.push(s)),
            _ => None,
        }
    }
}

/// A list of strings, none when it is absent or null.
pub open spec fn optional_texts_of(j: JsonModel, name: Seq<char>, i: int) -> Result<
    Option<Seq<Seq<char>>>,
    Seq<char>,
> {
    match models::row_field(j, name, i) {
        None => Ok(None),
        Some(JsonModel::Null) => Ok(None),
        Some(JsonModel::Array(a)) => match all_texts(a) {
            Some(l) => Ok(Some(l)),
            None => Err(invalid_field(name)),
        },
        Some(_) => Err(invalid_field(name)),
    }
}

pub open spec fn option_texts(l: Option<Vec<String>>) -> Option<Seq<Seq<char>>> {
    match l {
        Some(l) => Some(text::texts(l@)),
        None => None,
    }
}

proof fn lemma_all_texts_prefix(a: Seq<JsonModel>, k: int)
    requires
        0 <= k <= a.len(),
        all_texts(a.take(k)) is None,
    ensures
        all_texts(a) is None,
    decreases a.len() - k,
{
    if k < a.len() {
        assert(a.take(k + 1).drop_last() =~= a.take(k));
        lemma_all_texts_prefix(a, k + 1);
    } else {
        assert(a.take(k) =~= a);
    }
}

pub fn texts_of_list(a: &Vec<Json>) -> (r: Option<Vec<String>>)
    ensures
        option_texts(r) == all_texts(json::models(a@)),
{
    let mut out: Vec<String> = Vec::new();
    let ghost all = json::models(a@);
    let mut i: usize = 0;
    assert(all.take(0) =~= seq![]);
    assert(text::texts(out@) =~= seq![]);
    while i < a.len()
        invariant
            i <= a@.len(),
            all == json::models(a@),
            all_texts(all.take(i as int)) == Some(text::texts(out@)),
        decreases a@.len() - i,
    {
        assert(all.take(i + 1).drop_last() =~= all.take(i as int));
        assert(all.take(i + 1).last() == a@[i as int]@);
        match &a[i] {
            Json::Text(s) => {
                out.push(copy_text(s.as_str()));
            },
            _ => {
                proof {
                    lemma_all_texts_prefix(all, i + 1);
                }
                return None;
            },
        }
        i = i + 1;
    }
    assert(all.take(all.len() as int) =~= all);
    Some(out)
}

pub fn read_optional_texts(j: &Json, name: &str, i: usize) -> (r: Result<
    Option<Vec<String>>,
    String,
>)
    ensures
        match r {
            Ok(l) => optional_texts_of(j@, name@, i as int) == Ok::<
                Option<Seq<Seq<char>>>,
                Seq<char>,
            >(option_texts(l)),
            Err(e) => optional_texts_of(j@, name@, i as int) == Err::<
                Option<Seq<Seq<char>>>,
                Seq<char>,
            >(e@),
        },
{
    match field(j, name, i) {
        None => Ok(None),
        Some(Json::Null) => Ok(None),
        Some(Json::Array(a)) => {
            proof {
                json::lemma_array_model(*a);
            }
            match texts_of_list(a) {
                Some(l) => Ok(Some(l)),
                None => Err(invalid(name)),
            }
        },
        Some(_) => Err(invalid(name)),
    }
}

} // verus!
