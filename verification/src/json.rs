//! JSON: the values that properties are read from, and the variables that
//! requests carry.

use vstd::prelude::*;
use vstd::string::*;

use crate::graph::{FloatValue, Value, ValueView};
use crate::text;

verus! {

/// A value in a request's variables.
#[derive(Debug)]
pub enum Scalar {
    Null,
    Number(u64),
    Text(String),
}

/// The contents of a value in a request's variables.
pub enum ScalarView {
    Null,
    Number(u64),
    Text(Seq<char>),
}

impl View for Scalar {
    type V = ScalarView;

    open spec fn view(&self) -> ScalarView {
        match self {
            Scalar::Null => ScalarView::Null,
            Scalar::Number(n) => ScalarView::Number(*n),
            Scalar::Text(t) => ScalarView::Text(t@),
        }
    }
}

/// The names and contents of variables.
pub open spec fn members_view(members: Seq<(String, Scalar)>) -> Seq<(Seq<char>, ScalarView)> {
    members.map_values(|m: (String, Scalar)| (m.0@, m.1@))
}

/// The text of the object that the members make, inserted one after the
/// other.
pub uninterp spec fn spec_object_text(members: Seq<(Seq<char>, ScalarView)>) -> Seq<char>;

/// `serde_json::Value::to_string` of an object that is filled with
/// `serde_json::Map::insert`. The text depends on the members alone: the
/// object keeps them in the order of their keys.
#[verifier::external_body]
pub(crate) fn object_text(members: &Vec<(String, Scalar)>) -> (r: String)
    ensures
        r@ == spec_object_text(members_view(members@)),
{
    let mut object = serde_json::Map::new();
    for (key, value) in members {
        let json = match value {
            Scalar::Null => serde_json::Value::Null,
            Scalar::Number(n) => serde_json::Value::from(*n),
            Scalar::Text(t) => serde_json::Value::from(t.as_str()),
        };
        object.insert(key.clone(), json);
    }
    serde_json::Value::Object(object).to_string()
}

/// The variables that name a repository.
pub open spec fn repository_members(owner: Seq<char>, name: Seq<char>) -> Seq<
    (Seq<char>, ScalarView),
> {
    seq![("owner"@, ScalarView::Text(owner)), ("name"@, ScalarView::Text(name))]
}

/// The variables that ask for a page of a repository's items.
pub open spec fn page_members(
    owner: Seq<char>,
    name: Seq<char>,
    first: usize,
    after: Option<Seq<char>>,
) -> Seq<(Seq<char>, ScalarView)> {
    seq![
        ("owner"@, ScalarView::Text(owner)),
        ("name"@, ScalarView::Text(name)),
        ("first"@, ScalarView::Number(first as u64)),
        (
            "after"@,
            match after {
                Some(cursor) => ScalarView::Text(cursor),
                None => ScalarView::Null,
            },
        ),
    ]
}

/// The variables of a request for a repository.
pub fn repository_variables(owner: &str, name: &str) -> (r: Vec<(String, Scalar)>)
    ensures
        members_view(r@) == repository_members(owner@, name@),
{
    let mut members: Vec<(String, Scalar)> = Vec::new();
    assert(members_view(members@) =~= Seq::<(Seq<char>, ScalarView)>::empty());
    push_member(&mut members, "owner", Scalar::Text(owner.to_owned()));
    push_member(&mut members, "name", Scalar::Text(name.to_owned()));
    assert(members_view(members@) =~= repository_members(owner@, name@));
    members
}

fn push_member(members: &mut Vec<(String, Scalar)>, key: &str, value: Scalar)
    ensures
        members_view(final(members)@) == members_view(old(members)@).push((key@, value@)),
{
    let ghost before = members_view(members@);
    let ghost view = value@;
    members.push((key.to_owned(), value));
    assert(members_view(members@) =~= before.push((key@, view)));
}

/// The variables of a request for a page of a repository's items.
pub fn page_variables(owner: &str, name: &str, first: usize, after: &Option<String>) -> (r: Vec<
    (String, Scalar),
>)
    ensures
        members_view(r@) == page_members(owner@, name@, first, text::opt_view(*after)),
{
    let mut members = repository_variables(owner, name);
    push_member(&mut members, "first", Scalar::Number(first as u64));
    let cursor = match after {
        Some(cursor) => Scalar::Text(cursor.clone()),
        None => Scalar::Null,
    };
    push_member(&mut members, "after", cursor);
    assert(members_view(members@) =~= page_members(owner@, name@, first, text::opt_view(*after)));
    members
}

/// A JSON value, as far as a property can hold it.
#[derive(Debug)]
pub enum JsonValue {
    Null,
    Bool(bool),
    /// A number: as a 64-bit integer and as a floating-point value, where it
    /// is one.
    Number(Option<i64>, Option<FloatValue>),
    String(String),
    Array,
    Object,
}

/// The contents of a JSON value.
pub enum JsonView {
    Null,
    Bool(bool),
    Number(Option<i64>, Option<(u64, Seq<char>, Seq<char>)>),
    Text(Seq<char>),
    Array,
    Object,
}

/// The contents of a floating-point value.
pub open spec fn float_view(value: Option<FloatValue>) -> Option<(u64, Seq<char>, Seq<char>)> {
    match value {
        Some(f) => Some((f.bits, f.shortest@, f.fixed@)),
        None => None,
    }
}

impl View for JsonValue {
    type V = JsonView;

    open spec fn view(&self) -> JsonView {
        match self {
            JsonValue::Null => JsonView::Null,
            JsonValue::Bool(b) => JsonView::Bool(*b),
            JsonValue::Number(whole, float) => JsonView::Number(*whole, float_view(*float)),
            JsonValue::String(s) => JsonView::Text(s@),
            JsonValue::Array => JsonView::Array,
            JsonValue::Object => JsonView::Object,
        }
    }
}

/// The JSON value that a text writes, or why it writes none.
pub uninterp spec fn spec_json(encoded: Seq<char>) -> Result<JsonView, Seq<char>>;

/// `serde_json::from_str` into a JSON value, its numbers by `as_i64` and
/// `as_f64`; the result, or the text of the error, depends on the text alone.
/// Such a number is compared and stored, not shown, and has no fixed form.
#[verifier::external_body]
pub(crate) fn parse_json(encoded: &str) -> (r: Result<JsonValue, String>)
    ensures
        match r {
            Ok(value) => spec_json(encoded@) == Ok::<JsonView, Seq<char>>(value@),
            Err(message) => spec_json(encoded@) == Err::<JsonView, Seq<char>>(message@),
        },
{
    match serde_json::from_str(encoded) {
        Err(error) => Err(error.to_string()),
        Ok(serde_json::Value::Null) => Ok(JsonValue::Null),
        Ok(serde_json::Value::Bool(b)) => Ok(JsonValue::Bool(b)),
        Ok(serde_json::Value::Number(n)) => Ok(JsonValue::Number(n.as_i64(), n.as_f64().map(
            |v| FloatValue { bits: v.to_bits(), shortest: v.to_string(), fixed: String::new() },
        ))),
        Ok(serde_json::Value::String(s)) => Ok(JsonValue::String(s)),
        Ok(serde_json::Value::Array(_)) => Ok(JsonValue::Array),
        Ok(serde_json::Value::Object(_)) => Ok(JsonValue::Object),
    }
}

/// What a JSON value is as a property: itself where it is a scalar, and a
/// number by its integer before its floating-point value.
pub open spec fn scalar_of(value: JsonView, range: Seq<char>, shape: Seq<char>) -> Result<
    ValueView,
    Seq<char>,
> {
    match value {
        JsonView::Null => Ok(ValueView::Null),
        JsonView::Bool(b) => Ok(ValueView::Bool(b)),
        JsonView::Number(Some(n), _) => Ok(ValueView::Int(n)),
        JsonView::Number(None, Some(f)) => Ok(ValueView::Float(f.0, f.1, f.2)),
        JsonView::Number(None, None) => Err(range),
        JsonView::Text(s) => Ok(ValueView::Text(s)),
        JsonView::Array => Err(shape),
        JsonView::Object => Err(shape),
    }
}

/// The contents of a property value, or the message in its place.
pub open spec fn value_result(r: Result<Value, String>) -> Result<ValueView, Seq<char>> {
    match r {
        Ok(value) => Ok(value@),
        Err(message) => Err(message@),
    }
}

/// Makes a property of a JSON value.
pub fn scalar_value(value: JsonValue, range: &str, shape: &str) -> (r: Result<Value, String>)
    ensures
        value_result(r) == scalar_of(value@, range@, shape@),
{
    match value {
        JsonValue::Null => Ok(Value::Null),
        JsonValue::Bool(b) => Ok(Value::Bool(b)),
        JsonValue::Number(whole, float) => match whole {
            Some(n) => Ok(Value::Int(n)),
            None => match float {
                Some(f) => Ok(Value::Float(f)),
                None => Err(range.to_owned()),
            },
        },
        JsonValue::String(s) => Ok(Value::String(s)),
        JsonValue::Array => Err(shape.to_owned()),
        JsonValue::Object => Err(shape.to_owned()),
    }
}

/// A copy of a JSON value.
pub fn copy_json(value: &JsonValue) -> (r: JsonValue)
    ensures
        r@ == value@,
{
    match value {
        JsonValue::Null => JsonValue::Null,
        JsonValue::Bool(b) => JsonValue::Bool(*b),
        JsonValue::Number(whole, float) => {
            let copied = match float {
                Some(f) => Some(
                    FloatValue {
                        bits: f.bits,
                        shortest: f.shortest.clone(),
                        fixed: f.fixed.clone(),
                    },
                ),
                None => None,
            };
            JsonValue::Number(*whole, copied)
        },
        JsonValue::String(s) => JsonValue::String(s.clone()),
        JsonValue::Array => JsonValue::Array,
        JsonValue::Object => JsonValue::Object,
    }
}

/// The value that a JSON scalar on the command line stands for.
pub open spec fn scalar_argument(parsed: Result<JsonView, Seq<char>>) -> Result<
    ValueView,
    Seq<char>,
> {
    match parsed {
        Err(message) => Err(message),
        Ok(value) => scalar_of(
            value,
            "numeric property value is outside the supported range"@,
            "property benchmark value must be a JSON scalar"@,
        ),
    }
}

/// Takes a parsed JSON text as a scalar.
pub fn take_json_scalar(parsed: Result<JsonValue, String>) -> (r: Result<Value, String>)
    ensures
        value_result(r) == scalar_argument(
            match parsed {
                Ok(value) => Ok(value@),
                Err(message) => Err(message@),
            },
        ),
{
    match parsed {
        Err(message) => Err(message),
        Ok(value) => scalar_value(
            value,
            "numeric property value is outside the supported range",
            "property benchmark value must be a JSON scalar",
        ),
    }
}

/// Reads a JSON scalar.
pub fn parse_json_scalar(encoded: &str) -> (r: Result<Value, String>)
    ensures
        value_result(r) == scalar_argument(spec_json(encoded@)),
{
    take_json_scalar(parse_json(encoded))
}

} // verus!
