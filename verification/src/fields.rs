//! Properties and texts of imported elements.

use vstd::prelude::*;
use vstd::string::*;

use crate::engineering;
use crate::engineering::Field;
use crate::graph::{Value, ValueView};
use crate::text;

verus! {

/// The milliseconds since the epoch that an RFC 3339 time writes, if the text
/// is one.
pub uninterp spec fn spec_rfc3339_millis(value: Seq<char>) -> Option<i64>;

/// `chrono::DateTime::parse_from_rfc3339` and the time's `timestamp_millis`;
/// the result depends on the text alone.
#[verifier::external_body]
fn rfc3339_millis(value: &str) -> (r: Option<i64>)
    ensures
        r == spec_rfc3339_millis(value@),
{
    match chrono::DateTime::parse_from_rfc3339(value) {
        Ok(time) => Some(time.timestamp_millis()),
        Err(_) => None,
    }
}

/// A text as a property value.
pub fn string_value(value: &str) -> (r: Value)
    ensures
        r@ == ValueView::Text(value@),
{
    Value::String(value.to_owned())
}

/// A body as it is stored: trimmed, and cut at 32 KiB with an ellipsis behind
/// the cut.
pub open spec fn stored(value: Seq<char>) -> Seq<char> {
    text::truncated_utf8(text::trimmed(value), 32 * 1024)
}

/// A body as it is stored.
pub fn stored_text(value: &str) -> (r: String)
    ensures
        r@ == stored(value@),
{
    let trimmed = text::trim_text(value);
    text::truncate_utf8(trimmed.as_str(), 32 * 1024)
}

/// A body in one line, cut at 160 bytes with an ellipsis behind the cut.
pub open spec fn summary(value: Seq<char>) -> Seq<char> {
    text::truncated_utf8(text::trimmed(text::normalized(value)), 160)
}

/// Writes a body in one line, cut at 160 bytes with an ellipsis behind the
/// cut.
pub fn text_summary(value: &str) -> (r: String)
    ensures
        r@ == summary(value@),
{
    let line = text::normalize_whitespace(value);
    let trimmed = text::trim_text(line.as_str());
    text::truncate_utf8(trimmed.as_str(), 160)
}

/// The start of a commit's id, within eight bytes.
pub open spec fn short(oid: Seq<char>) -> Seq<char> {
    text::fitting_prefix(oid, 8)
}

/// The start of a commit's id.
pub fn short_oid(oid: &str) -> (r: String)
    ensures
        r@ == short(oid@),
{
    text::prefix_within(oid, 8)
}

/// The optional text, or nothing.
pub open spec fn or_empty(value: Option<String>) -> Seq<char> {
    match value {
        Some(v) => v@,
        None => ""@,
    }
}

/// The optional text, or nothing.
pub fn text_or_empty(value: &Option<String>) -> (r: String)
    ensures
        r@ == or_empty(*value),
{
    match value {
        Some(v) => v.clone(),
        None => "".to_owned(),
    }
}

/// The properties with an optional text, unless it is absent or empty.
pub open spec fn with_optional(
    fields: Seq<(Seq<char>, ValueView)>,
    key: Seq<char>,
    value: Option<Seq<char>>,
) -> Seq<(Seq<char>, ValueView)> {
    match value {
        None => fields,
        Some(v) => if v.len() == 0 {
            fields
        } else {
            fields.push((key, ValueView::Text(v)))
        },
    }
}

/// Adds an optional text, unless it is absent or empty.
pub fn push_optional_string(properties: &mut Vec<Field>, key: &'static str, value: &Option<String>)
    ensures
        engineering::fields_view(final(properties)@) == with_optional(
            engineering::fields_view(old(properties)@),
            key@,
            text::opt_view(*value),
        ),
{
    let ghost before = engineering::fields_view(properties@);
    match value {
        None => {},
        Some(v) => {
            if !v.as_str().is_empty() {
                properties.push((key, string_value(v.as_str())));
                assert(engineering::fields_view(properties@) =~= before.push(
                    (key@, ValueView::Text(v@)),
                ));
            }
        },
    }
}

/// The properties with a time: its text, and its milliseconds where the text
/// is a time.
pub open spec fn with_time(
    fields: Seq<(Seq<char>, ValueView)>,
    text_key: Seq<char>,
    millis_key: Seq<char>,
    value: Option<Seq<char>>,
) -> Seq<(Seq<char>, ValueView)> {
    match value {
        None => fields,
        Some(v) => time_fields(fields, text_key, millis_key, v, spec_rfc3339_millis(v)),
    }
}

/// The properties with the text of a time, and its milliseconds if it has
/// them.
pub open spec fn time_fields(
    fields: Seq<(Seq<char>, ValueView)>,
    text_key: Seq<char>,
    millis_key: Seq<char>,
    value: Seq<char>,
    millis: Option<i64>,
) -> Seq<(Seq<char>, ValueView)> {
    let told = fields.push((text_key, ValueView::Text(value)));
    match millis {
        Some(ms) => told.push((millis_key, ValueView::Int(ms))),
        None => told,
    }
}

/// Adds the text of a time, and its milliseconds if it has them.
pub fn push_time(
    properties: &mut Vec<Field>,
    text_key: &'static str,
    millis_key: &'static str,
    value: &str,
    millis: Option<i64>,
)
    ensures
        engineering::fields_view(final(properties)@) == time_fields(
            engineering::fields_view(old(properties)@),
            text_key@,
            millis_key@,
            value@,
            millis,
        ),
{
    let ghost before = engineering::fields_view(properties@);
    properties.push((text_key, string_value(value)));
    let ghost told = engineering::fields_view(properties@);
    assert(told =~= before.push((text_key@, ValueView::Text(value@))));
    match millis {
        Some(ms) => {
            properties.push((millis_key, Value::Int(ms)));
            assert(engineering::fields_view(properties@) =~= told.push(
                (millis_key@, ValueView::Int(ms)),
            ));
        },
        None => {},
    }
}

/// Adds a time: its text, and its milliseconds where the text is a time.
pub fn push_datetime(
    properties: &mut Vec<Field>,
    text_key: &'static str,
    millis_key: &'static str,
    value: Option<&str>,
)
    ensures
        engineering::fields_view(final(properties)@) == with_time(
            engineering::fields_view(old(properties)@),
            text_key@,
            millis_key@,
            text::opt_str_view(value),
        ),
{
    match value {
        None => {},
        Some(v) => {
            let millis = rfc3339_millis(v);
            push_time(properties, text_key, millis_key, v, millis);
        },
    }
}

/// The optional text as a slice.
pub fn as_slice(value: &Option<String>) -> (r: Option<&str>)
    ensures
        text::opt_str_view(r) == text::opt_view(*value),
{
    match value {
        Some(v) => Some(v.as_str()),
        None => None,
    }
}

/// The properties that a time alone makes.
pub fn datetime_properties(text_key: &'static str, millis_key: &'static str, value: Option<&str>) -> (r:
    Vec<Field>)
    ensures
        engineering::fields_view(r@) == with_time(
            Seq::empty(),
            text_key@,
            millis_key@,
            text::opt_str_view(value),
        ),
{
    let mut properties: Vec<Field> = Vec::new();
    assert(engineering::fields_view(properties@) =~= Seq::<(Seq<char>, ValueView)>::empty());
    push_datetime(&mut properties, text_key, millis_key, value);
    properties
}

/// The texts to embed for a titled element: its title, and with its body
/// where that is not blank.
pub open spec fn title_body(kind: Seq<char>, title: Seq<char>, body: Seq<char>) -> Seq<Seq<char>> {
    let first = kind + ": "@ + title;
    if text::is_blank(body) {
        seq![first]
    } else {
        seq![first, kind + " "@ + title + ". "@ + body]
    }
}

/// The texts to embed for a titled element.
pub fn title_body_embeddings(kind: &str, title: &str, body: &str) -> (r: Vec<String>)
    ensures
        text::views(r@) == title_body(kind@, title@, body@),
{
    let mut embeddings: Vec<String> = Vec::new();
    embeddings.push(text::concat3(kind, ": ", title));
    if !text::text_is_blank(body) {
        embeddings.push(text::concat5(kind, " ", title, ". ", body));
    }
    assert(text::views(embeddings@) =~= title_body(kind@, title@, body@));
    embeddings
}

} // verus!
