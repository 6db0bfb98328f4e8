//! Reading a command line: what is asked for, with every argument read and
//! checked before anything is done.

use vstd::prelude::*;
use vstd::string::*;

use crate::command_table;
use crate::command_table::{command_shape, command_usages, Param};
use crate::digits;
use crate::graph::{Direction, FloatValue, Value, ValueView};
use crate::json;
use crate::json::parse_json_scalar;
use crate::text;
use crate::text::{concat2, concat3, concat4, concat5};

verus! {

/// How vectors are stored.
#[derive(Clone, Copy, Debug, PartialEq, Eq, Structural)]
pub enum VectorEncoding {
    F16,
    F32,
}

/// Which elements are meant.
#[derive(Clone, Copy, Debug, PartialEq, Eq, Structural)]
pub enum VectorTarget {
    Nodes,
    Edges,
    Both,
}

/// An argument, with the floating-point number that it writes or why it
/// writes none.
#[derive(Debug)]
pub struct Argument {
    pub text: String,
    pub float: Result<FloatValue, String>,
}

/// The contents of an argument.
pub struct ArgumentView {
    pub text: Seq<char>,
    pub float: Result<(u64, Seq<char>, Seq<char>), Seq<char>>,
}

impl View for Argument {
    type V = ArgumentView;

    open spec fn view(&self) -> ArgumentView {
        ArgumentView {
            text: self.text@,
            float: match self.float {
                Ok(f) => Ok((f.bits, f.shortest@, f.fixed@)),
                Err(e) => Err(e@),
            },
        }
    }
}

/// A bound of a numeric range.
#[derive(Debug)]
pub enum NumericBound {
    Unbounded,
    Int(i64),
    Float(FloatValue),
}

/// What a parameter has read.
#[derive(Debug)]
pub enum ArgValue {
    Missing,
    Text(String),
    Number(usize),
    Id(u64),
    Float(FloatValue),
    Encoding(VectorEncoding),
    Heading(Direction),
    Target(VectorTarget),
    Flag(bool),
    Scalar(Value),
    Bound(NumericBound),
    Facets(Vec<String>),
}

/// The contents of what a parameter has read.
pub enum ArgView {
    Missing,
    Text(Seq<char>),
    Number(usize),
    Id(u64),
    Float((u64, Seq<char>, Seq<char>)),
    Encoding(VectorEncoding),
    Heading(Direction),
    Target(VectorTarget),
    Flag(bool),
    Scalar(ValueView),
    Unbounded,
    IntBound(i64),
    FloatBound((u64, Seq<char>, Seq<char>)),
    Facets(Seq<Seq<char>>),
}

/// The contents of a floating-point number.
pub open spec fn float_parts(f: FloatValue) -> (u64, Seq<char>, Seq<char>) {
    (f.bits, f.shortest@, f.fixed@)
}

impl View for ArgValue {
    type V = ArgView;

    open spec fn view(&self) -> ArgView {
        match self {
            ArgValue::Missing => ArgView::Missing,
            ArgValue::Text(s) => ArgView::Text(s@),
            ArgValue::Number(n) => ArgView::Number(*n),
            ArgValue::Id(n) => ArgView::Id(*n),
            ArgValue::Float(f) => ArgView::Float(float_parts(*f)),
            ArgValue::Encoding(e) => ArgView::Encoding(*e),
            ArgValue::Heading(d) => ArgView::Heading(*d),
            ArgValue::Target(t) => ArgView::Target(*t),
            ArgValue::Flag(b) => ArgView::Flag(*b),
            ArgValue::Scalar(v) => ArgView::Scalar(v@),
            ArgValue::Bound(NumericBound::Unbounded) => ArgView::Unbounded,
            ArgValue::Bound(NumericBound::Int(n)) => ArgView::IntBound(*n),
            ArgValue::Bound(NumericBound::Float(f)) => ArgView::FloatBound(float_parts(*f)),
            ArgValue::Facets(texts) => ArgView::Facets(text::views(texts@)),
        }
    }
}

/// The contents of what parameters have read.
pub open spec fn values_view(values: Seq<ArgValue>) -> Seq<ArgView> {
    values.map_values(|v: ArgValue| v@)
}

/// The contents of what a parameter has read, or the message in its place.
pub open spec fn read_result(r: Result<ArgValue, String>) -> Result<ArgView, Seq<char>> {
    match r {
        Ok(value) => Ok(value@),
        Err(message) => Err(message@),
    }
}

/// The pieces of a text between `||`, of which the first starts at `from` and
/// does not end before `at`.
pub open spec fn between_bars(s: Seq<char>, from: int, at: int) -> Seq<Seq<char>>
    decreases s.len() - at,
{
    if at + 1 >= s.len() {
        seq![s.subrange(from, s.len() as int)]
    } else if s[at] == '|' && s[at + 1] == '|' {
        seq![s.subrange(from, at)] + between_bars(s, at + 2, at + 2)
    } else {
        between_bars(s, from, at + 1)
    }
}

/// The pieces without the whitespace around them, empty ones left out.
pub open spec fn trimmed_pieces(pieces: Seq<Seq<char>>) -> Seq<Seq<char>>
    decreases pieces.len(),
{
    if pieces.len() == 0 {
        Seq::empty()
    } else {
        let before = trimmed_pieces(pieces.drop_last());
        let last = text::trimmed(pieces.last());
        if last.len() == 0 {
            before
        } else {
            before.push(last)
        }
    }
}

/// The facets of a query.
pub open spec fn facets_of(s: Seq<char>) -> Seq<Seq<char>> {
    trimmed_pieces(between_bars(s, 0, 0))
}

fn split_bars(s: &str) -> (r: Vec<String>)
    ensures
        text::views(r@) == between_bars(s@, 0, 0),
{
    let chars = text::chars_of(s);
    let length: usize = chars.len();
    let mut out: Vec<String> = Vec::new();
    let mut from: usize = 0;
    let mut at: usize = 0;
    assert(text::views(out@) + between_bars(s@, 0, 0) =~= between_bars(s@, 0, 0));
    while length >= 2 && at < length - 1
        invariant
            chars@ == s@,
            length == s@.len(),
            from <= at <= length,
            text::views(out@) + between_bars(s@, from as int, at as int) == between_bars(s@, 0, 0),
        decreases length - at,
    {
        if chars[at] == '|' && chars[at + 1] == '|' {
            let ghost before = text::views(out@);
            let piece = text::string_of(&chars, from, at);
            let ghost view = piece@;
            out.push(piece);
            proof {
                assert(text::views(out@) =~= before.push(view));
                let rest = between_bars(s@, at + 2, at + 2);
                assert(before.push(view) + rest =~= before + (seq![view] + rest));
            }
            from = at + 2;
            at = at + 2;
        } else {
            at = at + 1;
        }
    }
    let ghost before = text::views(out@);
    let piece = text::string_of(&chars, from, length);
    let ghost view = piece@;
    out.push(piece);
    assert(text::views(out@) =~= before.push(view));
    assert(before.push(view) =~= before + seq![view]);
    out
}

/// The facets of a query: the texts between `||`, without the whitespace
/// around them, empty ones left out.
pub fn split_facets(s: &str) -> (r: Vec<String>)
    ensures
        text::views(r@) == facets_of(s@),
{
    let pieces = split_bars(s);
    let ghost all = text::views(pieces@);
    let mut out: Vec<String> = Vec::new();
    let mut i: usize = 0;
    assert(all.take(0) =~= Seq::<Seq<char>>::empty());
    assert(text::views(out@) =~= trimmed_pieces(all.take(0)));
    while i < pieces.len()
        invariant
            i <= pieces.len(),
            all == text::views(pieces@),
            text::views(out@) == trimmed_pieces(all.take(i as int)),
        decreases pieces.len() - i,
    {
        proof {
            assert(all.take(i + 1).drop_last() =~= all.take(i as int));
            assert(all.take(i + 1).last() == pieces@[i as int]@);
        }
        let piece = text::trim_text(pieces[i].as_str());
        if !piece.as_str().is_empty() {
            let ghost before = text::views(out@);
            let ghost view = piece@;
            out.push(piece);
            assert(text::views(out@) =~= before.push(view));
        }
        i = i + 1;
    }
    assert(all.take(all.len() as int) =~= all);
    out
}

/// Whether the bits are those of a not-a-number in double precision.
pub open spec fn double_nan(bits: u64) -> bool {
    (bits / 0x10_0000_0000_0000) % 2048 == 2047 && bits % 0x10_0000_0000_0000 != 0
}

fn is_double_nan(bits: u64) -> (r: bool)
    ensures
        r == double_nan(bits),
{
    (bits / 0x10_0000_0000_0000) % 2048 == 2047 && bits % 0x10_0000_0000_0000 != 0
}

/// What is said when an argument that must be there is not.
pub open spec fn missing_text(description: Seq<char>) -> Seq<char> {
    "missing "@ + description
}

/// The size that an argument writes, where there is one.
pub open spec fn optional_size(arg: Option<ArgumentView>, description: Seq<char>) -> Result<
    Option<usize>,
    Seq<char>,
> {
    match arg {
        None => Ok(None),
        Some(a) => match digits::usize_value(a.text) {
            Some(n) => Ok(Some(n)),
            None => Err(
                "invalid "@ + description + " "@ + text::spec_quoted(a.text) + ": "@
                    + digits::usize_error(a.text),
            ),
        },
    }
}

/// The direction that an argument names.
pub open spec fn heading_of(arg: Option<ArgumentView>, default: Direction) -> Result<
    Direction,
    Seq<char>,
> {
    match arg {
        None => Ok(default),
        Some(a) => if a.text == "both"@ {
            Ok(Direction::Both)
        } else if a.text == "out"@ {
            Ok(Direction::Outgoing)
        } else if a.text == "in"@ {
            Ok(Direction::Incoming)
        } else {
            Err("unknown direction "@ + a.text)
        },
    }
}

/// The elements that a text names.
pub open spec fn target_of(value: Option<Seq<char>>) -> Result<VectorTarget, Seq<char>> {
    match value {
        None => Ok(VectorTarget::Both),
        Some(s) => if s == "both"@ {
            Ok(VectorTarget::Both)
        } else if s == "nodes"@ {
            Ok(VectorTarget::Nodes)
        } else if s == "edges"@ {
            Ok(VectorTarget::Edges)
        } else {
            Err("unknown vector target "@ + text::spec_quoted(s))
        },
    }
}

/// The encoding that an argument names.
pub open spec fn encoding_of(arg: Option<ArgumentView>) -> Result<VectorEncoding, Seq<char>> {
    match arg {
        None => Ok(VectorEncoding::F16),
        Some(a) => if a.text == "f16"@ {
            Ok(VectorEncoding::F16)
        } else if a.text == "f32"@ {
            Ok(VectorEncoding::F32)
        } else {
            Err("unknown vector encoding "@ + text::spec_quoted(a.text))
        },
    }
}

/// The bound that an argument writes; `-` is no bound, whatever the type.
pub open spec fn bound_of(a: ArgumentView, numeric_type: Seq<char>) -> Result<ArgView, Seq<char>> {
    if a.text == "-"@ {
        Ok(ArgView::Unbounded)
    } else if numeric_type == "int"@ {
        match digits::i64_value(a.text) {
            Some(n) => Ok(ArgView::IntBound(n)),
            None => Err(digits::i64_error(a.text)),
        }
    } else if numeric_type == "float"@ {
        match a.float {
            Ok(f) => Ok(ArgView::FloatBound(f)),
            Err(e) => Err(e),
        }
    } else {
        Err("unknown numeric type "@ + text::spec_quoted(numeric_type))
    }
}

/// The text that an earlier parameter has read.
pub open spec fn text_at(values: Seq<ArgView>, i: int) -> Seq<char> {
    if 0 <= i < values.len() {
        match values[i] {
            ArgView::Text(s) => s,
            _ => Seq::empty(),
        }
    } else {
        Seq::empty()
    }
}

/// What a parameter reads from its argument, given the environment's embedder
/// and what was read before.
pub open spec fn reads(
    param: Param,
    arg: Option<ArgumentView>,
    embedder: Option<Seq<char>>,
    before: Seq<ArgView>,
) -> Result<ArgView, Seq<char>> {
    match param {
        Param::Required(description) => match arg {
            None => Err(missing_text(description@)),
            Some(a) => Ok(ArgView::Text(a.text)),
        },
        Param::RequiredId(description) => match arg {
            None => Err(missing_text(description@)),
            Some(a) => match digits::u64_value(a.text) {
                Some(n) => Ok(ArgView::Id(n)),
                None => Err(digits::u64_error(a.text)),
            },
        },
        Param::RequiredSize(description) => match arg {
            None => Err(missing_text(description@)),
            Some(a) => match digits::usize_value(a.text) {
                Some(n) => Ok(ArgView::Number(n)),
                None => Err(digits::usize_error(a.text)),
            },
        },
        Param::RequiredFloat(description) => match arg {
            None => Err(missing_text(description@)),
            Some(a) => match a.float {
                Ok(f) => Ok(ArgView::Float(f)),
                Err(e) => Err(e),
            },
        },
        Param::Count(description, default, zero) => match optional_size(arg, description@) {
            Err(e) => Err(e),
            Ok(size) => {
                let n = match size {
                    Some(n) => n,
                    None => default,
                };
                match zero {
                    Some(refusal) if n == 0 => Err(refusal@),
                    _ => Ok(ArgView::Number(n)),
                }
            },
        },
        Param::Maybe(description, zero) => match optional_size(arg, description@) {
            Err(e) => Err(e),
            Ok(None) => Ok(ArgView::Missing),
            Ok(Some(n)) => match zero {
                Some(refusal) if n == 0 => Err(refusal@),
                _ => Ok(ArgView::Number(n)),
            },
        },
        Param::Encoding => match encoding_of(arg) {
            Ok(e) => Ok(ArgView::Encoding(e)),
            Err(e) => Err(e),
        },
        Param::Heading(default) => match heading_of(arg, default) {
            Ok(d) => Ok(ArgView::Heading(d)),
            Err(e) => Err(e),
        },
        Param::Target => match target_of(
            match arg {
                Some(a) => Some(a.text),
                None => None,
            },
        ) {
            Ok(t) => Ok(ArgView::Target(t)),
            Err(e) => Err(e),
        },
        Param::RequiredTarget(description) => match arg {
            None => Err(missing_text(description@)),
            Some(a) => match target_of(Some(a.text)) {
                Ok(t) => Ok(ArgView::Target(t)),
                Err(e) => Err(e),
            },
        },
        Param::Filter => match arg {
            None => Ok(ArgView::Missing),
            Some(a) => if a.text == "-"@ {
                Ok(ArgView::Missing)
            } else {
                Ok(ArgView::Text(a.text))
            },
        },
        Param::Optional => match arg {
            None => Ok(ArgView::Missing),
            Some(a) => Ok(ArgView::Text(a.text)),
        },
        Param::CacheMode => match arg {
            None => Ok(ArgView::Flag(false)),
            Some(a) => if a.text == "compressed"@ {
                Ok(ArgView::Flag(false))
            } else if a.text == "hot-f32"@ {
                Ok(ArgView::Flag(true))
            } else {
                Err("unknown vector cache mode "@ + text::spec_quoted(a.text))
            },
        },
        Param::EmbedderName => match arg {
            Some(a) => Ok(ArgView::Text(a.text)),
            None => match embedder {
                Some(name) => Ok(ArgView::Text(name)),
                None => Ok(ArgView::Text("hash"@)),
            },
        },
        Param::JsonScalar(description) => match arg {
            None => Err(missing_text(description@)),
            Some(a) => match json::scalar_argument(json::spec_json(a.text)) {
                Ok(v) => Ok(ArgView::Scalar(v)),
                Err(e) => Err(e),
            },
        },
        Param::Bound(description, type_at) => match arg {
            None => Err(missing_text(description@)),
            Some(a) => bound_of(a, text_at(before, type_at as int)),
        },
        Param::Facets(description) => match arg {
            None => Err(missing_text(description@)),
            Some(a) => if facets_of(a.text).len() == 0 {
                Err("at least one non-empty query facet is required"@)
            } else {
                Ok(ArgView::Facets(facets_of(a.text)))
            },
        },
    }
}

/// The contents of an argument that may be absent.
pub open spec fn argument_view(arg: Option<&Argument>) -> Option<ArgumentView> {
    match arg {
        Some(a) => Some(a@),
        None => None,
    }
}

/// Takes an argument that must be there.
pub fn required(arg: Option<&Argument>, description: &str) -> (r: Result<String, String>)
    ensures
        match r {
            Ok(s) => argument_view(arg) matches Some(a) && s@ == a.text,
            Err(message) => arg is None && message@ == missing_text(description@),
        },
{
    match arg {
        Some(a) => Ok(a.text.clone()),
        None => Err(concat2("missing ", description)),
    }
}

/// Takes a size where there is one.
pub fn optional_usize(arg: Option<&Argument>, description: &str) -> (r: Result<
    Option<usize>,
    String,
>)
    ensures
        (match r {
            Ok(n) => Ok(n),
            Err(message) => Err(message@),
        }) == optional_size(argument_view(arg), description@),
{
    match arg {
        None => Ok(None),
        Some(a) => match digits::parse_usize(a.text.as_str()) {
            Ok(n) => Ok(Some(n)),
            Err(error) => {
                let shown = text::quoted(a.text.as_str());
                let head = concat5("invalid ", description, " ", shown.as_str(), ": ");
                Err(concat2(head.as_str(), error.as_str()))
            },
        },
    }
}

/// Takes the elements that are meant.
pub fn parse_vector_target(value: Option<&str>) -> (r: Result<VectorTarget, String>)
    ensures
        (match r {
            Ok(t) => Ok(t),
            Err(message) => Err(message@),
        }) == target_of(text::opt_str_view(value)),
{
    match value {
        None => Ok(VectorTarget::Both),
        Some(s) => if text::same_text(s, "both") {
            Ok(VectorTarget::Both)
        } else if text::same_text(s, "nodes") {
            Ok(VectorTarget::Nodes)
        } else if text::same_text(s, "edges") {
            Ok(VectorTarget::Edges)
        } else {
            let shown = text::quoted(s);
            Err(concat2("unknown vector target ", shown.as_str()))
        },
    }
}

fn parse_heading(arg: Option<&Argument>, default: Direction) -> (r: Result<Direction, String>)
    ensures
        (match r {
            Ok(d) => Ok(d),
            Err(message) => Err(message@),
        }) == heading_of(argument_view(arg), default),
{
    match arg {
        None => Ok(default),
        Some(a) => if text::same_text(a.text.as_str(), "both") {
            Ok(Direction::Both)
        } else if text::same_text(a.text.as_str(), "out") {
            Ok(Direction::Outgoing)
        } else if text::same_text(a.text.as_str(), "in") {
            Ok(Direction::Incoming)
        } else {
            Err(concat2("unknown direction ", a.text.as_str()))
        },
    }
}

fn parse_encoding(arg: Option<&Argument>) -> (r: Result<VectorEncoding, String>)
    ensures
        (match r {
            Ok(e) => Ok(e),
            Err(message) => Err(message@),
        }) == encoding_of(argument_view(arg)),
{
    match arg {
        None => Ok(VectorEncoding::F16),
        Some(a) => if text::same_text(a.text.as_str(), "f16") {
            Ok(VectorEncoding::F16)
        } else if text::same_text(a.text.as_str(), "f32") {
            Ok(VectorEncoding::F32)
        } else {
            let shown = text::quoted(a.text.as_str());
            Err(concat2("unknown vector encoding ", shown.as_str()))
        },
    }
}

/// A copy of a floating-point number.
fn copy_float(f: &FloatValue) -> (r: FloatValue)
    ensures
        float_parts(r) == float_parts(*f),
{
    FloatValue { bits: f.bits, shortest: f.shortest.clone(), fixed: f.fixed.clone() }
}

/// Takes a bound of a numeric range.
pub fn parse_numeric_bound(arg: &Argument, numeric_type: &str) -> (r: Result<NumericBound, String>)
    ensures
        (match r {
            Ok(b) => Ok(ArgValue::Bound(b)@),
            Err(message) => Err(message@),
        }) == bound_of(arg@, numeric_type@),
{
    if text::same_text(arg.text.as_str(), "-") {
        Ok(NumericBound::Unbounded)
    } else if text::same_text(numeric_type, "int") {
        match digits::parse_i64(arg.text.as_str()) {
            Ok(n) => Ok(NumericBound::Int(n)),
            Err(error) => Err(error),
        }
    } else if text::same_text(numeric_type, "float") {
        match &arg.float {
            Ok(f) => Ok(NumericBound::Float(copy_float(f))),
            Err(error) => Err(error.clone()),
        }
    } else {
        let shown = text::quoted(numeric_type);
        Err(concat2("unknown numeric type ", shown.as_str()))
    }
}

fn read_count(
    arg: Option<&Argument>,
    description: &'static str,
    default: usize,
    zero: Option<&'static str>,
) -> (r: Result<ArgValue, String>)
    ensures
        read_result(r) == reads(
            Param::Count(description, default, zero),
            argument_view(arg),
            None,
            Seq::empty(),
        ),
{
    match optional_usize(arg, description) {
        Err(message) => Err(message),
        Ok(size) => {
            let n: usize = match size {
                Some(n) => n,
                None => default,
            };
            match zero {
                Some(refusal) => if n == 0 {
                    Err(refusal.to_owned())
                } else {
                    Ok(ArgValue::Number(n))
                },
                None => Ok(ArgValue::Number(n)),
            }
        },
    }
}

fn read_maybe(arg: Option<&Argument>, description: &'static str, zero: Option<&'static str>) -> (r:
    Result<ArgValue, String>)
    ensures
        read_result(r) == reads(
            Param::Maybe(description, zero),
            argument_view(arg),
            None,
            Seq::empty(),
        ),
{
    match optional_usize(arg, description) {
        Err(message) => Err(message),
        Ok(None) => Ok(ArgValue::Missing),
        Ok(Some(n)) => match zero {
            Some(refusal) => if n == 0 {
                Err(refusal.to_owned())
            } else {
                Ok(ArgValue::Number(n))
            },
            None => Ok(ArgValue::Number(n)),
        },
    }
}

fn read_text_of(values: &Vec<ArgValue>, i: usize) -> (r: String)
    ensures
        r@ == text_at(values_view(values@), i as int),
{
    if i < values.len() {
        assert(values_view(values@)[i as int] == values@[i as int]@);
        match &values[i] {
            ArgValue::Text(s) => {
                return s.clone();
            },
            _ => {},
        }
    }
    let r = String::new();
    assert(r@ =~= Seq::<char>::empty());
    r
}

fn read_argument(
    param: Param,
    arg: Option<&Argument>,
    embedder: &Option<String>,
    before: &Vec<ArgValue>,
) -> (r: Result<ArgValue, String>)
    ensures
        read_result(r) == reads(
            param,
            argument_view(arg),
            text::opt_view(*embedder),
            values_view(before@),
        ),
{
    match param {
        Param::Required(description) => match required(arg, description) {
            Ok(s) => Ok(ArgValue::Text(s)),
            Err(message) => Err(message),
        },
        Param::RequiredId(description) => match required(arg, description) {
            Ok(s) => match digits::parse_u64(s.as_str()) {
                Ok(n) => Ok(ArgValue::Id(n)),
                Err(message) => Err(message),
            },
            Err(message) => Err(message),
        },
        Param::RequiredSize(description) => match required(arg, description) {
            Ok(s) => match digits::parse_usize(s.as_str()) {
                Ok(n) => Ok(ArgValue::Number(n)),
                Err(message) => Err(message),
            },
            Err(message) => Err(message),
        },
        Param::RequiredFloat(description) => match arg {
            None => Err(concat2("missing ", description)),
            Some(a) => match &a.float {
                Ok(f) => Ok(ArgValue::Float(copy_float(f))),
                Err(message) => Err(message.clone()),
            },
        },
        Param::Count(description, default, zero) => read_count(arg, description, default, zero),
        Param::Maybe(description, zero) => read_maybe(arg, description, zero),
        Param::Encoding => match parse_encoding(arg) {
            Ok(e) => Ok(ArgValue::Encoding(e)),
            Err(message) => Err(message),
        },
        Param::Heading(default) => match parse_heading(arg, default) {
            Ok(d) => Ok(ArgValue::Heading(d)),
            Err(message) => Err(message),
        },
        Param::Target => {
            let value: Option<&str> = match arg {
                Some(a) => Some(a.text.as_str()),
                None => None,
            };
            match parse_vector_target(value) {
                Ok(t) => Ok(ArgValue::Target(t)),
                Err(message) => Err(message),
            }
        },
        Param::RequiredTarget(description) => match required(arg, description) {
            Ok(s) => match parse_vector_target(Some(s.as_str())) {
                Ok(t) => Ok(ArgValue::Target(t)),
                Err(message) => Err(message),
            },
            Err(message) => Err(message),
        },
        Param::Filter => match arg {
            None => Ok(ArgValue::Missing),
            Some(a) => if text::same_text(a.text.as_str(), "-") {
                Ok(ArgValue::Missing)
            } else {
                Ok(ArgValue::Text(a.text.clone()))
            },
        },
        Param::Optional => match arg {
            None => Ok(ArgValue::Missing),
            Some(a) => Ok(ArgValue::Text(a.text.clone())),
        },
        Param::CacheMode => match arg {
            None => Ok(ArgValue::Flag(false)),
            Some(a) => if text::same_text(a.text.as_str(), "compressed") {
                Ok(ArgValue::Flag(false))
            } else if text::same_text(a.text.as_str(), "hot-f32") {
                Ok(ArgValue::Flag(true))
            } else {
                let shown = text::quoted(a.text.as_str());
                Err(concat2("unknown vector cache mode ", shown.as_str()))
            },
        },
        Param::EmbedderName => match arg {
            Some(a) => Ok(ArgValue::Text(a.text.clone())),
            None => match embedder {
                Some(name) => Ok(ArgValue::Text(name.clone())),
                None => Ok(ArgValue::Text("hash".to_owned())),
            },
        },
        Param::JsonScalar(description) => match required(arg, description) {
            Ok(s) => match parse_json_scalar(s.as_str()) {
                Ok(v) => Ok(ArgValue::Scalar(v)),
                Err(message) => Err(message),
            },
            Err(message) => Err(message),
        },
        Param::Bound(description, type_at) => match arg {
            None => Err(concat2("missing ", description)),
            Some(a) => {
                let numeric_type = read_text_of(before, type_at);
                match parse_numeric_bound(a, numeric_type.as_str()) {
                    Ok(b) => Ok(ArgValue::Bound(b)),
                    Err(message) => Err(message),
                }
            },
        },
        Param::Facets(description) => match required(arg, description) {
            Ok(s) => {
                let facets = split_facets(s.as_str());
                assert(text::views(facets@).len() == facets@.len());
                if facets.len() == 0 {
                    Err("at least one non-empty query facet is required".to_owned())
                } else {
                    Ok(ArgValue::Facets(facets))
                }
            },
            Err(message) => Err(message),
        },
    }
}

/// The argument at a position, where there is one.
pub open spec fn argument_at(args: Seq<Argument>, i: int) -> Option<ArgumentView> {
    if 0 <= i < args.len() {
        Some(args[i]@)
    } else {
        None
    }
}

/// What the first `upto` parameters read from the arguments behind the
/// command: every one of them, or the first refusal.
pub open spec fn values_of(
    shape: Seq<Param>,
    args: Seq<Argument>,
    embedder: Option<Seq<char>>,
    upto: nat,
) -> Result<Seq<ArgView>, Seq<char>>
    decreases upto,
{
    if upto == 0 {
        Ok(Seq::empty())
    } else {
        match values_of(shape, args, embedder, (upto - 1) as nat) {
            Err(e) => Err(e),
            Ok(before) => match reads(
                shape[upto - 1],
                argument_at(args, upto as int),
                embedder,
                before,
            ) {
                Err(e) => Err(e),
                Ok(value) => Ok(before.push(value)),
            },
        }
    }
}

/// What parameters have read, or the message in its place.
pub open spec fn values_result(r: Result<Vec<ArgValue>, String>) -> Result<
    Seq<ArgView>,
    Seq<char>,
> {
    match r {
        Ok(values) => Ok(values_view(values@)),
        Err(message) => Err(message@),
    }
}

proof fn lemma_refusal_stays(
    shape: Seq<Param>,
    args: Seq<Argument>,
    embedder: Option<Seq<char>>,
    at: nat,
    upto: nat,
)
    requires
        at <= upto,
        values_of(shape, args, embedder, at) is Err,
    ensures
        values_of(shape, args, embedder, upto) == values_of(shape, args, embedder, at),
    decreases upto,
{
    if at < upto {
        lemma_refusal_stays(shape, args, embedder, at, (upto - 1) as nat);
    }
}

fn read_values(shape: &Vec<Param>, args: &Vec<Argument>, embedder: &Option<String>) -> (r: Result<
    Vec<ArgValue>,
    String,
>)
    requires
        args@.len() > 0,
    ensures
        values_result(r) == values_of(
            shape@,
            args@,
            text::opt_view(*embedder),
            shape@.len(),
        ),
        r matches Ok(values) ==> values@.len() == shape@.len(),
{
    let mut values: Vec<ArgValue> = Vec::new();
    let mut i: usize = 0;
    assert(values_view(values@) =~= Seq::<ArgView>::empty());
    while i < shape.len()
        invariant
            args@.len() > 0,
            i <= shape.len(),
            values@.len() == i,
            values_of(shape@, args@, text::opt_view(*embedder), i as nat) == Ok::<
                Seq<ArgView>,
                Seq<char>,
            >(values_view(values@)),
        decreases shape.len() - i,
    {
        let length: usize = args.len();
        let arg: Option<&Argument> = if i < length - 1 {
            Some(&args[i + 1])
        } else {
            None
        };
        assert(argument_view(arg) == argument_at(args@, i + 1));
        match read_argument(shape[i], arg, embedder, &values) {
            Ok(value) => {
                let ghost before = values_view(values@);
                let ghost view = value@;
                values.push(value);
                assert(values_view(values@) =~= before.push(view));
            },
            Err(message) => {
                proof {
                    lemma_refusal_stays(
                        shape@,
                        args@,
                        text::opt_view(*embedder),
                        (i + 1) as nat,
                        shape@.len(),
                    );
                }
                return Err(message);
            },
        }
        i = i + 1;
    }
    Ok(values)
}

/// Whether a size that was read is zero.
pub open spec fn zero_at(values: Seq<ArgView>, i: int) -> bool {
    0 <= i < values.len() && values[i] == ArgView::Number(0)
}

/// Whether a floating-point number that was read is none.
pub open spec fn nan_at(values: Seq<ArgView>, i: int) -> bool {
    0 <= i < values.len() && (values[i] matches ArgView::Float(f) && double_nan(f.0))
}

/// What is wrong with the sizes of a benchmark taken together, if anything.
pub open spec fn sizes_error(command: Seq<char>, values: Seq<ArgView>) -> Option<Seq<char>> {
    if command == "bench-ann"@ {
        if zero_at(values, 1) || zero_at(values, 2) {
            Some("query count and candidate vectors must be greater than zero"@)
        } else {
            None
        }
    } else if command == "bench-fbin"@ {
        if zero_at(values, 3) || zero_at(values, 4) || zero_at(values, 5) {
            Some("query count, candidate vectors, and k must be greater than zero"@)
        } else {
            None
        }
    } else if command == "bench-filtered-fbin"@ {
        if zero_at(values, 2) || zero_at(values, 3) || zero_at(values, 4) || zero_at(values, 5) {
            Some(
                "query count, filter stride, candidate elements, and k must be greater than zero"@,
            )
        } else {
            None
        }
    } else if command == "bench-range-fbin"@ {
        if zero_at(values, 5) || zero_at(values, 6) || zero_at(values, 7) || nan_at(values, 4) {
            Some(
                "query count, candidate elements, and k must be positive; the bound may not be NaN"@,
            )
        } else {
            None
        }
    } else {
        None
    }
}

fn is_zero(values: &Vec<ArgValue>, i: usize) -> (r: bool)
    ensures
        r == zero_at(values_view(values@), i as int),
{
    if i < values.len() {
        assert(values_view(values@)[i as int] == values@[i as int]@);
        match &values[i] {
            ArgValue::Number(n) => *n == 0,
            _ => false,
        }
    } else {
        false
    }
}

fn is_nan_at(values: &Vec<ArgValue>, i: usize) -> (r: bool)
    ensures
        r == nan_at(values_view(values@), i as int),
{
    if i < values.len() {
        assert(values_view(values@)[i as int] == values@[i as int]@);
        match &values[i] {
            ArgValue::Float(f) => is_double_nan(f.bits),
            _ => false,
        }
    } else {
        false
    }
}

fn check_sizes(command: &str, values: &Vec<ArgValue>) -> (r: Option<&'static str>)
    ensures
        text::opt_str_view(r) == sizes_error(command@, values_view(values@)),
{
    if text::same_text(command, "bench-ann") {
        if is_zero(values, 1) || is_zero(values, 2) {
            Some("query count and candidate vectors must be greater than zero")
        } else {
            None
        }
    } else if text::same_text(command, "bench-fbin") {
        if is_zero(values, 3) || is_zero(values, 4) || is_zero(values, 5) {
            Some("query count, candidate vectors, and k must be greater than zero")
        } else {
            None
        }
    } else if text::same_text(command, "bench-filtered-fbin") {
        if is_zero(values, 2) || is_zero(values, 3) || is_zero(values, 4) || is_zero(values, 5) {
            Some("query count, filter stride, candidate elements, and k must be greater than zero")
        } else {
            None
        }
    } else if text::same_text(command, "bench-range-fbin") {
        if is_zero(values, 5) || is_zero(values, 6) || is_zero(values, 7) || is_nan_at(values, 4) {
            Some(
                "query count, candidate elements, and k must be positive; the bound may not be NaN",
            )
        } else {
            None
        }
    } else {
        None
    }
}

/// What a command line asks for.
#[derive(Debug)]
pub enum Invocation {
    Help,
    Version,
    /// What is said about one command.
    CommandHelp(String),
    /// A command with everything that it reads.
    Run(String, Vec<ArgValue>),
}

/// The contents of what a command line asks for.
pub enum InvocationView {
    Help,
    Version,
    CommandHelp(Seq<char>),
    Run(Seq<char>, Seq<ArgView>),
}

impl View for Invocation {
    type V = InvocationView;

    open spec fn view(&self) -> InvocationView {
        match self {
            Invocation::Help => InvocationView::Help,
            Invocation::Version => InvocationView::Version,
            Invocation::CommandHelp(s) => InvocationView::CommandHelp(s@),
            Invocation::Run(command, values) => InvocationView::Run(
                command@,
                values_view(values@),
            ),
        }
    }
}

/// What a command line asks for, or the message in its place.
pub open spec fn invocation_result(r: Result<Invocation, String>) -> Result<
    InvocationView,
    Seq<char>,
> {
    match r {
        Ok(invocation) => Ok(invocation@),
        Err(message) => Err(message@),
    }
}

/// Whether a text asks for help.
pub open spec fn asks_for_help(s: Seq<char>) -> bool {
    s == "help"@ || s == "--help"@ || s == "-h"@
}

fn is_help(s: &str) -> (r: bool)
    ensures
        r == asks_for_help(s@),
{
    text::same_text(s, "help") || text::same_text(s, "--help") || text::same_text(s, "-h")
}

/// How a command is written, by its place in the table from `from` on.
pub open spec fn usage_from(command: Seq<char>, from: nat) -> Option<Seq<char>>
    decreases command_table::usage_table().len() - from,
{
    let table = command_table::usage_table();
    if from >= table.len() {
        None
    } else if table[from as int].0@ == command {
        Some(table[from as int].1@)
    } else {
        usage_from(command, from + 1)
    }
}

/// What is added to the help of some commands.
pub open spec fn help_note(command: Seq<char>) -> Seq<char> {
    if command == "import-github"@ {
        "\nDefaults: 1000 issues, 1000 pull requests, 300 discussions, 100 releases, 256 dimensions, hash embeddings, batch size 128.\nAuthentication: GITHUB_TOKEN, GH_TOKEN, or `gh auth login`.\n"@
    } else if command == "import-rust"@ {
        "\nDefaults: 256 dimensions, hash embeddings, batch size 128.\n"@
    } else if command == "semantic-text"@ {
        "\nDefaults: 20 results, 2 hops, hash embeddings.\n"@
    } else {
        ""@
    }
}

/// What is said about a command, if there is such a command.
pub open spec fn command_help(command: Seq<char>) -> Result<Seq<char>, Seq<char>> {
    match usage_from(command, 0) {
        Some(usage) => Ok("Usage:\n  vecgra "@ + usage + "\n"@ + help_note(command)),
        None => Err("unknown command "@ + command),
    }
}

fn find_usage(command: &str) -> (r: Option<&'static str>)
    ensures
        text::opt_str_view(r) == usage_from(command@, 0),
{
    let table = command_usages();
    let mut i: usize = 0;
    while i < table.len()
        invariant
            table@ == command_table::usage_table(),
            i <= table.len(),
            usage_from(command@, i as nat) == usage_from(command@, 0),
        decreases table.len() - i,
    {
        if text::same_text(table[i].0, command) {
            return Some(table[i].1);
        }
        i = i + 1;
    }
    None
}

/// Says what a command does.
pub fn print_command_help(command: &str) -> (r: Result<String, String>)
    ensures
        (match r {
            Ok(s) => Ok(s@),
            Err(message) => Err(message@),
        }) == command_help(command@),
{
    match find_usage(command) {
        None => Err(concat2("unknown command ", command)),
        Some(usage) => {
            let note = if text::same_text(command, "import-github") {
                "\nDefaults: 1000 issues, 1000 pull requests, 300 discussions, 100 releases, 256 dimensions, hash embeddings, batch size 128.\nAuthentication: GITHUB_TOKEN, GH_TOKEN, or `gh auth login`.\n"
            } else if text::same_text(command, "import-rust") {
                "\nDefaults: 256 dimensions, hash embeddings, batch size 128.\n"
            } else if text::same_text(command, "semantic-text") {
                "\nDefaults: 20 results, 2 hops, hash embeddings.\n"
            } else {
                ""
            };
            Ok(concat4("Usage:\n  vecgra ", usage, "\n", note))
        },
    }
}

/// The lines about the first `upto` commands.
pub open spec fn usage_lines(upto: nat) -> Seq<char>
    decreases upto,
{
    if upto == 0 {
        Seq::empty()
    } else {
        usage_lines((upto - 1) as nat) + "  vecgra "@ + command_table::usage_table()[upto - 1].1@
            + "\n"@
    }
}

/// What is said about all commands.
pub open spec fn help_text() -> Seq<char> {
    "Vecgra CLI\n\nUsage:\n  vecgra --version\n"@ + usage_lines(
        command_table::usage_table().len(),
    )
        + "\nRun `vecgra <command> --help` for command help.\nOPENROUTER_API_KEY is required for qwen. VECGRA_EMBEDDER sets the default embedder.\n"@
}

/// Says what commands there are.
pub fn print_help() -> (r: String)
    ensures
        r@ == help_text(),
{
    let table = command_usages();
    let mut lines = String::new();
    let mut i: usize = 0;
    assert(lines@ =~= usage_lines(0));
    while i < table.len()
        invariant
            table@ == command_table::usage_table(),
            i <= table.len(),
            lines@ == usage_lines(i as nat),
        decreases table.len() - i,
    {
        lines = concat4(lines.as_str(), "  vecgra ", table[i].1, "\n");
        i = i + 1;
    }
    concat3(
        "Vecgra CLI\n\nUsage:\n  vecgra --version\n",
        lines.as_str(),
        "\nRun `vecgra <command> --help` for command help.\nOPENROUTER_API_KEY is required for qwen. VECGRA_EMBEDDER sets the default embedder.\n",
    )
}

/// What a command and its arguments ask for: every argument is read, sizes
/// are checked, and an argument too many is refused.
pub open spec fn command_asks(args: Seq<Argument>, embedder: Option<Seq<char>>) -> Result<
    InvocationView,
    Seq<char>,
> {
    let command = args[0].text@;
    match command_table::command_params(command) {
        None => Err("unknown command "@ + command),
        Some(shape) => match values_of(shape, args, embedder, shape.len()) {
            Err(e) => Err(e),
            Ok(values) => match sizes_error(command, values) {
                Some(e) => Err(e),
                None => if args.len() > shape.len() + 1 {
                    Err(
                        "unexpected argument "@ + text::spec_quoted(
                            args[(shape.len() + 1) as int].text@,
                        ) + " for command "@ + text::spec_quoted(command),
                    )
                } else {
                    Ok(InvocationView::Run(command, values))
                },
            },
        },
    }
}

/// What a command line asks for.
pub open spec fn asks(args: Seq<Argument>, embedder: Option<Seq<char>>) -> Result<
    InvocationView,
    Seq<char>,
> {
    if args.len() == 0 || asks_for_help(args[0].text@) {
        Ok(InvocationView::Help)
    } else if args[0].text@ == "--version"@ || args[0].text@ == "-V"@ {
        Ok(InvocationView::Version)
    } else if args.len() > 1 && asks_for_help(args[1].text@) {
        if args.len() > 2 {
            Err("unexpected argument "@ + text::spec_quoted(args[2].text@) + " after help"@)
        } else {
            match command_help(args[0].text@) {
                Ok(s) => Ok(InvocationView::CommandHelp(s)),
                Err(e) => Err(e),
            }
        }
    } else {
        command_asks(args, embedder)
    }
}

fn parse_command(args: &Vec<Argument>, embedder: &Option<String>) -> (r: Result<
    Invocation,
    String,
>)
    requires
        args@.len() > 0,
    ensures
        invocation_result(r) == command_asks(args@, text::opt_view(*embedder)),
{
    let command = args[0].text.clone();
    match command_shape(command.as_str()) {
        None => Err(concat2("unknown command ", command.as_str())),
        Some(shape) => match read_values(&shape, args, embedder) {
            Err(message) => Err(message),
            Ok(values) => match check_sizes(command.as_str(), &values) {
                Some(message) => Err(message.to_owned()),
                None => {
                    let count: usize = args.len();
                    if count - 1 > shape.len() {
                        let extra = text::quoted(args[shape.len() + 1].text.as_str());
                        let shown = text::quoted(command.as_str());
                        Err(
                            concat4(
                                "unexpected argument ",
                                extra.as_str(),
                                " for command ",
                                shown.as_str(),
                            ),
                        )
                    } else {
                        Ok(Invocation::Run(command, values))
                    }
                },
            },
        },
    }
}

/// Reads a command line. `embedder` is the environment's choice of an
/// embedder.
pub fn parse_invocation(args: &Vec<Argument>, embedder: &Option<String>) -> (r: Result<
    Invocation,
    String,
>)
    ensures
        invocation_result(r) == asks(args@, text::opt_view(*embedder)),
{
    if args.len() == 0 {
        return Ok(Invocation::Help);
    }
    let command = args[0].text.as_str();
    if is_help(command) {
        return Ok(Invocation::Help);
    }
    if text::same_text(command, "--version") || text::same_text(command, "-V") {
        return Ok(Invocation::Version);
    }
    if args.len() > 1 && is_help(args[1].text.as_str()) {
        if args.len() > 2 {
            let extra = text::quoted(args[2].text.as_str());
            return Err(concat3("unexpected argument ", extra.as_str(), " after help"));
        }
        return match print_command_help(command) {
            Ok(s) => Ok(Invocation::CommandHelp(s)),
            Err(message) => Err(message),
        };
    }
    parse_command(args, embedder)
}

/// A command runs only when every argument was read and none is left over.
pub proof fn law_extra_arguments_are_refused(args: Seq<Argument>, embedder: Option<Seq<char>>)
    requires
        args.len() > 0,
        command_table::command_params(args[0].text@) matches Some(shape) && args.len() > shape.len()
            + 1,
        args.len() > 1 ==> !asks_for_help(args[1].text@),
        !asks_for_help(args[0].text@),
        args[0].text@ != "--version"@,
        args[0].text@ != "-V"@,
    ensures
        asks(args, embedder) is Err,
{
}

/// A command that runs has read one value for each of its parameters.
pub proof fn law_every_parameter_is_read(
    shape: Seq<Param>,
    args: Seq<Argument>,
    embedder: Option<Seq<char>>,
    upto: nat,
)
    ensures
        values_of(shape, args, embedder, upto) matches Ok(values) ==> values.len() == upto,
    decreases upto,
{
    if upto > 0 {
        law_every_parameter_is_read(shape, args, embedder, (upto - 1) as nat);
    }
}

} // verus!
