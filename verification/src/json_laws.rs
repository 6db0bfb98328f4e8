//! What reading properties and batches of JSON keeps.

use vstd::prelude::*;

use crate::graph::ValueView;
use crate::json;
use crate::json::{JsonView, ScalarView};
use crate::jsonl;
use crate::jsonl::{BatchView, Endpoint, ExistingNode, ExternalId, IdView};
use crate::text;

verus! {

/// Whether a property value is the JSON value: of the same kind and with the
/// same contents.
pub open spec fn same_scalar(json: JsonView, value: ValueView) -> bool {
    match value {
        ValueView::Null => json is Null,
        ValueView::Bool(b) => json matches JsonView::Bool(j) && j == b,
        ValueView::Int(n) => json matches JsonView::Number(whole, _) && whole == Some(n),
        ValueView::Float(bits, shortest, fixed) => json matches JsonView::Number(whole, float)
            && whole is None && float == Some((bits, shortest, fixed)),
        ValueView::Text(s) => json matches JsonView::Text(j) && j == s,
        _ => false,
    }
}

/// Whether a JSON value can be a property: no list, no object, and no number
/// outside every range.
pub open spec fn is_scalar(json: JsonView) -> bool {
    &&& !(json is Array)
    &&& !(json is Object)
    &&& json matches JsonView::Number(whole, float) ==> whole is Some || float is Some
}

/// Conversion of a JSON scalar keeps its kind and its value. Lists, objects
/// and numbers outside every range are refused, and nothing else is.
pub proof fn law_scalars_keep_their_value(value: JsonView, range: Seq<char>, shape: Seq<char>)
    ensures
        match json::scalar_of(value, range, shape) {
            Ok(converted) => same_scalar(value, converted),
            Err(message) => (message == shape && (value is Array || value is Object)) || (message
                == range && (value matches JsonView::Number(whole, float) && whole is None && float is None)),
        },
{
}

/// Different truth values, texts and whole numbers become different values.
pub proof fn law_scalars_stay_apart(
    a: JsonView,
    b: JsonView,
    range: Seq<char>,
    shape: Seq<char>,
)
    requires
        json::scalar_of(a, range, shape) is Ok,
        json::scalar_of(b, range, shape) == json::scalar_of(a, range, shape),
    ensures
        a is Bool ==> a == b,
        a is Text ==> a == b,
        a is Null ==> b is Null,
        a matches JsonView::Number(whole, float) ==> (b matches JsonView::Number(other, single)
            && whole == other && (whole is None ==> float == single)),
{
}

/// A scalar argument is the value that its text encodes, and a text that is no
/// JSON is refused with the parser's words.
pub proof fn law_scalar_arguments_keep_their_value(parsed: Result<JsonView, Seq<char>>)
    ensures
        match (parsed, json::scalar_argument(parsed)) {
            (Ok(value), Ok(converted)) => same_scalar(value, converted),
            (Ok(value), Err(_)) => value is Array || value is Object || (
            value matches JsonView::Number(whole, float) && whole is None && float is None),
            (Err(message), Err(told)) => told == message,
            (Err(_), Ok(_)) => false,
        },
{
}

/// Properties are converted one for one and in order: each keeps its key and
/// its value. A batch of properties is refused only for one that is no scalar.
pub proof fn law_properties_are_kept(properties: Seq<(Seq<char>, JsonView)>, upto: nat)
    requires
        upto <= properties.len(),
    ensures
        match jsonl::all_converted(properties, upto) {
            Ok(values) => values.len() == upto && forall|i: int|
                0 <= i < upto ==> (#[trigger] values[i]).0 == properties[i].0 && same_scalar(
                    properties[i].1,
                    values[i].1,
                ),
            Err(_) => exists|i: int|
                0 <= i < upto && !is_scalar((#[trigger] properties[i]).1),
        },
    decreases upto,
{
    if upto > 0 {
        law_properties_are_kept(properties, (upto - 1) as nat);
        let last = properties[upto - 1];
        match jsonl::all_converted(properties, (upto - 1) as nat) {
            Ok(before) => {
                law_scalars_keep_their_value(
                    last.1,
                    "property "@ + text::spec_quoted(last.0) + " is outside the numeric range"@,
                    "property "@ + text::spec_quoted(last.0)
                        + " must be a null, boolean, number, or string"@,
                );
                match jsonl::all_converted(properties, upto) {
                    Ok(values) => {
                        assert forall|i: int| 0 <= i < upto implies (#[trigger] values[i]).0
                            == properties[i].0 && same_scalar(properties[i].1, values[i].1) by {
                            if i < before.len() {
                                assert(values[i] == before[i]);
                            }
                        }
                    },
                    Err(_) => {
                        assert(!is_scalar(properties[upto - 1].1));
                    },
                }
            },
            Err(_) => {
                let i = choose|i: int|
                    0 <= i < upto - 1 && !is_scalar((#[trigger] properties[i]).1);
                assert(!is_scalar(properties[i].1));
            },
        }
    }
}

/// The end of a relationship that names a node of the batch is the node
/// recorded under that name, and is refused only where none was recorded.
pub proof fn law_batch_ends_are_recorded_nodes(
    batch: BatchView,
    name: ExternalId,
    existing: ExistingNode,
)
    requires
        batch.wf(),
    ensures
        match jsonl::end_of(batch, Endpoint::Batch(name), existing) {
            Ok(id) => exists|i: int|
                0 <= i < batch.names.len() && #[trigger] batch.names[i] == name@ && batch.ids[i]
                    == id,
            Err(_) => !batch.names.contains(name@),
        },
{
    if batch.names.contains(name@) {
        let i = batch.names.index_of(name@);
        assert(batch.names[i] == name@);
    }
}

/// The end of a relationship that refers to an existing node is the node that
/// was found, and is refused where there was none to find.
pub proof fn law_existing_ends_are_found_nodes(batch: BatchView, node: u64, existing: ExistingNode)
    ensures
        match jsonl::end_of(batch, Endpoint::Existing { node }, existing) {
            Ok(id) => existing == ExistingNode::Found(id),
            Err(_) => existing is Unavailable || existing is Missing,
        },
{
}

/// A relationship leads from the node that its source names to the node that
/// its target names, with its properties, and is refused exactly where one of
/// the three cannot be had.
pub proof fn law_relationships_lead_between_their_ends(
    batch: BatchView,
    source: Endpoint,
    target: Endpoint,
    source_found: ExistingNode,
    target_found: ExistingNode,
    properties: Seq<(Seq<char>, JsonView)>,
)
    ensures
        match jsonl::accepted_edge(batch, source, target, source_found, target_found, properties) {
            Ok((from, to, values)) => {
                &&& jsonl::end_of(batch, source, source_found) == Ok::<u64, Seq<char>>(from)
                &&& jsonl::end_of(batch, target, target_found) == Ok::<u64, Seq<char>>(to)
                &&& jsonl::all_converted(properties, properties.len()) == Ok::<
                    Seq<(Seq<char>, ValueView)>,
                    Seq<char>,
                >(values)
            },
            Err(_) => jsonl::end_of(batch, source, source_found) is Err || jsonl::end_of(
                batch,
                target,
                target_found,
            ) is Err || jsonl::all_converted(properties, properties.len()) is Err,
        },
        source == target && source_found == target_found ==> (jsonl::accepted_edge(
            batch,
            source,
            target,
            source_found,
            target_found,
            properties,
        ) matches Ok((from, to, _)) ==> from == to),
{
}

/// Recording a node or a relationship counts it and its vectors, and counts
/// nothing else.
pub proof fn law_records_are_counted(batch: BatchView, name: IdView, id: u64, vectors: nat)
    requires
        batch.stats.nodes < usize::MAX,
        batch.stats.edges < usize::MAX,
        batch.stats.indexed_vectors + vectors <= usize::MAX,
    ensures
        batch.with_node(name, id, vectors).stats.nodes == batch.stats.nodes + 1,
        batch.with_node(name, id, vectors).stats.edges == batch.stats.edges,
        batch.with_node(name, id, vectors).stats.indexed_vectors == batch.stats.indexed_vectors
            + vectors,
        batch.with_edge(vectors).stats.nodes == batch.stats.nodes,
        batch.with_edge(vectors).stats.edges == batch.stats.edges + 1,
        batch.with_edge(vectors).stats.indexed_vectors == batch.stats.indexed_vectors + vectors,
        batch.with_edge(vectors).names == batch.names,
        batch.with_edge(vectors).ids == batch.ids,
{
}

/// Whether a line holds anything but white space.
pub open spec fn is_filled(line: Seq<char>) -> bool {
    exists|k: int| 0 <= k < line.len() && !text::spec_is_whitespace(#[trigger] line[k])
}

/// The records of a file are its lines that are not blank, in order.
pub proof fn law_records_are_the_filled_lines(lines: Seq<Seq<char>>)
    ensures
        forall|i: int|
            0 <= i < lines.len() ==> (jsonl::record_lines(lines).contains(i) <==> is_filled(
                #[trigger] lines[i],
            )),
        forall|a: int, b: int|
            0 <= a < b < jsonl::record_lines(lines).len() ==> (#[trigger] jsonl::record_lines(
                lines,
            )[a]) < (#[trigger] jsonl::record_lines(lines)[b]),
        forall|a: int|
            0 <= a < jsonl::record_lines(lines).len() ==> 0 <= (#[trigger] jsonl::record_lines(
                lines,
            )[a]) < lines.len(),
    decreases lines.len(),
{
    if lines.len() > 0 {
        let rest = lines.drop_last();
        law_records_are_the_filled_lines(rest);
        let before = jsonl::record_lines(rest);
        let now = jsonl::record_lines(lines);
        let last = lines.len() - 1;
        crate::text_laws::law_blank_is_whitespace_alone(lines.last());
        assert forall|i: int| 0 <= i < lines.len() implies (now.contains(i) <==> is_filled(
            #[trigger] lines[i],
        )) by {
            if i < last {
                assert(rest[i] == lines[i]);
                if before.contains(i) {
                    let a = choose|a: int| 0 <= a < before.len() && before[a] == i;
                    assert(now[a] == i);
                }
                if now.contains(i) {
                    let a = choose|a: int| 0 <= a < now.len() && now[a] == i;
                    assert(before[a] == i);
                }
            } else {
                assert(lines[i] == lines.last());
                if text::is_blank(lines.last()) {
                    if now.contains(i) {
                        let a = choose|a: int| 0 <= a < now.len() && now[a] == i;
                        assert(before[a] == i);
                    }
                } else {
                    assert(now.last() == i);
                }
            }
        }
    }
}

/// A page request names its repository, how much of it is wanted, and where
/// the last page ended.
pub proof fn law_page_requests_say_what_is_wanted(
    owner: Seq<char>,
    name: Seq<char>,
    first: usize,
    after: Option<Seq<char>>,
)
    ensures
        ({
            let members = json::page_members(owner, name, first, after);
            &&& members.len() == 4
            &&& members.contains(("owner"@, ScalarView::Text(owner)))
            &&& members.contains(("name"@, ScalarView::Text(name)))
            &&& members.contains(("first"@, ScalarView::Number(first as u64)))
            &&& after matches Some(cursor) ==> members.contains(
                ("after"@, ScalarView::Text(cursor)),
            )
            &&& after is None ==> members.contains(("after"@, ScalarView::Null))
        }),
        json::repository_members(owner, name).len() == 2,
        json::repository_members(owner, name).contains(("owner"@, ScalarView::Text(owner))),
        json::repository_members(owner, name).contains(("name"@, ScalarView::Text(name))),
{
    let members = json::page_members(owner, name, first, after);
    assert(members[0] == ("owner"@, ScalarView::Text(owner)));
    assert(members[1] == ("name"@, ScalarView::Text(name)));
    assert(members[2] == ("first"@, ScalarView::Number(first as u64)));
    assert(members[3].0 == "after"@);
    let two = json::repository_members(owner, name);
    assert(two[0] == ("owner"@, ScalarView::Text(owner)));
    assert(two[1] == ("name"@, ScalarView::Text(name)));
}

} // verus!
