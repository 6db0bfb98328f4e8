//! Importing and appending batches of JSON lines: what is accepted, how the
//! ends of relationships are found, and what is counted.

use vstd::prelude::*;
use vstd::string::*;

use crate::digits;
use crate::digits::{decimal_text, signed_text, usize_text};
use crate::graph::{Value, ValueView};
use crate::json;
use crate::json::{scalar_value, JsonValue, JsonView};
use crate::text;
use crate::text::{concat2, concat3, concat4, concat5, concat6};

verus! {

/// What a batch adds.
#[derive(Clone, Copy, Debug, PartialEq, Eq, Structural)]
pub struct AppendStats {
    pub nodes: usize,
    pub edges: usize,
    pub indexed_vectors: usize,
}

impl Default for AppendStats {
    fn default() -> (r: AppendStats)
        ensures
            r == (AppendStats { nodes: 0, edges: 0, indexed_vectors: 0 }),
    {
        AppendStats { nodes: 0, edges: 0, indexed_vectors: 0 }
    }
}

/// What a node is called within its batch.
#[derive(Debug)]
pub enum ExternalId {
    String(String),
    Signed(i64),
    Unsigned(u64),
}

/// What a node is called within its batch.
pub enum IdView {
    Text(Seq<char>),
    Signed(i64),
    Unsigned(u64),
}

impl View for ExternalId {
    type V = IdView;

    open spec fn view(&self) -> IdView {
        match self {
            ExternalId::String(s) => IdView::Text(s@),
            ExternalId::Signed(n) => IdView::Signed(*n),
            ExternalId::Unsigned(n) => IdView::Unsigned(*n),
        }
    }
}

/// How an id is shown.
pub open spec fn id_text(id: IdView) -> Seq<char> {
    match id {
        IdView::Text(s) => text::spec_quoted(s),
        IdView::Signed(n) => digits::signed_decimal(n as int),
        IdView::Unsigned(n) => digits::decimal(n as nat),
    }
}

impl ExternalId {
    /// How the id is shown.
    pub fn shown(&self) -> (r: String)
        ensures
            r@ == id_text(self@),
    {
        match self {
            ExternalId::String(s) => text::quoted(s.as_str()),
            ExternalId::Signed(n) => signed_text(*n),
            ExternalId::Unsigned(n) => decimal_text(*n),
        }
    }

    /// Whether two ids are the same.
    pub fn same(&self, other: &ExternalId) -> (r: bool)
        ensures
            r == (self@ == other@),
    {
        match (self, other) {
            (ExternalId::String(a), ExternalId::String(b)) => text::same_text(
                a.as_str(),
                b.as_str(),
            ),
            (ExternalId::Signed(a), ExternalId::Signed(b)) => *a == *b,
            (ExternalId::Unsigned(a), ExternalId::Unsigned(b)) => *a == *b,
            _ => false,
        }
    }
}

/// One end of a relationship: a node of the batch, or one of the database.
#[derive(Debug)]
pub enum Endpoint {
    Batch(ExternalId),
    Existing { node: u64 },
}

/// What the database answers about a node.
#[derive(Clone, Copy, Debug, PartialEq, Eq, Structural)]
pub enum ExistingNode {
    /// The database may not be asked.
    Unavailable,
    Missing,
    Found(u64),
}

/// The nodes of a batch and the ids that the database gave them.
#[derive(Debug)]
pub struct JsonBatch {
    pub names: Vec<ExternalId>,
    pub ids: Vec<u64>,
    pub stats: AppendStats,
}

/// The nodes of a batch and the ids that the database gave them.
#[verifier::ext_equal]
pub struct BatchView {
    pub names: Seq<IdView>,
    pub ids: Seq<u64>,
    pub stats: AppendStats,
}

/// The names of nodes.
pub open spec fn id_views(names: Seq<ExternalId>) -> Seq<IdView> {
    names.map_values(|id: ExternalId| id@)
}

impl View for JsonBatch {
    type V = BatchView;

    open spec fn view(&self) -> BatchView {
        BatchView { names: id_views(self.names@), ids: self.ids@, stats: self.stats }
    }
}

impl BatchView {
    /// Every name has one id, and no name occurs twice.
    pub open spec fn wf(self) -> bool {
        &&& self.names.len() == self.ids.len()
        &&& self.names.no_duplicates()
        &&& self.stats.nodes == self.names.len()
    }

    /// The id of a node of the batch.
    pub open spec fn id_of(self, name: IdView) -> Option<u64> {
        if self.names.contains(name) {
            Some(self.ids[self.names.index_of(name)])
        } else {
            None
        }
    }

    /// The batch with one more node.
    pub open spec fn with_node(self, name: IdView, id: u64, vectors: nat) -> BatchView {
        BatchView {
            names: self.names.push(name),
            ids: self.ids.push(id),
            stats: AppendStats {
                nodes: (self.stats.nodes + 1) as usize,
                edges: self.stats.edges,
                indexed_vectors: (self.stats.indexed_vectors + vectors) as usize,
            },
        }
    }

    /// The batch with one more relationship.
    pub open spec fn with_edge(self, vectors: nat) -> BatchView {
        BatchView {
            stats: AppendStats {
                nodes: self.stats.nodes,
                edges: (self.stats.edges + 1) as usize,
                indexed_vectors: (self.stats.indexed_vectors + vectors) as usize,
            },
            ..self
        }
    }
}

/// The node at an end of a relationship, or why there is none.
pub open spec fn end_of(batch: BatchView, end: Endpoint, existing: ExistingNode) -> Result<
    u64,
    Seq<char>,
> {
    match end {
        Endpoint::Batch(name) => match batch.id_of(name@) {
            Some(id) => Ok(id),
            None => Err(
                "edge endpoint "@ + id_text(name@) + " does not name a node in this batch"@,
            ),
        },
        Endpoint::Existing { node } => match existing {
            ExistingNode::Unavailable => Err("existing node references require append-jsonl"@),
            ExistingNode::Missing => Err(
                "existing node "@ + digits::decimal(node as nat) + " was not found"@,
            ),
            ExistingNode::Found(id) => Ok(id),
        },
    }
}

/// An id, or the message in its place.
pub open spec fn end_result(r: Result<u64, String>) -> Result<u64, Seq<char>> {
    match r {
        Ok(id) => Ok(id),
        Err(message) => Err(message@),
    }
}

/// The properties of an element, in the order of their keys.
pub type JsonProperties = Vec<(String, JsonValue)>;

/// The contents of properties.
pub open spec fn json_view(properties: Seq<(String, JsonValue)>) -> Seq<(Seq<char>, JsonView)> {
    properties.map_values(|p: (String, JsonValue)| (p.0@, p.1@))
}

/// The contents of converted properties.
pub open spec fn value_views(properties: Seq<(String, Value)>) -> Seq<(Seq<char>, ValueView)> {
    properties.map_values(|p: (String, Value)| (p.0@, p.1@))
}

/// What a property becomes, or why it cannot be one.
pub open spec fn converted(key: Seq<char>, value: JsonView) -> Result<ValueView, Seq<char>> {
    json::scalar_of(
        value,
        "property "@ + text::spec_quoted(key) + " is outside the numeric range"@,
        "property "@ + text::spec_quoted(key) + " must be a null, boolean, number, or string"@,
    )
}

/// What the first `upto` properties become, or why the first that cannot be
/// one cannot.
pub open spec fn all_converted(properties: Seq<(Seq<char>, JsonView)>, upto: nat) -> Result<
    Seq<(Seq<char>, ValueView)>,
    Seq<char>,
>
    decreases upto,
{
    if upto == 0 {
        Ok(Seq::empty())
    } else {
        match all_converted(properties, (upto - 1) as nat) {
            Err(e) => Err(e),
            Ok(before) => {
                let property = properties[upto - 1];
                match converted(property.0, property.1) {
                    Err(e) => Err(e),
                    Ok(value) => Ok(before.push((property.0, value))),
                }
            },
        }
    }
}

/// Converted properties, or the message in their place.
pub open spec fn conversion_result(r: Result<Vec<(String, Value)>, String>) -> Result<
    Seq<(Seq<char>, ValueView)>,
    Seq<char>,
> {
    match r {
        Ok(properties) => Ok(value_views(properties@)),
        Err(message) => Err(message@),
    }
}

proof fn lemma_conversion_refusal(properties: Seq<(Seq<char>, JsonView)>, at: nat, upto: nat)
    requires
        at <= upto,
        all_converted(properties, at) is Err,
    ensures
        all_converted(properties, upto) == all_converted(properties, at),
    decreases upto,
{
    if at < upto {
        lemma_conversion_refusal(properties, at, (upto - 1) as nat);
    }
}

fn convert_property(key: &str, value: &JsonValue) -> (r: Result<Value, String>)
    ensures
        json::value_result(r) == converted(key@, value@),
{
    let shown = text::quoted(key);
    let range = concat3("property ", shown.as_str(), " is outside the numeric range");
    let shape = concat3(
        "property ",
        shown.as_str(),
        " must be a null, boolean, number, or string",
    );
    scalar_value(json::copy_json(value), range.as_str(), shape.as_str())
}

/// Turns JSON properties into typed ones.
pub fn convert_properties(properties: &JsonProperties) -> (r: Result<
    Vec<(String, Value)>,
    String,
>)
    ensures
        conversion_result(r) == all_converted(json_view(properties@), properties@.len()),
{
    let ghost all = json_view(properties@);
    let mut out: Vec<(String, Value)> = Vec::new();
    let mut i: usize = 0;
    assert(value_views(out@) =~= Seq::<(Seq<char>, ValueView)>::empty());
    while i < properties.len()
        invariant
            i <= properties.len(),
            all == json_view(properties@),
            all_converted(all, i as nat) == Ok::<Seq<(Seq<char>, ValueView)>, Seq<char>>(
                value_views(out@),
            ),
        decreases properties.len() - i,
    {
        assert(all[i as int] == (properties@[i as int].0@, properties@[i as int].1@));
        match convert_property(properties[i].0.as_str(), &properties[i].1) {
            Ok(value) => {
                let ghost before = value_views(out@);
                let ghost view = value@;
                out.push((properties[i].0.clone(), value));
                assert(value_views(out@) =~= before.push((properties@[i as int].0@, view)));
            },
            Err(message) => {
                proof {
                    lemma_conversion_refusal(all, (i + 1) as nat, properties@.len());
                }
                return Err(message);
            },
        }
        i = i + 1;
    }
    Ok(out)
}

/// What is said of a node whose name was used already.
pub open spec fn duplicate_text(name: IdView) -> Seq<char> {
    "duplicate node id "@ + id_text(name)
}

/// A relationship whose ends and properties are known.
#[derive(Debug)]
pub struct ResolvedEdge {
    pub source: u64,
    pub target: u64,
    pub properties: Vec<(String, Value)>,
}

/// The ends and the properties of a relationship, or why it is refused: for its
/// source first, its target next and its properties last.
pub open spec fn accepted_edge(
    batch: BatchView,
    source: Endpoint,
    target: Endpoint,
    source_found: ExistingNode,
    target_found: ExistingNode,
    properties: Seq<(Seq<char>, JsonView)>,
) -> Result<(u64, u64, Seq<(Seq<char>, ValueView)>), Seq<char>> {
    match (
        end_of(batch, source, source_found),
        end_of(batch, target, target_found),
        all_converted(properties, properties.len()),
    ) {
        (Err(e), _, _) => Err(e),
        (Ok(_), Err(e), _) => Err(e),
        (Ok(_), Ok(_), Err(e)) => Err(e),
        (Ok(from), Ok(to), Ok(values)) => Ok((from, to, values)),
    }
}

/// The contents of a relationship result.
pub open spec fn edge_result(r: Result<ResolvedEdge, String>) -> Result<
    (u64, u64, Seq<(Seq<char>, ValueView)>),
    Seq<char>,
> {
    match r {
        Ok(edge) => Ok((edge.source, edge.target, value_views(edge.properties@))),
        Err(message) => Err(message@),
    }
}

impl JsonBatch {
    /// A batch without nodes.
    pub fn new() -> (r: JsonBatch)
        ensures
            r@ == (BatchView {
                names: Seq::empty(),
                ids: Seq::empty(),
                stats: AppendStats { nodes: 0, edges: 0, indexed_vectors: 0 },
            }),
            r@.wf(),
    {
        let r = JsonBatch {
            names: Vec::new(),
            ids: Vec::new(),
            stats: AppendStats { nodes: 0, edges: 0, indexed_vectors: 0 },
        };
        assert(r@.names =~= Seq::<IdView>::empty());
        assert(r@.ids =~= Seq::<u64>::empty());
        r
    }

    /// The id of a node of the batch.
    pub fn find(&self, name: &ExternalId) -> (r: Option<u64>)
        requires
            self@.wf(),
        ensures
            r == self@.id_of(name@),
    {
        let mut i: usize = 0;
        while i < self.names.len()
            invariant
                self@.wf(),
                i <= self.names.len(),
                forall|j: int| 0 <= j < i ==> #[trigger] self@.names[j] != name@,
            decreases self.names.len() - i,
        {
            assert(self@.names[i as int] == self.names@[i as int]@);
            if self.names[i].same(name) {
                proof {
                    let k = self@.names.index_of(name@);
                    assert(self@.names.contains(name@));
                    assert(self@.names[k] == name@);
                }
                return Some(self.ids[i]);
            }
            i = i + 1;
        }
        None
    }

    /// Accepts a node whose name is new and whose properties can be stored.
    pub fn accept_node(&self, name: &ExternalId, properties: &JsonProperties) -> (r: Result<
        Vec<(String, Value)>,
        String,
    >)
        requires
            self@.wf(),
        ensures
            if self@.names.contains(name@) {
                r matches Err(message) && message@ == duplicate_text(name@)
            } else {
                conversion_result(r) == all_converted(json_view(properties@), properties@.len())
            },
    {
        if self.find(name).is_some() {
            let shown = name.shown();
            return Err(concat2("duplicate node id ", shown.as_str()));
        }
        convert_properties(properties)
    }

    /// Takes note of a node that was created.
    pub fn record_node(&mut self, name: ExternalId, id: u64, vectors: usize)
        requires
            old(self)@.wf(),
            !old(self)@.names.contains(name@),
            old(self).stats.indexed_vectors + vectors <= usize::MAX,
        ensures
            final(self)@ == old(self)@.with_node(name@, id, vectors as nat),
            final(self)@.wf(),
    {
        let ghost before = self@;
        let ghost view = name@;
        let count: usize = self.names.len();
        self.names.push(name);
        self.ids.push(id);
        let now: usize = self.names.len();
        assert(now == count + 1);
        self.stats = AppendStats {
            nodes: now,
            edges: self.stats.edges,
            indexed_vectors: self.stats.indexed_vectors + vectors,
        };
        proof {
            assert(self@.names =~= before.names.push(view));
            assert(self@ =~= before.with_node(view, id, vectors as nat));
            assert(self@.names.no_duplicates()) by {
                assert forall|a: int, b: int|
                    0 <= a < self@.names.len() && 0 <= b < self@.names.len() && a
                        != b implies self@.names[a] != self@.names[b] by {
                    if a == before.names.len() {
                        assert(before.names[b] == self@.names[b]);
                    } else if b == before.names.len() {
                        assert(before.names[a] == self@.names[a]);
                    } else {
                        assert(before.names[a] == self@.names[a]);
                        assert(before.names[b] == self@.names[b]);
                    }
                }
            }
        }
    }

    /// Finds the node at an end of a relationship.
    pub fn resolve(&self, end: &Endpoint, existing: ExistingNode) -> (r: Result<u64, String>)
        requires
            self@.wf(),
        ensures
            end_result(r) == end_of(self@, *end, existing),
    {
        match end {
            Endpoint::Batch(name) => match self.find(name) {
                Some(id) => Ok(id),
                None => {
                    let shown = name.shown();
                    Err(
                        concat3(
                            "edge endpoint ",
                            shown.as_str(),
                            " does not name a node in this batch",
                        ),
                    )
                },
            },
            Endpoint::Existing { node } => match existing {
                ExistingNode::Unavailable => Err(
                    "existing node references require append-jsonl".to_owned(),
                ),
                ExistingNode::Missing => {
                    let shown = decimal_text(*node);
                    Err(concat3("existing node ", shown.as_str(), " was not found"))
                },
                ExistingNode::Found(id) => Ok(id),
            },
        }
    }

    /// Accepts a relationship whose ends are found, the source first, and
    /// whose properties can be stored.
    pub fn accept_edge(
        &self,
        source: &Endpoint,
        target: &Endpoint,
        source_found: ExistingNode,
        target_found: ExistingNode,
        properties: &JsonProperties,
    ) -> (r: Result<ResolvedEdge, String>)
        requires
            self@.wf(),
        ensures
            edge_result(r) == accepted_edge(
                self@,
                *source,
                *target,
                source_found,
                target_found,
                json_view(properties@),
            ),
    {
        let from: u64 = match self.resolve(source, source_found) {
            Ok(id) => id,
            Err(message) => {
                return Err(message);
            },
        };
        let to: u64 = match self.resolve(target, target_found) {
            Ok(id) => id,
            Err(message) => {
                return Err(message);
            },
        };
        match convert_properties(properties) {
            Ok(values) => Ok(ResolvedEdge { source: from, target: to, properties: values }),
            Err(message) => Err(message),
        }
    }

    /// Takes note of a relationship that was created.
    pub fn record_edge(&mut self, vectors: usize)
        requires
            old(self)@.wf(),
            old(self).stats.edges < usize::MAX,
            old(self).stats.indexed_vectors + vectors <= usize::MAX,
        ensures
            final(self)@ == old(self)@.with_edge(vectors as nat),
            final(self)@.wf(),
    {
        self.stats = AppendStats {
            nodes: self.stats.nodes,
            edges: self.stats.edges + 1,
            indexed_vectors: self.stats.indexed_vectors + vectors,
        };
    }
}

/// A name that was recorded is found under the id it was given, and recording
/// another name leaves it so.
pub proof fn law_recorded_nodes_are_found(
    batch: BatchView,
    name: IdView,
    id: u64,
    vectors: nat,
    other: IdView,
)
    requires
        batch.wf(),
        !batch.names.contains(name),
    ensures
        batch.with_node(name, id, vectors).id_of(name) == Some(id),
        other != name ==> batch.with_node(name, id, vectors).id_of(other) == batch.id_of(other),
{
    let now = batch.with_node(name, id, vectors);
    let last = batch.names.len() as int;
    assert(now.names[last] == name);
    let k = now.names.index_of(name);
    assert(now.names[k] == name);
    if k < last {
        assert(batch.names[k] == name);
    }
    if other != name {
        if batch.names.contains(other) {
            let i = batch.names.index_of(other);
            assert(batch.names[i] == other);
            assert(now.names[i] == other);
            let j = now.names.index_of(other);
            assert(now.names[j] == other);
            assert(j < last);
            assert(batch.names[j] == other);
            assert(i == j);
        } else if now.names.contains(other) {
            let j = choose|j: int| 0 <= j < now.names.len() && now.names[j] == other;
            assert(j < last);
            assert(batch.names[j] == other);
        }
    }
}

/// What is said of a line that is no record.
pub fn invalid_line(path: &str, line_number: usize, error: &str) -> (r: String)
    ensures
        r@ == path@ + ":"@ + digits::decimal(line_number as nat) + ": invalid JSON: "@ + error@,
{
    let shown = usize_text(line_number);
    concat5(path, ":", shown.as_str(), ": invalid JSON: ", error)
}

/// What is said of a line that was refused.
pub fn refused_line(path: &str, line_number: usize, error: &str) -> (r: String)
    ensures
        r@ == path@ + ":"@ + digits::decimal(line_number as nat) + ": "@ + error@,
{
    let shown = usize_text(line_number);
    concat5(path, ":", shown.as_str(), ": ", error)
}

/// Whether a line holds a record: a blank one does not.
pub fn is_record(line: &str) -> (r: bool)
    ensures
        r == !text::is_blank(line@),
{
    !text::text_is_blank(line)
}

/// The positions of the lines that hold a record: blank lines are passed over.
pub open spec fn record_lines(lines: Seq<Seq<char>>) -> Seq<int>
    decreases lines.len(),
{
    if lines.len() == 0 {
        Seq::empty()
    } else {
        let before = record_lines(lines.drop_last());
        if text::is_blank(lines.last()) {
            before
        } else {
            before.push(lines.len() - 1)
        }
    }
}

/// Finds the lines that hold a record, counted from zero.
pub fn find_records(lines: &Vec<String>) -> (r: Vec<usize>)
    ensures
        r@.map_values(|i: usize| i as int) == record_lines(text::views(lines@)),
{
    let ghost all = text::views(lines@);
    let mut out: Vec<usize> = Vec::new();
    let mut i: usize = 0;
    assert(all.take(0) =~= Seq::<Seq<char>>::empty());
    assert(out@.map_values(|i: usize| i as int) =~= record_lines(all.take(0)));
    while i < lines.len()
        invariant
            i <= lines.len(),
            all == text::views(lines@),
            out@.map_values(|i: usize| i as int) == record_lines(all.take(i as int)),
        decreases lines.len() - i,
    {
        assert(all.take(i + 1).drop_last() =~= all.take(i as int));
        assert(all.take(i + 1).last() == lines@[i as int]@);
        if is_record(lines[i].as_str()) {
            let ghost before = out@.map_values(|i: usize| i as int);
            out.push(i);
            assert(out@.map_values(|i: usize| i as int) =~= before.push(i as int));
        }
        i = i + 1;
    }
    assert(all.take(all.len() as int) =~= all);
    out
}

/// Accepts one more metadata record while there are vectors left.
pub fn accept_metadata(imported: usize, vector_count: usize, vectors_path: &str) -> (r: Result<
    (),
    String,
>)
    ensures
        match r {
            Ok(_) => imported != vector_count,
            Err(message) => imported == vector_count && message@
                == "metadata has more records than the "@ + digits::decimal(vector_count as nat)
                + " vectors in "@ + vectors_path@,
        },
{
    if imported == vector_count {
        let shown = usize_text(vector_count);
        return Err(
            concat4(
                "metadata has more records than the ",
                shown.as_str(),
                " vectors in ",
                vectors_path,
            ),
        );
    }
    Ok(())
}

/// Checks that every vector had its metadata record.
pub fn finish_metadata(
    imported: usize,
    vector_count: usize,
    metadata_path: &str,
    vectors_path: &str,
) -> (r: Result<(), String>)
    ensures
        match r {
            Ok(_) => imported == vector_count,
            Err(message) => imported != vector_count && message@ == metadata_path@ + " has "@
                + digits::decimal(imported as nat) + " metadata records but "@ + vectors_path@
                + " contains "@ + (digits::decimal(vector_count as nat) + " vectors"@),
        },
{
    if imported != vector_count {
        let first = usize_text(imported);
        let second = usize_text(vector_count);
        let head = concat6(
            metadata_path,
            " has ",
            first.as_str(),
            " metadata records but ",
            vectors_path,
            " contains ",
        );
        let tail = concat2(second.as_str(), " vectors");
        return Err(concat2(head.as_str(), tail.as_str()));
    }
    Ok(())
}

} // verus!
