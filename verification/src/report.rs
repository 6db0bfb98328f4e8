//! What commands print, line by line, from what the engine answered.
//!
//! Scores and times come as text; everything else is written here.

use vstd::prelude::*;
use vstd::string::*;

use crate::commands::{VectorEncoding, VectorTarget};
use crate::digits;
use crate::digits::decimal_text;
use crate::evidence::{EvidencePathStrategy, EvidencePathTermination, PathSearch};
use crate::graph::{EdgeRecord, GraphData, GraphStats, NodeRecord};
use crate::text;
use crate::text::{concat2, concat3, concat4, concat5, concat6};

verus! {

/// A key and its value on a line.
pub open spec fn entry(key: Seq<char>, value: Seq<char>) -> Seq<char> {
    key + "\t"@ + value
}

/// A key and a number on a line.
pub open spec fn count(key: Seq<char>, n: int) -> Seq<char> {
    entry(key, digits::decimal(n as nat))
}

/// Adds a line.
pub(crate) fn push_line(lines: &mut Vec<String>, line: String)
    ensures
        text::views(final(lines)@) == text::views(old(lines)@).push(line@),
{
    let ghost before = text::views(lines@);
    let ghost view = line@;
    lines.push(line);
    assert(text::views(lines@) =~= before.push(view));
}

/// Adds a key and its value.
pub(crate) fn push_entry(lines: &mut Vec<String>, key: &str, value: &str)
    ensures
        text::views(final(lines)@) == text::views(old(lines)@).push(entry(key@, value@)),
{
    push_line(lines, concat3(key, "\t", value));
}

/// Adds a key and a number.
pub(crate) fn push_count(lines: &mut Vec<String>, key: &str, n: u64)
    ensures
        text::views(final(lines)@) == text::views(old(lines)@).push(count(key@, n as int)),
{
    let shown = decimal_text(n);
    push_line(lines, concat3(key, "\t", shown.as_str()));
}

/// No lines yet.
pub(crate) fn no_lines() -> (r: Vec<String>)
    ensures
        text::views(r@) == Seq::<Seq<char>>::empty(),
{
    let r: Vec<String> = Vec::new();
    assert(text::views(r@) =~= Seq::<Seq<char>>::empty());
    r
}

/// Lines, or the message in their place.
pub open spec fn lines_result(r: Result<Vec<String>, String>) -> Result<
    Seq<Seq<char>>,
    Seq<char>,
> {
    match r {
        Ok(lines) => Ok(text::views(lines@)),
        Err(message) => Err(message@),
    }
}

impl VectorEncoding {
    pub open spec fn name(self) -> Seq<char> {
        match self {
            VectorEncoding::F16 => "F16"@,
            VectorEncoding::F32 => "F32"@,
        }
    }

    /// What the encoding is called.
    pub fn label(self) -> (r: &'static str)
        ensures
            r@ == self.name(),
    {
        match self {
            VectorEncoding::F16 => "F16",
            VectorEncoding::F32 => "F32",
        }
    }
}

impl VectorTarget {
    pub open spec fn name(self) -> Seq<char> {
        match self {
            VectorTarget::Nodes => "Nodes"@,
            VectorTarget::Edges => "Edges"@,
            VectorTarget::Both => "Both"@,
        }
    }

    /// What the elements are called.
    pub fn label(self) -> (r: &'static str)
        ensures
            r@ == self.name(),
    {
        match self {
            VectorTarget::Nodes => "Nodes",
            VectorTarget::Edges => "Edges",
            VectorTarget::Both => "Both",
        }
    }
}

/// What is printed of an import.
pub open spec fn import_entries(stats: GraphStats) -> Seq<Seq<char>> {
    seq![
        count("nodes"@, stats.nodes as int),
        count("edges"@, stats.edges as int),
        count("vectors"@, stats.indexed_vectors as int),
    ]
}

/// Prints an import.
pub fn import_lines(stats: &GraphStats) -> (r: Vec<String>)
    ensures
        text::views(r@) == import_entries(*stats),
{
    let mut lines = no_lines();
    push_count(&mut lines, "nodes", stats.nodes as u64);
    push_count(&mut lines, "edges", stats.edges as u64);
    push_count(&mut lines, "vectors", stats.indexed_vectors as u64);
    assert(text::views(lines@) =~= import_entries(*stats));
    lines
}

/// Prints an import of vectors with metadata.
pub fn node_import_lines(stats: &GraphStats, dimension: usize) -> (r: Vec<String>)
    ensures
        text::views(r@) == seq![
            count("nodes"@, stats.nodes as int),
            count("vectors"@, stats.indexed_vectors as int),
            count("dimension"@, dimension as int),
        ],
{
    let mut lines = no_lines();
    push_count(&mut lines, "nodes", stats.nodes as u64);
    push_count(&mut lines, "vectors", stats.indexed_vectors as u64);
    push_count(&mut lines, "dimension", dimension as u64);
    assert(text::views(lines@) =~= seq![
        count("nodes"@, stats.nodes as int),
        count("vectors"@, stats.indexed_vectors as int),
        count("dimension"@, dimension as int),
    ]);
    lines
}

/// Prints an import of bare vectors.
pub fn vector_import_lines(
    database: &str,
    stats: &GraphStats,
    dimension: usize,
    elapsed_ms: &str,
) -> (r: Vec<String>)
    ensures
        text::views(r@) == seq![
            entry("database"@, database@),
            count("vectors"@, stats.indexed_vectors as int),
            count("dimension"@, dimension as int),
            entry("elapsed_ms"@, elapsed_ms@),
        ],
{
    let mut lines = no_lines();
    push_entry(&mut lines, "database", database);
    push_count(&mut lines, "vectors", stats.indexed_vectors as u64);
    push_count(&mut lines, "dimension", dimension as u64);
    push_entry(&mut lines, "elapsed_ms", elapsed_ms);
    assert(text::views(lines@) =~= seq![
        entry("database"@, database@),
        count("vectors"@, stats.indexed_vectors as int),
        count("dimension"@, dimension as int),
        entry("elapsed_ms"@, elapsed_ms@),
    ]);
    lines
}

/// Prints a compaction.
pub fn compact_lines(destination: &str, stats: &GraphStats, encoding: VectorEncoding) -> (r: Vec<
    String,
>)
    ensures
        text::views(r@) == seq![
            entry("database"@, destination@),
            count("nodes"@, stats.nodes as int),
            count("edges"@, stats.edges as int),
            count("vectors"@, stats.indexed_vectors as int),
            entry("vector_encoding"@, encoding.name()),
        ],
{
    let mut lines = no_lines();
    push_entry(&mut lines, "database", destination);
    push_count(&mut lines, "nodes", stats.nodes as u64);
    push_count(&mut lines, "edges", stats.edges as u64);
    push_count(&mut lines, "vectors", stats.indexed_vectors as u64);
    push_entry(&mut lines, "vector_encoding", encoding.label());
    assert(text::views(lines@) =~= seq![
        entry("database"@, destination@),
        count("nodes"@, stats.nodes as int),
        count("edges"@, stats.edges as int),
        count("vectors"@, stats.indexed_vectors as int),
        entry("vector_encoding"@, encoding.name()),
    ]);
    lines
}

/// Prints the size of a database.
pub fn stats_lines(
    path: &str,
    stats: &GraphStats,
    dimension: usize,
    similarity: &str,
    encoding: VectorEncoding,
) -> (r: Vec<String>)
    ensures
        text::views(r@) == seq![
            entry("path"@, path@),
            count("nodes"@, stats.nodes as int),
            count("edges"@, stats.edges as int),
            count("symbols"@, stats.labels as int),
            count("vectors"@, stats.indexed_vectors as int),
            count("transactions"@, stats.transactions as int),
            count("dimension"@, dimension as int),
            entry("similarity"@, similarity@),
            entry("vector_encoding"@, encoding.name()),
        ],
{
    let mut lines = no_lines();
    push_entry(&mut lines, "path", path);
    push_count(&mut lines, "nodes", stats.nodes as u64);
    push_count(&mut lines, "edges", stats.edges as u64);
    push_count(&mut lines, "symbols", stats.labels as u64);
    push_count(&mut lines, "vectors", stats.indexed_vectors as u64);
    push_count(&mut lines, "transactions", stats.transactions);
    push_count(&mut lines, "dimension", dimension as u64);
    push_entry(&mut lines, "similarity", similarity);
    push_entry(&mut lines, "vector_encoding", encoding.label());
    assert(text::views(lines@) =~= seq![
        entry("path"@, path@),
        count("nodes"@, stats.nodes as int),
        count("edges"@, stats.edges as int),
        count("symbols"@, stats.labels as int),
        count("vectors"@, stats.indexed_vectors as int),
        count("transactions"@, stats.transactions as int),
        count("dimension"@, dimension as int),
        entry("similarity"@, similarity@),
        entry("vector_encoding"@, encoding.name()),
    ]);
    lines
}

/// What an integrity check found.
#[derive(Clone, Copy, Debug)]
pub struct IntegrityReport {
    pub nodes: usize,
    pub edges: usize,
    pub indexed_vectors: usize,
    pub transactions: u64,
    pub vector_bytes_verified: u64,
    pub vector_checksum_blocks_verified: u64,
}

/// Prints an integrity check.
pub fn check_lines(report: &IntegrityReport, elapsed_ms: &str) -> (r: Vec<String>)
    ensures
        text::views(r@) == seq![
            entry("status"@, "ok"@),
            count("nodes"@, report.nodes as int),
            count("edges"@, report.edges as int),
            count("vectors"@, report.indexed_vectors as int),
            count("transactions"@, report.transactions as int),
            count("vector_bytes_verified"@, report.vector_bytes_verified as int),
            count(
                "vector_checksum_blocks_verified"@,
                report.vector_checksum_blocks_verified as int,
            ),
            entry("elapsed_ms"@, elapsed_ms@),
        ],
{
    let mut lines = no_lines();
    push_entry(&mut lines, "status", "ok");
    push_count(&mut lines, "nodes", report.nodes as u64);
    push_count(&mut lines, "edges", report.edges as u64);
    push_count(&mut lines, "vectors", report.indexed_vectors as u64);
    push_count(&mut lines, "transactions", report.transactions);
    push_count(&mut lines, "vector_bytes_verified", report.vector_bytes_verified);
    push_count(
        &mut lines,
        "vector_checksum_blocks_verified",
        report.vector_checksum_blocks_verified,
    );
    push_entry(&mut lines, "elapsed_ms", elapsed_ms);
    assert(text::views(lines@) =~= seq![
        entry("status"@, "ok"@),
        count("nodes"@, report.nodes as int),
        count("edges"@, report.edges as int),
        count("vectors"@, report.indexed_vectors as int),
        count("transactions"@, report.transactions as int),
        count("vector_bytes_verified"@, report.vector_bytes_verified as int),
        count("vector_checksum_blocks_verified"@, report.vector_checksum_blocks_verified as int),
        entry("elapsed_ms"@, elapsed_ms@),
    ]);
    lines
}

/// What is said of a name that the database does not know.
pub open spec fn unknown_symbol(kind: Seq<char>, name: Seq<char>) -> Seq<char> {
    "unknown "@ + kind + " "@ + text::spec_quoted(name)
}

/// Looks up a name in the database. `kind` says what it should name.
pub fn require_symbol(read: &GraphData, kind: &str, name: &str) -> (r: Result<u32, String>)
    ensures
        match r {
            Ok(symbol) => read.symbol_of(name@) == Some(symbol),
            Err(message) => read.symbol_of(name@) is None && message@ == unknown_symbol(
                kind@,
                name@,
            ),
        },
{
    match read.label_id(name) {
        Some(symbol) => Ok(symbol),
        None => {
            let shown = text::quoted(name);
            Err(concat4("unknown ", kind, " ", shown.as_str()))
        },
    }
}

/// Looks up a name that may be absent.
pub fn optional_symbol(read: &GraphData, kind: &str, name: &Option<String>) -> (r: Result<
    Option<u32>,
    String,
>)
    ensures
        match *name {
            None => r matches Ok(found) && found is None,
            Some(n) => match r {
                Ok(found) => found is Some && read.symbol_of(n@) == found,
                Err(message) => read.symbol_of(n@) is None && message@ == unknown_symbol(
                    kind@,
                    n@,
                ),
            },
        },
{
    match name {
        None => Ok(None),
        Some(n) => match require_symbol(read, kind, n.as_str()) {
            Ok(symbol) => Ok(Some(symbol)),
            Err(message) => Err(message),
        },
    }
}

/// What the engine plans for a vector search.
#[derive(Debug)]
pub struct SearchPlanReport {
    pub strategy: String,
    pub estimated_vectors: u64,
    pub estimated_floats: u64,
    pub candidate_vectors: u64,
}

/// The label that a command was given, or `*`.
pub open spec fn label_or_star(label: Option<Seq<char>>) -> Seq<char> {
    match label {
        Some(name) => name,
        None => "*"@,
    }
}

fn shown_label(label: &Option<String>) -> (r: String)
    ensures
        r@ == label_or_star(text::opt_view(*label)),
{
    match label {
        Some(name) => name.clone(),
        None => "*".to_owned(),
    }
}

/// Prints the plan of a vector search.
pub fn plan_lines(plan: &SearchPlanReport, target: VectorTarget, label: &Option<String>) -> (r: Vec<
    String,
>)
    ensures
        text::views(r@) == seq![
            entry("strategy"@, plan.strategy@),
            entry("target"@, target.name()),
            entry("label"@, label_or_star(text::opt_view(*label))),
            count("estimated_vectors"@, plan.estimated_vectors as int),
            count("estimated_floats"@, plan.estimated_floats as int),
            count("candidate_vectors"@, plan.candidate_vectors as int),
        ],
{
    let mut lines = no_lines();
    push_entry(&mut lines, "strategy", plan.strategy.as_str());
    push_entry(&mut lines, "target", target.label());
    let shown = shown_label(label);
    push_entry(&mut lines, "label", shown.as_str());
    push_count(&mut lines, "estimated_vectors", plan.estimated_vectors);
    push_count(&mut lines, "estimated_floats", plan.estimated_floats);
    push_count(&mut lines, "candidate_vectors", plan.candidate_vectors);
    assert(text::views(lines@) =~= seq![
        entry("strategy"@, plan.strategy@),
        entry("target"@, target.name()),
        entry("label"@, label_or_star(text::opt_view(*label))),
        count("estimated_vectors"@, plan.estimated_vectors as int),
        count("estimated_floats"@, plan.estimated_floats as int),
        count("candidate_vectors"@, plan.candidate_vectors as int),
    ]);
    lines
}

/// The lines of the first `upto` properties of a node.
pub open spec fn property_entries(read: GraphData, node: NodeRecord, upto: nat) -> Seq<Seq<char>>
    decreases upto,
{
    if upto == 0 {
        Seq::empty()
    } else {
        let property = node.properties@[upto - 1];
        property_entries(read, node, (upto - 1) as nat).push(
            "  "@ + read.symbol_or(property.key, "?"@) + " = "@ + read.displayed(property.value@),
        )
    }
}

/// What is printed of a node.
pub open spec fn node_entries(read: GraphData, id: u64) -> Result<Seq<Seq<char>>, Seq<char>> {
    match read.node_at(id) {
        None => Err("node not found"@),
        Some(i) => {
            let node = read.nodes@[i];
            Ok(
                (seq![
                    "node "@ + digits::decimal(node.id as nat) + " :"@ + read.symbol_or(
                        node.label,
                        "?"@,
                    ),
                ] + property_entries(read, node, node.properties@.len())).push(
                    "  vectors = "@ + digits::decimal(node.vector_count as nat),
                ),
            )
        },
    }
}

/// Prints a node.
pub fn node_lines(read: &GraphData, id: u64) -> (r: Result<Vec<String>, String>)
    ensures
        lines_result(r) == node_entries(*read, id),
{
    match read.node(id) {
        None => Err("node not found".to_owned()),
        Some(node) => {
            let mut lines = no_lines();
            let number = decimal_text(node.id);
            let label = read.symbol(node.label, "?");
            push_line(
                &mut lines,
                concat4("node ", number.as_str(), " :", label.as_str()),
            );
            let ghost first = text::views(lines@);
            let mut i: usize = 0;
            assert(first + property_entries(*read, *node, 0) =~= first);
            while i < node.properties.len()
                invariant
                    i <= node.properties.len(),
                    text::views(lines@) == first + property_entries(*read, *node, i as nat),
                decreases node.properties.len() - i,
            {
                let property = &node.properties[i];
                let key = read.symbol(property.key, "?");
                let value = read.display_value(&property.value);
                let ghost before = property_entries(*read, *node, i as nat);
                push_line(&mut lines, concat4("  ", key.as_str(), " = ", value.as_str()));
                assert(text::views(lines@) =~= first + property_entries(
                    *read,
                    *node,
                    (i + 1) as nat,
                ));
                i = i + 1;
            }
            let vectors = decimal_text(node.vector_count as u64);
            push_line(&mut lines, concat2("  vectors = ", vectors.as_str()));
            Ok(lines)
        },
    }
}

/// What is printed of a relationship of a node.
pub open spec fn neighbor_entry(read: GraphData, edge: EdgeRecord) -> Seq<char> {
    digits::decimal(edge.id as nat) + "\t"@ + digits::decimal(edge.source as nat) + " -[:"@
        + read.symbol_or(edge.label, "?"@) + "]-> "@ + digits::decimal(edge.target as nat)
}

/// What is printed of the relationships of a node.
pub open spec fn neighbor_entries(read: GraphData, edges: Seq<EdgeRecord>) -> Seq<Seq<char>> {
    edges.map_values(|e: EdgeRecord| neighbor_entry(read, e))
}

/// Prints the relationships of a node.
pub fn neighbor_lines(read: &GraphData, edges: &Vec<EdgeRecord>) -> (r: Vec<String>)
    ensures
        text::views(r@) == neighbor_entries(*read, edges@),
{
    let mut lines = no_lines();
    let mut i: usize = 0;
    assert(neighbor_entries(*read, edges@).take(0) =~= Seq::<Seq<char>>::empty());
    while i < edges.len()
        invariant
            i <= edges.len(),
            text::views(lines@) == neighbor_entries(*read, edges@).take(i as int),
        decreases edges.len() - i,
    {
        let edge = &edges[i];
        let id = decimal_text(edge.id);
        let source = decimal_text(edge.source);
        let label = read.symbol(edge.label, "?");
        let target = decimal_text(edge.target);
        let head = concat5(id.as_str(), "\t", source.as_str(), " -[:", label.as_str());
        push_line(&mut lines, concat3(head.as_str(), "]-> ", target.as_str()));
        assert(text::views(lines@) =~= neighbor_entries(*read, edges@).take(i + 1));
        i = i + 1;
    }
    assert(neighbor_entries(*read, edges@).take(edges@.len() as int) =~= neighbor_entries(
        *read,
        edges@,
    ));
    lines
}

impl EvidencePathStrategy {
    pub open spec fn name(self) -> Seq<char> {
        match self {
            EvidencePathStrategy::BreadthFirst => "BreadthFirst"@,
            EvidencePathStrategy::BidirectionalBreadthFirst => "BidirectionalBreadthFirst"@,
        }
    }

    /// What the strategy is called.
    pub fn label(self) -> (r: &'static str)
        ensures
            r@ == self.name(),
    {
        match self {
            EvidencePathStrategy::BreadthFirst => "BreadthFirst",
            EvidencePathStrategy::BidirectionalBreadthFirst => "BidirectionalBreadthFirst",
        }
    }
}

impl EvidencePathTermination {
    pub open spec fn name(self) -> Seq<char> {
        match self {
            EvidencePathTermination::Found => "Found"@,
            EvidencePathTermination::NotFoundWithinHops => "NotFoundWithinHops"@,
            EvidencePathTermination::ExpansionLimit => "ExpansionLimit"@,
        }
    }

    /// What the outcome is called.
    pub fn label(self) -> (r: &'static str)
        ensures
            r@ == self.name(),
    {
        match self {
            EvidencePathTermination::Found => "Found",
            EvidencePathTermination::NotFoundWithinHops => "NotFoundWithinHops",
            EvidencePathTermination::ExpansionLimit => "ExpansionLimit",
        }
    }
}

/// The work that a path search did.
pub open spec fn work_entries(search: PathSearch, elapsed_ms: Seq<char>) -> Seq<Seq<char>> {
    seq![
        entry("strategy"@, search.strategy.name()),
        entry("termination"@, search.termination.name()),
        count("visited_nodes"@, search.visited_nodes as int),
        count("start_expanded_nodes"@, search.start_expanded_nodes as int),
        count("end_expanded_nodes"@, search.end_expanded_nodes as int),
        count("expanded_nodes"@, search.expanded_nodes as int),
        count("examined_relationships"@, search.examined_relationships as int),
        entry("elapsed_ms"@, elapsed_ms),
    ]
}

/// What is printed: lines, and the failure that ends them, if any.
#[derive(Debug)]
pub struct Printout {
    pub lines: Vec<String>,
    pub failure: Option<String>,
}

/// The contents of what is printed.
#[verifier::ext_equal]
pub struct PrintoutView {
    pub lines: Seq<Seq<char>>,
    pub failure: Option<Seq<char>>,
}

impl View for Printout {
    type V = PrintoutView;

    open spec fn view(&self) -> PrintoutView {
        PrintoutView { lines: text::views(self.lines@), failure: text::opt_view(self.failure) }
    }
}

impl PrintoutView {
    /// What is printed when the given lines are followed by one more, or by a
    /// failure; after a failure nothing follows.
    pub open spec fn followed_by(self, next: Result<Seq<char>, Seq<char>>) -> PrintoutView {
        if self.failure is Some {
            self
        } else {
            match next {
                Ok(line) => PrintoutView { lines: self.lines.push(line), failure: None },
                Err(message) => PrintoutView { lines: self.lines, failure: Some(message) },
            }
        }
    }
}

impl Printout {
    /// Lines without a failure.
    pub(crate) fn of(lines: Vec<String>) -> (r: Printout)
        ensures
            r@ == (PrintoutView { lines: text::views(lines@), failure: None }),
    {
        Printout { lines, failure: None }
    }

    /// Adds a line, or the failure in its place.
    pub(crate) fn follow(&mut self, next: Result<String, String>)
        ensures
            final(self)@ == old(self)@.followed_by(
                match next {
                    Ok(line) => Ok(line@),
                    Err(message) => Err(message@),
                },
            ),
    {
        if self.failure.is_none() {
            match next {
                Ok(line) => {
                    push_line(&mut self.lines, line);
                },
                Err(message) => {
                    self.failure = Some(message);
                },
            }
        }
    }
}

/// The line of a step of a path, counted from one.
pub open spec fn step_entry(read: GraphData, nodes: Seq<u64>, edges: Seq<u64>, step: nat) -> Result<
    Seq<char>,
    Seq<char>,
> {
    match read.edge_at(edges[step - 1]) {
        None => Err("path relationship disappeared"@),
        Some(i) => Ok(
            "step\t"@ + digits::decimal(step) + "\t"@ + digits::decimal(nodes[step - 1] as nat)
                + "\t"@ + digits::decimal(edges[step - 1] as nat) + ("\t"@ + read.symbol_or(
                read.edges@[i].label,
                "?"@,
            ) + "\t"@ + digits::decimal(nodes[step as int] as nat)),
        ),
    }
}

/// What is printed once the first `upto` steps of a path have followed.
pub open spec fn with_steps(
    before: PrintoutView,
    read: GraphData,
    nodes: Seq<u64>,
    edges: Seq<u64>,
    upto: nat,
) -> PrintoutView
    decreases upto,
{
    if upto == 0 {
        before
    } else {
        with_steps(before, read, nodes, edges, (upto - 1) as nat).followed_by(
            step_entry(read, nodes, edges, upto),
        )
    }
}

/// How many steps of a path are printed: one for each relationship that has
/// a node on both sides.
pub open spec fn step_count(nodes: Seq<u64>, edges: Seq<u64>) -> nat {
    if nodes.len() == 0 {
        0
    } else if edges.len() < nodes.len() {
        edges.len()
    } else {
        (nodes.len() - 1) as nat
    }
}

/// What is printed of a path search.
pub open spec fn path_entries(
    read: GraphData,
    search: PathSearch,
    start: u64,
    elapsed_ms: Seq<char>,
) -> PrintoutView {
    let work = work_entries(search, elapsed_ms);
    match search.path {
        None => PrintoutView { lines: work, failure: None },
        Some(path) => {
            let steps = with_steps(
                PrintoutView {
                    lines: work.push(count("hops"@, path.edges@.len() as int)),
                    failure: None,
                },
                read,
                path.nodes@,
                path.edges@,
                step_count(path.nodes@, path.edges@),
            );
            if path.edges@.len() == 0 {
                steps.followed_by(Ok(count("node"@, start as int)))
            } else {
                steps
            }
        },
    }
}

fn work_lines(search: &PathSearch, elapsed_ms: &str) -> (r: Vec<String>)
    ensures
        text::views(r@) == work_entries(*search, elapsed_ms@),
{
    let mut lines = no_lines();
    push_entry(&mut lines, "strategy", search.strategy.label());
    push_entry(&mut lines, "termination", search.termination.label());
    push_count(&mut lines, "visited_nodes", search.visited_nodes as u64);
    push_count(&mut lines, "start_expanded_nodes", search.start_expanded_nodes as u64);
    push_count(&mut lines, "end_expanded_nodes", search.end_expanded_nodes as u64);
    push_count(&mut lines, "expanded_nodes", search.expanded_nodes as u64);
    push_count(&mut lines, "examined_relationships", search.examined_relationships as u64);
    push_entry(&mut lines, "elapsed_ms", elapsed_ms);
    assert(text::views(lines@) =~= work_entries(*search, elapsed_ms@));
    lines
}

fn step_line(read: &GraphData, nodes: &Vec<u64>, edges: &Vec<u64>, step: usize) -> (r: Result<
    String,
    String,
>)
    requires
        0 < step < nodes@.len(),
        step <= edges@.len(),
    ensures
        (match r {
            Ok(line) => Ok(line@),
            Err(message) => Err(message@),
        }) == step_entry(*read, nodes@, edges@, step as nat),
{
    match read.edge(edges[step - 1]) {
        None => Err("path relationship disappeared".to_owned()),
        Some(edge) => {
            let number = decimal_text(step as u64);
            let from = decimal_text(nodes[step - 1]);
            let id = decimal_text(edges[step - 1]);
            let label = read.symbol(edge.label, "?");
            let to = decimal_text(nodes[step]);
            let head = concat6(
                "step\t",
                number.as_str(),
                "\t",
                from.as_str(),
                "\t",
                id.as_str(),
            );
            let tail = concat4("\t", label.as_str(), "\t", to.as_str());
            Ok(concat2(head.as_str(), tail.as_str()))
        },
    }
}

/// Prints a path search.
pub fn path_lines(read: &GraphData, search: &PathSearch, start: u64, elapsed_ms: &str) -> (r:
    Printout)
    ensures
        r@ == path_entries(*read, *search, start, elapsed_ms@),
{
    let mut lines = work_lines(search, elapsed_ms);
    match &search.path {
        None => Printout::of(lines),
        Some(path) => {
            push_count(&mut lines, "hops", path.edges.len() as u64);
            let mut out = Printout::of(lines);
            let ghost head = out@;
            let steps: usize = if path.nodes.len() == 0 {
                0
            } else if path.edges.len() < path.nodes.len() {
                path.edges.len()
            } else {
                path.nodes.len() - 1
            };
            let mut i: usize = 0;
            while i < steps
                invariant
                    i <= steps,
                    steps == step_count(path.nodes@, path.edges@),
                    out@ == with_steps(head, *read, path.nodes@, path.edges@, i as nat),
                decreases steps - i,
            {
                i = i + 1;
                out.follow(step_line(read, &path.nodes, &path.edges, i));
            }
            if path.edges.len() == 0 {
                let number = decimal_text(start);
                out.follow(Ok(concat3("node", "\t", number.as_str())));
            }
            out
        },
    }
}

} // verus!
