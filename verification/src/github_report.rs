//! What the import of a repository embeds and prints.

use vstd::prelude::*;
use vstd::string::*;

use crate::digits;
use crate::digits::usize_text;
use crate::embedding_cache;
use crate::embedding_cache::CacheView;
use crate::engineering;
use crate::engineering::{EngineeringGraph, GraphNodeView, GraphView};
use crate::graph::GraphStats;
use crate::labels;
use crate::report;
use crate::report::{no_lines, push_count, push_entry};
use crate::text;
use crate::text::{concat2, concat4, concat6};

verus! {

/// Says that there is a file where the database would be written.
pub fn existing_destination(path: &str) -> (r: String)
    ensures
        r@ == "bulk-load destination already exists: "@ + path@,
{
    concat2("bulk-load destination already exists: ", path)
}

/// What is said before texts are embedded.
pub open spec fn notice_text(texts: nat, nodes: nat, edges: nat, embedder: Seq<char>) -> Seq<char> {
    "embedding "@ + digits::decimal(texts) + " node/relationship payloads for "@
        + digits::decimal(nodes) + " nodes and "@ + digits::decimal(edges) + (" edges with "@
        + embedder)
}

/// Says what is embedded.
pub fn embedding_notice(graph: &EngineeringGraph, embedder: &str) -> (r: String)
    ensures
        r@ == notice_text(
            graph@.texts().len(),
            graph@.nodes.len(),
            graph@.edges.len(),
            embedder@,
        ),
{
    let texts = usize_text(graph.embedding_text_count());
    let nodes = usize_text(graph.nodes.len());
    let edges = usize_text(graph.edges.len());
    let head = concat6(
        "embedding ",
        texts.as_str(),
        " node/relationship payloads for ",
        nodes.as_str(),
        " nodes and ",
        edges.as_str(),
    );
    let tail = concat2(" edges with ", embedder);
    concat2(head.as_str(), tail.as_str())
}

/// What the import of a repository came to.
#[derive(Debug)]
pub struct ImportSummary {
    pub database: String,
    pub owner: String,
    pub name: String,
    pub cache: String,
    pub issues: usize,
    pub pull_requests: usize,
    pub discussions: usize,
    pub releases: usize,
    pub stats: GraphStats,
    pub embedder: String,
    pub embedded_texts: usize,
    pub elapsed_ms: u64,
}

/// The lines of counted labels.
pub open spec fn label_entries(prefix: Seq<char>, counts: Seq<(Seq<char>, usize)>) -> Seq<Seq<char>> {
    Seq::new(
        counts.len(),
        |i: int| report::count(prefix + counts[i].0, counts[i].1 as int),
    )
}

fn push_labels(lines: &mut Vec<String>, prefix: &str, counts: &Vec<(String, usize)>)
    ensures
        text::views(final(lines)@) == text::views(old(lines)@) + label_entries(
            prefix@,
            labels::counts_view(counts@),
        ),
{
    let ghost wanted = label_entries(prefix@, labels::counts_view(counts@));
    let ghost start = text::views(lines@);
    let mut i: usize = 0;
    assert(start + wanted.take(0) =~= start);
    while i < counts.len()
        invariant
            i <= counts@.len(),
            wanted == label_entries(prefix@, labels::counts_view(counts@)),
            text::views(lines@) == start + wanted.take(i as int),
        decreases counts@.len() - i,
    {
        let key = concat2(prefix, counts[i].0.as_str());
        push_count(lines, key.as_str(), counts[i].1 as u64);
        proof {
            assert(wanted[i as int] == report::count(
                prefix@ + counts@[i as int].0@,
                counts@[i as int].1 as int,
            ));
            assert(start + wanted.take(i + 1) =~= (start + wanted.take(i as int)).push(
                wanted[i as int],
            ));
        }
        i = i + 1;
    }
    assert(wanted.take(wanted.len() as int) =~= wanted);
}

/// What is printed of the import of a repository, before its labels.
pub open spec fn summary_entries(summary: ImportSummary) -> Seq<Seq<char>> {
    seq![
        report::entry("database"@, summary.database@),
        report::entry(
            "source"@,
            "https://github.com/"@ + summary.owner@ + "/"@ + summary.name@,
        ),
        report::entry("cache"@, summary.cache@),
        report::count("issues"@, summary.issues as int),
        report::count("pull_requests"@, summary.pull_requests as int),
        report::count("discussions"@, summary.discussions as int),
        report::count("releases"@, summary.releases as int),
        report::count("nodes"@, summary.stats.nodes as int),
        report::count("edges"@, summary.stats.edges as int),
        report::count("vectors"@, summary.stats.indexed_vectors as int),
        report::entry("embedder"@, summary.embedder@),
        report::count("unique_embedding_texts"@, summary.embedded_texts as int),
        report::count("elapsed_ms"@, summary.elapsed_ms as int),
    ]
}

/// Prints the import of a repository.
pub fn github_lines(summary: &ImportSummary, graph: &EngineeringGraph) -> (r: Vec<String>)
    ensures
        text::views(r@) == summary_entries(*summary) + label_entries(
            "node_label."@,
            labels::counts_by_label(graph@.node_labels()),
        ) + label_entries("edge_label."@, labels::counts_by_label(graph@.edge_labels())),
{
    let mut lines = no_lines();
    let source = concat4(
        "https://github.com/",
        summary.owner.as_str(),
        "/",
        summary.name.as_str(),
    );
    push_entry(&mut lines, "database", summary.database.as_str());
    push_entry(&mut lines, "source", source.as_str());
    push_entry(&mut lines, "cache", summary.cache.as_str());
    push_count(&mut lines, "issues", summary.issues as u64);
    push_count(&mut lines, "pull_requests", summary.pull_requests as u64);
    push_count(&mut lines, "discussions", summary.discussions as u64);
    push_count(&mut lines, "releases", summary.releases as u64);
    push_count(&mut lines, "nodes", summary.stats.nodes as u64);
    push_count(&mut lines, "edges", summary.stats.edges as u64);
    push_count(&mut lines, "vectors", summary.stats.indexed_vectors as u64);
    push_entry(&mut lines, "embedder", summary.embedder.as_str());
    push_count(&mut lines, "unique_embedding_texts", summary.embedded_texts as u64);
    push_count(&mut lines, "elapsed_ms", summary.elapsed_ms);
    assert(text::views(lines@) =~= summary_entries(*summary));
    let nodes = graph.node_label_counts();
    push_labels(&mut lines, "node_label.", &nodes);
    let edges = graph.edge_label_counts();
    push_labels(&mut lines, "edge_label.", &edges);
    lines
}

proof fn lemma_node_texts_are_listed(nodes: Seq<GraphNodeView>, upto: nat, i: int, j: int)
    requires
        0 <= i < upto <= nodes.len(),
        0 <= j < nodes[i].embedding_texts.len(),
    ensures
        engineering::node_texts(nodes, upto).contains(nodes[i].embedding_texts[j]),
    decreases upto,
{
    let before = engineering::node_texts(nodes, (upto - 1) as nat);
    let last = nodes[upto - 1].embedding_texts;
    let whole = engineering::node_texts(nodes, upto);
    assert(whole == before + last);
    if i == upto - 1 {
        assert(whole[before.len() + j] == nodes[i].embedding_texts[j]);
    } else {
        lemma_node_texts_are_listed(nodes, (upto - 1) as nat, i, j);
        let k = choose|k: int|
            0 <= k < before.len() && before[k] == nodes[i].embedding_texts[j];
        assert(whole[k] == nodes[i].embedding_texts[j]);
    }
}

/// Once the texts of a graph that a cache lacks are embedded and kept, every
/// text of every node and relationship has its vector: loading the graph
/// never finds one missing.
pub proof fn law_prepared_graph_is_embedded(
    graph: GraphView,
    cache: CacheView,
    given: Seq<Seq<u32>>,
)
    requires
        given.len() == embedding_cache::unknown(cache.texts, graph.texts()).len(),
    ensures
        ({
            let now = cache.with(
                embedding_cache::unknown(cache.texts, graph.texts()),
                given,
            );
            &&& forall|i: int, j: int|
                0 <= i < graph.nodes.len() && 0 <= j < graph.nodes[i].embedding_texts.len()
                    ==> now.texts.contains(#[trigger] graph.nodes[i].embedding_texts[j])
            &&& forall|e: int|
                0 <= e < graph.edges.len() ==> now.texts.contains(
                    (#[trigger] graph.edges[e]).embedding_text,
                )
        }),
{
    let texts = graph.texts();
    let missing = embedding_cache::unknown(cache.texts, texts);
    let now = cache.with(missing, given);
    let listed = engineering::node_texts(graph.nodes, graph.nodes.len());
    embedding_cache::law_texts_are_embedded_once(cache.texts, texts);
    assert forall|t: Seq<char>| #[trigger] texts.contains(t) implies now.texts.contains(t) by {
        let k = choose|k: int| 0 <= k < texts.len() && texts[k] == t;
        if cache.texts.contains(texts[k]) {
            let at = choose|at: int| 0 <= at < cache.texts.len() && cache.texts[at] == t;
            assert(now.texts[at] == t);
        } else {
            let at = choose|at: int| 0 <= at < missing.len() && missing[at] == t;
            assert(now.texts[cache.texts.len() + at] == t);
        }
    }
    assert forall|i: int, j: int|
        0 <= i < graph.nodes.len() && 0 <= j < graph.nodes[i].embedding_texts.len() implies
        now.texts.contains(#[trigger] graph.nodes[i].embedding_texts[j]) by {
        lemma_node_texts_are_listed(graph.nodes, graph.nodes.len(), i, j);
        let text = graph.nodes[i].embedding_texts[j];
        let k = choose|k: int| 0 <= k < listed.len() && listed[k] == text;
        assert(texts[k] == text);
        assert(texts.contains(text));
    }
    assert forall|e: int| 0 <= e < graph.edges.len() implies now.texts.contains(
        (#[trigger] graph.edges[e]).embedding_text,
    ) by {
        assert(texts[listed.len() + e] == graph.edges[e].embedding_text);
        assert(texts.contains(graph.edges[e].embedding_text));
    }
}

} // verus!
