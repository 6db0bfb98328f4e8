//! What printed lines tell of the elements they are about.

use vstd::prelude::*;
use vstd::string::*;

use crate::digits;
use crate::graph::{EdgeRecord, ElementRef, GraphData, NodeRecord};
use crate::graph_laws;
use crate::report;
use crate::report::PrintoutView;
use crate::report_hits;
use crate::report_hits::{PatternMatch, ScoredElement, SemanticHit};

verus! {

/// Whether the graph has a record of the element.
pub open spec fn recorded(g: GraphData, element: ElementRef) -> bool {
    match element {
        ElementRef::Node(id) => exists|i: int|
            0 <= i < g.nodes@.len() && (#[trigger] g.nodes@[i]).id == id,
        ElementRef::Edge(id) => exists|i: int|
            0 <= i < g.edges@.len() && (#[trigger] g.edges@[i]).id == id,
    }
}

proof fn lemma_recorded(g: GraphData, id: u64)
    ensures
        g.node_at(id) is Some <==> recorded(g, ElementRef::Node(id)),
        g.edge_at(id) is Some <==> recorded(g, ElementRef::Edge(id)),
{
    graph_laws::law_node_lookup_is_exact(g, id);
    graph_laws::law_edge_lookup_is_exact(g, id);
    if let Some(i) = g.node_at(id) {
        assert(g.nodes@[i].id == id);
    }
    if let Some(i) = g.edge_at(id) {
        assert(g.edges@[i].id == id);
    }
}

proof fn lemma_prefix(head: Seq<char>, tail: Seq<char>)
    ensures
        head.is_prefix_of(head + tail),
        tail.is_suffix_of(head + tail),
{
    assert((head + tail).subrange(0, head.len() as int) =~= head);
    assert((head + tail).subrange(head.len() as int, (head + tail).len() as int) =~= tail);
}

/// A search result is printed with its score, its kind and its id; a
/// relationship also with the nodes that it leads from and to. It is refused
/// exactly where the graph has no record of it.
pub proof fn law_results_are_printed(g: GraphData, score: Seq<char>, element: ElementRef)
    ensures
        report_hits::hit_entry(g, score, element) is Ok <==> recorded(g, element),
        report_hits::hit_entry(g, score, element) matches Ok(line) ==> match element {
            ElementRef::Node(id) => (score + "\tnode\t"@ + digits::decimal(
                id as nat,
            )).is_prefix_of(line),
            ElementRef::Edge(id) => {
                &&& (score + "\tedge\t"@ + digits::decimal(id as nat)).is_prefix_of(line)
                &&& exists|i: int|
                    0 <= i < g.edges@.len() && (#[trigger] g.edges@[i]).id == id && (
                    digits::decimal(g.edges@[i].source as nat) + " -> "@ + digits::decimal(
                        g.edges@[i].target as nat,
                    )).is_suffix_of(line)
            },
        },
{
    match element {
        ElementRef::Node(id) => {
            lemma_recorded(g, id);
            graph_laws::law_node_lookup_is_exact(g, id);
            if let Some(i) = g.node_at(id) {
                let head = score + "\tnode\t"@ + digits::decimal(id as nat);
                let tail = "\t"@ + g.symbol_or(g.nodes@[i].label, "?"@) + "\t"@ + g.concise(
                    g.nodes@[i].properties@,
                    GraphData::concise_keys(),
                );
                lemma_prefix(head, tail);
                assert(report_hits::hit_entry(g, score, element)->Ok_0 =~= head + tail);
            }
        },
        ElementRef::Edge(id) => {
            lemma_recorded(g, id);
            graph_laws::law_edge_lookup_is_exact(g, id);
            if let Some(i) = g.edge_at(id) {
                let head = score + "\tedge\t"@ + digits::decimal(id as nat);
                let middle = "\t"@ + g.symbol_or(g.edges@[i].label, "?"@) + "\t"@;
                let ends = digits::decimal(g.edges@[i].source as nat) + " -> "@ + digits::decimal(
                    g.edges@[i].target as nat,
                );
                lemma_prefix(head, middle + ends);
                lemma_prefix(head + middle, ends);
                let line = report_hits::hit_entry(g, score, element)->Ok_0;
                assert(line =~= head + (middle + ends));
                assert(line =~= (head + middle) + ends);
                assert(g.edges@[i].id == id);
            }
        },
    }
}

/// A listing holds a line for every result, in order, up to the first that
/// cannot be printed; that one is what it ends by.
pub proof fn law_listings_are_complete(
    before: PrintoutView,
    g: GraphData,
    hits: Seq<ScoredElement>,
    upto: nat,
    whole: nat,
)
    requires
        before.failure is None,
        whole <= upto <= hits.len(),
        forall|k: int| 0 <= k < whole ==> recorded(g, (#[trigger] hits[k]).element),
        whole < upto ==> !recorded(g, hits[whole as int].element),
    ensures
        ({
            let printed = report_hits::with_hits(before, g, hits, upto);
            &&& printed.lines.len() == before.lines.len() + whole
            &&& printed.failure is Some <==> whole < upto
            &&& forall|k: int|
                0 <= k < before.lines.len() ==> #[trigger] printed.lines[k] == before.lines[k]
            &&& forall|k: int|
                0 <= k < whole ==> report_hits::hit_entry(
                    g,
                    (#[trigger] hits[k]).score@,
                    hits[k].element,
                ) == Ok::<Seq<char>, Seq<char>>(printed.lines[before.lines.len() + k])
        }),
    decreases upto,
{
    if upto > 0 {
        let last = upto - 1;
        let earlier = report_hits::with_hits(before, g, hits, last as nat);
        let printed = report_hits::with_hits(before, g, hits, upto);
        law_results_are_printed(g, hits[last].score@, hits[last].element);
        if whole == upto {
            law_listings_are_complete(before, g, hits, last as nat, last as nat);
            assert(recorded(g, hits[last].element));
            assert forall|k: int| 0 <= k < whole implies report_hits::hit_entry(
                g,
                (#[trigger] hits[k]).score@,
                hits[k].element,
            ) == Ok::<Seq<char>, Seq<char>>(printed.lines[before.lines.len() + k]) by {
                if k < last {
                    assert(printed.lines[before.lines.len() + k] == earlier.lines[before.lines.len()
                        + k]);
                }
            }
        } else {
            law_listings_are_complete(before, g, hits, last as nat, whole);
        }
    }
}

/// A relationship is printed from its source to its target.
pub proof fn law_neighbors_are_printed(g: GraphData, edges: Seq<EdgeRecord>, i: int)
    requires
        0 <= i < edges.len(),
    ensures
        report::neighbor_entries(g, edges).len() == edges.len(),
        (digits::decimal(edges[i].id as nat) + "\t"@ + digits::decimal(
            edges[i].source as nat,
        )).is_prefix_of(report::neighbor_entries(g, edges)[i]),
        ("]-> "@ + digits::decimal(edges[i].target as nat)).is_suffix_of(
            report::neighbor_entries(g, edges)[i],
        ),
{
    let line = report::neighbor_entry(g, edges[i]);
    let head = digits::decimal(edges[i].id as nat) + "\t"@ + digits::decimal(
        edges[i].source as nat,
    );
    let middle = " -[:"@ + g.symbol_or(edges[i].label, "?"@);
    let tail = "]-> "@ + digits::decimal(edges[i].target as nat);
    lemma_prefix(head, middle + tail);
    lemma_prefix(head + middle, tail);
    assert(line =~= head + (middle + tail));
    assert(line =~= (head + middle) + tail);
}

/// A step of a printed path leads from one node of the path to the next, by
/// the relationship between them.
pub proof fn law_steps_are_printed(g: GraphData, nodes: Seq<u64>, edges: Seq<u64>, step: nat)
    requires
        0 < step < nodes.len(),
        step <= edges.len(),
    ensures
        report::step_entry(g, nodes, edges, step) is Ok <==> recorded(
            g,
            ElementRef::Edge(edges[step - 1]),
        ),
        report::step_entry(g, nodes, edges, step) matches Ok(line) ==> {
            &&& ("step\t"@ + digits::decimal(step) + "\t"@ + digits::decimal(
                nodes[step - 1] as nat,
            ) + "\t"@ + digits::decimal(edges[step - 1] as nat)).is_prefix_of(line)
            &&& ("\t"@ + digits::decimal(nodes[step as int] as nat)).is_suffix_of(line)
        },
{
    lemma_recorded(g, edges[step - 1]);
    if let Some(i) = g.edge_at(edges[step - 1]) {
        let line = report::step_entry(g, nodes, edges, step)->Ok_0;
        let head = "step\t"@ + digits::decimal(step) + "\t"@ + digits::decimal(
            nodes[step - 1] as nat,
        ) + "\t"@ + digits::decimal(edges[step - 1] as nat);
        let middle = "\t"@ + g.symbol_or(g.edges@[i].label, "?"@);
        let tail = "\t"@ + digits::decimal(nodes[step as int] as nat);
        lemma_prefix(head, middle + tail);
        lemma_prefix(head + middle, tail);
        assert(line =~= head + (middle + tail));
        assert(line =~= (head + middle) + tail);
    }
}

proof fn lemma_properties(g: GraphData, node: NodeRecord, upto: nat)
    requires
        upto <= node.properties@.len(),
    ensures
        report::property_entries(g, node, upto).len() == upto,
        forall|k: int|
            0 <= k < upto ==> (#[trigger] report::property_entries(g, node, upto)[k]) == "  "@
                + g.symbol_or(node.properties@[k].key, "?"@) + " = "@ + g.displayed(
                node.properties@[k].value@,
            ),
    decreases upto,
{
    if upto > 0 {
        lemma_properties(g, node, (upto - 1) as nat);
    }
}

/// A node is printed with its id and its label, one line for each of its
/// properties, and the number of its vectors; an unknown node is refused.
pub proof fn law_nodes_are_printed(g: GraphData, id: u64)
    ensures
        report::node_entries(g, id) is Ok <==> recorded(g, ElementRef::Node(id)),
        report::node_entries(g, id) matches Ok(lines) ==> exists|i: int|
            0 <= i < g.nodes@.len() && (#[trigger] g.nodes@[i]).id == id && {
                let node = g.nodes@[i];
                &&& lines.len() == node.properties@.len() + 2
                &&& lines[0] == "node "@ + digits::decimal(id as nat) + " :"@ + g.symbol_or(
                    node.label,
                    "?"@,
                )
                &&& lines.last() == "  vectors = "@ + digits::decimal(node.vector_count as nat)
                &&& forall|k: int|
                    0 <= k < node.properties@.len() ==> ("  "@ + g.symbol_or(
                        (#[trigger] node.properties@[k]).key,
                        "?"@,
                    ) + " = "@).is_prefix_of(lines[k + 1]) && g.displayed(
                        node.properties@[k].value@,
                    ).is_suffix_of(lines[k + 1])
            },
{
    lemma_recorded(g, id);
    graph_laws::law_node_lookup_is_exact(g, id);
    if let Some(i) = g.node_at(id) {
        let node = g.nodes@[i];
        let lines = report::node_entries(g, id)->Ok_0;
        lemma_properties(g, node, node.properties@.len());
        let inner = report::property_entries(g, node, node.properties@.len());
        assert forall|k: int| 0 <= k < node.properties@.len() implies ("  "@ + g.symbol_or(
            (#[trigger] node.properties@[k]).key,
            "?"@,
        ) + " = "@).is_prefix_of(lines[k + 1]) && g.displayed(
            node.properties@[k].value@,
        ).is_suffix_of(lines[k + 1]) by {
            assert(lines[k + 1] == inner[k]);
            lemma_prefix(
                "  "@ + g.symbol_or(node.properties@[k].key, "?"@) + " = "@,
                g.displayed(node.properties@[k].value@),
            );
        }
        assert(g.nodes@[i].id == id);
    }
}

proof fn lemma_pattern_node(g: GraphData, id: u64, node: NodeRecord)
    ensures
        (digits::decimal(id as nat) + ":"@).is_prefix_of(report_hits::pattern_node(g, id, node)),
{
    let head = digits::decimal(id as nat) + ":"@;
    let said = report_hits::pattern_node(g, id, node);
    assert(said.subrange(0, head.len() as int) =~= head);
}

proof fn lemma_pattern_edge(g: GraphData, id: u64, edge: EdgeRecord)
    ensures
        (" -["@ + digits::decimal(id as nat) + ":"@).is_prefix_of(
            report_hits::pattern_edge(g, id, edge),
        ),
{
    let head = " -["@ + digits::decimal(id as nat) + ":"@;
    let said = report_hits::pattern_edge(g, id, edge);
    assert(said.subrange(0, head.len() as int) =~= head);
}

/// Whether a line tells of a start, a relationship and an end, in this order.
pub open spec fn tells_pattern(
    line: Seq<char>,
    start: Seq<char>,
    edge: Seq<char>,
    end: Seq<char>,
    found: PatternMatch,
) -> bool {
    &&& line == start + edge + end
    &&& (digits::decimal(found.start as nat) + ":"@).is_prefix_of(start)
    &&& (" -["@ + digits::decimal(found.edge as nat) + ":"@).is_prefix_of(edge)
    &&& (digits::decimal(found.end as nat) + ":"@).is_prefix_of(end)
}

/// A pattern is printed from its start over its relationship to its end, and
/// refused exactly where one of the three is gone.
pub proof fn law_patterns_are_printed(g: GraphData, found: PatternMatch)
    ensures
        report_hits::pattern_entry(g, found) is Ok <==> recorded(g, ElementRef::Node(found.start))
            && recorded(g, ElementRef::Edge(found.edge)) && recorded(
            g,
            ElementRef::Node(found.end),
        ),
        report_hits::pattern_entry(g, found) matches Ok(line) ==> exists|
            start: Seq<char>,
            edge: Seq<char>,
            end: Seq<char>,
        | #[trigger] tells_pattern(line, start, edge, end, found),
{
    lemma_recorded(g, found.start);
    lemma_recorded(g, found.edge);
    lemma_recorded(g, found.end);
    if report_hits::pattern_entry(g, found) is Ok {
        let line = report_hits::pattern_entry(g, found)->Ok_0;
        let s = g.nodes@[g.node_at(found.start)->0];
        let e = g.edges@[g.edge_at(found.edge)->0];
        let t = g.nodes@[g.node_at(found.end)->0];
        lemma_pattern_node(g, found.start, s);
        lemma_pattern_edge(g, found.edge, e);
        lemma_pattern_node(g, found.end, t);
        assert(tells_pattern(
            line,
            report_hits::pattern_node(g, found.start, s),
            report_hits::pattern_edge(g, found.edge, e),
            report_hits::pattern_node(g, found.end, t),
            found,
        ));
    }
}

/// A semantic result is printed with its seed, its node and the number of its
/// hops, and left out exactly where its node is gone.
pub proof fn law_semantic_results_are_printed(g: GraphData, hit: SemanticHit)
    ensures
        report_hits::semantic_entry(g, hit) is Some <==> recorded(g, ElementRef::Node(hit.node)),
        report_hits::semantic_entry(g, hit) matches Some(line) ==> (hit.score@ + "\tseed="@
            + digits::decimal(hit.seed as nat) + "\tnode="@ + digits::decimal(hit.node as nat)
            + "\thops="@ + digits::decimal(hit.path@.len())).is_prefix_of(line),
{
    lemma_recorded(g, hit.node);
    if let Some(line) = report_hits::semantic_entry(g, hit) {
        let head = hit.score@ + "\tseed="@ + digits::decimal(hit.seed as nat) + "\tnode="@
            + digits::decimal(hit.node as nat) + "\thops="@ + digits::decimal(hit.path@.len());
        assert(line.subrange(0, head.len() as int) =~= head);
    }
}

/// A range lists its nodes before its relationships, as many as fit the limit,
/// and counts all of them.
pub proof fn law_ranges_list_nodes_first(
    strategy: Seq<char>,
    bound: u64,
    elapsed_ms: Seq<char>,
    nodes: Seq<u64>,
    edges: Seq<u64>,
    limit: nat,
    k: int,
)
    requires
        0 <= k,
    ensures
        ({
            let lines = report_hits::numeric_range_entries(
                strategy,
                bound,
                elapsed_ms,
                nodes,
                edges,
                limit,
            );
            let all = nodes.len() + edges.len();
            &&& lines.len() == 4 + if all <= limit { all } else { limit }
            &&& lines[2] == "matches"@ + "\t"@ + digits::decimal(all)
            &&& k < nodes.len() && k < limit ==> lines[4 + k] == "node"@ + "\t"@ + digits::decimal(
                nodes[k] as nat,
            )
            &&& k < edges.len() && nodes.len() + k < limit ==> lines[4 + nodes.len() + k] == "edge"@
                + "\t"@ + digits::decimal(edges[k] as nat)
        }),
{
}

} // verus!
