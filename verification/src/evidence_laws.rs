//! What a path query asks for, and what its report shows.

use vstd::prelude::*;

use crate::evidence;
use crate::evidence::{EvidenceNodeView, EvidenceStepView, PathSearch};
use crate::graph::{Direction, EdgeId, GraphData, NodeId};
use crate::graph_laws;
use crate::snapshot_laws::shows_properties;
use crate::text;
use crate::text_laws;

verus! {

/// Whether a path query filters by relationship label: it names one that is
/// not blank.
pub open spec fn filters(label: Option<Seq<char>>) -> bool {
    label is Some && !text_laws::all_white(label->0)
}

/// Whether a node with the id is stored.
pub open spec fn stores(g: GraphData, id: NodeId) -> bool {
    exists|i: int| 0 <= i < g.nodes@.len() && (#[trigger] g.nodes@[i]).id == id
}

/// The request of a path query goes from the start of the query to its end, in
/// its direction and within its limits. Its label is the symbol spelled like
/// the filter without the white space around it, or none where the query does
/// not filter. A query is refused only for an end that is not stored or a
/// label that no symbol spells.
pub proof fn law_requests_follow_the_query(
    g: GraphData,
    start: NodeId,
    end: NodeId,
    direction: Direction,
    label: Option<Seq<char>>,
    max_hops: usize,
    max_expansions: usize,
)
    requires
        g.symbols@.len() <= u32::MAX,
    ensures
        match g.path_request(start, end, direction, label, max_hops, max_expansions) {
            Ok(request) => {
                &&& request.start == start
                &&& request.end == end
                &&& request.direction == direction
                &&& request.max_hops == max_hops
                &&& request.max_expansions == max_expansions
                &&& request.label is Some <==> filters(label)
                &&& request.label matches Some(symbol) ==> symbol < g.symbols@.len()
                    && g.symbols@[symbol as int]@ == text::trimmed(label->0)
                &&& stores(g, start)
                &&& stores(g, end)
            },
            Err(_) => {
                ||| !stores(g, start)
                ||| !stores(g, end)
                ||| filters(label) && forall|j: int|
                    0 <= j < g.symbols@.len() ==> (#[trigger] g.symbols@[j])@ != text::trimmed(
                        label->0,
                    )
            },
        },
{
    graph_laws::law_node_lookup_is_exact(g, start);
    graph_laws::law_node_lookup_is_exact(g, end);
    if let Some(l) = label {
        text_laws::law_blank_is_whitespace_alone(l);
        graph_laws::law_symbols_spell_their_names(g, text::trimmed(l), Seq::empty());
    }
}

/// Whether evidence shows the stored node of that id.
pub open spec fn shows_node(g: GraphData, node: EvidenceNodeView, id: NodeId) -> bool {
    exists|i: int|
        0 <= i < g.nodes@.len() && {
            let stored = #[trigger] g.nodes@[i];
            &&& stored.id == id
            &&& node.id == id
            &&& stored.label < g.symbols@.len() ==> node.label == g.symbols@[stored.label as int]@
            &&& node.vector_count == stored.vector_count
            &&& shows_properties(g, node.properties, stored.properties@)
            &&& g.property_text(stored.properties@, "title"@) matches Some(title) ==> node.title
                == text::truncated_text(title, 92)
        }
}

/// Evidence of a node shows the stored node: its label, its vectors, its
/// properties and its title; there is none only of a node that is not stored.
pub proof fn law_evidence_shows_the_stored_node(g: GraphData, id: NodeId)
    ensures
        match g.evidence_node(id) {
            Some(node) => shows_node(g, node, id),
            None => !stores(g, id),
        },
{
    graph_laws::law_node_lookup_is_exact(g, id);
    if let Some(i) = g.node_at(id) {
        let stored = g.nodes@[i];
        graph_laws::law_titles_prefer_the_title(g, stored.properties@);
        assert(stored.id == id);
    }
}

/// Whether a step shows the stored relationship of that id, walked from one
/// node to the other; it goes forward where it is walked the way that the
/// relationship is stored.
pub open spec fn shows_step(
    g: GraphData,
    step: EvidenceStepView,
    id: EdgeId,
    from: NodeId,
    to: NodeId,
) -> bool {
    exists|i: int|
        0 <= i < g.edges@.len() && {
            let stored = #[trigger] g.edges@[i];
            &&& stored.id == id
            &&& step.edge_id == id
            &&& step.from == from
            &&& step.to == to
            &&& step.forward <==> stored.source == from && stored.target == to
            &&& stored.label < g.symbols@.len() ==> step.label == g.symbols@[stored.label as int]@
            &&& step.vector_count == stored.vector_count
            &&& shows_properties(g, step.properties, stored.properties@)
        }
}

proof fn lemma_steps(g: GraphData, nodes: Seq<NodeId>, edges: Seq<EdgeId>, upto: nat)
    requires
        upto <= edges.len(),
        g.evidence_steps(nodes, edges, upto) is Ok,
    ensures
        ({
            let steps = g.evidence_steps(nodes, edges, upto)->Ok_0;
            &&& steps.len() == upto
            &&& forall|i: int|
                0 <= i < upto ==> shows_step(
                    g,
                    #[trigger] steps[i],
                    edges[i],
                    nodes[i],
                    nodes[i + 1],
                )
        }),
    decreases upto,
{
    if upto > 0 {
        lemma_steps(g, nodes, edges, (upto - 1) as nat);
        graph_laws::law_edge_lookup_is_exact(g, edges[upto - 1]);
        let before = g.evidence_steps(nodes, edges, (upto - 1) as nat)->Ok_0;
        let steps = g.evidence_steps(nodes, edges, upto)->Ok_0;
        let k = g.edge_at(edges[upto - 1])->0;
        assert(g.edges@[k].id == edges[upto - 1]);
        assert(shows_step(g, steps[upto - 1], edges[upto - 1], nodes[upto - 1], nodes[upto as int]));
        assert forall|i: int| 0 <= i < upto implies shows_step(
            g,
            #[trigger] steps[i],
            edges[i],
            nodes[i],
            nodes[i + 1],
        ) by {
            if i < upto - 1 {
                assert(steps[i] == before[i]);
            }
        }
    }
}

proof fn lemma_nodes(g: GraphData, ids: Seq<NodeId>, upto: nat)
    requires
        upto <= ids.len(),
        g.evidence_nodes(ids, upto) is Ok,
    ensures
        ({
            let nodes = g.evidence_nodes(ids, upto)->Ok_0;
            &&& nodes.len() == upto
            &&& forall|i: int| 0 <= i < upto ==> shows_node(g, #[trigger] nodes[i], ids[i])
        }),
    decreases upto,
{
    if upto > 0 {
        lemma_nodes(g, ids, (upto - 1) as nat);
        law_evidence_shows_the_stored_node(g, ids[upto - 1]);
    }
}

/// A shown path has the nodes and the relationships that the engine found, as
/// they are stored and in the engine's order.
pub proof fn law_paths_show_what_was_found(g: GraphData, nodes: Seq<NodeId>, edges: Seq<EdgeId>)
    requires
        g.evidence_path(nodes, edges) is Ok,
    ensures
        ({
            let path = g.evidence_path(nodes, edges)->Ok_0;
            &&& path.nodes.len() == nodes.len()
            &&& path.steps.len() == edges.len()
            &&& forall|i: int|
                0 <= i < nodes.len() ==> shows_node(g, #[trigger] path.nodes[i], nodes[i])
            &&& forall|i: int|
                0 <= i < edges.len() ==> shows_step(
                    g,
                    #[trigger] path.steps[i],
                    edges[i],
                    nodes[i],
                    nodes[i + 1],
                )
        }),
{
    lemma_nodes(g, nodes, nodes.len());
    lemma_steps(g, nodes, edges, edges.len());
}

proof fn lemma_nodes_succeed(g: GraphData, ids: Seq<NodeId>, upto: nat)
    requires
        upto <= ids.len(),
        forall|i: int| 0 <= i < upto ==> stores(g, #[trigger] ids[i]),
    ensures
        g.evidence_nodes(ids, upto) is Ok,
    decreases upto,
{
    if upto > 0 {
        lemma_nodes_succeed(g, ids, (upto - 1) as nat);
        law_evidence_shows_the_stored_node(g, ids[upto - 1]);
        assert(stores(g, ids[upto - 1]));
    }
}

proof fn lemma_steps_succeed(g: GraphData, nodes: Seq<NodeId>, edges: Seq<EdgeId>, upto: nat)
    requires
        upto <= edges.len(),
        forall|i: int|
            0 <= i < upto ==> exists|k: int|
                0 <= k < g.edges@.len() && (#[trigger] g.edges@[k]).id == #[trigger] edges[i],
    ensures
        g.evidence_steps(nodes, edges, upto) is Ok,
    decreases upto,
{
    if upto > 0 {
        lemma_steps_succeed(g, nodes, edges, (upto - 1) as nat);
        graph_laws::law_edge_lookup_is_exact(g, edges[upto - 1]);
        let id = edges[upto - 1];
        let k = choose|k: int| 0 <= k < g.edges@.len() && (#[trigger] g.edges@[k]).id == id;
        assert(g.edges@[k].id == id);
    }
}

/// The report on a path query is about its own ends, in its direction and
/// within its limit, and tells of the search what the engine told: it shows a
/// path where, and only where, the engine found one, and it is refused only
/// where the query, the search, or what was found is.
pub proof fn law_reports_answer_the_query(
    g: GraphData,
    start: NodeId,
    end: NodeId,
    direction: Direction,
    label: Option<Seq<char>>,
    max_hops: usize,
    max_expansions: usize,
    found: PathSearch,
    elapsed_ms: Seq<char>,
)
    ensures
        g.report(
            start,
            end,
            direction,
            label,
            max_hops,
            max_expansions,
            Ok(found),
            elapsed_ms,
        ) matches Ok(report) ==> {
            &&& shows_node(g, report.start, start)
            &&& shows_node(g, report.end, end)
            &&& report.direction == direction
            &&& report.max_hops == max_hops
            &&& report.strategy == found.strategy
            &&& report.termination == found.termination
            &&& report.visited_nodes == found.visited_nodes
            &&& report.start_expanded_nodes == found.start_expanded_nodes
            &&& report.end_expanded_nodes == found.end_expanded_nodes
            &&& report.expanded_nodes == found.expanded_nodes
            &&& report.examined_relationships == found.examined_relationships
            &&& report.elapsed_ms == elapsed_ms
            &&& report.relationship_label is Some <==> filters(label)
            &&& report.relationship_label matches Some(name) ==> name == text::trimmed(label->0)
            &&& report.path is Some <==> found.path is Some
            &&& found.path matches Some(p) ==> {
                let path = report.path->0;
                &&& path.nodes.len() == p.nodes@.len()
                &&& path.steps.len() == p.edges@.len()
                &&& forall|i: int|
                    0 <= i < p.nodes@.len() ==> shows_node(g, #[trigger] path.nodes[i], p.nodes@[i])
                &&& forall|i: int|
                    0 <= i < p.edges@.len() ==> shows_step(
                        g,
                        #[trigger] path.steps[i],
                        p.edges@[i],
                        p.nodes@[i],
                        p.nodes@[i + 1],
                    )
            }
        },
        stores(g, start) && stores(g, end) && !filters(label) && (found.path matches Some(p) ==> {
            &&& forall|i: int| 0 <= i < p.nodes@.len() ==> stores(g, #[trigger] p.nodes@[i])
            &&& forall|i: int|
                0 <= i < p.edges@.len() ==> exists|k: int|
                    0 <= k < g.edges@.len() && (#[trigger] g.edges@[k]).id
                        == #[trigger] p.edges@[i]
        }) ==> g.report(
            start,
            end,
            direction,
            label,
            max_hops,
            max_expansions,
            Ok(found),
            elapsed_ms,
        ) is Ok,
{
    graph_laws::law_node_lookup_is_exact(g, start);
    graph_laws::law_node_lookup_is_exact(g, end);
    law_evidence_shows_the_stored_node(g, start);
    law_evidence_shows_the_stored_node(g, end);
    if let Some(l) = label {
        text_laws::law_blank_is_whitespace_alone(l);
    }
    if let Some(p) = found.path {
        if g.evidence_path(p.nodes@, p.edges@) is Ok {
            law_paths_show_what_was_found(g, p.nodes@, p.edges@);
        }
        if (forall|i: int| 0 <= i < p.nodes@.len() ==> stores(g, #[trigger] p.nodes@[i])) && (
        forall|i: int|
            0 <= i < p.edges@.len() ==> exists|k: int|
                0 <= k < g.edges@.len() && (#[trigger] g.edges@[k]).id == #[trigger] p.edges@[i]) {
            lemma_nodes_succeed(g, p.nodes@, p.nodes@.len());
            lemma_steps_succeed(g, p.nodes@, p.edges@, p.edges@.len());
        }
    }
}

} // verus!
