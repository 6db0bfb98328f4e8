//! What a scene shows of a path that was injected into it.

use vstd::prelude::*;

use crate::enrich;
use crate::evidence::{EvidenceNodeView, EvidencePathView, EvidenceStepView};
use crate::scene;
use crate::scene::{Rect, SceneSnapshot, Vec2};

verus! {

proof fn lemma_first_node(nodes: Seq<EvidenceNodeView>, id: u64, from: int, k: int)
    requires
        0 <= from <= k < nodes.len(),
        nodes[k].id == id,
        forall|j: int| from <= j < k ==> (#[trigger] nodes[j]).id != id,
    ensures
        enrich::node_on_path(nodes, id, from) == Some(k),
    decreases k - from,
{
    if from < k {
        lemma_first_node(nodes, id, from + 1, k);
    }
}

proof fn lemma_first_step(steps: Seq<EvidenceStepView>, id: u64, from: int, k: int)
    requires
        0 <= from <= k < steps.len(),
        steps[k].edge_id == id,
        forall|j: int| from <= j < k ==> (#[trigger] steps[j]).edge_id != id,
    ensures
        enrich::step_on_path(steps, id, from) == Some(k),
    decreases k - from,
{
    if from < k {
        lemma_first_step(steps, id, from + 1, k);
    }
}

/// A relationship that a path brings into a scene leads the way it is stored:
/// as the step was walked where it was walked forwards, and the other way
/// round where it was walked backwards.
pub proof fn law_injected_relationships_lead_as_stored(
    s: SceneSnapshot,
    path: EvidencePathView,
    overview: Seq<Vec2>,
    path_positions: Seq<Vec2>,
    bounds: Rect,
    t: SceneSnapshot,
    k: int,
    e: int,
)
    requires
        s.is_enriched(path, overview, path_positions, bounds, t),
        0 <= k < path.steps.len(),
        forall|j: int| 0 <= j < k ==> (#[trigger] path.steps[j]).edge_id != path.steps[k].edge_id,
        !s.edges.ids@.contains(path.steps[k].edge_id),
        0 <= e < t.edges.ids@.len(),
        t.edges.ids@[e] == path.steps[k].edge_id,
    ensures
        ({
            let step = path.steps[k];
            let from = t.nodes.ids@[t.edges.sources@[e] as int];
            let to = t.nodes.ids@[t.edges.targets@[e] as int];
            &&& step.forward ==> from == step.from && to == step.to
            &&& !step.forward ==> from == step.to && to == step.from
            &&& t.edges.labels@[e]@ == step.label
            &&& t.edges.vector_counts@[e] == step.vector_count
            &&& scene::properties_view(t.edges.properties@[e]@) == step.properties
        }),
{
    lemma_first_step(path.steps, path.steps[k].edge_id, 0, k);
    assert(s.enriched_edge(path, t.nodes.ids@, t.edges, e));
}

/// A node that a path brings into a scene is shown as the evidence tells, at
/// its place on the path.
pub proof fn law_injected_nodes_stand_on_the_path(
    s: SceneSnapshot,
    path: EvidencePathView,
    overview: Seq<Vec2>,
    path_positions: Seq<Vec2>,
    bounds: Rect,
    t: SceneSnapshot,
    k: int,
    i: int,
)
    requires
        s.is_enriched(path, overview, path_positions, bounds, t),
        0 <= k < path.nodes.len(),
        forall|j: int| 0 <= j < k ==> (#[trigger] path.nodes[j]).id != path.nodes[k].id,
        !s.nodes.ids@.contains(path.nodes[k].id),
        0 <= i < t.nodes.ids@.len(),
        t.nodes.ids@[i] == path.nodes[k].id,
    ensures
        t.nodes.positions@[i] == path_positions[k],
        t.nodes.labels@[i]@ == path.nodes[k].label,
        t.nodes.vector_counts@[i] == path.nodes[k].vector_count,
        scene::properties_view(t.nodes.properties@[i]@) == path.nodes[k].properties,
{
    lemma_first_node(path.nodes, path.nodes[k].id, 0, k);
    assert(s.enriched_node(path, overview, path_positions, t.nodes, i));
}

/// A relationship that the scene already showed keeps its ends and what is
/// told of it.
pub proof fn law_shown_relationships_keep_their_ends(
    s: SceneSnapshot,
    path: EvidencePathView,
    overview: Seq<Vec2>,
    path_positions: Seq<Vec2>,
    bounds: Rect,
    t: SceneSnapshot,
    k: int,
    e: int,
)
    requires
        s.wf(),
        s.is_enriched(path, overview, path_positions, bounds, t),
        0 <= k < s.edges.ids@.len() <= usize::MAX,
        0 <= e < t.edges.ids@.len(),
        t.edges.ids@[e] == s.edges.ids@[k],
    ensures
        t.nodes.ids@[t.edges.sources@[e] as int] == s.nodes.ids@[s.edges.sources@[k] as int],
        t.nodes.ids@[t.edges.targets@[e] as int] == s.nodes.ids@[s.edges.targets@[k] as int],
        t.edges.labels@[e]@ == s.edges.labels@[k]@,
        scene::properties_view(t.edges.properties@[e]@) == scene::properties_view(
            s.edges.properties@[k]@,
        ),
{
    scene::law_lookup_inverts_ids(s.edges.ids@, k);
    assert(s.enriched_edge(path, t.nodes.ids@, t.edges, e));
}

/// A scene with an injected path shows the nodes and relationships that it
/// showed, those of the path, and no other; and it says of itself that it is a
/// sample exactly where the database has more.
pub proof fn law_injection_adds_the_path_alone(
    s: SceneSnapshot,
    path: EvidencePathView,
    overview: Seq<Vec2>,
    path_positions: Seq<Vec2>,
    bounds: Rect,
    t: SceneSnapshot,
    id: u64,
)
    requires
        s.is_enriched(path, overview, path_positions, bounds, t),
    ensures
        t.nodes.ids@.contains(id) ==> s.nodes.ids@.contains(id) || exists|k: int|
            0 <= k < path.nodes.len() && (#[trigger] path.nodes[k]).id == id,
        t.edges.ids@.contains(id) ==> s.edges.ids@.contains(id) || exists|k: int|
            0 <= k < path.steps.len() && (#[trigger] path.steps[k]).edge_id == id,
        !t.sampled <==> t.nodes.ids@.len() >= s.source_stats.nodes && t.edges.ids@.len()
            >= s.source_stats.edges,
        t.bounds == bounds,
        t.database_name@ == s.database_name@,
{
    lemma_node_found(path.nodes, id, 0);
    lemma_step_found(path.steps, id, 0);
}

proof fn lemma_node_found(nodes: Seq<EvidenceNodeView>, id: u64, from: int)
    requires
        0 <= from <= nodes.len(),
    ensures
        enrich::node_on_path(nodes, id, from) matches Some(k) ==> from <= k < nodes.len()
            && nodes[k].id == id,
    decreases nodes.len() - from,
{
    if from < nodes.len() && nodes[from].id != id {
        lemma_node_found(nodes, id, from + 1);
    }
}

proof fn lemma_step_found(steps: Seq<EvidenceStepView>, id: u64, from: int)
    requires
        0 <= from <= steps.len(),
    ensures
        enrich::step_on_path(steps, id, from) matches Some(k) ==> from <= k < steps.len()
            && steps[k].edge_id == id,
    decreases steps.len() - from,
{
    if from < steps.len() && steps[from].edge_id != id {
        lemma_step_found(steps, id, from + 1);
    }
}

} // verus!
