//! Injecting an exact evidence path into a sampled snapshot.

use vstd::prelude::*;
use vstd::string::*;

use crate::digits;
use crate::evidence::{
    EvidenceNodeView, EvidencePath, EvidencePathReport, EvidencePathView, EvidenceStepView,
};
use crate::scene;
use crate::scene::{copy_properties, search_ids, Rect, SceneEdges, SceneNodes, SceneSnapshot, Vec2};
use crate::snapshot;
use crate::snapshot::count_degrees;
use crate::text;

verus! {

/// The first position from `from` on at which the node stands.
pub open spec fn node_on_path(nodes: Seq<EvidenceNodeView>, id: u64, from: int) -> Option<int>
    decreases nodes.len() - from,
{
    if from < 0 || from >= nodes.len() {
        None
    } else if nodes[from].id == id {
        Some(from)
    } else {
        node_on_path(nodes, id, from + 1)
    }
}

/// The first position from `from` on at which the relationship stands.
pub open spec fn step_on_path(steps: Seq<EvidenceStepView>, id: u64, from: int) -> Option<int>
    decreases steps.len() - from,
{
    if from < 0 || from >= steps.len() {
        None
    } else if steps[from].edge_id == id {
        Some(from)
    } else {
        step_on_path(steps, id, from + 1)
    }
}

/// The stored source and target of a step.
pub open spec fn stored_ends(step: EvidenceStepView) -> (u64, u64) {
    if step.forward {
        (step.from, step.to)
    } else {
        (step.to, step.from)
    }
}

impl SceneSnapshot {
    /// Whether the snapshot shows every node and step of the path.
    pub open spec fn shows_path(self, path: EvidencePathView) -> bool {
        &&& forall|i: int|
            0 <= i < path.nodes.len() ==> self.nodes.ids@.contains((#[trigger] path.nodes[i]).id)
        &&& forall|i: int|
            0 <= i < path.steps.len() ==> self.edges.ids@.contains(
                (#[trigger] path.steps[i]).edge_id,
            )
    }

    /// Whether the snapshot or the path has the node.
    pub open spec fn reaches(self, path: EvidencePathView, id: u64) -> bool {
        self.nodes.ids@.contains(id) || node_on_path(path.nodes, id, 0) is Some
    }

    /// Whether a step is to be added and one of its ends is missing.
    pub open spec fn breaks(self, path: EvidencePathView, k: int) -> bool {
        let step = path.steps[k];
        &&& !self.edges.ids@.contains(step.edge_id)
        &&& step_on_path(path.steps, step.edge_id, 0) == Some(k)
        &&& !(self.reaches(path, stored_ends(step).0) && self.reaches(path, stored_ends(step).1))
    }

    /// The first step from `k` on that cannot be added.
    pub open spec fn first_break(self, path: EvidencePathView, k: int) -> Option<int>
        decreases path.steps.len() - k,
    {
        if k < 0 || k >= path.steps.len() {
            None
        } else if self.breaks(path, k) {
            Some(k)
        } else {
            self.first_break(path, k + 1)
        }
    }

    /// Whether row `i` of the enriched columns is right: an old node at its
    /// overview position, or the path's node at its path position.
    pub open spec fn enriched_node(
        self,
        path: EvidencePathView,
        overview: Seq<Vec2>,
        path_positions: Seq<Vec2>,
        columns: SceneNodes,
        i: int,
    ) -> bool {
        match scene::position_of(self.nodes.ids@, columns.ids@[i]) {
            Some(k) => {
                &&& columns.labels@[i]@ == self.nodes.labels@[k as int]@
                &&& columns.positions@[i] == overview[k as int]
                &&& columns.vector_counts@[i] == self.nodes.vector_counts@[k as int]
                &&& scene::properties_view(columns.properties@[i]@) == scene::properties_view(
                    self.nodes.properties@[k as int]@,
                )
            },
            None => match node_on_path(path.nodes, columns.ids@[i], 0) {
                Some(k) => {
                    &&& columns.labels@[i]@ == path.nodes[k].label
                    &&& columns.positions@[i] == path_positions[k]
                    &&& columns.vector_counts@[i] == path.nodes[k].vector_count
                    &&& scene::properties_view(columns.properties@[i]@) == path.nodes[k].properties
                },
                None => false,
            },
        }
    }

    /// Whether row `i` of the enriched columns is right: an old relationship,
    /// or the path's step in its stored direction. Endpoints are positions
    /// among `ids`.
    pub open spec fn enriched_edge(
        self,
        path: EvidencePathView,
        ids: Seq<u64>,
        columns: SceneEdges,
        i: int,
    ) -> bool {
        match scene::position_of(self.edges.ids@, columns.ids@[i]) {
            Some(k) => {
                &&& ids[columns.sources@[i] as int]
                    == self.nodes.ids@[self.edges.sources@[k as int] as int]
                &&& ids[columns.targets@[i] as int]
                    == self.nodes.ids@[self.edges.targets@[k as int] as int]
                &&& columns.labels@[i]@ == self.edges.labels@[k as int]@
                &&& columns.vector_counts@[i] == self.edges.vector_counts@[k as int]
                &&& scene::properties_view(columns.properties@[i]@) == scene::properties_view(
                    self.edges.properties@[k as int]@,
                )
            },
            None => match step_on_path(path.steps, columns.ids@[i], 0) {
                Some(k) => {
                    &&& ids[columns.sources@[i] as int] == stored_ends(path.steps[k]).0
                    &&& ids[columns.targets@[i] as int] == stored_ends(path.steps[k]).1
                    &&& columns.labels@[i]@ == path.steps[k].label
                    &&& columns.vector_counts@[i] == path.steps[k].vector_count
                    &&& scene::properties_view(columns.properties@[i]@) == path.steps[k].properties
                },
                None => false,
            },
        }
    }

    /// Whether `t` is this snapshot with the path injected.
    pub open spec fn is_enriched(
        self,
        path: EvidencePathView,
        overview: Seq<Vec2>,
        path_positions: Seq<Vec2>,
        bounds: Rect,
        t: SceneSnapshot,
    ) -> bool {
        &&& t.wf()
        &&& t.revision == self.revision
        &&& t.database_name@ == self.database_name@
        &&& t.source_stats == self.source_stats
        &&& t.bounds == bounds
        &&& t.sampled == (t.nodes.ids@.len() < t.source_stats.nodes || t.edges.ids@.len()
            < t.source_stats.edges)
        &&& forall|id: u64| #[trigger] t.nodes.ids@.contains(id) <==> self.reaches(path, id)
        &&& forall|id: u64| #[trigger]
            t.edges.ids@.contains(id) <==> self.edges.ids@.contains(id) || step_on_path(
                path.steps,
                id,
                0,
            ) is Some
        &&& forall|i: int|
            0 <= i < t.nodes.ids@.len() ==> #[trigger] self.enriched_node(
                path,
                overview,
                path_positions,
                t.nodes,
                i,
            )
        &&& forall|i: int|
            0 <= i < t.edges.ids@.len() ==> #[trigger] self.enriched_edge(
                path,
                t.nodes.ids@,
                t.edges,
                i,
            )
        &&& snapshot::degrees_match(t.nodes.degrees@, t.edges.sources@, t.edges.targets@)
    }
}

proof fn lemma_node_on_path(nodes: Seq<EvidenceNodeView>, id: u64, from: int)
    requires
        0 <= from,
    ensures
        match node_on_path(nodes, id, from) {
            Some(k) => from <= k < nodes.len() && nodes[k].id == id,
            None => forall|i: int| from <= i < nodes.len() ==> (#[trigger] nodes[i]).id != id,
        },
    decreases nodes.len() - from,
{
    if from < nodes.len() && nodes[from].id != id {
        lemma_node_on_path(nodes, id, from + 1);
    }
}

proof fn lemma_step_on_path(steps: Seq<EvidenceStepView>, id: u64, from: int)
    requires
        0 <= from,
    ensures
        match step_on_path(steps, id, from) {
            Some(k) => from <= k < steps.len() && steps[k].edge_id == id,
            None => forall|i: int| from <= i < steps.len() ==> (#[trigger] steps[i]).edge_id != id,
        },
    decreases steps.len() - from,
{
    if from < steps.len() && steps[from].edge_id != id {
        lemma_step_on_path(steps, id, from + 1);
    }
}

/// Inserts an id into ascending ids where it is not yet among them.
fn insert_id(ids: &mut Vec<u64>, id: u64)
    requires
        scene::ascending(old(ids)@),
    ensures
        scene::ascending(final(ids)@),
        forall|x: u64| final(ids)@.contains(x) <==> old(ids)@.contains(x) || x == id,
        final(ids)@.len() <= old(ids)@.len() + 1,
{
    let ghost before = ids@;
    let mut k: usize = 0;
    while k < ids.len() && ids[k] < id
        invariant
            k <= ids.len(),
            ids@ == before,
            scene::ascending(before),
            forall|j: int| 0 <= j < k ==> before[j] < id,
        decreases ids.len() - k,
    {
        k = k + 1;
    }
    if k < ids.len() && ids[k] == id {
        assert(before[k as int] == id);
        return;
    }
    ids.insert(k, id);
    proof {
        let now = ids@;
        assert(now == before.insert(k as int, id));
        assert forall|i: int, j: int| 0 <= i < j < now.len() implies now[i] < now[j] by {
            if j < k {
            } else if i >= k {
                if i > k {
                    assert(before[i - 1] < before[j - 1]);
                } else if k < j - 1 {
                    assert(before[k as int] < before[j - 1]);
                }
            } else if j > k {
                assert(before[i] < before[j - 1]);
            }
        }
        assert forall|x: u64| now.contains(x) <==> before.contains(x) || x == id by {
            if now.contains(x) {
                let i = choose|i: int| 0 <= i < now.len() && now[i] == x;
                if i < k {
                    assert(before[i] == x);
                } else if i > k {
                    assert(before[i - 1] == x);
                }
            }
            if before.contains(x) {
                let i = choose|i: int| 0 <= i < before.len() && before[i] == x;
                if i < k {
                    assert(now[i] == x);
                } else {
                    assert(now[i + 1] == x);
                }
            }
            assert(now[k as int] == id);
        }
    }
}

/// Merges two ascending lists of different ids.
fn merge_ids(a: &Vec<u64>, b: &Vec<u64>) -> (r: Vec<u64>)
    requires
        scene::ascending(a@),
        scene::ascending(b@),
        forall|x: u64| !(a@.contains(x) && b@.contains(x)),
    ensures
        scene::ascending(r@),
        forall|x: u64| r@.contains(x) <==> a@.contains(x) || b@.contains(x),
        r@.len() == a@.len() + b@.len(),
{
    let mut out: Vec<u64> = Vec::new();
    let mut i: usize = 0;
    let mut j: usize = 0;
    while i < a.len() || j < b.len()
        invariant
            i <= a.len(),
            j <= b.len(),
            scene::ascending(a@),
            scene::ascending(b@),
            forall|x: u64| !(a@.contains(x) && b@.contains(x)),
            scene::ascending(out@),
            out@.len() == i + j,
            forall|k: int, m: int| 0 <= k < out@.len() && i <= m < a@.len() ==> out@[k] < a@[m],
            forall|k: int, m: int| 0 <= k < out@.len() && j <= m < b@.len() ==> out@[k] < b@[m],
            forall|k: int|
                0 <= k < out@.len() ==> a@.contains(#[trigger] out@[k]) || b@.contains(out@[k]),
            forall|m: int| 0 <= m < i ==> out@.contains(#[trigger] a@[m]),
            forall|m: int| 0 <= m < j ==> out@.contains(#[trigger] b@[m]),
        decreases a.len() - i + b.len() - j,
    {
        let ghost before = out@;
        proof {
            if i < a@.len() && j < b@.len() {
                assert(a@.contains(a@[i as int]));
                assert(b@.contains(b@[j as int]));
            }
        }
        if j >= b.len() || (i < a.len() && a[i] < b[j]) {
            assert(a@.contains(a@[i as int]));
            out.push(a[i]);
            i = i + 1;
        } else {
            assert(b@.contains(b@[j as int]));
            out.push(b[j]);
            j = j + 1;
        }
        proof {
            assert(out@.last() == out@[out@.len() - 1]);
            assert forall|x: u64| before.contains(x) implies out@.contains(x) by {
                let k = choose|k: int| 0 <= k < before.len() && before[k] == x;
                assert(out@[k] == x);
            }
            assert forall|m: int| 0 <= m < i implies out@.contains(#[trigger] a@[m]) by {
                if out@.last() == a@[m] {
                    assert(out@[out@.len() - 1] == a@[m]);
                }
            }
            assert forall|m: int| 0 <= m < j implies out@.contains(#[trigger] b@[m]) by {
                if out@.last() == b@[m] {
                    assert(out@[out@.len() - 1] == b@[m]);
                }
            }
        }
    }
    proof {
        assert forall|x: u64| out@.contains(x) <==> a@.contains(x) || b@.contains(x) by {
            if a@.contains(x) {
                let m = choose|m: int| 0 <= m < a@.len() && a@[m] == x;
                assert(out@.contains(a@[m]));
            }
            if b@.contains(x) {
                let m = choose|m: int| 0 <= m < b@.len() && b@[m] == x;
                assert(out@.contains(b@[m]));
            }
        }
    }
    out
}

impl EvidencePath {
    fn find_node(&self, id: u64) -> (r: Option<usize>)
        ensures
            match node_on_path(self@.nodes, id, 0) {
                Some(k) => r matches Some(i) && i == k && 0 <= k < self.nodes@.len(),
                None => r is None,
            },
    {
        let mut i: usize = 0;
        while i < self.nodes.len()
            invariant
                i <= self.nodes.len(),
                node_on_path(self@.nodes, id, 0) == node_on_path(self@.nodes, id, i as int),
            decreases self.nodes.len() - i,
        {
            assert(self@.nodes[i as int].id == self.nodes@[i as int].id);
            if self.nodes[i].id == id {
                return Some(i);
            }
            i = i + 1;
        }
        None
    }

    fn find_step(&self, id: u64) -> (r: Option<usize>)
        ensures
            match step_on_path(self@.steps, id, 0) {
                Some(k) => r matches Some(i) && i == k && 0 <= k < self.steps@.len(),
                None => r is None,
            },
    {
        let mut i: usize = 0;
        while i < self.steps.len()
            invariant
                i <= self.steps.len(),
                step_on_path(self@.steps, id, 0) == step_on_path(self@.steps, id, i as int),
            decreases self.steps.len() - i,
        {
            assert(self@.steps[i as int].edge_id == self.steps@[i as int].edge_id);
            if self.steps[i].edge_id == id {
                return Some(i);
            }
            i = i + 1;
        }
        None
    }

    /// The ids of the path's nodes that are not among `known`.
    fn missing_nodes(&self, known: &Vec<u64>) -> (r: Vec<u64>)
        requires
            scene::ascending(known@),
        ensures
            scene::ascending(r@),
            forall|id: u64|
                r@.contains(id) <==> !known@.contains(id) && node_on_path(self@.nodes, id, 0) is Some,
            r@.len() <= self.nodes@.len(),
    {
        let mut out: Vec<u64> = Vec::new();
        let mut i: usize = 0;
        while i < self.nodes.len()
            invariant
                i <= self.nodes.len(),
                scene::ascending(known@),
                scene::ascending(out@),
                out@.len() <= i,
                forall|id: u64|
                    out@.contains(id) <==> !known@.contains(id) && exists|k: int|
                        0 <= k < i && (#[trigger] self@.nodes[k]).id == id,
            decreases self.nodes.len() - i,
        {
            let id: u64 = self.nodes[i].id;
            let ghost before = out@;
            assert(self@.nodes[i as int].id == id);
            if search_ids(known, id).is_none() {
                insert_id(&mut out, id);
            }
            proof {
                assert forall|x: u64| out@.contains(x) <==> !known@.contains(x) && exists|k: int|
                    0 <= k < i + 1 && (#[trigger] self@.nodes[k]).id == x by {
                    if !known@.contains(x) && before.contains(x) {
                        let k = choose|k: int| 0 <= k < i && (#[trigger] self@.nodes[k]).id == x;
                        assert(self@.nodes[k].id == x);
                    }
                }
            }
            i = i + 1;
        }
        proof {
            assert forall|id: u64| out@.contains(id) <==> !known@.contains(id) && node_on_path(
                self@.nodes,
                id,
                0,
            ) is Some by {
                lemma_node_on_path(self@.nodes, id, 0);
                if node_on_path(self@.nodes, id, 0) is Some {
                    let k = node_on_path(self@.nodes, id, 0)->0;
                    assert(self@.nodes[k].id == id);
                }
            }
        }
        out
    }

    /// The ids of the path's relationships that are not among `known`.
    fn missing_steps(&self, known: &Vec<u64>) -> (r: Vec<u64>)
        requires
            scene::ascending(known@),
        ensures
            scene::ascending(r@),
            forall|id: u64|
                r@.contains(id) <==> !known@.contains(id) && step_on_path(self@.steps, id, 0) is Some,
            r@.len() <= self.steps@.len(),
    {
        let mut out: Vec<u64> = Vec::new();
        let mut i: usize = 0;
        while i < self.steps.len()
            invariant
                i <= self.steps.len(),
                scene::ascending(known@),
                scene::ascending(out@),
                out@.len() <= i,
                forall|id: u64|
                    out@.contains(id) <==> !known@.contains(id) && exists|k: int|
                        0 <= k < i && (#[trigger] self@.steps[k]).edge_id == id,
            decreases self.steps.len() - i,
        {
            let id: u64 = self.steps[i].edge_id;
            let ghost before = out@;
            assert(self@.steps[i as int].edge_id == id);
            if search_ids(known, id).is_none() {
                insert_id(&mut out, id);
            }
            proof {
                assert forall|x: u64| out@.contains(x) <==> !known@.contains(x) && exists|k: int|
                    0 <= k < i + 1 && (#[trigger] self@.steps[k]).edge_id == x by {
                    if !known@.contains(x) && before.contains(x) {
                        let k = choose|k: int|
                            0 <= k < i && (#[trigger] self@.steps[k]).edge_id == x;
                        assert(self@.steps[k].edge_id == x);
                    }
                }
            }
            i = i + 1;
        }
        proof {
            assert forall|id: u64| out@.contains(id) <==> !known@.contains(id) && step_on_path(
                self@.steps,
                id,
                0,
            ) is Some by {
                lemma_step_on_path(self@.steps, id, 0);
                if step_on_path(self@.steps, id, 0) is Some {
                    let k = step_on_path(self@.steps, id, 0)->0;
                    assert(self@.steps[k].edge_id == id);
                }
            }
        }
        out
    }
}

impl SceneSnapshot {
    fn enrich_nodes(
        &self,
        path: &EvidencePath,
        ids: Vec<u64>,
        overview: &Vec<Vec2>,
        path_positions: &Vec<Vec2>,
    ) -> (r: SceneNodes)
        requires
            self.wf(),
            overview@.len() == self.nodes.ids@.len(),
            path_positions@.len() == path.nodes@.len(),
            forall|i: int| 0 <= i < ids@.len() ==> self.reaches(path@, #[trigger] ids@[i]),
        ensures
            r.ids@ == ids@,
            r.labels@.len() == ids@.len(),
            r.positions@.len() == ids@.len(),
            r.vector_counts@.len() == ids@.len(),
            r.properties@.len() == ids@.len(),
            forall|i: int|
                0 <= i < ids@.len() ==> #[trigger] self.enriched_node(
                    path@,
                    overview@,
                    path_positions@,
                    r,
                    i,
                ),
    {
        let mut out = SceneNodes {
            ids,
            labels: Vec::new(),
            positions: Vec::new(),
            degrees: Vec::new(),
            vector_counts: Vec::new(),
            properties: Vec::new(),
        };
        let mut i: usize = 0;
        while i < out.ids.len()
            invariant
                self.wf(),
                overview@.len() == self.nodes.ids@.len(),
                path_positions@.len() == path.nodes@.len(),
                out.ids@ == ids@,
                i <= ids@.len(),
                forall|k: int| 0 <= k < ids@.len() ==> self.reaches(path@, #[trigger] ids@[k]),
                out.labels@.len() == i,
                out.positions@.len() == i,
                out.vector_counts@.len() == i,
                out.properties@.len() == i,
                forall|k: int|
                    0 <= k < i ==> #[trigger] self.enriched_node(
                        path@,
                        overview@,
                        path_positions@,
                        out,
                        k,
                    ),
            decreases ids@.len() - i,
        {
            let ghost before = out;
            let id: u64 = out.ids[i];
            assert(self.reaches(path@, ids@[i as int]));
            match search_ids(&self.nodes.ids, id) {
                Some(k) => {
                    out.labels.push(self.nodes.labels[k].clone());
                    out.positions.push(overview[k]);
                    out.vector_counts.push(self.nodes.vector_counts[k]);
                    out.properties.push(copy_properties(&self.nodes.properties[k]));
                },
                None => {
                    let k: usize = path.find_node(id).unwrap();
                    let node = &path.nodes[k];
                    assert(path@.nodes[k as int] == node@);
                    out.labels.push(node.label.clone());
                    out.positions.push(path_positions[k]);
                    out.vector_counts.push(node.vector_count);
                    out.properties.push(copy_properties(&node.properties));
                },
            }
            proof {
                assert forall|k: int| 0 <= k < i + 1 implies #[trigger] self.enriched_node(
                    path@,
                    overview@,
                    path_positions@,
                    out,
                    k,
                ) by {
                    if k < i {
                        assert(self.enriched_node(path@, overview@, path_positions@, before, k));
                    }
                }
            }
            i = i + 1;
        }
        out
    }

    fn enrich_edges(&self, path: &EvidencePath, node_ids: &Vec<u64>, ids: Vec<u64>) -> (r:
        SceneEdges)
        requires
            self.wf(),
            scene::ascending(node_ids@),
            node_ids@.len() <= u32::MAX,
            forall|id: u64| node_ids@.contains(id) <==> self.reaches(path@, id),
            self.first_break(path@, 0) is None,
            forall|i: int|
                0 <= i < ids@.len() ==> self.edges.ids@.contains(#[trigger] ids@[i])
                    || step_on_path(path@.steps, ids@[i], 0) is Some,
        ensures
            r.ids@ == ids@,
            r.wf(),
            forall|i: int| 0 <= i < ids@.len() ==> (#[trigger] r.sources@[i]) < node_ids@.len(),
            forall|i: int| 0 <= i < ids@.len() ==> (#[trigger] r.targets@[i]) < node_ids@.len(),
            forall|i: int|
                0 <= i < ids@.len() ==> #[trigger] self.enriched_edge(path@, node_ids@, r, i),
    {
        let mut out = SceneEdges {
            ids,
            sources: Vec::new(),
            targets: Vec::new(),
            labels: Vec::new(),
            vector_counts: Vec::new(),
            properties: Vec::new(),
        };
        let mut i: usize = 0;
        while i < out.ids.len()
            invariant
                self.wf(),
                scene::ascending(node_ids@),
                node_ids@.len() <= u32::MAX,
                forall|id: u64| node_ids@.contains(id) <==> self.reaches(path@, id),
                self.first_break(path@, 0) is None,
                out.ids@ == ids@,
                i <= ids@.len(),
                forall|k: int|
                    0 <= k < ids@.len() ==> self.edges.ids@.contains(#[trigger] ids@[k])
                        || step_on_path(path@.steps, ids@[k], 0) is Some,
                out.sources@.len() == i,
                out.targets@.len() == i,
                out.labels@.len() == i,
                out.vector_counts@.len() == i,
                out.properties@.len() == i,
                forall|k: int| 0 <= k < i ==> (#[trigger] out.sources@[k]) < node_ids@.len(),
                forall|k: int| 0 <= k < i ==> (#[trigger] out.targets@[k]) < node_ids@.len(),
                forall|k: int|
                    0 <= k < i ==> #[trigger] self.enriched_edge(path@, node_ids@, out, k),
            decreases ids@.len() - i,
        {
            let ghost before = out;
            let id: u64 = out.ids[i];
            assert(self.edges.ids@.contains(ids@[i as int]) || step_on_path(
                path@.steps,
                ids@[i as int],
                0,
            ) is Some);
            match search_ids(&self.edges.ids, id) {
                Some(k) => {
                    let source_id: u64 = self.nodes.ids[self.edges.sources[k] as usize];
                    let target_id: u64 = self.nodes.ids[self.edges.targets[k] as usize];
                    assert(self.nodes.ids@.contains(source_id));
                    assert(self.nodes.ids@.contains(target_id));
                    assert(self.reaches(path@, source_id) && self.reaches(path@, target_id));
                    let source: usize = search_ids(node_ids, source_id).unwrap();
                    let target: usize = search_ids(node_ids, target_id).unwrap();
                    out.sources.push(source as u32);
                    out.targets.push(target as u32);
                    out.labels.push(self.edges.labels[k].clone());
                    out.vector_counts.push(self.edges.vector_counts[k]);
                    out.properties.push(copy_properties(&self.edges.properties[k]));
                },
                None => {
                    let k: usize = path.find_step(id).unwrap();
                    let step = &path.steps[k];
                    assert(path@.steps[k as int] == step@);
                    let (source_id, target_id) = if step.forward {
                        (step.from, step.to)
                    } else {
                        (step.to, step.from)
                    };
                    proof {
                        lemma_step_on_path(path@.steps, id, 0);
                        self.lemma_no_break(path@, 0, k as int);
                        assert(self.reaches(path@, source_id) && self.reaches(path@, target_id));
                    }
                    let source: usize = search_ids(node_ids, source_id).unwrap();
                    let target: usize = search_ids(node_ids, target_id).unwrap();
                    out.sources.push(source as u32);
                    out.targets.push(target as u32);
                    out.labels.push(step.label.clone());
                    out.vector_counts.push(step.vector_count);
                    out.properties.push(copy_properties(&step.properties));
                },
            }
            proof {
                assert forall|k: int| 0 <= k < i + 1 implies #[trigger] self.enriched_edge(
                    path@,
                    node_ids@,
                    out,
                    k,
                ) by {
                    if k < i {
                        assert(self.enriched_edge(path@, node_ids@, before, k));
                    }
                }
            }
            i = i + 1;
        }
        out
    }

    proof fn lemma_no_break(self, path: EvidencePathView, from: int, k: int)
        requires
            0 <= from <= k < path.steps.len(),
            self.first_break(path, from) is None,
        ensures
            !self.breaks(path, k),
        decreases path.steps.len() - from,
    {
        if from < k {
            self.lemma_no_break(path, from + 1, k);
        }
    }

    /// Finds the first step of the path that cannot be added.
    fn find_break(&self, path: &EvidencePath, node_ids: &Vec<u64>) -> (r: Option<usize>)
        requires
            self.wf(),
            scene::ascending(node_ids@),
            forall|id: u64| node_ids@.contains(id) <==> self.reaches(path@, id),
        ensures
            match self.first_break(path@, 0) {
                Some(k) => r matches Some(i) && i == k && 0 <= k < path.steps@.len(),
                None => r is None,
            },
    {
        let mut i: usize = 0;
        while i < path.steps.len()
            invariant
                self.wf(),
                scene::ascending(node_ids@),
                forall|id: u64| node_ids@.contains(id) <==> self.reaches(path@, id),
                i <= path.steps.len(),
                self.first_break(path@, 0) == self.first_break(path@, i as int),
            decreases path.steps.len() - i,
        {
            let step = &path.steps[i];
            assert(path@.steps[i as int] == step@);
            let known = search_ids(&self.edges.ids, step.edge_id).is_some();
            let first = path.find_step(step.edge_id);
            proof {
                lemma_step_on_path(path@.steps, step.edge_id, 0);
            }
            let is_first = match first {
                Some(k) => k == i,
                None => false,
            };
            let (source_id, target_id) = if step.forward {
                (step.from, step.to)
            } else {
                (step.to, step.from)
            };
            let reached = search_ids(node_ids, source_id).is_some() && search_ids(
                node_ids,
                target_id,
            ).is_some();
            assert(reached == (self.reaches(path@, source_id) && self.reaches(path@, target_id)));
            if !known && is_first && !reached {
                return Some(i);
            }
            i = i + 1;
        }
        None
    }

    /// What including a path gives, as far as it is decided before any row is
    /// built: nothing to do, an error, or an enriched snapshot.
    pub open spec fn inclusion(self, report: Option<EvidencePathView>, overview: Seq<Vec2>) -> Result<
        bool,
        Seq<char>,
    > {
        match report {
            None => Ok(false),
            Some(path) => {
                if overview.len() != self.nodes.ids@.len() || exists|i: int|
                    0 <= i < overview.len() && !(#[trigger] overview[i]).finite() {
                    Err("evidence scene positions do not match the current snapshot"@)
                } else if self.shows_path(path) {
                    Ok(false)
                } else {
                    match self.first_break(path, 0) {
                        Some(k) => Err(
                            "evidence relationship "@ + digits::decimal(
                                path.steps[k].edge_id as nat,
                            ) + " references a missing endpoint"@,
                        ),
                        None => Ok(true),
                    }
                }
            },
        }
    }

    /// Returns a scene that retains the current overview and injects every
    /// fully hydrated element in an exact evidence path that sampling omitted.
    /// Existing presentation positions are preserved; a missing path node
    /// takes its place from `path_positions`, which has one position per node
    /// of the path, and the scene takes `bounds`.
    ///
    /// `None` means the current scene already contains the complete path.
    pub fn including_evidence_path(
        &self,
        report: &EvidencePathReport,
        overview_positions: &Vec<Vec2>,
        path_positions: &Vec<Vec2>,
        bounds: Rect,
    ) -> (r: Result<Option<SceneSnapshot>, String>)
        requires
            self.wf(),
            report.path matches Some(path) ==> path_positions@.len() == path.nodes@.len()
                && self.nodes.ids@.len() + path.nodes@.len() <= u32::MAX,
        ensures
            match self.inclusion(report@.path, overview_positions@) {
                Err(error) => r matches Err(e) && e@ == error,
                Ok(false) => r matches Ok(None),
                Ok(true) => r matches Ok(Some(t)) && self.is_enriched(
                    report@.path->0,
                    overview_positions@,
                    path_positions@,
                    bounds,
                    t,
                ),
            },
    {
        let path = match &report.path {
            None => {
                return Ok(None);
            },
            Some(path) => path,
        };
        let mut usable = overview_positions.len() == self.nodes.ids.len();
        let mut i: usize = 0;
        while i < overview_positions.len()
            invariant
                i <= overview_positions.len(),
                usable == (overview_positions@.len() == self.nodes.ids@.len() && forall|k: int|
                    0 <= k < i ==> (#[trigger] overview_positions@[k]).finite()),
            decreases overview_positions.len() - i,
        {
            if !overview_positions[i].is_finite() {
                usable = false;
            }
            i = i + 1;
        }
        if !usable {
            return Err(
                "evidence scene positions do not match the current snapshot".to_owned(),
            );
        }
        let new_nodes = path.missing_nodes(&self.nodes.ids);
        let new_edges = path.missing_steps(&self.edges.ids);
        if new_nodes.len() == 0 && new_edges.len() == 0 {
            proof {
                assert forall|k: int| 0 <= k < path@.nodes.len() implies self.nodes.ids@.contains(
                    (#[trigger] path@.nodes[k]).id,
                ) by {
                    let id = path@.nodes[k].id;
                    lemma_node_on_path(path@.nodes, id, 0);
                    assert(!new_nodes@.contains(id));
                }
                assert forall|k: int| 0 <= k < path@.steps.len() implies self.edges.ids@.contains(
                    (#[trigger] path@.steps[k]).edge_id,
                ) by {
                    let id = path@.steps[k].edge_id;
                    lemma_step_on_path(path@.steps, id, 0);
                    assert(!new_edges@.contains(id));
                }
            }
            return Ok(None);
        }
        proof {
            if new_nodes@.len() > 0 {
                let id = new_nodes@[0];
                assert(new_nodes@.contains(id));
                lemma_node_on_path(path@.nodes, id, 0);
                let k = node_on_path(path@.nodes, id, 0)->0;
                assert(path@.nodes[k].id == id);
            } else {
                let id = new_edges@[0];
                assert(new_edges@.contains(id));
                lemma_step_on_path(path@.steps, id, 0);
                let k = step_on_path(path@.steps, id, 0)->0;
                assert(path@.steps[k].edge_id == id);
            }
            assert(!self.shows_path(path@));
        }
        let node_ids = merge_ids(&self.nodes.ids, &new_nodes);
        proof {
            assert forall|id: u64| node_ids@.contains(id) <==> self.reaches(path@, id) by {}
        }
        match self.find_break(path, &node_ids) {
            Some(k) => {
                let step = &path.steps[k];
                assert(path@.steps[k as int] == step@);
                return Err(
                    text::concat3(
                        "evidence relationship ",
                        digits::decimal_text(step.edge_id).as_str(),
                        " references a missing endpoint",
                    ),
                );
            },
            None => {},
        }
        let edge_ids = merge_ids(&self.edges.ids, &new_edges);
        proof {
            assert forall|k: int| 0 <= k < edge_ids@.len() implies self.edges.ids@.contains(
                #[trigger] edge_ids@[k],
            ) || step_on_path(path@.steps, edge_ids@[k], 0) is Some by {
                assert(edge_ids@.contains(edge_ids@[k]));
            }
            assert forall|k: int| 0 <= k < node_ids@.len() implies self.reaches(
                path@,
                #[trigger] node_ids@[k],
            ) by {
                assert(node_ids@.contains(node_ids@[k]));
            }
        }
        let edges = self.enrich_edges(path, &node_ids, edge_ids);
        let columns = self.enrich_nodes(path, node_ids, overview_positions, path_positions);
        let degrees = count_degrees(columns.ids.len(), &edges.sources, &edges.targets);
        let nodes = SceneNodes {
            ids: columns.ids,
            labels: columns.labels,
            positions: columns.positions,
            degrees,
            vector_counts: columns.vector_counts,
            properties: columns.properties,
        };
        proof {
            assert forall|k: int| 0 <= k < nodes.ids@.len() implies #[trigger] self.enriched_node(
                path@,
                overview_positions@,
                path_positions@,
                nodes,
                k,
            ) by {
                assert(self.enriched_node(
                    path@,
                    overview_positions@,
                    path_positions@,
                    columns,
                    k,
                ));
            }
        }
        let sampled = nodes.ids.len() < self.source_stats.nodes || edges.ids.len()
            < self.source_stats.edges;
        let enriched = SceneSnapshot {
            revision: self.revision,
            database_name: self.database_name.clone(),
            source_stats: self.source_stats,
            nodes,
            edges,
            bounds,
            sampled,
        };
        Ok(Some(enriched))
    }
}

/// Once a path has been injected the scene shows all of it: including it
/// again has nothing to do.
pub proof fn law_inclusion_is_complete(
    s: SceneSnapshot,
    path: EvidencePathView,
    overview: Seq<Vec2>,
    path_positions: Seq<Vec2>,
    bounds: Rect,
    t: SceneSnapshot,
    again: Seq<Vec2>,
)
    requires
        s.is_enriched(path, overview, path_positions, bounds, t),
        again.len() == t.nodes.ids@.len(),
        forall|i: int| 0 <= i < again.len() ==> (#[trigger] again[i]).finite(),
    ensures
        t.shows_path(path),
        t.inclusion(Some(path), again) == Ok::<bool, Seq<char>>(false),
{
    assert forall|i: int| 0 <= i < path.nodes.len() implies t.nodes.ids@.contains(
        (#[trigger] path.nodes[i]).id,
    ) by {
        lemma_node_on_path(path.nodes, path.nodes[i].id, 0);
        assert(s.reaches(path, path.nodes[i].id));
    }
    assert forall|i: int| 0 <= i < path.steps.len() implies t.edges.ids@.contains(
        (#[trigger] path.steps[i]).edge_id,
    ) by {
        lemma_step_on_path(path.steps, path.steps[i].edge_id, 0);
    }
}

/// Whether the node is on the path.
pub open spec fn on_path(path: EvidencePathView, id: u64) -> bool {
    exists|i: int| 0 <= i < path.nodes.len() && (#[trigger] path.nodes[i]).id == id
}

proof fn lemma_nothing_breaks(s: SceneSnapshot, path: EvidencePathView, k: int)
    requires
        0 <= k <= path.steps.len(),
        forall|i: int|
            0 <= i < path.steps.len() ==> on_path(path, (#[trigger] path.steps[i]).from)
                && on_path(path, path.steps[i].to),
    ensures
        s.first_break(path, k) is None,
    decreases path.steps.len() - k,
{
    if k < path.steps.len() {
        let step = path.steps[k];
        assert(on_path(path, step.from) && on_path(path, step.to));
        lemma_node_on_path(path.nodes, step.from, 0);
        lemma_node_on_path(path.nodes, step.to, 0);
        let i = choose|i: int|
            0 <= i < path.nodes.len() && (#[trigger] path.nodes[i]).id == step.from;
        let j = choose|j: int| 0 <= j < path.nodes.len() && (#[trigger] path.nodes[j]).id == step.to;
        assert(s.reaches(path, stored_ends(step).0));
        assert(s.reaches(path, stored_ends(step).1));
        lemma_nothing_breaks(s, path, k + 1);
    }
}

/// A path whose steps join its own nodes can always be included: there is
/// nothing to do exactly where the scene shows all of it already, and once it
/// has been injected, including it again at the positions of the new scene has
/// nothing to do.
pub proof fn law_inclusion_settles(
    s: SceneSnapshot,
    path: EvidencePathView,
    overview: Seq<Vec2>,
    path_positions: Seq<Vec2>,
    bounds: Rect,
)
    requires
        s.wf(),
        overview.len() == s.nodes.ids@.len(),
        forall|i: int| 0 <= i < overview.len() ==> (#[trigger] overview[i]).finite(),
        path_positions.len() == path.nodes.len(),
        forall|i: int| 0 <= i < path_positions.len() ==> (#[trigger] path_positions[i]).finite(),
        forall|i: int|
            0 <= i < path.steps.len() ==> on_path(path, (#[trigger] path.steps[i]).from)
                && on_path(path, path.steps[i].to),
    ensures
        s.inclusion(Some(path), overview) == Ok::<bool, Seq<char>>(!s.shows_path(path)),
        forall|t: SceneSnapshot| #[trigger]
            s.is_enriched(path, overview, path_positions, bounds, t) ==> t.inclusion(
                Some(path),
                t.nodes.positions@,
            ) == Ok::<bool, Seq<char>>(false),
{
    lemma_nothing_breaks(s, path, 0);
    assert forall|t: SceneSnapshot| #[trigger]
        s.is_enriched(path, overview, path_positions, bounds, t) implies t.inclusion(
        Some(path),
        t.nodes.positions@,
    ) == Ok::<bool, Seq<char>>(false) by {
        let again = t.nodes.positions@;
        assert forall|i: int| 0 <= i < again.len() implies (#[trigger] again[i]).finite() by {
            assert(s.enriched_node(path, overview, path_positions, t.nodes, i));
            let id = t.nodes.ids@[i];
            lemma_node_on_path(path.nodes, id, 0);
            if s.nodes.ids@.contains(id) {
                let k = s.nodes.ids@.index_of(id);
                assert(0 <= k < s.nodes.ids@.len());
                assert(overview[k].finite());
            }
        }
        law_inclusion_is_complete(s, path, overview, path_positions, bounds, t, again);
    }
}

/// Injection keeps every node and relationship of the scene, and every old
/// node keeps its overview position.
pub proof fn law_inclusion_keeps_the_overview(
    s: SceneSnapshot,
    path: EvidencePathView,
    overview: Seq<Vec2>,
    path_positions: Seq<Vec2>,
    bounds: Rect,
    t: SceneSnapshot,
    k: int,
)
    requires
        s.wf(),
        s.is_enriched(path, overview, path_positions, bounds, t),
        0 <= k < s.nodes.ids@.len(),
    ensures
        t.nodes.ids@.contains(s.nodes.ids@[k]),
        ({
            let i = scene::position_of(t.nodes.ids@, s.nodes.ids@[k])->0 as int;
            &&& t.nodes.positions@[i] == overview[k]
            &&& t.nodes.labels@[i]@ == s.nodes.labels@[k]@
        }),
        forall|e: int|
            0 <= e < s.edges.ids@.len() ==> t.edges.ids@.contains(#[trigger] s.edges.ids@[e]),
{
    let id = s.nodes.ids@[k];
    assert(s.nodes.ids@.contains(id));
    assert(s.reaches(path, id));
    assert(t.nodes.ids@.contains(id));
    let i = t.nodes.ids@.index_of(id);
    assert(t.nodes.ids@[i] == id);
    scene::law_lookup_inverts_ids(t.nodes.ids@, i);
    scene::law_lookup_inverts_ids(s.nodes.ids@, k);
    assert(s.enriched_node(path, overview, path_positions, t.nodes, i));
}

} // verus!
