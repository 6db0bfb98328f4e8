//! What the canvas brings out: a score for every element, and how far the
//! rest is dimmed.
//!
//! Scores are carried by the bits of their single-precision values.

use vstd::prelude::*;
use vstd::string::*;

use crate::evidence::{EvidencePathReport, EvidencePathTermination};
use crate::focus::FocusView;
use crate::graph::ElementRef;
use crate::scene::{SceneFocus, SceneSelection, SceneSnapshot};
use crate::search;
use crate::search::SearchHit;
use crate::single;
use crate::studio_command::{FacetLens, FacetView};
use crate::text;

verus! {

/// The score 1.0, of what was looked for itself.
pub const FULL: u32 = 0x3f80_0000;

/// The score 0.76, of a node within a path.
pub const ON_PATH: u32 = 0x3f42_8f5c;

/// The score 0.72, of what is next to what was looked for.
pub const NEAR: u32 = 0x3f38_51ec;

/// The score 0.68, of a relationship around a result.
pub const AROUND: u32 = 0x3f2e_147b;

/// The score 0.58, of a node around a result.
pub const NEIGHBOR: u32 = 0x3f14_7ae1;

/// The score 0.52, of a relationship between two matches.
pub const BETWEEN: u32 = 0x3f05_1eb8;

/// The score 0.46, of a node two hops away.
pub const FAR: u32 = 0x3eeb_851f;

/// The score 0.22, of a relationship within a context that discovered nothing.
pub const WITHIN: u32 = 0x3e61_47ae;

/// The score 0.18, of a relationship at one match.
pub const BESIDE: u32 = 0x3e38_51ec;

/// The dimming 0.9 around a facet.
pub const FACET_DIM: u32 = 0x3f66_6666;

/// The dimming 0.84 around search results.
pub const SEARCH_DIM: u32 = 0x3f57_0a3d;

/// The dimming 0.96 around a result or a path that was found.
pub const FOCUS_DIM: u32 = 0x3f75_c28f;

/// The dimming 0.97 around a context.
pub const CONTEXT_DIM: u32 = 0x3f78_51ec;

/// The dimming 0.78 around the ends of a path that was not found.
pub const NO_PATH_DIM: u32 = 0x3f47_ae14;

/// What the canvas brings out.
#[derive(Debug)]
pub struct Lens {
    pub nodes: Vec<u32>,
    pub edges: Vec<u32>,
    pub dim: u32,
}

/// What the canvas brings out.
#[verifier::ext_equal]
pub struct LensView {
    pub nodes: Seq<u32>,
    pub edges: Seq<u32>,
    pub dim: u32,
}

impl View for Lens {
    type V = LensView;

    open spec fn view(&self) -> LensView {
        LensView { nodes: self.nodes@, edges: self.edges@, dim: self.dim }
    }
}

/// Nothing brought out, nothing dimmed.
pub open spec fn blank(snapshot: SceneSnapshot) -> LensView {
    LensView {
        nodes: Seq::new(snapshot.nodes.ids@.len(), |i: int| 0u32),
        edges: Seq::new(snapshot.edges.ids@.len(), |i: int| 0u32),
        dim: 0,
    }
}

fn zeros(n: usize) -> (r: Vec<u32>)
    ensures
        r@ == Seq::new(n as nat, |i: int| 0u32),
{
    let mut out: Vec<u32> = Vec::new();
    let mut i: usize = 0;
    while i < n
        invariant
            i <= n,
            out@ == Seq::new(i as nat, |i: int| 0u32),
        decreases n - i,
    {
        out.push(0);
        assert(out@ =~= Seq::new((i + 1) as nat, |i: int| 0u32));
        i = i + 1;
    }
    out
}

/// Brings nothing out and dims nothing.
pub fn blank_lens(snapshot: &SceneSnapshot) -> (r: Lens)
    ensures
        r@ == blank(*snapshot),
{
    Lens {
        nodes: zeros(snapshot.nodes.ids.len()),
        edges: zeros(snapshot.edges.ids.len()),
        dim: 0,
    }
}

/// How many labels are the given one.
pub open spec fn occurrences(labels: Seq<String>, label: Seq<char>) -> nat
    decreases labels.len(),
{
    if labels.len() == 0 {
        0
    } else {
        occurrences(labels.drop_last(), label) + if labels.last()@ == label {
            1nat
        } else {
            0nat
        }
    }
}

/// The score of a node under a lens on a node label.
pub open spec fn labelled_node(snapshot: SceneSnapshot, label: Seq<char>, i: int) -> u32 {
    if snapshot.nodes.labels@[i]@ == label {
        FULL
    } else {
        0
    }
}

/// The score of a relationship under a lens on a node label: by how many of
/// its ends match.
pub open spec fn labelled_edge(snapshot: SceneSnapshot, label: Seq<char>, e: int) -> u32 {
    let source = snapshot.nodes.labels@[snapshot.edges.sources@[e] as int]@ == label;
    let target = snapshot.nodes.labels@[snapshot.edges.targets@[e] as int]@ == label;
    if source && target {
        BETWEEN
    } else if source || target {
        BESIDE
    } else {
        0
    }
}

/// Whether a relationship of the given label ends at a node, among the first
/// `upto`.
pub open spec fn touched(snapshot: SceneSnapshot, label: Seq<char>, i: int, upto: int) -> bool {
    exists|e: int|
        0 <= e < upto && (#[trigger] snapshot.edges.labels@[e])@ == label && (
        snapshot.edges.sources@[e] == i || snapshot.edges.targets@[e] == i)
}

/// What a lens brings out.
pub open spec fn facet_scores(snapshot: SceneSnapshot, facet: FacetView) -> LensView {
    match facet {
        FacetView::NodeLabel(label) => LensView {
            nodes: Seq::new(
                snapshot.nodes.ids@.len(),
                |i: int| labelled_node(snapshot, label, i),
            ),
            edges: Seq::new(
                snapshot.edges.ids@.len(),
                |e: int| labelled_edge(snapshot, label, e),
            ),
            dim: FACET_DIM,
        },
        FacetView::Relationship(label) => LensView {
            nodes: Seq::new(
                snapshot.nodes.ids@.len(),
                |i: int|
                    if touched(snapshot, label, i, snapshot.edges.ids@.len() as int) {
                        NEAR
                    } else {
                        0u32
                    },
            ),
            edges: Seq::new(
                snapshot.edges.ids@.len(),
                |e: int|
                    if snapshot.edges.labels@[e]@ == label {
                        FULL
                    } else {
                        0u32
                    },
            ),
            dim: FACET_DIM,
        },
    }
}

/// How many elements a lens is on.
pub open spec fn facet_matches(snapshot: SceneSnapshot, facet: FacetView) -> nat {
    match facet {
        FacetView::NodeLabel(label) => occurrences(snapshot.nodes.labels@, label),
        FacetView::Relationship(label) => occurrences(snapshot.edges.labels@, label),
    }
}

fn count_label(labels: &Vec<String>, label: &str) -> (r: usize)
    ensures
        r == occurrences(labels@, label@),
{
    let mut count: usize = 0;
    let mut i: usize = 0;
    assert(labels@.take(0) =~= Seq::<String>::empty());
    while i < labels.len()
        invariant
            i <= labels.len(),
            count <= i,
            count == occurrences(labels@.take(i as int), label@),
        decreases labels.len() - i,
    {
        assert(labels@.take(i + 1).drop_last() =~= labels@.take(i as int));
        if text::same_text(labels[i].as_str(), label) {
            count = count + 1;
        }
        i = i + 1;
    }
    assert(labels@.take(labels@.len() as int) =~= labels@);
    count
}

fn node_label_lens(snapshot: &SceneSnapshot, label: &str) -> (r: Lens)
    requires
        snapshot.wf(),
    ensures
        r@ == facet_scores(*snapshot, FacetView::NodeLabel(label@)),
{
    let n: usize = snapshot.nodes.ids.len();
    let m: usize = snapshot.edges.ids.len();
    let mut nodes: Vec<u32> = Vec::new();
    let mut i: usize = 0;
    let ghost node_score = |i: int| labelled_node(*snapshot, label@, i);
    while i < n
        invariant
            snapshot.wf(),
            n == snapshot.nodes.ids@.len(),
            node_score == (|i: int| labelled_node(*snapshot, label@, i)),
            i <= n,
            nodes@ == Seq::new(i as nat, node_score),
        decreases n - i,
    {
        if text::same_text(snapshot.nodes.labels[i].as_str(), label) {
            nodes.push(FULL);
        } else {
            nodes.push(0);
        }
        assert(nodes@ =~= Seq::new((i + 1) as nat, node_score));
        i = i + 1;
    }
    let mut edges: Vec<u32> = Vec::new();
    let mut e: usize = 0;
    let ghost edge_score = |e: int| labelled_edge(*snapshot, label@, e);
    while e < m
        invariant
            snapshot.wf(),
            m == snapshot.edges.ids@.len(),
            edge_score == (|e: int| labelled_edge(*snapshot, label@, e)),
            e <= m,
            edges@ == Seq::new(e as nat, edge_score),
        decreases m - e,
    {
        let from: usize = snapshot.edges.sources[e] as usize;
        let to: usize = snapshot.edges.targets[e] as usize;
        let source = text::same_text(snapshot.nodes.labels[from].as_str(), label);
        let target = text::same_text(snapshot.nodes.labels[to].as_str(), label);
        if source && target {
            edges.push(BETWEEN);
        } else if source || target {
            edges.push(BESIDE);
        } else {
            edges.push(0);
        }
        assert(edges@ =~= Seq::new((e + 1) as nat, edge_score));
        e = e + 1;
    }
    Lens { nodes, edges, dim: FACET_DIM }
}

fn relationship_lens(snapshot: &SceneSnapshot, label: &str) -> (r: Lens)
    requires
        snapshot.wf(),
    ensures
        r@ == facet_scores(*snapshot, FacetView::Relationship(label@)),
{
    let n: usize = snapshot.nodes.ids.len();
    let m: usize = snapshot.edges.ids.len();
    let mut nodes = zeros(n);
    let mut edges: Vec<u32> = Vec::new();
    let mut e: usize = 0;
    let ghost edge_score = |e: int|
        if snapshot.edges.labels@[e]@ == label@ {
            FULL
        } else {
            0u32
        };
    while e < m
        invariant
            snapshot.wf(),
            n == snapshot.nodes.ids@.len(),
            m == snapshot.edges.ids@.len(),
            edge_score == (|e: int|
                if snapshot.edges.labels@[e]@ == label@ {
                    FULL
                } else {
                    0u32
                }),
            e <= m,
            edges@ == Seq::new(e as nat, edge_score),
            nodes@.len() == n,
            forall|i: int|
                0 <= i < n ==> #[trigger] nodes@[i] == if touched(
                    *snapshot,
                    label@,
                    i,
                    e as int,
                ) {
                    NEAR
                } else {
                    0u32
                },
        decreases m - e,
    {
        let from: usize = snapshot.edges.sources[e] as usize;
        let to: usize = snapshot.edges.targets[e] as usize;
        let ghost before = nodes@;
        let matches = text::same_text(snapshot.edges.labels[e].as_str(), label);
        if matches {
            edges.push(FULL);
            nodes.set(from, NEAR);
            nodes.set(to, NEAR);
        } else {
            edges.push(0);
        }
        proof {
            assert(edges@ =~= Seq::new((e + 1) as nat, edge_score));
            assert forall|i: int| 0 <= i < n implies #[trigger] nodes@[i] == if touched(
                *snapshot,
                label@,
                i,
                e + 1,
            ) {
                NEAR
            } else {
                0u32
            } by {
                assert(before[i] == if touched(*snapshot, label@, i, e as int) {
                    NEAR
                } else {
                    0u32
                });
                if touched(*snapshot, label@, i, e as int) {
                    let k = choose|k: int|
                        0 <= k < e && (#[trigger] snapshot.edges.labels@[k])@ == label@ && (
                        snapshot.edges.sources@[k] == i || snapshot.edges.targets@[k] == i);
                    assert(snapshot.edges.labels@[k]@ == label@);
                    assert(touched(*snapshot, label@, i, e + 1));
                }
                if matches && (i == from || i == to) {
                    assert(snapshot.edges.labels@[e as int]@ == label@);
                    assert(touched(*snapshot, label@, i, e + 1));
                }
            }
        }
        e = e + 1;
    }
    let r = Lens { nodes, edges, dim: FACET_DIM };
    assert(r@ =~= facet_scores(*snapshot, FacetView::Relationship(label@)));
    r
}

/// What a lens brings out, and how many elements it is on.
pub fn facet_lens(snapshot: &SceneSnapshot, facet: &FacetLens) -> (r: (Lens, usize))
    requires
        snapshot.wf(),
    ensures
        r.0@ == facet_scores(*snapshot, facet@),
        r.1 == facet_matches(*snapshot, facet@),
{
    match facet {
        FacetLens::NodeLabel(label) => (
            node_label_lens(snapshot, label.as_str()),
            count_label(&snapshot.nodes.labels, label.as_str()),
        ),
        FacetLens::Relationship(label) => (
            relationship_lens(snapshot, label.as_str()),
            count_label(&snapshot.edges.labels, label.as_str()),
        ),
    }
}

/// The score of a node on a path by its last place among the first `upto`:
/// the ends of the path count fully.
pub open spec fn path_score(ids: Seq<u64>, id: u64, upto: nat) -> u32
    decreases upto,
{
    if upto == 0 {
        0
    } else if ids[upto - 1] == id {
        if upto == 1 || upto == ids.len() {
            FULL
        } else {
            ON_PATH
        }
    } else {
        path_score(ids, id, (upto - 1) as nat)
    }
}

/// The nodes that a report is about: those of its path, or else its two ends.
pub open spec fn reported_nodes(report: EvidencePathReport) -> Seq<u64> {
    match report.path {
        Some(path) => path.nodes@.map_values(|n: crate::evidence::EvidenceNode| n.id),
        None => seq![report.start.id, report.end.id],
    }
}

/// The relationships of the path of a report.
pub open spec fn reported_edges(report: EvidencePathReport) -> Seq<u64> {
    match report.path {
        Some(path) => path.steps@.map_values(|s: crate::evidence::EvidenceStep| s.edge_id),
        None => Seq::empty(),
    }
}

/// What a path brings out.
pub open spec fn path_scores(snapshot: SceneSnapshot, report: EvidencePathReport) -> LensView {
    let nodes = reported_nodes(report);
    let edges = reported_edges(report);
    LensView {
        nodes: Seq::new(
            snapshot.nodes.ids@.len(),
            |i: int| path_score(nodes, snapshot.nodes.ids@[i], nodes.len()),
        ),
        edges: Seq::new(
            snapshot.edges.ids@.len(),
            |e: int|
                if edges.contains(snapshot.edges.ids@[e]) {
                    FULL
                } else {
                    0u32
                },
        ),
        dim: if report.termination == EvidencePathTermination::Found {
            FOCUS_DIM
        } else {
            NO_PATH_DIM
        },
    }
}

fn node_ids_of(report: &EvidencePathReport) -> (r: Vec<u64>)
    ensures
        r@ == reported_nodes(*report),
{
    let mut out: Vec<u64> = Vec::new();
    match &report.path {
        None => {
            out.push(report.start.id);
            out.push(report.end.id);
            assert(out@ =~= reported_nodes(*report));
        },
        Some(path) => {
            let mut i: usize = 0;
            while i < path.nodes.len()
                invariant
                    report.path == Some(*path),
                    i <= path.nodes.len(),
                    out@ == reported_nodes(*report).take(i as int),
                decreases path.nodes.len() - i,
            {
                out.push(path.nodes[i].id);
                assert(out@ =~= reported_nodes(*report).take(i + 1));
                i = i + 1;
            }
            assert(reported_nodes(*report).take(path.nodes@.len() as int) =~= reported_nodes(
                *report,
            ));
        },
    }
    out
}

fn edge_ids_of(report: &EvidencePathReport) -> (r: Vec<u64>)
    ensures
        r@ == reported_edges(*report),
{
    let mut out: Vec<u64> = Vec::new();
    match &report.path {
        None => {
            assert(out@ =~= reported_edges(*report));
        },
        Some(path) => {
            let mut i: usize = 0;
            while i < path.steps.len()
                invariant
                    report.path == Some(*path),
                    i <= path.steps.len(),
                    out@ == reported_edges(*report).take(i as int),
                decreases path.steps.len() - i,
            {
                out.push(path.steps[i].edge_id);
                assert(out@ =~= reported_edges(*report).take(i + 1));
                i = i + 1;
            }
            assert(reported_edges(*report).take(path.steps@.len() as int) =~= reported_edges(
                *report,
            ));
        },
    }
    out
}

/// Brings out a path.
pub fn path_lens(snapshot: &SceneSnapshot, report: &EvidencePathReport) -> (r: Lens)
    requires
        snapshot.wf(),
    ensures
        r@ == path_scores(*snapshot, *report),
{
    let on_path = node_ids_of(report);
    let steps = edge_ids_of(report);
    let mut nodes = zeros(snapshot.nodes.ids.len());
    let mut p: usize = 0;
    while p < on_path.len()
        invariant
            snapshot.wf(),
            p <= on_path.len(),
            nodes@.len() == snapshot.nodes.ids@.len(),
            forall|i: int|
                0 <= i < nodes@.len() ==> #[trigger] nodes@[i] == path_score(
                    on_path@,
                    snapshot.nodes.ids@[i],
                    p as nat,
                ),
        decreases on_path.len() - p,
    {
        let ghost before = nodes@;
        match snapshot.node_index(on_path[p]) {
            Some(index) => {
                if p == 0 || p == on_path.len() - 1 {
                    nodes.set(index, FULL);
                } else {
                    nodes.set(index, ON_PATH);
                }
                proof {
                    assert forall|i: int| 0 <= i < nodes@.len() implies #[trigger] nodes@[i]
                        == path_score(on_path@, snapshot.nodes.ids@[i], (p + 1) as nat) by {
                        if i != index {
                            assert(nodes@[i] == before[i]);
                            assert(snapshot.nodes.ids@[i] != on_path@[p as int]);
                        }
                    }
                }
            },
            None => {
                proof {
                    assert forall|i: int| 0 <= i < nodes@.len() implies #[trigger] nodes@[i]
                        == path_score(on_path@, snapshot.nodes.ids@[i], (p + 1) as nat) by {
                        assert(snapshot.nodes.ids@.contains(snapshot.nodes.ids@[i]));
                    }
                }
            },
        }
        p = p + 1;
    }
    let mut edges = zeros(snapshot.edges.ids.len());
    let mut s: usize = 0;
    while s < steps.len()
        invariant
            snapshot.wf(),
            s <= steps.len(),
            edges@.len() == snapshot.edges.ids@.len(),
            forall|e: int|
                0 <= e < edges@.len() ==> #[trigger] edges@[e] == if steps@.take(
                    s as int,
                ).contains(snapshot.edges.ids@[e]) {
                    FULL
                } else {
                    0u32
                },
        decreases steps.len() - s,
    {
        let ghost before = edges@;
        let ghost next = steps@.take(s + 1);
        assert(next =~= steps@.take(s as int).push(steps@[s as int]));
        let found = snapshot.edge_index(steps[s]);
        match found {
            Some(index) => {
                edges.set(index, FULL);
            },
            None => {},
        }
        proof {
            assert forall|e: int| 0 <= e < edges@.len() implies #[trigger] edges@[e]
                == if next.contains(snapshot.edges.ids@[e]) {
                FULL
            } else {
                0u32
            } by {
                let id = snapshot.edges.ids@[e];
                assert(snapshot.edges.ids@.contains(id));
                if steps@.take(s as int).contains(id) {
                    let k = choose|k: int| 0 <= k < s && steps@.take(s as int)[k] == id;
                    assert(next[k] == id);
                }
                if id == steps@[s as int] {
                    assert(next[s as int] == id);
                } else if next.contains(id) {
                    let k = choose|k: int| 0 <= k < next.len() && next[k] == id;
                    assert(steps@.take(s as int)[k] == id);
                }
                if found is None || found != Some(e as usize) {
                    assert(edges@[e] == before[e]);
                }
            }
        }
        s = s + 1;
    }
    assert(steps@.take(steps@.len() as int) =~= steps@);
    let dim: u32 = if report.termination == EvidencePathTermination::Found {
        FOCUS_DIM
    } else {
        NO_PATH_DIM
    };
    let r = Lens { nodes, edges, dim };
    assert(r@ =~= path_scores(*snapshot, *report));
    r
}

/// Marks listed positions.
fn mark(scores: &mut Vec<u32>, at: &Vec<usize>, score: u32)
    ensures
        final(scores)@ == marked(old(scores)@, at@, score),
{
    let ghost before = scores@;
    let mut k: usize = 0;
    assert(at@.take(0) =~= Seq::<usize>::empty());
    while k < at.len()
        invariant
            k <= at.len(),
            scores@.len() == before.len(),
            forall|i: int|
                0 <= i < scores@.len() ==> #[trigger] scores@[i] == marked(
                    before,
                    at@.take(k as int),
                    score,
                )[i],
        decreases at.len() - k,
    {
        let ghost now = scores@;
        let ghost next = at@.take(k + 1);
        assert(next =~= at@.take(k as int).push(at@[k as int]));
        if at[k] < scores.len() {
            scores.set(at[k], score);
        }
        proof {
            assert forall|i: int| 0 <= i < scores@.len() implies #[trigger] scores@[i] == marked(
                before,
                next,
                score,
            )[i] by {
                assert(now[i] == marked(before, at@.take(k as int), score)[i]);
                lemma_push_contains(at@.take(k as int), at@[k as int], i as usize);
            }
        }
        k = k + 1;
    }
    assert(at@.take(at@.len() as int) =~= at@);
    assert(scores@ =~= marked(before, at@, score));
}

/// The scores with listed positions set.
pub open spec fn marked(scores: Seq<u32>, at: Seq<usize>, score: u32) -> Seq<u32> {
    Seq::new(
        scores.len(),
        |i: int|
            if at.contains(i as usize) && i <= usize::MAX {
                score
            } else {
                scores[i]
            },
    )
}

proof fn lemma_push_contains(s: Seq<usize>, x: usize, y: usize)
    ensures
        s.push(x).contains(y) <==> s.contains(y) || x == y,
{
    let t = s.push(x);
    if s.contains(y) {
        let k = choose|k: int| 0 <= k < s.len() && s[k] == y;
        assert(t[k] == y);
    }
    if x == y {
        assert(t[s.len() as int] == y);
    }
    if t.contains(y) && x != y {
        let k = choose|k: int| 0 <= k < t.len() && t[k] == y;
        assert(s[k] == y);
    }
}

/// What the context of a search result brings out.
pub open spec fn focus_scores(
    snapshot: SceneSnapshot,
    focus: FocusView,
    selection: SceneSelection,
) -> LensView {
    let none = blank(snapshot);
    let around = marked(none.edges, focus.edges, AROUND);
    LensView {
        nodes: marked(marked(none.nodes, focus.nodes, NEIGHBOR), focus.roots, FULL),
        edges: match selection {
            SceneSelection::Edge(index) => marked(around, seq![index], FULL),
            SceneSelection::Node(_) => around,
        },
        dim: FOCUS_DIM,
    }
}

/// Brings out the context of a search result.
pub fn focus_lens(snapshot: &SceneSnapshot, focus: &SceneFocus, selection: SceneSelection) -> (r:
    Lens)
    ensures
        r@ == focus_scores(*snapshot, focus@, selection),
{
    let mut nodes = zeros(snapshot.nodes.ids.len());
    let mut edges = zeros(snapshot.edges.ids.len());
    mark(&mut nodes, &focus.nodes, NEIGHBOR);
    mark(&mut nodes, &focus.roots, FULL);
    mark(&mut edges, &focus.edges, AROUND);
    match selection {
        SceneSelection::Edge(index) => {
            let one: Vec<usize> = vec![index];
            assert(one@ =~= seq![index]);
            mark(&mut edges, &one, FULL);
        },
        SceneSelection::Node(_) => {},
    }
    Lens { nodes, edges, dim: FOCUS_DIM }
}

/// The score of a node by its distance from the centre of a context.
pub open spec fn layer_score(depth: nat) -> u32 {
    if depth == 0 {
        FULL
    } else if depth == 1 {
        NEAR
    } else {
        FAR
    }
}

/// The scores with the first `upto` layers set.
pub open spec fn layered(scores: Seq<u32>, layers: Seq<Seq<usize>>, upto: nat) -> Seq<u32>
    decreases upto,
{
    if upto == 0 {
        scores
    } else {
        marked(
            layered(scores, layers, (upto - 1) as nat),
            layers[upto - 1],
            layer_score((upto - 1) as nat),
        )
    }
}

/// Whether a relationship joins a node to the one that it was found from.
pub open spec fn discovers(parents: Seq<(usize, usize)>, a: usize, b: usize) -> bool {
    exists|i: int|
        0 <= i < parents.len() && ((#[trigger] parents[i]) == (a, b) || parents[i] == (b, a))
}

/// The score of a relationship within a context.
pub open spec fn context_edge(snapshot: SceneSnapshot, focus: FocusView, e: int) -> u32 {
    if focus.edges.contains(e as usize) && e <= usize::MAX {
        if discovers(
            focus.parents,
            snapshot.edges.sources@[e] as usize,
            snapshot.edges.targets@[e] as usize,
        ) {
            NEAR
        } else {
            WITHIN
        }
    } else {
        0
    }
}

/// What a context brings out.
pub open spec fn context_scores(snapshot: SceneSnapshot, focus: FocusView) -> LensView {
    LensView {
        nodes: layered(blank(snapshot).nodes, focus.layers, focus.layers.len()),
        edges: Seq::new(
            snapshot.edges.ids@.len(),
            |e: int| context_edge(snapshot, focus, e),
        ),
        dim: CONTEXT_DIM,
    }
}

fn is_discovery(parents: &Vec<(usize, usize)>, a: usize, b: usize) -> (r: bool)
    ensures
        r == discovers(parents@, a, b),
{
    let mut i: usize = 0;
    while i < parents.len()
        invariant
            i <= parents.len(),
            forall|j: int|
                0 <= j < i ==> (#[trigger] parents@[j]) != (a, b) && parents@[j] != (b, a),
        decreases parents.len() - i,
    {
        let (child, parent) = parents[i];
        if (child == a && parent == b) || (child == b && parent == a) {
            assert(parents@[i as int] == (a, b) || parents@[i as int] == (b, a));
            return true;
        }
        i = i + 1;
    }
    false
}

/// Brings out a context.
pub fn context_lens(snapshot: &SceneSnapshot, focus: &SceneFocus) -> (r: Lens)
    requires
        snapshot.wf(),
    ensures
        r@ == context_scores(*snapshot, focus@),
{
    let mut nodes = zeros(snapshot.nodes.ids.len());
    let ghost none = nodes@;
    let mut depth: usize = 0;
    while depth < focus.layers.len()
        invariant
            depth <= focus.layers.len(),
            nodes@ == layered(none, focus@.layers, depth as nat),
        decreases focus.layers.len() - depth,
    {
        let score: u32 = if depth == 0 {
            FULL
        } else if depth == 1 {
            NEAR
        } else {
            FAR
        };
        assert(focus@.layers[depth as int] == focus.layers@[depth as int]@);
        mark(&mut nodes, &focus.layers[depth], score);
        depth = depth + 1;
    }
    let mut edges = zeros(snapshot.edges.ids.len());
    let mut k: usize = 0;
    assert(focus.edges@.take(0) =~= Seq::<usize>::empty());
    while k < focus.edges.len()
        invariant
            snapshot.wf(),
            k <= focus.edges.len(),
            edges@.len() == snapshot.edges.ids@.len(),
            forall|e: int|
                0 <= e < edges@.len() ==> #[trigger] edges@[e] == if focus.edges@.take(
                    k as int,
                ).contains(e as usize) && e <= usize::MAX {
                    context_edge(*snapshot, focus@, e)
                } else {
                    0u32
                },
        decreases focus.edges.len() - k,
    {
        let at: usize = focus.edges[k];
        let ghost before = edges@;
        let ghost next = focus.edges@.take(k + 1);
        assert(next =~= focus.edges@.take(k as int).push(at));
        assert(focus.edges@.contains(at));
        if at < edges.len() {
            let score: u32 = if is_discovery(
                &focus.parents,
                snapshot.edges.sources[at] as usize,
                snapshot.edges.targets[at] as usize,
            ) {
                NEAR
            } else {
                WITHIN
            };
            edges.set(at, score);
        }
        proof {
            assert forall|e: int| 0 <= e < edges@.len() implies #[trigger] edges@[e]
                == if next.contains(e as usize) && e <= usize::MAX {
                context_edge(*snapshot, focus@, e)
            } else {
                0u32
            } by {
                lemma_push_contains(focus.edges@.take(k as int), at, e as usize);
                if e != at {
                    assert(edges@[e] == before[e]);
                }
            }
        }
        k = k + 1;
    }
    assert(focus.edges@.take(focus.edges@.len() as int) =~= focus.edges@);
    let r = Lens { nodes, edges, dim: CONTEXT_DIM };
    assert(r@ =~= context_scores(*snapshot, focus@));
    r
}

/// Scores with one raised to `score`, unless it is as high already.
pub open spec fn raised(scores: Seq<u32>, at: int, score: u32) -> Seq<u32> {
    if single::less(scores[at], score) {
        scores.update(at, score)
    } else {
        scores
    }
}

fn raise(scores: &mut Vec<u32>, at: usize, score: u32)
    requires
        at < old(scores)@.len(),
    ensures
        final(scores)@ == raised(old(scores)@, at as int, score),
        final(scores)@.len() == old(scores)@.len(),
{
    if single::is_less(scores[at], score) {
        scores.set(at, score);
    }
}

/// What the first results bring out, and the nodes that they are framed by.
/// A result brings its element out by its strength, and the ends of a
/// relationship by a weaker one.
pub open spec fn found_scores(
    snapshot: SceneSnapshot,
    elements: Seq<ElementRef>,
    strengths: Seq<(u32, u32)>,
    upto: nat,
) -> (LensView, Seq<usize>)
    decreases upto,
{
    if upto == 0 {
        (LensView { dim: SEARCH_DIM, ..blank(snapshot) }, Seq::empty())
    } else {
        let (lens, framed) = found_scores(snapshot, elements, strengths, (upto - 1) as nat);
        let (strong, weak) = strengths[upto - 1];
        match search::selection_of(snapshot, elements[upto - 1]) {
            None => (lens, framed),
            Some(SceneSelection::Node(index)) => (
                LensView { nodes: raised(lens.nodes, index as int, strong), ..lens },
                framed.push(index),
            ),
            Some(SceneSelection::Edge(index)) => {
                let source = snapshot.edges.sources@[index as int];
                let target = snapshot.edges.targets@[index as int];
                (
                    LensView {
                        nodes: raised(
                            raised(lens.nodes, source as int, weak),
                            target as int,
                            weak,
                        ),
                        edges: raised(lens.edges, index as int, strong),
                        ..lens
                    },
                    framed.push(source as usize).push(target as usize),
                )
            },
        }
    }
}

/// Brings search results out. `strengths` has the relative score of each
/// result, and the weaker one of the ends of a relationship.
pub fn search_lens(
    snapshot: &SceneSnapshot,
    hits: &Vec<SearchHit>,
    strengths: &Vec<(u32, u32)>,
) -> (r: (Lens, Vec<usize>))
    requires
        snapshot.wf(),
        strengths@.len() == hits@.len(),
    ensures
        (r.0@, r.1@) == found_scores(
            *snapshot,
            hits@.map_values(|hit: SearchHit| hit.element),
            strengths@,
            hits@.len(),
        ),
{
    let ghost elements = hits@.map_values(|hit: SearchHit| hit.element);
    let mut lens = blank_lens(snapshot);
    lens.dim = SEARCH_DIM;
    let mut framed: Vec<usize> = Vec::new();
    let mut i: usize = 0;
    proof {
        assert(framed@ =~= Seq::<usize>::empty());
        assert(lens@ =~= LensView { dim: SEARCH_DIM, ..blank(*snapshot) });
    }
    while i < hits.len()
        invariant
            i <= hits@.len(),
            snapshot.wf(),
            strengths@.len() == hits@.len(),
            elements == hits@.map_values(|hit: SearchHit| hit.element),
            lens.nodes@.len() == snapshot.nodes.ids@.len(),
            lens.edges@.len() == snapshot.edges.ids@.len(),
            (lens@, framed@) == found_scores(*snapshot, elements, strengths@, i as nat),
        decreases hits@.len() - i,
    {
        let (strong, weak) = strengths[i];
        assert(elements[i as int] == hits@[i as int].element);
        match hits[i].scene_selection(snapshot) {
            None => {},
            Some(SceneSelection::Node(index)) => {
                raise(&mut lens.nodes, index, strong);
                framed.push(index);
            },
            Some(SceneSelection::Edge(index)) => {
                let source: usize = snapshot.edges.sources[index] as usize;
                let target: usize = snapshot.edges.targets[index] as usize;
                assert(snapshot.edges.sources@[index as int] < snapshot.nodes.ids@.len());
                assert(snapshot.edges.targets@[index as int] < snapshot.nodes.ids@.len());
                raise(&mut lens.edges, index, strong);
                raise(&mut lens.nodes, source, weak);
                raise(&mut lens.nodes, target, weak);
                framed.push(source);
                framed.push(target);
            },
        }
        i = i + 1;
    }
    (lens, framed)
}

} // verus!
