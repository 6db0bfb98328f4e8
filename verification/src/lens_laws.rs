//! What a lens brings out, and what it lets recede.

use vstd::prelude::*;

use crate::evidence::{EvidencePathReport, EvidencePathTermination};
use crate::focus::FocusView;
use crate::graph::ElementRef;
use crate::lens;
use crate::lens::LensView;
use crate::lens_transition::TransitionView;
use crate::scene::{SceneSelection, SceneSnapshot};
use crate::search;
use crate::single;
use crate::studio_command::FacetView;

verus! {

/// Whether an element is brought out in full.
pub open spec fn in_full(score: u32) -> bool {
    score == 0x3f80_0000
}

/// Whether an element is brought out, but not in full.
pub open spec fn in_part(score: u32) -> bool {
    single::less(0, score) && single::less(score, 0x3f80_0000)
}

/// Whether the rest recedes: neither not at all nor altogether.
pub open spec fn recedes(dim: u32) -> bool {
    single::less(0, dim) && single::less(dim, 0x3f80_0000)
}

/// A lens on a node label brings out the nodes of that label and no other. A
/// relationship is brought out in part where it touches one of them, and more
/// where it joins two.
pub proof fn law_node_facets_bring_out_their_label(s: SceneSnapshot, label: Seq<char>, i: int, e: int)
    requires
        s.wf(),
        0 <= i < s.nodes.ids@.len(),
        0 <= e < s.edges.ids@.len(),
    ensures
        ({
            let shown = lens::facet_scores(s, FacetView::NodeLabel(label));
            let from = s.nodes.labels@[s.edges.sources@[e] as int]@ == label;
            let to = s.nodes.labels@[s.edges.targets@[e] as int]@ == label;
            &&& shown.nodes.len() == s.nodes.ids@.len()
            &&& shown.edges.len() == s.edges.ids@.len()
            &&& recedes(shown.dim)
            &&& s.nodes.labels@[i]@ == label ==> in_full(shown.nodes[i])
            &&& s.nodes.labels@[i]@ != label ==> shown.nodes[i] == 0
            &&& !from && !to ==> shown.edges[e] == 0
            &&& from || to ==> in_part(shown.edges[e])
            &&& forall|d: int|
                0 <= d < s.edges.ids@.len() && from && to && (s.nodes.labels@[s.edges.sources@[d] as int]@
                    != label || s.nodes.labels@[s.edges.targets@[d] as int]@ != label)
                    ==> single::less(#[trigger] shown.edges[d], shown.edges[e])
        }),
{
    assert(!single::nan(0) && !single::nan(lens::BETWEEN) && !single::nan(lens::BESIDE)
        && !single::nan(lens::FULL) && !single::nan(lens::FACET_DIM));
}

/// A lens on a relationship label brings out the relationships of that label
/// and no other, and in part the nodes that they join.
pub proof fn law_relationship_facets_bring_out_their_label(
    s: SceneSnapshot,
    label: Seq<char>,
    i: int,
    e: int,
)
    requires
        s.wf(),
        0 <= i < s.nodes.ids@.len(),
        0 <= e < s.edges.ids@.len(),
    ensures
        ({
            let shown = lens::facet_scores(s, FacetView::Relationship(label));
            &&& shown.nodes.len() == s.nodes.ids@.len()
            &&& shown.edges.len() == s.edges.ids@.len()
            &&& recedes(shown.dim)
            &&& s.edges.labels@[e]@ == label ==> in_full(shown.edges[e])
            &&& s.edges.labels@[e]@ != label ==> shown.edges[e] == 0
            &&& s.edges.labels@[e]@ == label && (s.edges.sources@[e] == i || s.edges.targets@[e]
                == i) ==> in_part(shown.nodes[i])
            &&& in_part(shown.nodes[i]) || shown.nodes[i] == 0
            &&& shown.nodes[i] != 0 ==> exists|d: int|
                0 <= d < s.edges.ids@.len() && (#[trigger] s.edges.labels@[d])@ == label && (
                s.edges.sources@[d] == i || s.edges.targets@[d] == i)
        }),
{
    assert(!single::nan(0) && !single::nan(lens::NEAR) && !single::nan(lens::FULL)
        && !single::nan(lens::FACET_DIM));
    let m = s.edges.ids@.len() as int;
    if s.edges.labels@[e]@ == label && (s.edges.sources@[e] == i || s.edges.targets@[e] == i) {
        assert(lens::touched(s, label, i, m));
    }
}

/// A facet counts as many matches as there are elements of its label.
pub proof fn law_facets_count_their_label(labels: Seq<String>, label: Seq<char>)
    ensures
        lens::occurrences(labels, label) == labels.filter(|l: String| l@ == label).len(),
    decreases labels.len(),
{
    reveal(Seq::filter);
    if labels.len() > 0 {
        law_facets_count_their_label(labels.drop_last(), label);
    }
}

/// A facet of nodes counts node labels, and one of relationships counts
/// relationship labels.
pub proof fn law_facets_count_what_they_show(s: SceneSnapshot, label: Seq<char>)
    ensures
        lens::facet_matches(s, FacetView::NodeLabel(label)) == s.nodes.labels@.filter(
            |l: String| l@ == label,
        ).len(),
        lens::facet_matches(s, FacetView::Relationship(label)) == s.edges.labels@.filter(
            |l: String| l@ == label,
        ).len(),
{
    law_facets_count_their_label(s.nodes.labels@, label);
    law_facets_count_their_label(s.edges.labels@, label);
}

/// A blank lens brings out nothing and lets nothing recede.
pub proof fn law_blank_lens_shows_everything_alike(s: SceneSnapshot)
    ensures
        lens::blank(s).nodes.len() == s.nodes.ids@.len(),
        lens::blank(s).edges.len() == s.edges.ids@.len(),
        forall|i: int| 0 <= i < s.nodes.ids@.len() ==> (#[trigger] lens::blank(s).nodes[i]) == 0,
        forall|e: int| 0 <= e < s.edges.ids@.len() ==> (#[trigger] lens::blank(s).edges[e]) == 0,
        lens::blank(s).dim == 0,
{
}

proof fn lemma_path_score(ids: Seq<u64>, id: u64, upto: nat)
    requires
        upto <= ids.len(),
    ensures
        (exists|k: int| 0 <= k < upto && #[trigger] ids[k] == id) <==> lens::path_score(ids, id, upto)
            != 0,
        lens::path_score(ids, id, upto) == 0 || in_full(lens::path_score(ids, id, upto)) || in_part(
            lens::path_score(ids, id, upto),
        ),
        in_full(lens::path_score(ids, id, upto)) ==> ids[0] == id || ids[ids.len() - 1] == id,
    decreases upto,
{
    assert(!single::nan(0) && !single::nan(lens::ON_PATH) && !single::nan(lens::FULL));
    if upto > 0 {
        lemma_path_score(ids, id, (upto - 1) as nat);
        if ids[upto - 1] != id {
            if exists|k: int| 0 <= k < upto && #[trigger] ids[k] == id {
                let k = choose|k: int| 0 <= k < upto && #[trigger] ids[k] == id;
                assert(k < upto - 1 && ids[k] == id);
            }
        }
    }
}

/// A lens on a path brings out the nodes and the relationships of the path and
/// nothing else: its last node in full, and of a path that visits no node
/// twice its first node as well and the nodes between in part.
pub proof fn law_path_lens_brings_out_the_path(
    s: SceneSnapshot,
    report: EvidencePathReport,
    i: int,
    e: int,
)
    requires
        s.wf(),
        0 <= i < s.nodes.ids@.len(),
        0 <= e < s.edges.ids@.len(),
        report.path is Some,
        report.path->0.nodes@.len() > 0,
    ensures
        ({
            let shown = lens::path_scores(s, report);
            let nodes = report.path->0.nodes@;
            let steps = report.path->0.steps@;
            let id = s.nodes.ids@[i];
            &&& shown.nodes[i] != 0 <==> exists|k: int|
                0 <= k < nodes.len() && (#[trigger] nodes[k]).id == id
            &&& nodes.last().id == id ==> in_full(shown.nodes[i])
            &&& in_full(shown.nodes[i]) ==> nodes[0].id == id || nodes.last().id == id
            &&& shown.edges[e] != 0 <==> exists|k: int|
                0 <= k < steps.len() && (#[trigger] steps[k]).edge_id == s.edges.ids@[e]
            &&& shown.edges[e] == 0 || in_full(shown.edges[e])
            &&& recedes(shown.dim)
        }),
{
    let shown = lens::path_scores(s, report);
    let nodes = report.path->0.nodes@;
    let steps = report.path->0.steps@;
    let ids = lens::reported_nodes(report);
    let edges = lens::reported_edges(report);
    let id = s.nodes.ids@[i];
    lemma_path_score(ids, id, ids.len());
    assert(!single::nan(0) && !single::nan(lens::FOCUS_DIM) && !single::nan(lens::NO_PATH_DIM)
        && !single::nan(lens::FULL));
    assert forall|k: int| 0 <= k < nodes.len() implies ids[k] == (#[trigger] nodes[k]).id by {}
    if exists|k: int| 0 <= k < nodes.len() && (#[trigger] nodes[k]).id == id {
        let k = choose|k: int| 0 <= k < nodes.len() && (#[trigger] nodes[k]).id == id;
        assert(ids[k] == id);
    }
    if exists|k: int| 0 <= k < ids.len() && #[trigger] ids[k] == id {
        let k = choose|k: int| 0 <= k < ids.len() && #[trigger] ids[k] == id;
        assert(nodes[k].id == id);
    }
    assert(ids[ids.len() - 1] == nodes.last().id);
    assert(ids[0] == nodes[0].id);
    if edges.contains(s.edges.ids@[e]) {
        let k = choose|k: int| 0 <= k < edges.len() && edges[k] == s.edges.ids@[e];
        assert(steps[k].edge_id == s.edges.ids@[e]);
    }
    if exists|k: int| 0 <= k < steps.len() && (#[trigger] steps[k]).edge_id == s.edges.ids@[e] {
        let k = choose|k: int|
            0 <= k < steps.len() && (#[trigger] steps[k]).edge_id == s.edges.ids@[e];
        assert(edges[k] == s.edges.ids@[e]);
    }
}

/// Without a path, the lens brings out its two ends and no relationship, and
/// lets the rest recede less than around a path.
pub proof fn law_missing_path_shows_its_ends(
    s: SceneSnapshot,
    report: EvidencePathReport,
    i: int,
    e: int,
)
    requires
        s.wf(),
        0 <= i < s.nodes.ids@.len(),
        0 <= e < s.edges.ids@.len(),
        report.path is None,
    ensures
        ({
            let shown = lens::path_scores(s, report);
            let id = s.nodes.ids@[i];
            &&& shown.nodes[i] != 0 <==> id == report.start.id || id == report.end.id
            &&& shown.nodes[i] == 0 || in_full(shown.nodes[i])
            &&& shown.edges[e] == 0
            &&& report.termination != EvidencePathTermination::Found ==> single::less(
                shown.dim,
                lens::FOCUS_DIM,
            )
        }),
{
    let ids = lens::reported_nodes(report);
    assert(ids.len() == 2 && ids[0] == report.start.id && ids[1] == report.end.id);
    reveal_with_fuel(lens::path_score, 3);
    assert(!single::nan(lens::FOCUS_DIM) && !single::nan(lens::NO_PATH_DIM));
}

/// A lens on a context of one hop brings out its roots in full, its other
/// nodes and its relationships in part, a selected relationship in full, and
/// nothing else.
pub proof fn law_focus_lens_brings_out_the_context(
    s: SceneSnapshot,
    focus: FocusView,
    selection: SceneSelection,
    i: int,
    e: int,
)
    requires
        s.wf(),
        0 <= i < s.nodes.ids@.len(),
        0 <= e < s.edges.ids@.len() <= usize::MAX,
    ensures
        ({
            let shown = lens::focus_scores(s, focus, selection);
            let chosen = selection == SceneSelection::Edge(e as usize);
            &&& focus.roots.contains(i as usize) ==> in_full(shown.nodes[i])
            &&& !focus.roots.contains(i as usize) && focus.nodes.contains(i as usize) ==> in_part(
                shown.nodes[i],
            )
            &&& !focus.roots.contains(i as usize) && !focus.nodes.contains(i as usize)
                ==> shown.nodes[i] == 0
            &&& chosen ==> in_full(shown.edges[e])
            &&& !chosen && focus.edges.contains(e as usize) ==> in_part(shown.edges[e])
            &&& !chosen && !focus.edges.contains(e as usize) ==> shown.edges[e] == 0
            &&& recedes(shown.dim)
        }),
{
    assert(!single::nan(0) && !single::nan(lens::NEIGHBOR) && !single::nan(lens::AROUND)
        && !single::nan(lens::FULL) && !single::nan(lens::FOCUS_DIM));
    if let SceneSelection::Edge(index) = selection {
        assert(seq![index].contains(e as usize) <==> index == e) by {
            if index == e {
                assert(seq![index][0] == e as usize);
            }
        }
    }
}

proof fn lemma_layered(scores: Seq<u32>, layers: Seq<Seq<usize>>, upto: nat, i: int)
    requires
        0 <= i < scores.len() <= usize::MAX,
        scores[i] == 0,
        upto <= layers.len(),
    ensures
        ({
            let shown = lens::layered(scores, layers, upto);
            &&& shown.len() == scores.len()
            &&& (exists|d: int| 0 <= d < upto && (#[trigger] layers[d]).contains(i as usize)) <==> shown[i] != 0
            &&& shown[i] != 0 ==> exists|d: int|
                0 <= d < upto && (#[trigger] layers[d]).contains(i as usize) && shown[i]
                    == lens::layer_score(d as nat)
        }),
    decreases upto,
{
    if upto > 0 {
        lemma_layered(scores, layers, (upto - 1) as nat, i);
        let before = lens::layered(scores, layers, (upto - 1) as nat);
        let shown = lens::layered(scores, layers, upto);
        if layers[upto - 1].contains(i as usize) {
            assert(shown[i] == lens::layer_score((upto - 1) as nat));
        } else {
            assert(shown[i] == before[i]);
            if exists|d: int| 0 <= d < upto && (#[trigger] layers[d]).contains(i as usize) {
                let d = choose|d: int| 0 <= d < upto && (#[trigger] layers[d]).contains(i as usize);
                assert(d < upto - 1);
            }
        }
    }
}

/// A lens on a layered context brings out its nodes and nothing else, the
/// nearer the more: the roots in full, then their neighbours, then the rest.
pub proof fn law_context_lens_fades_with_distance(
    s: SceneSnapshot,
    focus: FocusView,
    depth: int,
    i: int,
)
    requires
        s.wf(),
        0 <= i < s.nodes.ids@.len(),
        forall|a: int, b: int, x: usize|
            0 <= a < b < focus.layers.len() && #[trigger] focus.layers[a].contains(x)
                ==> !#[trigger] focus.layers[b].contains(x),
        0 <= depth < focus.layers.len(),
        focus.layers[depth].contains(i as usize),
    ensures
        ({
            let shown = lens::context_scores(s, focus);
            &&& depth == 0 ==> in_full(shown.nodes[i])
            &&& depth > 0 ==> in_part(shown.nodes[i])
            &&& recedes(shown.dim)
            &&& single::less(lens::layer_score(2), lens::layer_score(1))
            &&& single::less(lens::layer_score(1), lens::layer_score(0))
            &&& shown.nodes[i] == lens::layer_score(depth as nat)
        }),
{
    let none = lens::blank(s).nodes;
    lemma_layered(none, focus.layers, focus.layers.len(), i);
    assert(!single::nan(0) && !single::nan(lens::NEAR) && !single::nan(lens::FAR) && !single::nan(
        lens::FULL,
    ) && !single::nan(lens::CONTEXT_DIM));
    let shown = lens::context_scores(s, focus);
    assert(shown.nodes[i] != 0);
    let d = choose|d: int|
        0 <= d < focus.layers.len() && (#[trigger] focus.layers[d]).contains(i as usize)
            && shown.nodes[i] == lens::layer_score(d as nat);
    if d < depth {
        assert(!focus.layers[depth].contains(i as usize));
    } else if depth < d {
        assert(!focus.layers[d].contains(i as usize));
    }
}

/// Outside a layered context nothing is brought out; within it the
/// relationships by which nodes were discovered are brought out more than the
/// others.
pub proof fn law_context_lens_keeps_to_the_context(
    s: SceneSnapshot,
    focus: FocusView,
    i: int,
    e: int,
)
    requires
        s.wf(),
        0 <= i < s.nodes.ids@.len(),
        0 <= e < s.edges.ids@.len() <= usize::MAX,
    ensures
        ({
            let shown = lens::context_scores(s, focus);
            let from = s.edges.sources@[e] as usize;
            let to = s.edges.targets@[e] as usize;
            &&& shown.nodes[i] != 0 ==> exists|d: int|
                0 <= d < focus.layers.len() && (#[trigger] focus.layers[d]).contains(i as usize)
            &&& focus.edges.contains(e as usize) <==> shown.edges[e] != 0
            &&& focus.edges.contains(e as usize) ==> in_part(shown.edges[e])
            &&& focus.edges.contains(e as usize) && (focus.parents.contains((from, to))
                || focus.parents.contains((to, from))) ==> shown.edges[e] == lens::NEAR
            &&& single::less(lens::WITHIN, lens::NEAR)
        }),
{
    let none = lens::blank(s).nodes;
    lemma_layered(none, focus.layers, focus.layers.len(), i);
    assert(!single::nan(0) && !single::nan(lens::NEAR) && !single::nan(lens::WITHIN) && !single::nan(
        lens::FULL,
    ));
    let from = s.edges.sources@[e] as usize;
    let to = s.edges.targets@[e] as usize;
    if focus.parents.contains((from, to)) {
        let k = choose|k: int| 0 <= k < focus.parents.len() && focus.parents[k] == (from, to);
        assert(lens::discovers(focus.parents, from, to));
    }
    if focus.parents.contains((to, from)) {
        let k = choose|k: int| 0 <= k < focus.parents.len() && focus.parents[k] == (to, from);
        assert(lens::discovers(focus.parents, from, to));
    }
}

proof fn lemma_raised(scores: Seq<u32>, at: int, score: u32)
    requires
        0 <= at < scores.len(),
    ensures
        lens::raised(scores, at, score).len() == scores.len(),
        !single::less(lens::raised(scores, at, score)[at], score),
        forall|i: int|
            0 <= i < scores.len() && i != at ==> #[trigger] lens::raised(scores, at, score)[i]
                == scores[i],
        forall|i: int, floor: u32|
            0 <= i < scores.len() && !single::less(scores[i], floor) ==> !#[trigger] single::less(
                lens::raised(scores, at, score)[i],
                floor,
            ),
{
}

/// A lens on search results brings out every hit that is in the scene at least
/// by its strength, a relationship together with its ends, and frames them.
pub proof fn law_search_lens_brings_out_the_hits(
    s: SceneSnapshot,
    elements: Seq<ElementRef>,
    strengths: Seq<(u32, u32)>,
    upto: nat,
    h: int,
)
    requires
        s.wf(),
        s.nodes.ids@.len() <= usize::MAX,
        s.edges.ids@.len() <= usize::MAX,
        upto <= elements.len() == strengths.len(),
        0 <= h < upto,
    ensures
        ({
            let (shown, framed) = lens::found_scores(s, elements, strengths, upto);
            &&& shown.nodes.len() == s.nodes.ids@.len()
            &&& shown.edges.len() == s.edges.ids@.len()
            &&& recedes(shown.dim)
            &&& match elements[h] {
                ElementRef::Node(id) => forall|i: int|
                    0 <= i < s.nodes.ids@.len() && #[trigger] s.nodes.ids@[i] == id
                        ==> !single::less(shown.nodes[i], strengths[h].0) && framed.contains(
                        i as usize,
                    ),
                ElementRef::Edge(id) => forall|e: int|
                    0 <= e < s.edges.ids@.len() && #[trigger] s.edges.ids@[e] == id ==> {
                        &&& !single::less(shown.edges[e], strengths[h].0)
                        &&& !single::less(shown.nodes[s.edges.sources@[e] as int], strengths[h].1)
                        &&& !single::less(shown.nodes[s.edges.targets@[e] as int], strengths[h].1)
                        &&& framed.contains(s.edges.sources@[e] as usize)
                        &&& framed.contains(s.edges.targets@[e] as usize)
                    },
            }
        }),
    decreases upto,
{
    lemma_found_shape(s, elements, strengths, upto);
    lemma_found_shape(s, elements, strengths, (upto - 1) as nat);
    let (before, less) = lens::found_scores(s, elements, strengths, (upto - 1) as nat);
    let (shown, framed) = lens::found_scores(s, elements, strengths, upto);
    let (strong, weak) = strengths[upto - 1];
    if h < upto - 1 {
        law_search_lens_brings_out_the_hits(s, elements, strengths, (upto - 1) as nat, h);
    }
    lemma_selection(s, elements[upto - 1]);
    match search::selection_of(s, elements[upto - 1]) {
        None => {},
        Some(SceneSelection::Node(index)) => {
            lemma_raised(before.nodes, index as int, strong);
            assert(framed == less.push(index));
            assert(framed.last() == index);
            lemma_pushed(less, index);
        },
        Some(SceneSelection::Edge(index)) => {
            let source = s.edges.sources@[index as int];
            let target = s.edges.targets@[index as int];
            lemma_raised(before.nodes, source as int, weak);
            let once = lens::raised(before.nodes, source as int, weak);
            lemma_raised(once, target as int, weak);
            lemma_raised(before.edges, index as int, strong);
            lemma_pushed(less, source as usize);
            lemma_pushed(less.push(source as usize), target as usize);
            assert(less.push(source as usize).contains(source as usize));
        },
    }
}

/// A lens on search results brings out nothing but the hits and the ends of
/// the relationships among them.
pub proof fn law_search_lens_leaves_the_rest(
    s: SceneSnapshot,
    elements: Seq<ElementRef>,
    strengths: Seq<(u32, u32)>,
    upto: nat,
    i: int,
    e: int,
)
    requires
        s.wf(),
        s.nodes.ids@.len() <= usize::MAX,
        s.edges.ids@.len() <= usize::MAX,
        upto <= elements.len(),
        0 <= i < s.nodes.ids@.len(),
        0 <= e < s.edges.ids@.len(),
        forall|h: int| 0 <= h < upto ==> (#[trigger] elements[h]) != ElementRef::Node(s.nodes.ids@[i]),
        forall|h: int, d: int|
            0 <= h < upto && 0 <= d < s.edges.ids@.len() && #[trigger] elements[h]
                == ElementRef::Edge(#[trigger] s.edges.ids@[d]) ==> s.edges.sources@[d] != i
                && s.edges.targets@[d] != i,
        forall|h: int| 0 <= h < upto ==> (#[trigger] elements[h]) != ElementRef::Edge(s.edges.ids@[e]),
    ensures
        lens::found_scores(s, elements, strengths, upto).0.nodes[i] == 0,
        lens::found_scores(s, elements, strengths, upto).0.edges[e] == 0,
    decreases upto,
{
    if upto > 0 {
        law_search_lens_leaves_the_rest(s, elements, strengths, (upto - 1) as nat, i, e);
        lemma_found_shape(s, elements, strengths, (upto - 1) as nat);
        let (before, _) = lens::found_scores(s, elements, strengths, (upto - 1) as nat);
        let (strong, weak) = strengths[upto - 1];
        let last = elements[upto - 1];
        lemma_selection(s, last);
        match search::selection_of(s, last) {
            None => {},
            Some(SceneSelection::Node(index)) => {
                assert(index != i);
                lemma_raised(before.nodes, index as int, strong);
            },
            Some(SceneSelection::Edge(index)) => {
                assert(last == ElementRef::Edge(s.edges.ids@[index as int]));
                let source = s.edges.sources@[index as int];
                let target = s.edges.targets@[index as int];
                lemma_raised(before.nodes, source as int, weak);
                lemma_raised(
                    lens::raised(before.nodes, source as int, weak),
                    target as int,
                    weak,
                );
                lemma_raised(before.edges, index as int, strong);
            },
        }
    }
}

proof fn lemma_pushed(list: Seq<usize>, item: usize)
    ensures
        list.push(item).contains(item),
        forall|x: usize| list.contains(x) ==> #[trigger] list.push(item).contains(x),
{
    assert(list.push(item).last() == item);
    assert forall|x: usize| list.contains(x) implies #[trigger] list.push(item).contains(x) by {
        let k = choose|k: int| 0 <= k < list.len() && list[k] == x;
        assert(list.push(item)[k] == x);
    }
}

proof fn lemma_selection(s: SceneSnapshot, element: ElementRef)
    requires
        s.wf(),
        s.nodes.ids@.len() <= usize::MAX,
        s.edges.ids@.len() <= usize::MAX,
    ensures
        match search::selection_of(s, element) {
            Some(SceneSelection::Node(i)) => i < s.nodes.ids@.len() && element == ElementRef::Node(
                s.nodes.ids@[i as int],
            ) && forall|j: int|
                0 <= j < s.nodes.ids@.len() && #[trigger] s.nodes.ids@[j] == s.nodes.ids@[i as int]
                    ==> j == i,
            Some(SceneSelection::Edge(e)) => e < s.edges.ids@.len() && element == ElementRef::Edge(
                s.edges.ids@[e as int],
            ) && forall|j: int|
                0 <= j < s.edges.ids@.len() && #[trigger] s.edges.ids@[j] == s.edges.ids@[e as int]
                    ==> j == e,
            None => match element {
                ElementRef::Node(id) => !s.nodes.ids@.contains(id),
                ElementRef::Edge(id) => !s.edges.ids@.contains(id),
            },
        },
{
    crate::search_laws::law_hits_select_their_element(s, element);
}

proof fn lemma_found_shape(
    s: SceneSnapshot,
    elements: Seq<ElementRef>,
    strengths: Seq<(u32, u32)>,
    upto: nat,
)
    requires
        s.wf(),
    ensures
        ({
            let (shown, _) = lens::found_scores(s, elements, strengths, upto);
            &&& shown.nodes.len() == s.nodes.ids@.len()
            &&& shown.edges.len() == s.edges.ids@.len()
            &&& recedes(shown.dim)
        }),
    decreases upto,
{
    assert(!single::nan(0) && !single::nan(lens::SEARCH_DIM) && !single::nan(0x3f80_0000));
    if upto > 0 {
        lemma_found_shape(s, elements, strengths, (upto - 1) as nat);
    }
}

/// Turning to another lens starts from what is shown and heads for the new
/// lens; ending a turn arrives at it.
pub proof fn law_turns_lead_to_the_new_lens(
    t: TransitionView,
    shown: LensView,
    next: LensView,
)
    ensures
        ({
            let turned = t.turned(
                shown.nodes,
                shown.edges,
                shown.dim,
                next.nodes,
                next.edges,
                next.dim,
            );
            &&& turned.from_nodes == shown.nodes
            &&& turned.from_edges == shown.edges
            &&& turned.from_dim == shown.dim
            &&& turned.target_nodes == next.nodes
            &&& turned.target_edges == next.edges
            &&& single::in_unit(next.dim) && !single::less(next.dim, 0) ==> turned.target_dim
                == next.dim
            &&& turned.progress == 0
            &&& turned.moving
            &&& turned.ended().target_nodes == next.nodes
            &&& turned.ended().target_edges == next.edges
            &&& turned.ended().progress == 0x3f80_0000
            &&& !turned.ended().moving
        }),
{
    assert(single::magnitude(single::ONE) == 0x3f80_0000);
}

/// A turn goes on while its steps are numbers and it has not settled, and ends
/// at its target; where motion is reduced it ends at once.
pub proof fn law_turns_end_at_their_lens(t: TransitionView, progress: u32, velocity: u32)
    ensures
        t.moving ==> t.begun(true).0.progress == 0x3f80_0000 && !t.begun(true).0.moving
            && !t.begun(true).1,
        t.begun(false) == (t, t.moving),
        !t.moving ==> t.begun(true) == (t, false),
        single::finite(progress) && single::finite(velocity) ==> t.advanced(
            progress,
            velocity,
            false,
        ).1 && t.advanced(progress, velocity, false).0.progress == progress && t.advanced(
            progress,
            velocity,
            false,
        ).0.velocity == velocity && t.advanced(progress, velocity, false).0.moving == t.moving,
        !t.advanced(progress, velocity, true).1,
        t.advanced(progress, velocity, true).0.progress == 0x3f80_0000,
        !t.advanced(progress, velocity, true).0.moving,
        !single::finite(progress) || !single::finite(velocity) ==> t.advanced(
            progress,
            velocity,
            false,
        ) == t.advanced(progress, velocity, true),
        t.advanced(progress, velocity, true).0.target_nodes == t.target_nodes,
        t.advanced(progress, velocity, true).0.target_edges == t.target_edges,
        t.advanced(progress, velocity, false).0.target_nodes == t.target_nodes,
{
}

} // verus!
