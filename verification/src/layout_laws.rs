//! Which arrangement a scene gets, and the orders and choices that it goes by.

use vstd::prelude::*;
use vstd::relations::*;
use vstd::seq_lib::*;

use crate::labels;
use crate::layout;
use crate::layout::{ArrangementPlan, ForcePlan, LayerKey, RingKey};
use crate::layout_clusters::{BranchKey, ClusterPlan};
use crate::layout_components;
use crate::layout_forest;
use crate::layout_forest::ForestTopology;
use crate::layout_random;
use crate::order;
use crate::scene::{LayoutKind, SceneSnapshot};
use crate::single;

verus! {

/// The larger a scene, the fewer rounds it gets: all that are asked for in a
/// small one, few in a large one.
pub proof fn law_larger_scenes_take_fewer_rounds(iterations: nat, count: nat, more: nat)
    requires
        count <= more,
    ensures
        layout::near_rounds(iterations, more) <= layout::near_rounds(iterations, count),
        layout::near_rounds(iterations, count) <= iterations,
        count <= 2_000 ==> layout::near_rounds(iterations, count) == iterations,
        2_000 < count <= 12_000 && iterations >= 32 ==> layout::near_rounds(iterations, count)
            == 32,
        12_000 < count && iterations >= 12 ==> layout::near_rounds(iterations, count) == 12,
        iterations <= 12 ==> layout::near_rounds(iterations, count) == iterations,
{
}

/// Forces are sampled in a scene of some size that has relationships, for at
/// least one round and at most fifty; in any other scene they are not.
pub proof fn law_large_scenes_are_sampled(count: nat, edge_count: nat, iterations: nat)
    requires
        iterations <= usize::MAX,
    ensures
        match layout::forces_for(count, edge_count, iterations) {
            ForcePlan::Sampled(rounds) => {
                &&& count >= 256
                &&& edge_count > 0
                &&& 1 <= rounds <= 50
                &&& 1 <= iterations <= 50 ==> rounds == iterations
                &&& iterations > 50 ==> rounds == 50
            },
            ForcePlan::Near(rounds) => {
                &&& count < 256 || edge_count == 0
                &&& rounds <= iterations
                &&& count <= 2_000 ==> rounds == iterations
            },
        },
{
}

/// Rings run from the busiest node outwards; nodes that are equally busy stand
/// by label, and nodes that share a label too by identifier.
pub proof fn law_rings_run_from_the_busiest(
    ids: Seq<u64>,
    names: Seq<Seq<char>>,
    degrees: Seq<u32>,
    p: int,
    q: int,
)
    requires
        ids.len() <= usize::MAX,
        0 <= p < q < ids.len(),
    ensures
        ({
            let rings = layout::ring_order(ids, names, degrees);
            let a = rings[p] as int;
            let b = rings[q] as int;
            &&& 0 <= a < ids.len()
            &&& 0 <= b < ids.len()
            &&& degrees[a] >= degrees[b]
            &&& degrees[a] == degrees[b] ==> order::text_leq(names[a], names[b])
            &&& degrees[a] == degrees[b] && names[a] == names[b] ==> ids[a] <= ids[b]
        }),
{
    let wanted = Seq::new(ids.len(), |i: int| (degrees[i], names[i], ids[i], i as usize));
    let sorted = layout::ring_keys(ids, names, degrees);
    order::lemma_ranked_sort::<RingKey>(wanted);
    assert(order::ranking::<RingKey>()(sorted[p], sorted[q]));
    assert(sorted.contains(sorted[p]));
    assert(sorted.contains(sorted[q]));
    assert(wanted.contains(sorted[p]));
    assert(wanted.contains(sorted[q]));
    let m = choose|m: int| 0 <= m < wanted.len() && wanted[m] == sorted[p];
    let n = choose|n: int| 0 <= n < wanted.len() && wanted[n] == sorted[q];
    assert(wanted[m].3 == m as usize);
    assert(wanted[n].3 == n as usize);
    order::lemma_text_leq_reflexive(names[m]);
}

proof fn lemma_occurrences_grow(names: Seq<Seq<char>>, name: Seq<char>, i: int, j: int)
    requires
        0 <= i <= j <= names.len(),
    ensures
        labels::occurrences(names.take(i), name) <= labels::occurrences(names.take(j), name),
        i < j && names[i] == name ==> labels::occurrences(names.take(i), name)
            < labels::occurrences(names.take(j), name),
    decreases j - i,
{
    if i < j {
        lemma_occurrences_grow(names, name, i, j - 1);
        assert(names.take(j).drop_last() =~= names.take(j - 1));
        assert(names.take(j).last() == names[j - 1]);
    }
}

/// Nodes share a group exactly where they share a label, and within a group
/// each has a place of its own, in the order of the nodes.
pub proof fn law_groups_follow_the_labels(
    names: Seq<Seq<char>>,
    groups: Seq<(usize, usize)>,
    i: int,
    j: int,
)
    requires
        layout::grouped(names, groups),
        0 <= i < j < names.len(),
    ensures
        groups[i].0 == groups[j].0 <==> names[i] == names[j],
        names[i] == names[j] ==> groups[i].1 < groups[j].1,
{
    labels::lemma_distinct_positions(names);
    lemma_occurrences_grow(names, names[i], i, j);
    let d = labels::distinct(names);
    let a = groups[i].0 as int;
    let b = groups[j].0 as int;
    assert(d[a] == names[i] && d[b] == names[j]);
    if names[i] == names[j] && a != b {
        if a < b {
            assert(d[a] != d[b]);
        } else {
            assert(d[b] != d[a]);
        }
    }
}

/// Left to itself a scene that is a forest is drawn radially while it is
/// small, and as clusters when it is large and has a handful of branches; any
/// other scene is drawn by forces. An arrangement that is asked for is drawn.
pub proof fn law_arrangements_are_as_asked(
    s: SceneSnapshot,
    kind: LayoutKind,
    start: Option<usize>,
    pins: Option<Seq<bool>>,
    plan: ArrangementPlan,
)
    requires
        layout::arranges(s, kind, start, pins, plan),
    ensures
        ({
            let count = s.nodes.ids@.len();
            let tree = layout_forest::forest(count, s.edges.sources@, s.edges.targets@);
            &&& plan is Nothing <==> count == 0
            &&& count > 0 && kind == LayoutKind::Orbit ==> plan is Rings
            &&& count > 0 && kind == LayoutKind::Structure ==> plan is Structure
            &&& count > 0 && kind == LayoutKind::Force ==> plan is Forces
            &&& count > 0 && kind == LayoutKind::Auto && tree && count <= 2_000 ==> plan is Radial
            &&& plan is Radial ==> kind == LayoutKind::Auto && tree && count <= 2_000
            &&& plan is Clusters ==> kind == LayoutKind::Auto && tree && count > 2_000
            &&& count > 0 && kind == LayoutKind::Auto && !tree ==> plan is Forces
            &&& count > 0 && kind == LayoutKind::Auto && tree && count > 2_000 && 2
                <= layout_forest::top_branches(count, s.edges.sources@, s.edges.targets@).len()
                <= 64 ==> plan is Clusters
        }),
{
}

/// Forces start from the given places exactly where there is one for each
/// node, hold the pinned nodes exactly where there is a pin for each, and
/// centre the scene anew exactly where nothing is pinned.
pub proof fn law_forces_respect_pins(
    s: SceneSnapshot,
    kind: LayoutKind,
    start: Option<usize>,
    pins: Option<Seq<bool>>,
    by_label: bool,
    pinned: bool,
    recenter: bool,
)
    requires
        layout::arranges(
            s,
            kind,
            start,
            pins,
            (ArrangementPlan::Forces { by_label, pinned, recenter }),
        ),
        s.nodes.ids@.len() <= usize::MAX,
    ensures
        by_label <==> start is None || start->0 != s.nodes.ids@.len(),
        pinned <==> pins is Some && pins->0.len() == s.nodes.ids@.len(),
        recenter <==> pins is None || (forall|i: int|
            0 <= i < pins->0.len() ==> !#[trigger] pins->0[i]),
{
    if let Some(flags) = pins {
        if exists|i: int| 0 <= i < flags.len() && #[trigger] flags[i] {
            let i = choose|i: int| 0 <= i < flags.len() && #[trigger] flags[i];
            assert(flags[i] == true);
            assert(flags.contains(true));
        }
    }
}

/// In a focus the parent of a node is one that discovered it, the last such
/// one, and a node that none discovered has no parent.
pub proof fn law_focus_parents_discovered_the_node(
    parents: Seq<(usize, usize)>,
    count: nat,
    node: usize,
)
    ensures
        match layout::focus_parent(parents, count, node as int) {
            Some(parent) => parent < count && parents.contains((node, parent)),
            None => forall|k: int|
                0 <= k < parents.len() && (#[trigger] parents[k]).0 == node ==> parents[k].1
                    >= count,
        },
    decreases parents.len(),
{
    if parents.len() > 0 {
        let rest = parents.drop_last();
        law_focus_parents_discovered_the_node(rest, count, node);
        if parents.last().0 == node && parents.last().1 < count {
            assert(parents[parents.len() - 1] == (node, parents.last().1));
        } else {
            match layout::focus_parent(rest, count, node as int) {
                Some(parent) => {
                    let k = choose|k: int| 0 <= k < rest.len() && rest[k] == (node, parent);
                    assert(parents[k] == (node, parent));
                },
                None => {
                    assert forall|k: int|
                        0 <= k < parents.len() && (#[trigger] parents[k]).0 == node implies parents[k].1
                        >= count by {
                        if k < rest.len() {
                            assert(rest[k].0 == node);
                        }
                    }
                },
            }
        }
    }
}

/// A layer is drawn with all of its nodes, by the direction of their parents
/// and with the children of one parent side by side.
pub proof fn law_layers_follow_their_parents(
    layer: Seq<usize>,
    parents: Seq<Option<usize>>,
    angles: Seq<u32>,
    p: int,
    q: int,
)
    requires
        0 <= p < q < layer.len(),
    ensures
        ({
            let drawn = layout::layer_order(layer, parents, angles);
            &&& drawn.len() == layer.len()
            &&& forall|node: usize| drawn.contains(node) <==> layer.contains(node)
            &&& forall|a: usize, b: usize|
                parents[drawn[p] as int] == Some(a) && parents[drawn[q] as int] == Some(b)
                    && a < angles.len() && b < angles.len() ==> single::total_place(
                    #[trigger] angles[a as int],
                ) <= single::total_place(#[trigger] angles[b as int]) && (angles[a as int]
                    == angles[b as int] ==> a <= b) && (a == b ==> drawn[p] <= drawn[q])
        }),
{
    let wanted = layer.map_values(|node: usize| layout::layer_key(parents, angles, node));
    let sorted = layout::layer_keys(layer, parents, angles);
    let drawn = layout::layer_order(layer, parents, angles);
    order::lemma_ranked_sort::<LayerKey>(wanted);
    assert forall|k: int| 0 <= k < sorted.len() implies #[trigger] sorted[k] == layout::layer_key(
        parents,
        angles,
        sorted[k].2,
    ) && layer.contains(sorted[k].2) by {
        assert(sorted.contains(sorted[k]));
        assert(wanted.contains(sorted[k]));
        let m = choose|m: int| 0 <= m < wanted.len() && wanted[m] == sorted[k];
        assert(wanted[m] == layout::layer_key(parents, angles, layer[m]));
    }
    assert forall|node: usize| drawn.contains(node) <==> layer.contains(node) by {
        if drawn.contains(node) {
            let k = choose|k: int| 0 <= k < drawn.len() && drawn[k] == node;
            assert(sorted[k].2 == node);
        }
        if layer.contains(node) {
            let m = choose|m: int| 0 <= m < layer.len() && layer[m] == node;
            assert(wanted[m].2 == node);
            assert(wanted.contains(wanted[m]));
            assert(sorted.contains(wanted[m]));
            let k = choose|k: int| 0 <= k < sorted.len() && sorted[k] == wanted[m];
            assert(drawn[k] == node);
        }
    }
    assert(order::ranking::<LayerKey>()(sorted[p], sorted[q]));
    assert(sorted[p] == layout::layer_key(parents, angles, drawn[p]));
    assert(sorted[q] == layout::layer_key(parents, angles, drawn[q]));
}

/// The relationships that pull are those of the scene between two different
/// nodes, each listed from both of its ends.
pub proof fn law_relationships_pull_both_ends(
    node_count: nat,
    sources: Seq<u32>,
    targets: Seq<u32>,
    e: int,
)
    requires
        sources.len() == targets.len(),
        0 <= e < sources.len(),
        sources[e] < node_count,
        targets[e] < node_count,
        sources[e] != targets[e],
    ensures
        layout_random::oriented(node_count, sources, targets).contains(
            (sources[e] as usize, targets[e] as usize),
        ),
        layout_random::oriented(node_count, sources, targets).contains(
            (targets[e] as usize, sources[e] as usize),
        ),
    decreases sources.len(),
{
    let all = layout_random::oriented(node_count, sources, targets);
    let rest = layout_random::oriented(node_count, sources.drop_last(), targets.drop_last());
    let there = (sources[e] as usize, targets[e] as usize);
    let back = (targets[e] as usize, sources[e] as usize);
    if e < sources.len() - 1 {
        law_relationships_pull_both_ends(node_count, sources.drop_last(), targets.drop_last(), e);
        let a = choose|a: int| 0 <= a < rest.len() && rest[a] == there;
        let b = choose|b: int| 0 <= b < rest.len() && rest[b] == back;
        assert(all[a] == there);
        assert(all[b] == back);
    } else {
        assert(all[rest.len() as int] == there);
        assert(all[rest.len() as int + 1] == back);
    }
}

/// Only relationships of the scene pull.
pub proof fn law_only_relationships_pull(
    node_count: nat,
    sources: Seq<u32>,
    targets: Seq<u32>,
    k: int,
)
    requires
        sources.len() == targets.len(),
        0 <= k < layout_random::oriented(node_count, sources, targets).len(),
    ensures
        ({
            let (a, b) = layout_random::oriented(node_count, sources, targets)[k];
            exists|e: int|
                0 <= e < sources.len() && ((#[trigger] sources[e] == a && targets[e] == b) || (
                sources[e] == b && targets[e] == a))
        }),
    decreases sources.len(),
{
    if sources.len() > 0 {
        let rest = layout_random::oriented(node_count, sources.drop_last(), targets.drop_last());
        let (a, b) = layout_random::oriented(node_count, sources, targets)[k];
        if k < rest.len() {
            law_only_relationships_pull(node_count, sources.drop_last(), targets.drop_last(), k);
            let e = choose|e: int|
                0 <= e < sources.drop_last().len() && ((#[trigger] sources.drop_last()[e] == a
                    && targets.drop_last()[e] == b) || (sources.drop_last()[e] == b
                    && targets.drop_last()[e] == a));
            assert(sources[e] == sources.drop_last()[e]);
            assert(targets[e] == targets.drop_last()[e]);
        } else {
            assert(sources[sources.len() - 1] == a || sources[sources.len() - 1] == b);
        }
    }
}

/// A number is scaled into its bound, from its beginning to its end, and in
/// order.
pub proof fn law_scaled_numbers_keep_their_order(a: u64, b: u64, bound: nat)
    requires
        a <= b,
        bound > 0,
    ensures
        layout_random::scaled(b, bound) < bound,
        layout_random::scaled(a, bound) <= layout_random::scaled(b, bound),
        layout_random::scaled(0, bound) == 0,
        bound <= 0x1_0000_0000_0000_0000 ==> layout_random::scaled(u64::MAX, bound) == bound - 1,
{
    let whole: int = 0x1_0000_0000_0000_0000;
    let x = a as int;
    let y = b as int;
    let n = bound as int;
    assert(y * n < whole * n) by (nonlinear_arith)
        requires
            y < whole,
            n > 0,
    ;
    assert(x * n <= y * n) by (nonlinear_arith)
        requires
            x <= y,
            n > 0,
    ;
    assert(0 <= x * n) by (nonlinear_arith)
        requires
            x >= 0,
            n > 0,
    ;
    assert(0 * n == 0);
    let top = u64::MAX as int;
    assert(top * n == whole * n - n) by (nonlinear_arith)
        requires
            top == whole - 1,
    ;
    assert(a as nat * bound == x * n);
    assert(b as nat * bound == y * n);
    assert(whole * (n - 1) == whole * n - whole) by (nonlinear_arith);
    let last = (u64::MAX as nat) * bound;
    assert(last == top * n);
    if bound <= 0x1_0000_0000_0000_0000 {
        assert(last / 0x1_0000_0000_0000_0000 == bound - 1);
    }
}

/// Turning a word keeps its bits: turning it the rest of the way gives it
/// back.
pub proof fn law_turned_words_turn_back(value: u64, places: u64)
    requires
        0 < places < 64,
    ensures
        layout_random::turned(layout_random::turned(value, places), (64 - places) as u64) == value,
{
    let back = (64 - places) as u64;
    let there = layout_random::turned(value, places);
    assert((64 - back) as u64 == places);
    assert(there == (value << places) | (value >> back));
    assert((((value << places) | (value >> back)) << back) | (((value << places) | (value >> back))
        >> places) == value) by (bit_vector)
        requires
            0 < places < 64,
            back == 64 - places,
    ;
}

/// Every relationship between two different nodes of the scene is drawn once,
/// whichever way it leads, and nothing else is.
pub proof fn law_every_relationship_is_drawn(
    node_count: nat,
    sources: Seq<u32>,
    targets: Seq<u32>,
    low: usize,
    high: usize,
)
    requires
        sources.len() == targets.len(),
        low < high,
    ensures
        layout_components::unique_pairs(node_count, sources, targets).contains((low, high))
            <==> high < node_count && exists|e: int|
            0 <= e < sources.len() && ((#[trigger] sources[e] == low && targets[e] == high) || (
            sources[e] == high && targets[e] == low)),
    decreases sources.len(),
{
    if sources.len() > 0 {
        let before = sources.drop_last();
        let after = targets.drop_last();
        let rest = layout_components::unique_pairs(node_count, before, after);
        let all = layout_components::unique_pairs(node_count, sources, targets);
        law_every_relationship_is_drawn(node_count, before, after, low, high);
        let last = sources.len() - 1;
        if all.contains((low, high)) {
            let k = choose|k: int| 0 <= k < all.len() && all[k] == (low, high);
            if k < rest.len() {
                assert(rest[k] == (low, high));
                let e = choose|e: int|
                    0 <= e < before.len() && ((#[trigger] before[e] == low && after[e] == high) || (
                    before[e] == high && after[e] == low));
                assert(sources[e] == before[e] && targets[e] == after[e]);
            } else {
                assert(sources[last] == low || sources[last] == high);
            }
        }
        if high < node_count && exists|e: int|
            0 <= e < sources.len() && ((#[trigger] sources[e] == low && targets[e] == high) || (
            sources[e] == high && targets[e] == low)) {
            let e = choose|e: int|
                0 <= e < sources.len() && ((#[trigger] sources[e] == low && targets[e] == high) || (
                sources[e] == high && targets[e] == low));
            if e < last {
                assert(before[e] == sources[e] && after[e] == targets[e]);
                let k = choose|k: int| 0 <= k < rest.len() && rest[k] == (low, high);
                assert(all[k] == (low, high));
            } else if rest.contains((low, high)) {
                let k = choose|k: int| 0 <= k < rest.len() && rest[k] == (low, high);
                assert(all[k] == (low, high));
            } else {
                assert(all.last() == (low, high));
            }
        }
    }
}

/// In a forest a relationship leads from a parent to its child, and a node to
/// which none leads is a root.
pub proof fn law_parents_have_their_children(
    node_count: nat,
    sources: Seq<u32>,
    targets: Seq<u32>,
    e: int,
    node: u32,
)
    requires
        layout_forest::branching(node_count, sources, targets),
        0 <= e < sources.len(),
    ensures
        layout_forest::parent_in(sources, targets, targets[e]) == Some(sources[e]),
        layout_forest::children_in(sources, targets, sources[e]).contains(targets[e]),
        layout_forest::parent_in(sources, targets, node) is None <==> !targets.contains(node),
        layout_forest::children_in(sources, targets, node).len() > 0 ==> sources.contains(node),
{
    lemma_parent(sources, targets, e);
    lemma_no_parent(sources, targets, node);
    lemma_child(sources, targets, e);
    lemma_no_child(sources, targets, node);
}

proof fn lemma_parent(sources: Seq<u32>, targets: Seq<u32>, e: int)
    requires
        sources.len() == targets.len(),
        targets.no_duplicates(),
        0 <= e < sources.len(),
    ensures
        layout_forest::parent_in(sources, targets, targets[e]) == Some(sources[e]),
    decreases targets.len(),
{
    if e < targets.len() - 1 {
        assert(targets[e] != targets[targets.len() - 1]);
        lemma_parent(sources.drop_last(), targets.drop_last(), e);
    }
}

proof fn lemma_no_parent(sources: Seq<u32>, targets: Seq<u32>, node: u32)
    requires
        sources.len() == targets.len(),
    ensures
        layout_forest::parent_in(sources, targets, node) is None <==> !targets.contains(node),
    decreases targets.len(),
{
    if targets.len() > 0 {
        let rest = targets.drop_last();
        lemma_no_parent(sources.drop_last(), rest, node);
        if rest.contains(node) {
            let k = choose|k: int| 0 <= k < rest.len() && rest[k] == node;
            assert(targets[k] == node);
        }
        if targets.contains(node) && targets.last() != node {
            let k = choose|k: int| 0 <= k < targets.len() && targets[k] == node;
            assert(rest[k] == node);
        }
        if targets.last() == node {
            assert(targets[targets.len() - 1] == node);
        }
    }
}

proof fn lemma_child(sources: Seq<u32>, targets: Seq<u32>, e: int)
    requires
        sources.len() == targets.len(),
        0 <= e < sources.len(),
    ensures
        layout_forest::children_in(sources, targets, sources[e]).contains(targets[e]),
    decreases targets.len(),
{
    let all = layout_forest::children_in(sources, targets, sources[e]);
    if e < targets.len() - 1 {
        let rest = layout_forest::children_in(
            sources.drop_last(),
            targets.drop_last(),
            sources[e],
        );
        lemma_child(sources.drop_last(), targets.drop_last(), e);
        let k = choose|k: int| 0 <= k < rest.len() && rest[k] == targets[e];
        assert(all[k] == targets[e]);
    } else {
        assert(all.last() == targets[e]);
    }
}

proof fn lemma_no_child(sources: Seq<u32>, targets: Seq<u32>, node: u32)
    requires
        sources.len() == targets.len(),
    ensures
        layout_forest::children_in(sources, targets, node).len() > 0 ==> sources.contains(node),
    decreases targets.len(),
{
    if targets.len() > 0 {
        lemma_no_child(sources.drop_last(), targets.drop_last(), node);
        if sources.last() == node {
            assert(sources[sources.len() - 1] == node);
        } else if sources.drop_last().contains(node) {
            let k = choose|k: int|
                0 <= k < sources.drop_last().len() && sources.drop_last()[k] == node;
            assert(sources[k] == node);
        }
    }
}

/// The roots are the nodes to which no relationship leads.
pub proof fn law_roots_have_no_parent(targets: Seq<u32>, bound: nat, node: u32)
    requires
        bound <= u32::MAX,
    ensures
        layout_forest::roots_below(targets, bound).contains(node) <==> node < bound
            && !targets.contains(node),
    decreases bound,
{
    if bound > 0 {
        let rest = layout_forest::roots_below(targets, (bound - 1) as nat);
        let all = layout_forest::roots_below(targets, bound);
        law_roots_have_no_parent(targets, (bound - 1) as nat, node);
        if all.contains(node) {
            let k = choose|k: int| 0 <= k < all.len() && all[k] == node;
            if k < rest.len() {
                assert(rest[k] == node);
            }
        }
        if rest.contains(node) {
            let k = choose|k: int| 0 <= k < rest.len() && rest[k] == node;
            assert(all[k] == node);
        }
        if node == bound - 1 && !targets.contains(node) {
            assert(all.last() == node);
        }
    }
}

/// Within a component a relationship joins the same two nodes as in the scene,
/// by their places in the component.
pub proof fn law_components_keep_their_relationships(
    pairs: Seq<(usize, usize)>,
    component: Seq<usize>,
    k: int,
)
    requires
        component.len() <= usize::MAX,
        forall|i: int|
            0 <= i < pairs.len() ==> (component.contains((#[trigger] pairs[i]).0)
                <==> component.contains(pairs[i].1)),
        0 <= k < layout_components::local_pairs(pairs, component).len(),
    ensures
        ({
            let (a, b) = layout_components::local_pairs(pairs, component)[k];
            &&& a < component.len()
            &&& b < component.len()
            &&& pairs.contains((component[a as int], component[b as int]))
        }),
    decreases pairs.len(),
{
    if pairs.len() > 0 {
        let before = pairs.drop_last();
        let rest = layout_components::local_pairs(before, component);
        let (a, b) = layout_components::local_pairs(pairs, component)[k];
        if k < rest.len() {
            assert forall|i: int| 0 <= i < before.len() implies (component.contains(
                (#[trigger] before[i]).0,
            ) <==> component.contains(before[i].1)) by {
                assert(pairs[i] == before[i]);
            }
            law_components_keep_their_relationships(before, component, k);
            let i = choose|i: int|
                0 <= i < before.len() && before[i] == (component[a as int], component[b as int]);
            assert(pairs[i] == (component[a as int], component[b as int]));
        } else {
            let last = pairs[pairs.len() - 1];
            assert(component.contains(last.1));
            assert(component[component.index_of(last.0)] == last.0);
            assert(component[component.index_of(last.1)] == last.1);
            assert(last == (component[a as int], component[b as int]));
        }
    }
}

/// Branches are drawn from the largest to the smallest, equally large ones by
/// identifier; each is a top-level branch of the forest with the size of its
/// subtree, and they take turns on the two sides of the ring.
pub proof fn law_larger_branches_come_first(
    topology: ForestTopology,
    ids: Seq<u64>,
    plan: ClusterPlan,
    i: int,
    j: int,
)
    requires
        topology.wf(),
        topology.clusters(ids, plan),
        0 <= i < j < plan.branches@.len(),
    ensures
        ({
            let a = plan.branches@[i];
            let b = plan.branches@[j];
            let count = plan.branches@.len();
            &&& a.size >= b.size
            &&& a.size == b.size ==> ids[a.node as int] <= ids[b.node as int]
            &&& topology.tops().contains(a.node)
            &&& a.size == topology.subtree_sizes@[a.node as int]
            &&& i % 2 == 0 ==> a.slot < (count + 1) / 2
            &&& i % 2 == 1 ==> (count + 1) / 2 <= a.slot < count
            &&& j == i + 2 ==> b.slot == a.slot + 1
        }),
{
    let tops = topology.tops();
    let wanted = tops.map_values(
        |b: u32| (topology.subtree_sizes@[b as int], ids[b as int], b),
    );
    let sorted = topology.ranked_branches(ids);
    order::lemma_ranked_sort::<BranchKey>(wanted);
    assert(order::ranking::<BranchKey>()(sorted[i], sorted[j]));
    assert(sorted.contains(sorted[i]));
    assert(sorted.contains(sorted[j]));
    assert(wanted.contains(sorted[i]));
    assert(wanted.contains(sorted[j]));
    let m = choose|m: int| 0 <= m < wanted.len() && wanted[m] == sorted[i];
    let n = choose|n: int| 0 <= n < wanted.len() && wanted[n] == sorted[j];
    assert(wanted[m].2 == tops[m]);
    assert(wanted[n].2 == tops[n]);
    assert(plan.branches@[i].node == sorted[i].2);
    assert(plan.branches@[j].node == sorted[j].2);
    assert(tops.contains(tops[m]));
}

} // verus!
