//! Where the nodes of a scene are drawn, where they are heading, and which of
//! them stay where they were put.

use vstd::prelude::*;
use vstd::relations::*;
use vstd::seq_lib::*;

use crate::layout_components;
use crate::order;
use crate::order::{sort_ranked, Ranked};
use crate::scene::{SceneFocus, SceneSnapshot, Vec2};
use crate::single;

verus! {

/// How many neighbors follow a node that is dragged.
pub const NEIGHBOR_BUDGET: usize = 512;

/// The origin.
pub open spec fn origin() -> Vec2 {
    Vec2 { x: 0, y: 0 }
}

/// Whether two points are numerically the same.
pub open spec fn same_point(a: Vec2, b: Vec2) -> bool {
    single::equal(a.x, b.x) && single::equal(a.y, b.y)
}

fn is_same_point(a: Vec2, b: Vec2) -> (r: bool)
    ensures
        r == same_point(a, b),
{
    single::is_equal(a.x, b.x) && single::is_equal(a.y, b.y)
}

/// A node next to another.
#[derive(Clone, Copy, Debug)]
pub struct Neighbor {
    pub node: u32,
}

impl View for Neighbor {
    type V = u32;

    open spec fn view(&self) -> u32 {
        self.node
    }
}

impl Ranked for Neighbor {
    open spec fn leq(a: u32, b: u32) -> bool {
        a <= b
    }

    proof fn order_is_total() {
    }

    fn is_leq(&self, other: &Neighbor) -> (r: bool) {
        self.node <= other.node
    }
}

/// Whether one of the first `upto` relationships joins two nodes.
pub open spec fn adjacent(sources: Seq<u32>, targets: Seq<u32>, upto: int, a: u32, b: u32) -> bool {
    a != b && exists|e: int|
        0 <= e < upto && (((#[trigger] sources[e]) == a && targets[e] == b) || (sources[e] == b
            && targets[e] == a))
}

/// Whether a list holds, ascending, exactly the neighbors of a node.
pub open spec fn neighbors_of(
    sources: Seq<u32>,
    targets: Seq<u32>,
    node: u32,
    neighbors: Seq<u32>,
) -> bool {
    &&& forall|i: int, j: int| 0 <= i < j < neighbors.len() ==> neighbors[i] < neighbors[j]
    &&& forall|other: u32| #[trigger]
        neighbors.contains(other) <==> adjacent(
            sources,
            targets,
            sources.len() as int,
            node,
            other,
        )
}

spec fn met(sources: Seq<u32>, targets: Seq<u32>, upto: int, lists: Seq<Seq<Neighbor>>) -> bool {
    forall|node: u32, other: u32|
        node < lists.len() ==> (#[trigger] order::ranked_views(lists[node as int]).contains(other)
            <==> adjacent(sources, targets, upto, node, other))
}

/// Drops repeated values from an ascending list.
fn without_repeats(items: &Vec<Neighbor>) -> (r: Vec<u32>)
    requires
        forall|i: int, j: int| 0 <= i < j < items@.len() ==> items@[i].node <= items@[j].node,
    ensures
        forall|i: int, j: int| 0 <= i < j < r@.len() ==> r@[i] < r@[j],
        forall|x: u32| #[trigger] r@.contains(x) <==> order::ranked_views(items@).contains(x),
{
    let mut out: Vec<u32> = Vec::new();
    let mut i: usize = 0;
    while i < items.len()
        invariant
            i <= items.len(),
            forall|a: int, b: int| 0 <= a < b < items@.len() ==> items@[a].node <= items@[b].node,
            forall|a: int, b: int| 0 <= a < b < out@.len() ==> out@[a] < out@[b],
            out@.len() == 0 <==> i == 0,
            out@.len() > 0 ==> out@.last() == items@[i - 1].node,
            forall|x: u32| #[trigger]
                out@.contains(x) <==> order::ranked_views(items@).take(i as int).contains(x),
        decreases items.len() - i,
    {
        let node: u32 = items[i].node;
        let ghost before = out@;
        let ghost views = order::ranked_views(items@);
        let fresh = out.len() == 0 || out[out.len() - 1] != node;
        if fresh {
            out.push(node);
        }
        proof {
            let seen = views.take(i as int);
            let now = views.take(i + 1);
            assert(now =~= seen.push(node));
            assert forall|x: u32| #[trigger] out@.contains(x) <==> now.contains(x) by {
                lemma_held_after_push(seen, node, x);
                if fresh {
                    lemma_held_after_push(before, node, x);
                } else if x == node {
                    assert(before[before.len() - 1] == node);
                }
            }
            assert forall|a: int, b: int| 0 <= a < b < out@.len() implies out@[a] < out@[b] by {
                if fresh && b == before.len() {
                    assert(items@[i - 1].node <= items@[i as int].node);
                    if a < before.len() - 1 {
                        assert(before[a] < before[before.len() - 1]);
                    }
                }
            }
        }
        i = i + 1;
    }
    assert(order::ranked_views(items@).take(items@.len() as int) =~= order::ranked_views(items@));
    out
}

proof fn lemma_held_after_push(items: Seq<u32>, more: u32, x: u32)
    ensures
        items.push(more).contains(x) <==> items.contains(x) || x == more,
{
    let all = items.push(more);
    assert(all[items.len() as int] == more);
    if items.contains(x) {
        let k = choose|k: int| 0 <= k < items.len() && items[k] == x;
        assert(all[k] == x);
    }
    if all.contains(x) && x != more {
        let k = choose|k: int| 0 <= k < all.len() && all[k] == x;
        assert(items[k] == x);
    }
}

/// Lists for each node its neighbors.
pub fn find_neighbors(node_count: usize, sources: &Vec<u32>, targets: &Vec<u32>) -> (r: Vec<
    Vec<u32>,
>)
    requires
        node_count <= u32::MAX,
        sources@.len() == targets@.len(),
        forall|e: int|
            0 <= e < sources@.len() ==> (#[trigger] sources@[e]) < node_count && targets@[e]
                < node_count,
    ensures
        r@.len() == node_count,
        forall|node: u32|
            node < node_count ==> neighbors_of(
                sources@,
                targets@,
                node,
                #[trigger] layout_components::lists(r@)[node as int],
            ),
{
    let mut met_nodes: Vec<Vec<Neighbor>> = Vec::new();
    let mut x: usize = 0;
    while x < node_count
        invariant
            x <= node_count,
            met_nodes@.len() == x,
            forall|k: int|
                0 <= k < x ==> #[trigger] layout_components::lists(met_nodes@)[k] == Seq::<
                    Neighbor,
                >::empty(),
        decreases node_count - x,
    {
        let ghost before = layout_components::lists(met_nodes@);
        met_nodes.push(Vec::new());
        proof {
            assert forall|k: int| 0 <= k < x + 1 implies #[trigger] layout_components::lists(
                met_nodes@,
            )[k] == Seq::<Neighbor>::empty() by {
                if k < x {
                    assert(before[k] == layout_components::lists(met_nodes@)[k]);
                }
            }
        }
        x = x + 1;
    }
    let mut e: usize = 0;
    while e < sources.len()
        invariant
            e <= sources.len(),
            node_count <= u32::MAX,
            sources@.len() == targets@.len(),
            met_nodes@.len() == node_count,
            forall|k: int|
                0 <= k < sources@.len() ==> (#[trigger] sources@[k]) < node_count && targets@[k]
                    < node_count,
            met(sources@, targets@, e as int, layout_components::lists(met_nodes@)),
        decreases sources.len() - e,
    {
        let source: u32 = sources[e];
        let target: u32 = targets[e];
        assert(sources@[e as int] < node_count && targets@[e as int] < node_count);
        let ghost before = layout_components::lists(met_nodes@);
        if source != target {
            met_nodes[source as usize].push(Neighbor { node: target });
            met_nodes[target as usize].push(Neighbor { node: source });
        }
        proof {
            let after = layout_components::lists(met_nodes@);
            assert forall|node: u32, other: u32| node < after.len() implies (
            #[trigger] order::ranked_views(after[node as int]).contains(other) <==> adjacent(
                sources@,
                targets@,
                e + 1,
                node,
                other,
            )) by {
                let held = order::ranked_views(before[node as int]);
                assert(held.contains(other) <==> adjacent(
                    sources@,
                    targets@,
                    e as int,
                    node,
                    other,
                ));
                if source != target && node == source {
                    assert(order::ranked_views(after[node as int]) =~= held.push(target));
                    lemma_held_after_push(held, target, other);
                } else if source != target && node == target {
                    assert(order::ranked_views(after[node as int]) =~= held.push(source));
                    lemma_held_after_push(held, source, other);
                } else {
                    assert(after[node as int] == before[node as int]);
                }
                lemma_adjacent_grows(sources@, targets@, e as int, node, other);
            }
        }
        e = e + 1;
    }
    let mut out: Vec<Vec<u32>> = Vec::new();
    let mut at: usize = 0;
    while at < node_count
        invariant
            at <= node_count,
            node_count <= u32::MAX,
            met_nodes@.len() == node_count,
            met(sources@, targets@, sources@.len() as int, layout_components::lists(met_nodes@)),
            out@.len() == at,
            forall|node: u32|
                node < at ==> neighbors_of(
                    sources@,
                    targets@,
                    node,
                    #[trigger] layout_components::lists(out@)[node as int],
                ),
        decreases node_count - at,
    {
        let ghost before = layout_components::lists(out@);
        let listed = copy_neighbors(&met_nodes[at]);
        let ghost views = order::ranked_views(listed@);
        let sorted = sort_ranked(listed);
        proof {
            order::lemma_ranked_sort::<Neighbor>(views);
            let turned = order::ranked_views(sorted@);
            assert forall|i: int, j: int| 0 <= i < j < sorted@.len() implies sorted@[i].node
                <= sorted@[j].node by {
                assert(order::ranking::<Neighbor>()(turned[i], turned[j]));
            }
        }
        let unique = without_repeats(&sorted);
        let ghost found = unique@;
        out.push(unique);
        proof {
            let after = layout_components::lists(out@);
            assert(after =~= before.push(found));
            assert forall|node: u32| node < at + 1 implies neighbors_of(
                sources@,
                targets@,
                node,
                #[trigger] after[node as int],
            ) by {
                if node < at {
                    assert(neighbors_of(sources@, targets@, node, before[node as int]));
                } else {
                    assert(layout_components::lists(met_nodes@)[node as int]
                        == met_nodes@[node as int]@);
                    assert forall|other: u32| #[trigger] found.contains(other) <==> adjacent(
                        sources@,
                        targets@,
                        sources@.len() as int,
                        node,
                        other,
                    ) by {
                        assert(views.contains(other) <==> adjacent(
                            sources@,
                            targets@,
                            sources@.len() as int,
                            node,
                            other,
                        ));
                    }
                }
            }
        }
        at = at + 1;
    }
    out
}

proof fn lemma_adjacent_grows(
    sources: Seq<u32>,
    targets: Seq<u32>,
    upto: int,
    node: u32,
    other: u32,
)
    requires
        0 <= upto < sources.len(),
    ensures
        adjacent(sources, targets, upto + 1, node, other) <==> adjacent(
            sources,
            targets,
            upto,
            node,
            other,
        ) || (node != other && ((sources[upto] == node && targets[upto] == other) || (sources[upto]
            == other && targets[upto] == node))),
{
    if adjacent(sources, targets, upto, node, other) {
        let e = choose|e: int|
            0 <= e < upto && (((#[trigger] sources[e]) == node && targets[e] == other) || (
            sources[e] == other && targets[e] == node));
        assert(0 <= e < upto + 1 && (sources[e] == node || sources[e] == other));
    }
}

fn copy_neighbors(items: &Vec<Neighbor>) -> (r: Vec<Neighbor>)
    ensures
        order::ranked_views(r@) == order::ranked_views(items@),
{
    let mut out: Vec<Neighbor> = Vec::new();
    let mut i: usize = 0;
    while i < items.len()
        invariant
            i <= items.len(),
            out@ == items@.take(i as int),
        decreases items.len() - i,
    {
        out.push(items[i]);
        assert(out@ =~= items@.take(i + 1));
        i = i + 1;
    }
    assert(items@.take(items@.len() as int) =~= items@);
    out
}

/// The contents of a workspace.
#[verifier::ext_equal]
pub struct WorkspaceView {
    pub positions: Seq<Vec2>,
    pub base_targets: Seq<Vec2>,
    pub targets: Seq<Vec2>,
    pub velocities: Seq<Vec2>,
    pub pinned: Seq<bool>,
    pub adjacency: Seq<Seq<u32>>,
    pub moving: bool,
    pub position_revision: u64,
}

/// The target that a list gives a node: the last one, or else `fallback`.
pub open spec fn placed_at(placed: Seq<(usize, Vec2)>, node: int, fallback: Vec2) -> Vec2
    decreases placed.len(),
{
    if placed.len() == 0 {
        fallback
    } else if placed.last().0 == node {
        placed.last().1
    } else {
        placed_at(placed.drop_last(), node, fallback)
    }
}

/// How many flags are set.
pub open spec fn count_set(flags: Seq<bool>) -> nat
    decreases flags.len(),
{
    if flags.len() == 0 {
        0
    } else {
        count_set(flags.drop_last()) + if flags.last() {
            1nat
        } else {
            0nat
        }
    }
}

impl WorkspaceView {
    /// Every column has one entry per node, neighbors are nodes, and a pinned
    /// node heads for where it is.
    pub open spec fn wf(self) -> bool {
        let count = self.positions.len();
        &&& self.base_targets.len() == count
        &&& self.targets.len() == count
        &&& self.velocities.len() == count
        &&& self.pinned.len() == count
        &&& self.adjacency.len() == count
        &&& forall|i: int, k: int|
            0 <= i < count && 0 <= k < self.adjacency[i].len() ==> (#[trigger] self.adjacency[i][k])
                < count
        &&& forall|i: int|
            0 <= i < count && #[trigger] self.pinned[i] ==> self.targets[i] == self.positions[i]
    }

    pub open spec fn drag_begun(self, index: int) -> WorkspaceView {
        if 0 <= index < self.positions.len() {
            WorkspaceView {
                pinned: self.pinned.update(index, true),
                targets: self.targets.update(index, self.positions[index]),
                velocities: self.velocities.update(index, origin()),
                ..self
            }
        } else {
            self
        }
    }

    /// The neighbors that follow a dragged node: the first ones, up to the
    /// budget, that are not pinned.
    pub open spec fn followers(self, index: int) -> Seq<u32> {
        let near = self.adjacency[index];
        let limit: int = if near.len() < NEIGHBOR_BUDGET {
            near.len() as int
        } else {
            NEIGHBOR_BUDGET as int
        };
        free_nodes(self.pinned, near.take(limit))
    }

    pub open spec fn dragged(self, index: int, position: Vec2, pulled: Seq<Vec2>) -> WorkspaceView {
        if 0 <= index < self.positions.len() && position.finite() {
            let near = self.followers(index);
            WorkspaceView {
                positions: self.positions.update(index, position),
                targets: pulled_to(self.targets.update(index, position), near, pulled),
                base_targets: pulled_to(self.base_targets, near, pulled),
                velocities: self.velocities.update(index, origin()),
                moving: true,
                position_revision: self.position_revision.wrapping_add(1),
                ..self
            }
        } else {
            self
        }
    }

    /// Where a node heads when it is pinned or let go.
    pub open spec fn home(self, index: int, pinned: bool) -> Vec2 {
        if pinned {
            self.positions[index]
        } else {
            self.base_targets[index]
        }
    }

    pub open spec fn pin_restored(self, index: int, was_pinned: bool) -> WorkspaceView {
        if 0 <= index < self.positions.len() {
            WorkspaceView {
                pinned: self.pinned.update(index, was_pinned),
                targets: self.targets.update(index, self.home(index, was_pinned)),
                moving: self.moving || (!was_pinned && !same_point(
                    self.base_targets[index],
                    self.positions[index],
                )),
                ..self
            }
        } else {
            self
        }
    }

    pub open spec fn pin_set(self, index: int, pinned: bool) -> WorkspaceView {
        if 0 <= index < self.positions.len() {
            WorkspaceView {
                velocities: self.velocities.update(index, origin()),
                ..self.pin_restored(index, pinned)
            }
        } else {
            self
        }
    }

    /// Whether an unpinned node is far from its target.
    pub open spec fn pulled_away(self, far: Seq<bool>) -> bool {
        exists|i: int| 0 <= i < self.positions.len() && !(#[trigger] self.pinned[i]) && far[i]
    }

    /// Every node heads home.
    pub open spec fn targets_restored(self) -> WorkspaceView {
        WorkspaceView {
            targets: Seq::new(
                self.positions.len(),
                |i: int| self.home(i, self.pinned[i]),
            ),
            ..self
        }
    }

    pub open spec fn settled(self, far: Seq<bool>) -> WorkspaceView {
        WorkspaceView { moving: self.pulled_away(far), ..self }
    }

    pub open spec fn accepts_targets(self, targets: Seq<Vec2>) -> bool {
        targets.len() == self.positions.len() && forall|i: int|
            0 <= i < targets.len() ==> (#[trigger] targets[i]).finite()
    }

    pub open spec fn retargeted(self, fitted: Seq<Vec2>, far: Seq<bool>) -> WorkspaceView {
        (WorkspaceView { base_targets: fitted, ..self }).targets_restored().settled(far)
    }

    pub open spec fn accepts_focus(self, focus: SceneFocus) -> bool {
        &&& focus.roots@.len() > 0
        &&& focus.nodes@.len() > 0
        &&& forall|i: int|
            0 <= i < focus.nodes@.len() ==> (#[trigger] focus.nodes@[i]) < self.positions.len()
        &&& forall|i: int|
            0 <= i < focus.roots@.len() ==> (#[trigger] focus.roots@[i]) < self.positions.len()
    }

    pub open spec fn focused(self, placed: Seq<(usize, Vec2)>, far: Seq<bool>) -> WorkspaceView {
        (WorkspaceView {
            targets: Seq::new(
                self.positions.len(),
                |i: int|
                    if self.pinned[i] {
                        self.positions[i]
                    } else {
                        placed_at(placed, i, self.base_targets[i])
                    },
            ),
            ..self
        }).settled(far)
    }

    /// Every unpinned node is where it was heading.
    pub open spec fn arrived(self) -> WorkspaceView {
        WorkspaceView {
            positions: Seq::new(
                self.positions.len(),
                |i: int|
                    if self.pinned[i] {
                        self.positions[i]
                    } else {
                        self.targets[i]
                    },
            ),
            velocities: Seq::new(self.positions.len(), |i: int| origin()),
            moving: false,
            position_revision: self.position_revision.wrapping_add(1),
            ..self
        }
    }

    /// The workspace before a step, and whether a step is left to compute.
    pub open spec fn begun(self, reduce_motion: bool) -> (WorkspaceView, bool) {
        if self.moving && reduce_motion {
            (self.arrived(), false)
        } else {
            (self, self.moving)
        }
    }

    /// Whether a node goes on moving after a step.
    pub open spec fn goes_on(
        self,
        positions: Seq<Vec2>,
        velocities: Seq<Vec2>,
        close: Seq<bool>,
        i: int,
    ) -> bool {
        !self.pinned[i] && !close[i] && positions[i].finite() && velocities[i].finite()
    }

    pub open spec fn stepped(
        self,
        positions: Seq<Vec2>,
        velocities: Seq<Vec2>,
        close: Seq<bool>,
    ) -> WorkspaceView {
        WorkspaceView {
            positions: Seq::new(
                self.positions.len(),
                |i: int|
                    if self.pinned[i] {
                        self.positions[i]
                    } else if self.goes_on(positions, velocities, close, i) {
                        positions[i]
                    } else {
                        self.targets[i]
                    },
            ),
            velocities: Seq::new(
                self.positions.len(),
                |i: int|
                    if self.pinned[i] {
                        self.velocities[i]
                    } else if self.goes_on(positions, velocities, close, i) {
                        velocities[i]
                    } else {
                        origin()
                    },
            ),
            moving: exists|i: int|
                0 <= i < self.positions.len() && #[trigger] self.goes_on(
                    positions,
                    velocities,
                    close,
                    i,
                ),
            position_revision: self.position_revision.wrapping_add(1),
            ..self
        }
    }
}

/// The listed nodes that are not pinned.
pub open spec fn free_nodes(pinned: Seq<bool>, nodes: Seq<u32>) -> Seq<u32>
    decreases nodes.len(),
{
    if nodes.len() == 0 {
        Seq::empty()
    } else {
        let rest = free_nodes(pinned, nodes.drop_last());
        if pinned[nodes.last() as int] {
            rest
        } else {
            rest.push(nodes.last())
        }
    }
}

/// Points with those of the listed nodes replaced.
pub open spec fn pulled_to(points: Seq<Vec2>, nodes: Seq<u32>, pulled: Seq<Vec2>) -> Seq<Vec2>
    decreases nodes.len(),
{
    if nodes.len() == 0 {
        points
    } else {
        pulled_to(points, nodes.drop_last(), pulled).update(
            nodes.last() as int,
            pulled[nodes.len() - 1],
        )
    }
}

/// Pins survive: after every change a pinned node heads for where it is.
pub proof fn law_pins_hold(
    w: WorkspaceView,
    index: int,
    flag: bool,
    fitted: Seq<Vec2>,
    far: Seq<bool>,
    placed: Seq<(usize, Vec2)>,
)
    requires
        w.wf(),
        fitted.len() == w.positions.len(),
    ensures
        w.drag_begun(index).wf(),
        w.pin_restored(index, flag).wf(),
        w.pin_set(index, flag).wf(),
        w.retargeted(fitted, far).wf(),
        w.focused(placed, far).wf(),
        w.targets_restored().wf(),
        w.arrived().wf(),
{
}

/// A drag that is taken back leaves every position, base target and pin as it
/// was, and the node heads home.
pub proof fn law_drag_is_undone(w: WorkspaceView, index: int)
    requires
        w.wf(),
        0 <= index < w.positions.len(),
    ensures
        w.drag_begun(index).pin_restored(index, w.pinned[index]).positions == w.positions,
        w.drag_begun(index).pin_restored(index, w.pinned[index]).base_targets == w.base_targets,
        w.drag_begun(index).pin_restored(index, w.pinned[index]).pinned == w.pinned,
        w.drag_begun(index).pin_restored(index, w.pinned[index]).targets[index] == w.home(
            index,
            w.pinned[index],
        ),
{
    let back = w.drag_begun(index).pin_restored(index, w.pinned[index]);
    assert(back.pinned =~= w.pinned);
}

/// Leaving a focus gives every node the target that it has in the overview.
pub proof fn law_focus_is_left(w: WorkspaceView, placed: Seq<(usize, Vec2)>, far: Seq<bool>)
    requires
        w.wf(),
    ensures
        w.focused(placed, far).targets_restored().targets == w.targets_restored().targets,
        w.focused(placed, far).base_targets == w.base_targets,
        w.focused(placed, far).positions == w.positions,
{
    assert(w.focused(placed, far).targets_restored().targets
        =~= w.targets_restored().targets);
}

/// No step moves a pinned node.
pub proof fn law_steps_keep_pinned_nodes(
    w: WorkspaceView,
    positions: Seq<Vec2>,
    velocities: Seq<Vec2>,
    close: Seq<bool>,
    i: int,
)
    requires
        w.wf(),
        0 <= i < w.positions.len(),
        w.pinned[i],
    ensures
        w.stepped(positions, velocities, close).positions[i] == w.positions[i],
        w.arrived().positions[i] == w.positions[i],
        w.stepped(positions, velocities, close).wf(),
{
}

proof fn lemma_pulled(points: Seq<Vec2>, nodes: Seq<u32>, pulled: Seq<Vec2>, i: int)
    requires
        forall|k: int| 0 <= k < nodes.len() ==> (#[trigger] nodes[k]) < points.len(),
        0 <= i < points.len(),
        !nodes.contains(i as u32) || i > u32::MAX,
    ensures
        pulled_to(points, nodes, pulled).len() == points.len(),
        pulled_to(points, nodes, pulled)[i] == points[i],
    decreases nodes.len(),
{
    if nodes.len() > 0 {
        let rest = nodes.drop_last();
        assert(nodes[nodes.len() - 1] < points.len());
        assert forall|k: int| 0 <= k < rest.len() implies (#[trigger] rest[k]) < points.len() by {
            assert(rest[k] == nodes[k]);
        }
        if rest.contains(i as u32) {
            let k = choose|k: int| 0 <= k < rest.len() && rest[k] == i as u32;
            assert(nodes[k] == i as u32);
        }
        lemma_pulled(points, rest, pulled, i);
        if nodes.last() == i {
            assert(nodes[nodes.len() - 1] == i as u32);
        }
    }
}

proof fn lemma_pulled_len(points: Seq<Vec2>, nodes: Seq<u32>, pulled: Seq<Vec2>)
    requires
        forall|k: int| 0 <= k < nodes.len() ==> (#[trigger] nodes[k]) < points.len(),
    ensures
        pulled_to(points, nodes, pulled).len() == points.len(),
    decreases nodes.len(),
{
    if nodes.len() > 0 {
        let rest = nodes.drop_last();
        assert(nodes[nodes.len() - 1] < points.len());
        assert forall|k: int| 0 <= k < rest.len() implies (#[trigger] rest[k]) < points.len() by {
            assert(rest[k] == nodes[k]);
        }
        lemma_pulled_len(points, rest, pulled);
    }
}

proof fn lemma_pulled_away_same(a: WorkspaceView, b: WorkspaceView, far: Seq<bool>)
    requires
        a.positions.len() == b.positions.len(),
        a.pinned == b.pinned,
    ensures
        a.pulled_away(far) == b.pulled_away(far),
{
    if a.pulled_away(far) {
        let i = choose|i: int| 0 <= i < a.positions.len() && !(#[trigger] a.pinned[i]) && far[i];
        assert(!b.pinned[i]);
    }
    if b.pulled_away(far) {
        let i = choose|i: int| 0 <= i < b.positions.len() && !(#[trigger] b.pinned[i]) && far[i];
        assert(!a.pinned[i]);
    }
}

proof fn lemma_free(pinned: Seq<bool>, nodes: Seq<u32>, node: u32)
    ensures
        free_nodes(pinned, nodes).contains(node) ==> nodes.contains(node) && !pinned[node as int],
        free_nodes(pinned, nodes).len() <= nodes.len(),
    decreases nodes.len(),
{
    if nodes.len() > 0 {
        let before = nodes.drop_last();
        let rest = free_nodes(pinned, before);
        let all = free_nodes(pinned, nodes);
        lemma_free(pinned, before, node);
        if all.contains(node) {
            let k = choose|k: int| 0 <= k < all.len() && all[k] == node;
            if k < rest.len() {
                assert(rest[k] == node);
                let m = choose|m: int| 0 <= m < before.len() && before[m] == node;
                assert(nodes[m] == node);
            } else {
                assert(nodes[nodes.len() - 1] == node);
            }
        }
    }
}

proof fn lemma_followers(w: WorkspaceView, index: int, k: int)
    requires
        w.wf(),
        0 <= index < w.positions.len(),
        0 <= k < w.followers(index).len(),
    ensures
        w.followers(index)[k] < w.positions.len(),
        !w.pinned[w.followers(index)[k] as int],
{
    let near = w.followers(index);
    let list = w.adjacency[index];
    let limit: int = if list.len() < NEIGHBOR_BUDGET {
        list.len() as int
    } else {
        NEIGHBOR_BUDGET as int
    };
    let front = list.take(limit);
    assert(near.contains(near[k]));
    lemma_free(w.pinned, front, near[k]);
    let m = choose|m: int| 0 <= m < front.len() && front[m] == near[k];
    assert(w.adjacency[index][m] < w.positions.len());
}

/// Dragging keeps pins as well.
pub proof fn law_drag_keeps_pins(w: WorkspaceView, index: int, position: Vec2, pulled: Seq<Vec2>)
    requires
        w.wf(),
    ensures
        w.dragged(index, position, pulled).wf(),
{
    if 0 <= index < w.positions.len() && position.finite() {
        let near = w.followers(index);
        let after = w.dragged(index, position, pulled);
        assert forall|k: int| 0 <= k < near.len() implies (#[trigger] near[k]) < w.positions.len()
            && !w.pinned[near[k] as int] by {
            lemma_followers(w, index, k);
        }
        let moved = w.targets.update(index, position);
        lemma_pulled_len(moved, near, pulled);
        lemma_pulled_len(w.base_targets, near, pulled);
        assert forall|i: int| 0 <= i < w.positions.len() && #[trigger] after.pinned[i] implies after.targets[i]
            == after.positions[i] by {
            if i <= u32::MAX && near.contains(i as u32) {
                let k = choose|k: int| 0 <= k < near.len() && near[k] == i as u32;
                assert(!w.pinned[near[k] as int]);
            }
            lemma_pulled(moved, near, pulled, i);
        }
        assert forall|i: int, k: int|
            0 <= i < w.positions.len() && 0 <= k < after.adjacency[i].len() implies (
        #[trigger] after.adjacency[i][k]) < w.positions.len() by {
            assert(w.adjacency[i][k] < w.positions.len());
        }
    }
}

/// Where the nodes of a scene are drawn and where they are heading.
#[derive(Debug)]
pub struct GraphWorkspace {
    pub positions: Vec<Vec2>,
    pub base_targets: Vec<Vec2>,
    pub targets: Vec<Vec2>,
    pub velocities: Vec<Vec2>,
    pub pinned: Vec<bool>,
    pub adjacency: Vec<Vec<u32>>,
    pub moving: bool,
    /// Changes whenever nodes may have moved.
    pub position_revision: u64,
}

impl View for GraphWorkspace {
    type V = WorkspaceView;

    open spec fn view(&self) -> WorkspaceView {
        WorkspaceView {
            positions: self.positions@,
            base_targets: self.base_targets@,
            targets: self.targets@,
            velocities: self.velocities@,
            pinned: self.pinned@,
            adjacency: layout_components::lists(self.adjacency@),
            moving: self.moving,
            position_revision: self.position_revision,
        }
    }
}

/// Copies points.
pub fn copy_points(points: &Vec<Vec2>) -> (r: Vec<Vec2>)
    ensures
        r@ == points@,
{
    let mut out: Vec<Vec2> = Vec::new();
    let mut i: usize = 0;
    while i < points.len()
        invariant
            i <= points.len(),
            out@ == points@.take(i as int),
        decreases points.len() - i,
    {
        out.push(points[i]);
        assert(out@ =~= points@.take(i + 1));
        i = i + 1;
    }
    assert(points@.take(points@.len() as int) =~= points@);
    out
}

impl GraphWorkspace {
    /// A workspace in which every node is where the snapshot has it.
    pub fn new(snapshot: &SceneSnapshot) -> (r: GraphWorkspace)
        requires
            snapshot.wf(),
        ensures
            r@.wf(),
            r@.positions == snapshot.nodes.positions@,
            r@.base_targets == snapshot.nodes.positions@,
            r@.targets == snapshot.nodes.positions@,
            r@.velocities == Seq::new(snapshot.nodes.positions@.len(), |i: int| origin()),
            r@.pinned == Seq::new(snapshot.nodes.positions@.len(), |i: int| false),
            !r@.moving,
            r@.position_revision == 0,
            forall|node: u32|
                node < snapshot.nodes.ids@.len() ==> neighbors_of(
                    snapshot.edges.sources@,
                    snapshot.edges.targets@,
                    node,
                    #[trigger] r@.adjacency[node as int],
                ),
    {
        let count: usize = snapshot.nodes.ids.len();
        let ghost sources = snapshot.edges.sources@;
        let ghost targets = snapshot.edges.targets@;
        assert forall|e: int| 0 <= e < sources.len() implies (#[trigger] sources[e]) < count
            && targets[e] < count by {}
        let adjacency = find_neighbors(count, &snapshot.edges.sources, &snapshot.edges.targets);
        let mut velocities: Vec<Vec2> = Vec::new();
        let mut pinned: Vec<bool> = Vec::new();
        let mut i: usize = 0;
        while i < count
            invariant
                i <= count,
                velocities@ == Seq::new(i as nat, |k: int| origin()),
                pinned@ == Seq::new(i as nat, |k: int| false),
            decreases count - i,
        {
            velocities.push(Vec2::zero());
            pinned.push(false);
            proof {
                assert(velocities@ =~= Seq::new((i + 1) as nat, |k: int| origin()));
                assert(pinned@ =~= Seq::new((i + 1) as nat, |k: int| false));
            }
            i = i + 1;
        }
        let ghost near = layout_components::lists(adjacency@);
        proof {
            assert forall|a: int, k: int| 0 <= a < count && 0 <= k < near[a].len() implies (
            #[trigger] near[a][k]) < count by {
                assert(near[(a as u32) as int] == near[a]);
                assert(neighbors_of(sources, targets, a as u32, near[a]));
                assert(near[a].contains(near[a][k]));
                let other = near[a][k];
                let e = choose|e: int|
                    0 <= e < sources.len() && (((#[trigger] sources[e]) == a as u32 && targets[e]
                        == other) || (sources[e] == other && targets[e] == a as u32));
                assert(sources[e] < count && targets[e] < count);
            }
        }
        GraphWorkspace {
            positions: copy_points(&snapshot.nodes.positions),
            base_targets: copy_points(&snapshot.nodes.positions),
            targets: copy_points(&snapshot.nodes.positions),
            velocities,
            pinned,
            adjacency,
            moving: false,
            position_revision: 0,
        }
    }

    pub fn positions(&self) -> (r: &Vec<Vec2>)
        ensures
            r@ == self@.positions,
    {
        &self.positions
    }

    /// The targets of the overview, without temporary ones of a search or a
    /// focus.
    pub fn overview_positions(&self) -> (r: &Vec<Vec2>)
        ensures
            r@ == self@.base_targets,
    {
        &self.base_targets
    }

    pub fn position(&self, index: usize) -> (r: Option<Vec2>)
        ensures
            r == if index < self@.positions.len() {
                Some(self@.positions[index as int])
            } else {
                None
            },
    {
        if index < self.positions.len() {
            Some(self.positions[index])
        } else {
            None
        }
    }

    pub fn is_pinned(&self, index: usize) -> (r: bool)
        ensures
            r == (index < self@.pinned.len() && self@.pinned[index as int]),
    {
        index < self.pinned.len() && self.pinned[index]
    }

    pub fn pinned_count(&self) -> (r: usize)
        ensures
            r == count_set(self@.pinned),
    {
        let mut count: usize = 0;
        let mut i: usize = 0;
        assert(self.pinned@.take(0) =~= Seq::<bool>::empty());
        while i < self.pinned.len()
            invariant
                i <= self.pinned.len(),
                count <= i,
                count == count_set(self.pinned@.take(i as int)),
            decreases self.pinned.len() - i,
        {
            assert(self.pinned@.take(i + 1).drop_last() =~= self.pinned@.take(i as int));
            if self.pinned[i] {
                count = count + 1;
            }
            i = i + 1;
        }
        assert(self.pinned@.take(self.pinned@.len() as int) =~= self.pinned@);
        count
    }

    pub fn pins(&self) -> (r: &Vec<bool>)
        ensures
            r@ == self@.pinned,
    {
        &self.pinned
    }

    pub fn is_moving(&self) -> (r: bool)
        ensures
            r == self@.moving,
    {
        self.moving
    }

    /// A number that changes whenever nodes may have moved.
    pub fn position_revision(&self) -> (r: u64)
        ensures
            r == self@.position_revision,
    {
        self.position_revision
    }

    /// Pins a node for a drag; tells whether it was pinned before.
    pub fn begin_drag(&mut self, index: usize) -> (r: bool)
        requires
            old(self)@.wf(),
        ensures
            final(self)@ == old(self)@.drag_begun(index as int),
            final(self)@.wf(),
            r == (index < old(self)@.pinned.len() && old(self)@.pinned[index as int]),
    {
        let was_pinned = self.is_pinned(index);
        if index < self.positions.len() {
            let here = self.positions[index];
            self.pinned.set(index, true);
            self.targets.set(index, here);
            self.velocities.set(index, Vec2::zero());
        }
        was_pinned
    }

    /// Lists the neighbors that follow a dragged node.
    pub fn drag_followers(&self, index: usize) -> (r: Vec<u32>)
        requires
            self@.wf(),
            index < self@.positions.len(),
        ensures
            r@ == self@.followers(index as int),
    {
        let near = &self.adjacency[index];
        assert(near@ == self@.adjacency[index as int]);
        let limit: usize = if near.len() < NEIGHBOR_BUDGET {
            near.len()
        } else {
            NEIGHBOR_BUDGET
        };
        let mut out: Vec<u32> = Vec::new();
        let mut k: usize = 0;
        assert(near@.take(0) =~= Seq::<u32>::empty());
        while k < limit
            invariant
                k <= limit,
                limit <= near@.len(),
                self@.wf(),
                index < self@.positions.len(),
                near@ == self@.adjacency[index as int],
                out@ == free_nodes(self.pinned@, near@.take(k as int)),
            decreases limit - k,
        {
            let node: u32 = near[k];
            assert(self@.adjacency[index as int][k as int] < self@.positions.len());
            assert(near@.take(k + 1).drop_last() =~= near@.take(k as int));
            if !self.pinned[node as usize] {
                out.push(node);
            }
            k = k + 1;
        }
        out
    }

    /// Moves a node to a point; its followers head for the points given for
    /// them. A point that is not finite is ignored, as is a node that is not
    /// there.
    pub fn drag_to(&mut self, index: usize, position: Vec2, pulled: &Vec<Vec2>)
        requires
            old(self)@.wf(),
            index < old(self)@.positions.len() ==> pulled@.len() == old(self)@.followers(
                index as int,
            ).len(),
        ensures
            final(self)@ == old(self)@.dragged(index as int, position, pulled@),
            final(self)@.wf(),
    {
        proof {
            law_drag_keeps_pins(self@, index as int, position, pulled@);
        }
        if index >= self.positions.len() || !position.is_finite() {
            return ;
        }
        let near = self.drag_followers(index);
        self.positions.set(index, position);
        self.targets.set(index, position);
        self.velocities.set(index, Vec2::zero());
        let ghost moved = self.targets@;
        let ghost homes = self.base_targets@;
        let ghost count = self.positions@.len();
        let ghost view = old(self)@;
        let mut k: usize = 0;
        assert(near@.take(0) =~= Seq::<u32>::empty());
        while k < near.len()
            invariant
                k <= near@.len(),
                near@.len() == pulled@.len(),
                view == old(self)@,
                view.wf(),
                index < count,
                near@ == view.followers(index as int),
                count == view.positions.len(),
                moved.len() == count,
                homes.len() == count,
                self.targets@.len() == count,
                self.base_targets@.len() == count,
                self.targets@ == pulled_to(moved, near@.take(k as int), pulled@),
                self.base_targets@ == pulled_to(homes, near@.take(k as int), pulled@),
                self.positions@ == view.positions.update(index as int, position),
                self.velocities@ == view.velocities.update(index as int, origin()),
                self.pinned@ == view.pinned,
                self.position_revision == view.position_revision,
                layout_components::lists(self.adjacency@) == view.adjacency,
            decreases near.len() - k,
        {
            let node: u32 = near[k];
            proof {
                lemma_followers(view, index as int, k as int);
                assert(near@.take(k + 1).drop_last() =~= near@.take(k as int));
            }
            self.targets.set(node as usize, pulled[k]);
            self.base_targets.set(node as usize, pulled[k]);
            k = k + 1;
        }
        assert(near@.take(near@.len() as int) =~= near@);
        self.moving = true;
        self.position_revision = self.position_revision.wrapping_add(1);
    }

    /// Ends a drag as if it had not pinned the node.
    pub fn restore_pin(&mut self, index: usize, was_pinned: bool)
        requires
            old(self)@.wf(),
        ensures
            final(self)@ == old(self)@.pin_restored(index as int, was_pinned),
            final(self)@.wf(),
    {
        if index >= self.positions.len() {
            return ;
        }
        let here = self.positions[index];
        let home = self.base_targets[index];
        self.pinned.set(index, was_pinned);
        self.targets.set(
            index,
            if was_pinned {
                here
            } else {
                home
            },
        );
        if !was_pinned && !is_same_point(home, here) {
            self.moving = true;
        }
    }

    /// Pins a node where it is, or lets it go home.
    pub fn set_pinned(&mut self, index: usize, pinned: bool)
        requires
            old(self)@.wf(),
        ensures
            final(self)@ == old(self)@.pin_set(index as int, pinned),
            final(self)@.wf(),
    {
        if index >= self.positions.len() {
            return ;
        }
        self.restore_pin(index, pinned);
        self.velocities.set(index, Vec2::zero());
    }

    fn restore_targets(&mut self)
        requires
            old(self)@.positions.len() == old(self)@.base_targets.len(),
            old(self)@.positions.len() == old(self)@.targets.len(),
            old(self)@.positions.len() == old(self)@.pinned.len(),
        ensures
            final(self)@ == old(self)@.targets_restored(),
    {
        let ghost view = self@;
        let mut i: usize = 0;
        while i < self.positions.len()
            invariant
                i <= self.positions@.len(),
                view == old(self)@,
                view.positions.len() == view.base_targets.len(),
                view.positions.len() == view.pinned.len(),
                self.positions@ == view.positions,
                self.base_targets@ == view.base_targets,
                self.velocities@ == view.velocities,
                self.pinned@ == view.pinned,
                self.moving == view.moving,
                self.position_revision == view.position_revision,
                layout_components::lists(self.adjacency@) == view.adjacency,
                self.targets@.len() == view.positions.len(),
                forall|k: int|
                    0 <= k < i ==> #[trigger] self.targets@[k] == view.home(k, view.pinned[k]),
            decreases self.positions@.len() - i,
        {
            let target = if self.pinned[i] {
                self.positions[i]
            } else {
                self.base_targets[i]
            };
            self.targets.set(i, target);
            i = i + 1;
        }
        assert(self@ =~= view.targets_restored());
    }

    /// Whether a list of targets fits the scene and every one is finite.
    pub fn accepts_layout(&self, targets: &Vec<Vec2>) -> (r: bool)
        ensures
            r == self@.accepts_targets(targets@),
    {
        if targets.len() != self.positions.len() {
            return false;
        }
        let mut i: usize = 0;
        while i < targets.len()
            invariant
                i <= targets.len(),
                forall|k: int| 0 <= k < i ==> (#[trigger] targets@[k]).finite(),
            decreases targets.len() - i,
        {
            if !targets[i].is_finite() {
                return false;
            }
            i = i + 1;
        }
        true
    }

    /// Makes an arrangement the base: `fitted` holds `targets` fitted to the
    /// canvas, and `far` tells which of those are far from their node.
    pub fn retarget_layout(
        &mut self,
        targets: &Vec<Vec2>,
        fitted: Vec<Vec2>,
        far: &Vec<bool>,
    ) -> (r: bool)
        requires
            old(self)@.wf(),
            fitted@.len() == targets@.len(),
            far@.len() == targets@.len(),
        ensures
            r == old(self)@.accepts_targets(targets@),
            !r ==> final(self)@ == old(self)@,
            r ==> final(self)@ == old(self)@.retargeted(fitted@, far@),
            final(self)@.wf(),
    {
        if !self.accepts_layout(targets) {
            return false;
        }
        proof {
            law_pins_hold(self@, 0, false, fitted@, far@, Seq::empty());
        }
        self.base_targets = fitted;
        self.restore_targets();
        self.moving = self.any_pulled_away(far);
        true
    }

    /// Whether a focus has roots and nodes, all of them in the scene.
    pub fn accepts_focus(&self, focus: &SceneFocus) -> (r: bool)
        ensures
            r == self@.accepts_focus(*focus),
    {
        if focus.roots.len() == 0 || focus.nodes.len() == 0 {
            return false;
        }
        all_below(&focus.nodes, self.positions.len()) && all_below(
            &focus.roots,
            self.positions.len(),
        )
    }

    /// Heads for a focus without changing the base arrangement; gives back
    /// the points that its nodes head for.
    pub fn retarget_focus(
        &mut self,
        focus: &SceneFocus,
        placed: &Vec<(usize, Vec2)>,
        far: &Vec<bool>,
    ) -> (r: Option<Vec<Vec2>>)
        requires
            old(self)@.wf(),
            far@.len() == old(self)@.positions.len(),
        ensures
            r is Some <==> old(self)@.accepts_focus(*focus),
            r is None ==> final(self)@ == old(self)@,
            r matches Some(points) ==> {
                &&& final(self)@ == old(self)@.focused(placed@, far@)
                &&& points@ == Seq::new(
                    focus.nodes@.len(),
                    |i: int| final(self)@.targets[focus.nodes@[i] as int],
                )
            },
            final(self)@.wf(),
    {
        if !self.accepts_focus(focus) {
            return None;
        }
        let ghost view = self@;
        proof {
            law_pins_hold(self@, 0, false, self@.base_targets, far@, placed@);
        }
        self.restore_targets();
        let mut k: usize = 0;
        assert(placed@.take(0) =~= Seq::<(usize, Vec2)>::empty());
        while k < placed.len()
            invariant
                k <= placed@.len(),
                view == old(self)@,
                view.wf(),
                self.positions@ == view.positions,
                self.base_targets@ == view.base_targets,
                self.velocities@ == view.velocities,
                self.pinned@ == view.pinned,
                self.moving == view.moving,
                self.position_revision == view.position_revision,
                layout_components::lists(self.adjacency@) == view.adjacency,
                self.targets@.len() == view.positions.len(),
                forall|i: int|
                    0 <= i < view.positions.len() ==> #[trigger] self.targets@[i]
                        == if view.pinned[i] {
                        view.positions[i]
                    } else {
                        placed_at(placed@.take(k as int), i, view.base_targets[i])
                    },
            decreases placed@.len() - k,
        {
            let (node, point) = placed[k];
            assert(placed@.take(k + 1).drop_last() =~= placed@.take(k as int));
            if node < self.positions.len() && !self.pinned[node] {
                self.targets.set(node, point);
            }
            k = k + 1;
        }
        assert(placed@.take(placed@.len() as int) =~= placed@);
        self.moving = self.any_pulled_away(far);
        proof {
            let next = view.focused(placed@, far@);
            assert(self@.targets =~= next.targets);
            lemma_pulled_away_same(self@, view, far@);
            lemma_pulled_away_same(WorkspaceView { targets: next.targets, ..view }, view, far@);
            assert(self@ =~= next);
        }
        let mut points: Vec<Vec2> = Vec::new();
        let mut i: usize = 0;
        while i < focus.nodes.len()
            invariant
                i <= focus.nodes@.len(),
                view.accepts_focus(*focus),
                self@.targets.len() == view.positions.len(),
                points@ == Seq::new(
                    i as nat,
                    |a: int| self@.targets[focus.nodes@[a] as int],
                ),
            decreases focus.nodes@.len() - i,
        {
            let node: usize = focus.nodes[i];
            assert(focus.nodes@[i as int] < view.positions.len());
            points.push(self.targets[node]);
            assert(points@ =~= Seq::new(
                (i + 1) as nat,
                |a: int| self@.targets[focus.nodes@[a] as int],
            ));
            i = i + 1;
        }
        Some(points)
    }

    fn any_pulled_away(&self, far: &Vec<bool>) -> (r: bool)
        requires
            self@.positions.len() == self@.pinned.len(),
            far@.len() == self@.positions.len(),
        ensures
            r == self@.pulled_away(far@),
    {
        let mut i: usize = 0;
        while i < self.positions.len()
            invariant
                i <= self.positions@.len(),
                self@.positions.len() == self@.pinned.len(),
                far@.len() == self@.positions.len(),
                forall|k: int| 0 <= k < i ==> #[trigger] self.pinned@[k] || !far@[k],
            decreases self.positions@.len() - i,
        {
            if !self.pinned[i] && far[i] {
                assert(!self@.pinned[i as int]);
                return true;
            }
            i = i + 1;
        }
        false
    }

    /// Heads back for the base arrangement.
    pub fn restore_layout(&mut self, far: &Vec<bool>)
        requires
            old(self)@.wf(),
            far@.len() == old(self)@.positions.len(),
        ensures
            final(self)@ == old(self)@.targets_restored().settled(far@),
            final(self)@.wf(),
    {
        proof {
            law_pins_hold(self@, 0, false, self@.base_targets, far@, Seq::empty());
        }
        self.restore_targets();
        self.moving = self.any_pulled_away(far);
    }

    /// Starts a step. Without motion to show, nodes are put where they head;
    /// `true` asks for the step to be computed and finished.
    pub fn begin_step(&mut self, reduce_motion: bool) -> (r: bool)
        requires
            old(self)@.wf(),
        ensures
            (final(self)@, r) == old(self)@.begun(reduce_motion),
            final(self)@.wf(),
    {
        if !self.moving {
            return false;
        }
        if !reduce_motion {
            return true;
        }
        let ghost view = self@;
        let mut i: usize = 0;
        while i < self.positions.len()
            invariant
                i <= self.positions@.len(),
                view == old(self)@,
                view.wf(),
                self.base_targets@ == view.base_targets,
                self.targets@ == view.targets,
                self.pinned@ == view.pinned,
                self.position_revision == view.position_revision,
                layout_components::lists(self.adjacency@) == view.adjacency,
                self.positions@.len() == view.positions.len(),
                self.velocities@.len() == view.positions.len(),
                forall|k: int|
                    0 <= k < self.positions@.len() ==> #[trigger] self.positions@[k] == if k < i {
                        view.arrived().positions[k]
                    } else {
                        view.positions[k]
                    },
                forall|k: int| 0 <= k < i ==> #[trigger] self.velocities@[k] == origin(),
            decreases self.positions@.len() - i,
        {
            if !self.pinned[i] {
                let target = self.targets[i];
                self.positions.set(i, target);
            }
            self.velocities.set(i, Vec2::zero());
            i = i + 1;
        }
        self.moving = false;
        self.position_revision = self.position_revision.wrapping_add(1);
        assert(self@ =~= view.arrived());
        false
    }

    /// Finishes a step with the computed positions and velocities; `close`
    /// tells which nodes are near their target and slow. Such nodes, and
    /// those whose values are not finite, are put on their target.
    pub fn finish_step(
        &mut self,
        positions: &Vec<Vec2>,
        velocities: &Vec<Vec2>,
        close: &Vec<bool>,
    ) -> (r: bool)
        requires
            old(self)@.wf(),
            positions@.len() == old(self)@.positions.len(),
            velocities@.len() == old(self)@.positions.len(),
            close@.len() == old(self)@.positions.len(),
        ensures
            final(self)@ == old(self)@.stepped(positions@, velocities@, close@),
            r == final(self)@.moving,
            final(self)@.wf(),
    {
        let ghost view = self@;
        let ghost after = view.stepped(positions@, velocities@, close@);
        let mut moving = false;
        let mut i: usize = 0;
        while i < self.positions.len()
            invariant
                i <= self.positions@.len(),
                view == old(self)@,
                view.wf(),
                after == view.stepped(positions@, velocities@, close@),
                positions@.len() == view.positions.len(),
                velocities@.len() == view.positions.len(),
                close@.len() == view.positions.len(),
                self.base_targets@ == view.base_targets,
                self.targets@ == view.targets,
                self.pinned@ == view.pinned,
                self.position_revision == view.position_revision,
                layout_components::lists(self.adjacency@) == view.adjacency,
                self.positions@.len() == view.positions.len(),
                self.velocities@.len() == view.positions.len(),
                forall|k: int|
                    0 <= k < self.positions@.len() ==> #[trigger] self.positions@[k] == if k < i {
                        after.positions[k]
                    } else {
                        view.positions[k]
                    },
                forall|k: int|
                    0 <= k < self.positions@.len() ==> #[trigger] self.velocities@[k] == if k < i {
                        after.velocities[k]
                    } else {
                        view.velocities[k]
                    },
                moving <==> exists|k: int|
                    0 <= k < i && #[trigger] view.goes_on(positions@, velocities@, close@, k),
            decreases self.positions@.len() - i,
        {
            if !self.pinned[i] {
                if !close[i] && positions[i].is_finite() && velocities[i].is_finite() {
                    assert(view.goes_on(positions@, velocities@, close@, i as int));
                    self.positions.set(i, positions[i]);
                    self.velocities.set(i, velocities[i]);
                    moving = true;
                } else {
                    let target = self.targets[i];
                    self.positions.set(i, target);
                    self.velocities.set(i, Vec2::zero());
                }
            }
            i = i + 1;
        }
        self.moving = moving;
        self.position_revision = self.position_revision.wrapping_add(1);
        assert(self@ =~= after);
        moving
    }
}

fn all_below(items: &Vec<usize>, bound: usize) -> (r: bool)
    ensures
        r == forall|i: int| 0 <= i < items@.len() ==> (#[trigger] items@[i]) < bound,
{
    let mut i: usize = 0;
    while i < items.len()
        invariant
            i <= items.len(),
            forall|k: int| 0 <= k < i ==> (#[trigger] items@[k]) < bound,
        decreases items.len() - i,
    {
        if items[i] >= bound {
            return false;
        }
        i = i + 1;
    }
    true
}

} // verus!
