//! What moves on the canvas and what stays, what a pointer picks, and what
//! the miniature shows.

use vstd::prelude::*;
use vstd::seq_lib::*;

use crate::camera;
use crate::camera::CameraMotion;
use crate::navigator;
use crate::navigator::NavigatorBin;
use crate::scene;
use crate::scene::{Camera, DetailLevel, Vec2};
use crate::single;
use crate::workspace;
use crate::workspace::WorkspaceView;

verus! {

/// Values that are numbers are ordered strictly and completely, and numbers of
/// one sign by their bits.
pub proof fn law_values_are_ordered(a: u32, b: u32, c: u32)
    requires
        !single::nan(a),
        !single::nan(b),
        !single::nan(c),
    ensures
        !single::less(a, a),
        single::less(a, b) ==> !single::less(b, a) && !single::equal(a, b),
        single::less(a, b) && single::less(b, c) ==> single::less(a, c),
        single::less(a, b) || single::less(b, a) || single::equal(a, b),
        a < 0x8000_0000 && b < 0x8000_0000 ==> (single::less(a, b) <==> a < b),
        a > 0x8000_0000 && b > 0x8000_0000 ==> (single::less(a, b) <==> b < a),
        a > 0x8000_0000 && b < 0x8000_0000 ==> single::less(a, b),
        single::equal(0, 0x8000_0000),
        single::less(a, b) ==> single::total_place(a) < single::total_place(b),
{
}

/// A value that is no number is neither less than another nor equal to it.
pub proof fn law_missing_values_have_no_order(a: u32, b: u32)
    requires
        single::nan(a),
    ensures
        !single::less(a, b),
        !single::less(b, a),
        !single::equal(a, b),
        !single::finite(a),
{
}

/// Infinite values and those that are no number are told from finite ones.
pub proof fn law_finite_values_are_bounded(bits: u32)
    ensures
        bits < 0x7f80_0000 ==> single::finite(bits),
        0x7f80_0000 <= bits < 0x8000_0000 ==> !single::finite(bits),
        0x8000_0000 <= bits < 0xff80_0000 ==> single::finite(bits),
        0xff80_0000 <= bits ==> !single::finite(bits),
        single::nan(bits) <==> !single::finite(bits) && bits != 0x7f80_0000 && bits != 0xff80_0000,
{
}

/// A value within the unit is kept, and one outside it becomes the nearer
/// bound.
pub proof fn law_units_are_held(value: u32)
    requires
        !single::nan(value),
    ensures
        single::in_unit(single::held_unit(value)),
        !single::less(value, 0) && !single::less(0x3f80_0000, value) ==> single::held_unit(value)
            == value,
        single::less(value, 0) ==> single::held_unit(value) == 0,
        single::less(0x3f80_0000, value) ==> single::held_unit(value) == 0x3f80_0000,
        !single::nan(single::held_unit(value)),
{
}

/// A zoom within its limits is kept, and holding a zoom keeps the order of two.
pub proof fn law_zoom_is_kept_within_its_limits(zoom: u32, other: u32)
    requires
        !single::nan(zoom),
        !single::nan(other),
    ensures
        0x3da3_d70a <= zoom <= 0x4480_0000 ==> camera::held_zoom(zoom) == zoom,
        single::less(camera::held_zoom(zoom), camera::held_zoom(other)) ==> single::less(
            zoom,
            other,
        ),
        single::less(zoom, other) ==> !single::less(
            camera::held_zoom(other),
            camera::held_zoom(zoom),
        ),
{
}

/// The camera heads for the place it is sent to, unless that is no place; its
/// motion ends there and nowhere else, at once where motion is reduced.
pub proof fn law_camera_ends_on_its_target(
    motion: CameraMotion,
    now: Camera,
    sent: Camera,
    computed: Camera,
    velocity: Vec2,
    zoom_velocity: u32,
)
    ensures
        sent.center.finite() && single::finite(sent.zoom) && single::less(0, sent.zoom)
            ==> motion.retargeted(sent).target == sent && motion.retargeted(sent).moving
            && motion.retargeted(sent).center_velocity == motion.center_velocity,
        !sent.center.finite() || !single::finite(sent.zoom) || !single::less(0, sent.zoom)
            ==> motion.retargeted(sent) == motion,
        motion.moving ==> motion.begun(now, true).1 == motion.target && !motion.begun(
            now,
            true,
        ).0.moving && !motion.begun(now, true).2,
        motion.begun(now, false) == (motion, now, motion.moving),
        !motion.moving ==> motion.begun(now, true) == (motion, now, false),
        ({
            let (after, camera, goes_on) = motion.finished(computed, velocity, zoom_velocity, true);
            camera == motion.target && !goes_on && !after.moving && after.target == motion.target
                && after.center_velocity == (Vec2 { x: 0, y: 0 }) && after.log_zoom_velocity == 0
        }),
        computed.center.finite() && single::finite(computed.zoom) ==> {
            let (after, camera, goes_on) = motion.finished(computed, velocity, zoom_velocity, false);
            camera == computed && goes_on && after.moving == motion.moving && after.target
                == motion.target && after.center_velocity == velocity && after.log_zoom_velocity
                == zoom_velocity
        },
        !computed.center.finite() || !single::finite(computed.zoom) ==> motion.finished(
            computed,
            velocity,
            zoom_velocity,
            false,
        ).1 == motion.target,
{
}

/// Of several picks the nearest is nearer than every other, or as near and
/// earlier.
pub proof fn law_nearest_is_picked(distances: Seq<Option<u32>>, index: int, other: int)
    requires
        camera::nearest(distances, index),
        0 <= other < distances.len(),
        other != index,
        distances[other] is Some,
    ensures
        !single::less(distances[other]->0, distances[index]->0),
        distances[other]->0 == distances[index]->0 ==> index < other,
{
}

/// How much of a scene a level of detail shows.
pub open spec fn shown_detail(level: DetailLevel) -> int {
    match level {
        DetailLevel::Overview => 0,
        DetailLevel::Communities => 1,
        DetailLevel::Elements => 2,
    }
}

/// Zooming in never hides detail, and a larger scene never shows more of it at
/// one zoom. However large the scene, the closest zoom shows its elements, and
/// the widest its overview.
pub proof fn law_detail_grows_with_zoom(near: u32, far: u32, small: nat, large: nat)
    requires
        !single::nan(near),
        !single::nan(far),
    ensures
        single::less(far, near) ==> shown_detail(scene::detail_at(far, large)) <= shown_detail(
            scene::detail_at(near, large),
        ),
        small <= large ==> shown_detail(scene::detail_at(near, large)) <= shown_detail(
            scene::detail_at(near, small),
        ),
        scene::detail_at(camera::MAX_CAMERA_ZOOM, large) == DetailLevel::Elements,
        scene::detail_at(camera::MIN_CAMERA_ZOOM, large) == DetailLevel::Overview,
{
    assert(!single::nan(camera::MAX_CAMERA_ZOOM) && !single::nan(camera::MIN_CAMERA_ZOOM));
    assert(!single::nan(0x3ee6_6666) && !single::nan(0x3fcc_cccd) && !single::nan(0x4033_3333)
        && !single::nan(0x41c0_0000) && !single::nan(0x4140_0000));
}

/// Taking hold of a node pins it where it is, and changes no other node.
pub proof fn law_held_node_is_pinned_in_place(w: WorkspaceView, index: int, other: int)
    requires
        w.wf(),
        0 <= index < w.positions.len(),
        0 <= other < w.positions.len(),
    ensures
        ({
            let held = w.drag_begun(index);
            &&& held.pinned[index]
            &&& held.targets[index] == w.positions[index]
            &&& held.velocities[index] == (Vec2 { x: 0, y: 0 })
            &&& held.positions == w.positions
            &&& held.base_targets == w.base_targets
            &&& held.moving == w.moving
            &&& other != index ==> held.pinned[other] == w.pinned[other] && held.targets[other]
                == w.targets[other] && held.velocities[other] == w.velocities[other]
        }),
{
}

proof fn lemma_free(pinned: Seq<bool>, nodes: Seq<u32>)
    requires
        forall|i: int, j: int| 0 <= i < j < nodes.len() ==> nodes[i] < nodes[j],
    ensures
        forall|x: u32|
            workspace::free_nodes(pinned, nodes).contains(x) <==> nodes.contains(x)
                && !pinned[x as int],
        forall|i: int, j: int|
            0 <= i < j < workspace::free_nodes(pinned, nodes).len()
                ==> workspace::free_nodes(pinned, nodes)[i] < workspace::free_nodes(
                pinned,
                nodes,
            )[j],
    decreases nodes.len(),
{
    if nodes.len() > 0 {
        let rest = nodes.drop_last();
        let before = workspace::free_nodes(pinned, rest);
        let free = workspace::free_nodes(pinned, nodes);
        lemma_free(pinned, rest);
        assert forall|x: u32| free.contains(x) <==> nodes.contains(x) && !pinned[x as int] by {
            if free.contains(x) {
                let k = choose|k: int| 0 <= k < free.len() && free[k] == x;
                if k < before.len() {
                    assert(before[k] == x);
                    assert(rest.contains(x));
                    let m = choose|m: int| 0 <= m < rest.len() && rest[m] == x;
                    assert(nodes[m] == x);
                } else {
                    assert(nodes[nodes.len() - 1] == x);
                }
            }
            if nodes.contains(x) && !pinned[x as int] {
                let k = choose|k: int| 0 <= k < nodes.len() && nodes[k] == x;
                if k < rest.len() {
                    assert(rest[k] == x);
                    assert(before.contains(x));
                    let m = choose|m: int| 0 <= m < before.len() && before[m] == x;
                    assert(free[m] == x);
                } else {
                    assert(free.last() == x);
                }
            }
        }
        assert forall|i: int, j: int| 0 <= i < j < free.len() implies free[i] < free[j] by {
            if j == before.len() {
                assert(before.contains(free[i])) by {
                    assert(before[i] == free[i]);
                }
                assert(rest.contains(free[i]));
                let m = choose|m: int| 0 <= m < rest.len() && rest[m] == free[i];
                assert(nodes[m] < nodes[nodes.len() - 1]);
            }
        }
    }
}

/// A drag pulls along neighbours of the node that are not pinned: all of them
/// where there are few, and never more than the budget.
pub proof fn law_free_neighbors_follow(w: WorkspaceView, index: int, other: u32)
    requires
        w.wf(),
        0 <= index < w.positions.len(),
        forall|i: int, j: int|
            0 <= i < j < w.adjacency[index].len() ==> w.adjacency[index][i] < w.adjacency[index][j],
    ensures
        w.followers(index).len() <= 512,
        w.followers(index).contains(other) ==> w.adjacency[index].contains(other)
            && !w.pinned[other as int],
        w.adjacency[index].len() <= 512 && w.adjacency[index].contains(other)
            && !w.pinned[other as int] ==> w.followers(index).contains(other),
{
    let near = w.adjacency[index];
    let limit: int = if near.len() < 512 {
        near.len() as int
    } else {
        512
    };
    let first = near.take(limit);
    lemma_free(w.pinned, first);
    lemma_free_length(w.pinned, first);
    if first.contains(other) {
        let k = choose|k: int| 0 <= k < first.len() && first[k] == other;
        assert(near[k] == other);
    }
    if near.len() <= 512 {
        assert(first =~= near);
    }
}

proof fn lemma_free_length(pinned: Seq<bool>, nodes: Seq<u32>)
    ensures
        workspace::free_nodes(pinned, nodes).len() <= nodes.len(),
    decreases nodes.len(),
{
    if nodes.len() > 0 {
        lemma_free_length(pinned, nodes.drop_last());
    }
}

proof fn lemma_pulled(points: Seq<Vec2>, nodes: Seq<u32>, pulled: Seq<Vec2>)
    requires
        forall|k: int| 0 <= k < nodes.len() ==> (#[trigger] nodes[k]) < points.len(),
        forall|i: int, j: int| 0 <= i < j < nodes.len() ==> nodes[i] < nodes[j],
        nodes.len() <= pulled.len(),
    ensures
        workspace::pulled_to(points, nodes, pulled).len() == points.len(),
        forall|k: int|
            0 <= k < nodes.len() ==> workspace::pulled_to(points, nodes, pulled)[(
            #[trigger] nodes[k]) as int] == pulled[k],
        forall|i: int|
            0 <= i < points.len() && !nodes.contains(i as u32) && i <= u32::MAX
                ==> #[trigger] workspace::pulled_to(points, nodes, pulled)[i] == points[i],
    decreases nodes.len(),
{
    if nodes.len() > 0 {
        let rest = nodes.drop_last();
        lemma_pulled(points, rest, pulled);
        let after = workspace::pulled_to(points, nodes, pulled);
        let before = workspace::pulled_to(points, rest, pulled);
        assert forall|k: int| 0 <= k < nodes.len() implies after[(#[trigger] nodes[k]) as int]
            == pulled[k] by {
            if k < rest.len() {
                assert(rest[k] == nodes[k]);
                assert(nodes[k] < nodes[nodes.len() - 1]);
            }
        }
        assert forall|i: int|
            0 <= i < points.len() && !nodes.contains(i as u32) && i <= u32::MAX implies after[i]
            == points[i] by {
            if rest.contains(i as u32) {
                let k = choose|k: int| 0 <= k < rest.len() && rest[k] == i as u32;
                assert(nodes[k] == i as u32);
            }
            assert(nodes[nodes.len() - 1] != i);
        }
    }
}

/// A dragged node goes where the pointer is, each of its followers heads for
/// the place it is pulled to and stays there when the overview returns, and no
/// other node is touched.
pub proof fn law_dragged_node_follows_the_pointer(
    w: WorkspaceView,
    index: int,
    position: Vec2,
    pulled: Seq<Vec2>,
    other: int,
)
    requires
        w.wf(),
        w.positions.len() <= u32::MAX,
        0 <= index < w.positions.len(),
        0 <= other < w.positions.len(),
        position.finite(),
        pulled.len() == w.followers(index).len(),
        forall|i: int, j: int|
            0 <= i < j < w.adjacency[index].len() ==> w.adjacency[index][i] < w.adjacency[index][j],
        !w.adjacency[index].contains(index as u32),
    ensures
        ({
            let moved = w.dragged(index, position, pulled);
            let near = w.followers(index);
            &&& moved.positions[index] == position
            &&& moved.targets[index] == position
            &&& moved.moving
            &&& moved.position_revision != w.position_revision
            &&& moved.pinned == w.pinned
            &&& other != index ==> moved.positions[other] == w.positions[other]
            &&& forall|k: int|
                0 <= k < near.len() ==> moved.targets[(#[trigger] near[k]) as int] == pulled[k]
                    && moved.base_targets[near[k] as int] == pulled[k]
            &&& other != index && !near.contains(other as u32) ==> moved.targets[other]
                == w.targets[other] && moved.base_targets[other] == w.base_targets[other]
                && moved.velocities[other] == w.velocities[other]
        }),
{
    let adjacent = w.adjacency[index];
    let limit: int = if adjacent.len() < 512 {
        adjacent.len() as int
    } else {
        512
    };
    let first = adjacent.take(limit);
    let near = w.followers(index);
    lemma_free(w.pinned, first);
    assert forall|k: int| 0 <= k < near.len() implies (#[trigger] near[k]) < w.positions.len()
        && near[k] != index by {
        assert(near.contains(near[k]));
        assert(first.contains(near[k]));
        let m = choose|m: int| 0 <= m < first.len() && first[m] == near[k];
        assert(w.adjacency[index][m] == near[k]);
        assert(adjacent.contains(near[k]));
    }
    lemma_pulled(w.targets.update(index, position), near, pulled);
    lemma_pulled(w.base_targets, near, pulled);
    if near.contains(index as u32) {
        let k = choose|k: int| 0 <= k < near.len() && near[k] == index as u32;
        assert(near[k] != index);
    }
    assert(near.contains(other as u32) || !near.contains(other as u32));
    let revision = w.position_revision;
    assert(revision.wrapping_add(1) != revision);
}

/// Letting go of a node that was free sends it home, and of one that was
/// pinned leaves it where it was put.
pub proof fn law_released_nodes_go_home(w: WorkspaceView, index: int, other: int)
    requires
        w.wf(),
        0 <= index < w.positions.len(),
        0 <= other < w.positions.len(),
    ensures
        ({
            let free = w.pin_restored(index, false);
            let kept = w.pin_restored(index, true);
            &&& !free.pinned[index]
            &&& free.targets[index] == w.base_targets[index]
            &&& kept.pinned[index]
            &&& kept.targets[index] == w.positions[index]
            &&& !single::equal(w.base_targets[index].x, w.positions[index].x) || !single::equal(
                w.base_targets[index].y,
                w.positions[index].y,
            ) ==> free.moving
            &&& free.positions == w.positions
            &&& kept.positions == w.positions
            &&& w.pin_set(index, false).targets == free.targets
            &&& w.pin_set(index, true).pinned == kept.pinned
            &&& other != index ==> free.pinned[other] == w.pinned[other] && free.targets[other]
                == w.targets[other]
        }),
{
}

/// Under a new arrangement every free node heads for its new place, pinned
/// nodes stay, and something moves exactly where a free node is far from its
/// place.
pub proof fn law_free_nodes_take_the_new_arrangement(
    w: WorkspaceView,
    fitted: Seq<Vec2>,
    far: Seq<bool>,
    i: int,
)
    requires
        w.wf(),
        fitted.len() == w.positions.len(),
        0 <= i < w.positions.len(),
    ensures
        ({
            let next = w.retargeted(fitted, far);
            &&& !w.pinned[i] ==> next.targets[i] == fitted[i]
            &&& w.pinned[i] ==> next.targets[i] == w.positions[i]
            &&& next.base_targets == fitted
            &&& next.positions == w.positions
            &&& next.pinned == w.pinned
            &&& !w.pinned[i] && far[i] ==> next.moving
            &&& (forall|k: int| 0 <= k < w.positions.len() ==> w.pinned[k] || !far[k])
                ==> !next.moving
        }),
{
}

proof fn lemma_placed(placed: Seq<(usize, Vec2)>, node: int, fallback: Vec2)
    ensures
        (forall|k: int| 0 <= k < placed.len() ==> (#[trigger] placed[k]).0 != node)
            ==> workspace::placed_at(placed, node, fallback) == fallback,
        forall|k: int|
            0 <= k < placed.len() && (#[trigger] placed[k]).0 == node && (forall|m: int|
                k < m < placed.len() ==> (#[trigger] placed[m]).0 != node)
                ==> workspace::placed_at(placed, node, fallback) == placed[k].1,
    decreases placed.len(),
{
    if placed.len() > 0 && placed.last().0 != node {
        lemma_placed(placed.drop_last(), node, fallback);
        assert forall|k: int|
            0 <= k < placed.len() && (#[trigger] placed[k]).0 == node && (forall|m: int|
                k < m < placed.len() ==> (#[trigger] placed[m]).0 != node) implies workspace::placed_at(
            placed,
            node,
            fallback,
        ) == placed[k].1 by {
            assert(placed.drop_last()[k].0 == node);
            assert forall|m: int| k < m < placed.drop_last().len() implies (
            #[trigger] placed.drop_last()[m]).0 != node by {
                assert(placed[m].0 != node);
            }
        }
        if forall|k: int| 0 <= k < placed.len() ==> (#[trigger] placed[k]).0 != node {
            assert forall|k: int| 0 <= k < placed.drop_last().len() implies (
            #[trigger] placed.drop_last()[k]).0 != node by {
                assert(placed[k].0 != node);
            }
        }
    } else if placed.len() > 0 {
        assert(placed[placed.len() - 1].0 == node);
        assert forall|k: int|
            0 <= k < placed.len() && (#[trigger] placed[k]).0 == node && (forall|m: int|
                k < m < placed.len() ==> (#[trigger] placed[m]).0 != node) implies workspace::placed_at(
            placed,
            node,
            fallback,
        ) == placed[k].1 by {}
    }
}

/// In a focus every free node that has a place there heads for it, and every
/// other free node stays with the overview. Nothing moves at once, and the
/// overview is kept.
pub proof fn law_focus_places_its_nodes(
    w: WorkspaceView,
    placed: Seq<(usize, Vec2)>,
    far: Seq<bool>,
    k: int,
    other: int,
)
    requires
        w.wf(),
        0 <= k < placed.len(),
        placed[k].0 < w.positions.len(),
        forall|i: int, j: int| 0 <= i < j < placed.len() ==> placed[i].0 != placed[j].0,
        0 <= other < w.positions.len(),
        forall|i: int| 0 <= i < placed.len() ==> (#[trigger] placed[i]).0 != other,
    ensures
        ({
            let next = w.focused(placed, far);
            let node = placed[k].0 as int;
            &&& !w.pinned[node] ==> next.targets[node] == placed[k].1
            &&& w.pinned[node] ==> next.targets[node] == w.positions[node]
            &&& !w.pinned[other] ==> next.targets[other] == w.base_targets[other]
            &&& next.positions == w.positions
            &&& next.base_targets == w.base_targets
            &&& next.pinned == w.pinned
        }),
{
    lemma_placed(placed, placed[k].0 as int, w.base_targets[placed[k].0 as int]);
    lemma_placed(placed, other, w.base_targets[other]);
}

/// A motion ends with every free node on its target and at rest, and nothing
/// moves any more.
pub proof fn law_motion_ends_on_the_targets(w: WorkspaceView, i: int)
    requires
        w.wf(),
        0 <= i < w.positions.len(),
    ensures
        w.arrived().positions[i] == w.targets[i],
        w.arrived().velocities[i] == (Vec2 { x: 0, y: 0 }),
        !w.arrived().moving,
        w.arrived().targets == w.targets,
        w.arrived().base_targets == w.base_targets,
        w.arrived().pinned == w.pinned,
        w.moving ==> w.begun(true) == (w.arrived(), false),
        w.begun(false) == (w, w.moving),
        !w.moving ==> w.begun(true) == (w, false),
{
}

/// A step takes a free node to its computed place, or onto its target where it
/// is close enough or the place is no point. Motion goes on exactly while a
/// free node is short of its target.
pub proof fn law_steps_lead_to_the_targets(
    w: WorkspaceView,
    positions: Seq<Vec2>,
    velocities: Seq<Vec2>,
    close: Seq<bool>,
    i: int,
)
    requires
        w.wf(),
        0 <= i < w.positions.len(),
        !w.pinned[i],
    ensures
        ({
            let next = w.stepped(positions, velocities, close);
            let usable = positions[i].finite() && velocities[i].finite();
            &&& close[i] || !usable ==> next.positions[i] == w.targets[i] && next.velocities[i] == (
            Vec2 { x: 0, y: 0 })
            &&& !close[i] && usable ==> next.positions[i] == positions[i] && next.velocities[i]
                == velocities[i] && next.moving
            &&& (forall|k: int| 0 <= k < w.positions.len() ==> w.pinned[k] || close[k])
                ==> !next.moving
            &&& next.targets == w.targets
            &&& next.pinned == w.pinned
        }),
{
    let next = w.stepped(positions, velocities, close);
    if !close[i] && positions[i].finite() && velocities[i].finite() {
        assert(w.goes_on(positions, velocities, close, i));
    }
    if forall|k: int| 0 <= k < w.positions.len() ==> w.pinned[k] || close[k] {
        assert forall|k: int| 0 <= k < w.positions.len() implies !#[trigger] w.goes_on(
            positions,
            velocities,
            close,
            k,
        ) by {
            assert(w.pinned[k] || close[k]);
        }
    }
}

/// As many nodes are counted as pinned as there are pins.
pub proof fn law_pins_are_counted(flags: Seq<bool>)
    ensures
        workspace::count_set(flags) == flags.filter(|flag: bool| flag).len(),
    decreases flags.len(),
{
    reveal(Seq::filter);
    if flags.len() > 0 {
        law_pins_are_counted(flags.drop_last());
    }
}

proof fn lemma_bin(cells: Seq<usize>, relevance: Seq<u32>, selected: Option<usize>, cell: usize)
    requires
        cells.len() == relevance.len(),
        cells.len() <= usize::MAX,
    ensures
        match navigator::bin_after(cells, relevance, selected, cell) {
            None => !cells.contains(cell),
            Some(bin) => {
                &&& cells.contains(cell)
                &&& bin.cell == cell
                &&& bin.count == cells.filter(|c: usize| c == cell).len()
                &&& bin.label_index < cells.len()
                &&& cells[bin.label_index as int] == cell
                &&& bin.selected <==> (selected is Some && selected->0 < cells.len()
                    && cells[selected->0 as int] == cell)
                &&& !single::nan(bin.relevance)
                &&& bin.relevance == 0 || bin.relevance == relevance[bin.label_index as int]
                &&& forall|i: int|
                    0 <= i < cells.len() && #[trigger] cells[i] == cell ==> !single::less(
                        bin.relevance,
                        relevance[i],
                    )
            },
        },
    decreases cells.len(),
{
    reveal(Seq::filter);
    if cells.len() > 0 {
        let rest = cells.drop_last();
        lemma_bin(rest, relevance.drop_last(), selected, cell);
        lemma_bin_prefix(rest, relevance.drop_last(), relevance, selected, cell);
        let last = (cells.len() - 1) as usize;
        lemma_filter_length(rest, cell);
        if let Some(node) = selected {
            if node < rest.len() {
                assert(rest[node as int] == cells[node as int]);
            }
        }
        if rest.contains(cell) {
            let k = choose|k: int| 0 <= k < rest.len() && rest[k] == cell;
            assert(cells[k] == cell);
        }
        if cells.contains(cell) && cells.last() != cell {
            let k = choose|k: int| 0 <= k < cells.len() && cells[k] == cell;
            assert(rest[k] == cell);
        }
        if cells.last() == cell {
            assert(cells[last as int] == cell);
            match navigator::bin_after(cells, relevance, selected, cell) {
                Some(bin) => {
                    assert forall|i: int|
                        0 <= i < cells.len() && #[trigger] cells[i] == cell implies !single::less(
                        bin.relevance,
                        relevance[i],
                    ) by {
                        if i < rest.len() {
                            assert(rest[i] == cell);
                            assert(relevance.drop_last()[i] == relevance[i]);
                        }
                    }
                },
                None => {},
            }
        } else {
            match navigator::bin_after(cells, relevance, selected, cell) {
                Some(bin) => {
                    assert forall|i: int|
                        0 <= i < cells.len() && #[trigger] cells[i] == cell implies !single::less(
                        bin.relevance,
                        relevance[i],
                    ) by {
                        assert(i < rest.len());
                        assert(rest[i] == cell);
                        assert(relevance.drop_last()[i] == relevance[i]);
                    }
                },
                None => {},
            }
        }
        if !rest.contains(cell) {
            assert(rest.filter(|c: usize| c == cell).len() == 0);
        }
    }
}

proof fn lemma_filter_length(cells: Seq<usize>, cell: usize)
    ensures
        cells.filter(|c: usize| c == cell).len() <= cells.len(),
        !cells.contains(cell) ==> cells.filter(|c: usize| c == cell).len() == 0,
    decreases cells.len(),
{
    reveal(Seq::filter);
    if cells.len() > 0 {
        lemma_filter_length(cells.drop_last(), cell);
        if cells.drop_last().contains(cell) {
            let k = choose|k: int| 0 <= k < cells.drop_last().len() && cells.drop_last()[k] == cell;
            assert(cells[k] == cell);
        }
        if cells.last() == cell {
            assert(cells[cells.len() - 1] == cell);
        }
    }
}

proof fn lemma_bin_prefix(
    cells: Seq<usize>,
    a: Seq<u32>,
    b: Seq<u32>,
    selected: Option<usize>,
    cell: usize,
)
    requires
        cells.len() <= a.len(),
        cells.len() <= b.len(),
        cells.len() <= usize::MAX,
        forall|i: int| 0 <= i < cells.len() ==> a[i] == b[i],
    ensures
        navigator::bin_after(cells, a, selected, cell) == navigator::bin_after(
            cells,
            b,
            selected,
            cell,
        ),
    decreases cells.len(),
{
    if cells.len() > 0 {
        lemma_bin_prefix(cells.drop_last(), a, b, selected, cell);
    }
}

/// Each mark of the miniature counts the nodes of its cell, stands out where
/// the selected node is among them, and has the greatest relevance and the
/// label of one of them.
pub proof fn law_marks_sum_up_their_cell(
    cells: Seq<usize>,
    relevance: Seq<u32>,
    selected: Option<usize>,
    bound: nat,
    k: int,
)
    requires
        cells.len() == relevance.len(),
        cells.len() <= usize::MAX,
        bound <= usize::MAX,
        0 <= k < navigator::bins_below(cells, relevance, selected, bound).len(),
    ensures
        ({
            let bin: NavigatorBin = navigator::bins_below(cells, relevance, selected, bound)[k];
            &&& bin.cell < bound
            &&& bin.count == cells.filter(|c: usize| c == bin.cell).len()
            &&& bin.label_index < cells.len()
            &&& cells[bin.label_index as int] == bin.cell
            &&& bin.selected <==> (selected is Some && selected->0 < cells.len()
                && cells[selected->0 as int] == bin.cell)
            &&& bin.relevance == 0 || bin.relevance == relevance[bin.label_index as int]
            &&& forall|i: int|
                0 <= i < cells.len() && #[trigger] cells[i] == bin.cell ==> !single::less(
                    bin.relevance,
                    relevance[i],
                )
        }),
    decreases bound,
{
    if bound > 0 {
        let rest = navigator::bins_below(cells, relevance, selected, (bound - 1) as nat);
        lemma_bin(cells, relevance, selected, (bound - 1) as usize);
        if k < rest.len() {
            law_marks_sum_up_their_cell(cells, relevance, selected, (bound - 1) as nat, k);
        }
    }
}

} // verus!
