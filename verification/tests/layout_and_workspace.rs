use vecgra_studio::layout::{
    component_passes, focus_parents, group_by_label, order_layer, order_rings, plan_arrangement,
    plan_forces, sampled_epochs, spatial_iterations, ArrangementPlan, ForcePlan, LayoutOptions,
};
use vecgra_studio::layout_components::{find_components, plan_structure, unique_edges, StructurePlan};
use vecgra_studio::layout_forest::directed_forest_topology;
use vecgra_studio::layout_random::{
    component_seed, layer_seed, negative_sample, oriented_edges, sampled_seed, shuffle,
    stable_numerator, turn, LayoutRng,
};
use vecgra_studio::layout_union::LayoutUnionFind;
use vecgra_studio::lens::Lens;
use vecgra_studio::lens_transition::LensTransition;
use vecgra_studio::navigator::{gather_bins, GraphNavigatorCache, NavigatorCacheKey};
use vecgra_studio::scene::{
    Camera, LayoutKind, Rect, SceneEdges, SceneSelection, SceneSnapshot, Vec2,
};
use vecgra_studio::workspace::{find_neighbors, GraphWorkspace};

fn bits(value: f32) -> u32 {
    value.to_bits()
}

fn point(x: f32, y: f32) -> Vec2 {
    Vec2 { x: bits(x), y: bits(y) }
}

fn edges(sources: Vec<u32>, targets: Vec<u32>) -> SceneEdges {
    let count = sources.len();
    SceneEdges {
        ids: (0..count as u64).collect(),
        sources,
        targets,
        labels: vec!["E".to_string(); count],
        vector_counts: vec![0; count],
        properties: (0..count).map(|_| vec![]).collect(),
    }
}

#[test]
fn generators_repeat_on_every_machine() {
    let mut rng = LayoutRng::new(0);
    assert_eq!(rng.next_u64(), 0xe220a8397b1dcdaf);
    assert_eq!(rng.next_u64(), 0x6e789e6aa1b965f4);
    let mut again = LayoutRng::new(0);
    let picked = again.index(10);
    assert_eq!(picked, ((0xe220a8397b1dcdafu128 * 10) >> 64) as usize);
    assert!(picked < 10);
    assert_eq!(turn(1, 29), 1u64.rotate_left(29));
    assert_eq!(turn(u64::MAX << 40, 17), (u64::MAX << 40).rotate_left(17));
    assert_eq!(sampled_seed(5, 8), 0x5647_534e_4150_5446 ^ 5 ^ 8u64.rotate_left(29));
    assert_eq!(component_seed(3, 9), 0x4f4d_4547_4152_4453 ^ 3 ^ 9u64.rotate_left(17));
    assert_eq!(layer_seed(7, 1, 4), 7 ^ 1u64.rotate_left(17) ^ 4u64.rotate_left(31));
    assert_eq!(stable_numerator(0), 0);
    assert_ne!(stable_numerator(1), stable_numerator(2));
}

#[test]
fn both_directions_are_relaxed_in_a_shuffled_order() {
    let listed = oriented_edges(4, &vec![0, 1, 2, 3], &vec![1, 1, 9, 2]);
    assert_eq!(listed, vec![(0, 1), (1, 0), (3, 2), (2, 3)]);
    let mut first = listed.clone();
    let mut second = listed.clone();
    shuffle(&mut first, &mut LayoutRng::new(sampled_seed(4, 4)));
    shuffle(&mut second, &mut LayoutRng::new(sampled_seed(4, 4)));
    assert_eq!(first, second);
    first.sort();
    let mut sorted = listed.clone();
    sorted.sort();
    assert_eq!(first, sorted);
    let mut nothing: Vec<(usize, usize)> = vec![];
    shuffle(&mut nothing, &mut LayoutRng::new(1));
    assert!(nothing.is_empty());
    let mut rng = LayoutRng::new(11);
    for _ in 0..200 {
        let other = negative_sample(&mut rng, 5, 2);
        assert!(other < 5 && other != 2);
    }
}

#[test]
fn sets_merge_and_keep_their_root() {
    let mut union = LayoutUnionFind::new(6);
    union.join(0, 1);
    union.join(2, 3);
    assert_eq!(union.root(1), 0);
    assert_eq!(union.rank[0], 1);
    union.join(4, 0);
    assert_eq!(union.root(4), 0);
    union.join(1, 3);
    assert_eq!(union.root(3), union.root(4));
    assert_ne!(union.root(5), union.root(0));
    assert_eq!(union.rank[0], 2);
}

#[test]
fn components_come_largest_first() {
    let pairs = unique_edges(7, &vec![5, 1, 6, 1, 2, 3], &vec![6, 0, 5, 1, 9, 4]);
    assert_eq!(pairs, vec![(5, 6), (0, 1), (3, 4)]);
    assert_eq!(
        find_components(7, &pairs),
        vec![vec![0, 1], vec![3, 4], vec![5, 6], vec![2]]
    );
    match plan_structure(5, &vec![1, 2, 4], &vec![2, 3, 0]) {
        StructurePlan::Components { components, edges } => {
            assert_eq!(components, vec![vec![1, 2, 3], vec![0, 4]]);
            assert_eq!(edges, vec![vec![(0, 1), (1, 2)], vec![(0, 1)]]);
        }
        _ => panic!("there are two components"),
    }
    assert!(matches!(plan_structure(2, &vec![0], &vec![1]), StructurePlan::Spatial));
    assert!(matches!(plan_structure(9, &vec![], &vec![]), StructurePlan::Spatial));
    assert!(matches!(plan_structure(9, &vec![1], &vec![1]), StructurePlan::Orbits));
}

#[test]
fn radial_forest_layout_preserves_depth_in_linear_pass() {
    let topology =
        directed_forest_topology(4, &edges(vec![0, 0, 1], vec![1, 2, 3])).unwrap();
    assert_eq!(topology.roots, vec![0]);
    assert_eq!(topology.children, vec![vec![1, 2], vec![3], vec![], vec![]]);
    assert_eq!(topology.weights, vec![2, 1, 1, 1]);
    assert_eq!(topology.subtree_sizes, vec![4, 2, 1, 1]);
    assert_eq!(topology.total_weight(), 2);
    assert_eq!(topology.depths, vec![0, 1, 1, 2]);
    let radius = |node: usize| topology.ring(node) as f32 * 40.0;
    assert_eq!(radius(0), 0.0);
    assert!((radius(1) - 80.0_f32).abs() < 0.01);
    assert!((radius(2) - 80.0_f32).abs() < 0.01);
    assert!((radius(3) - 120.0_f32).abs() < 0.01);
    assert_ne!(topology.children[0][0], topology.children[0][1]);
}

#[test]
fn clustered_forest_layout_separates_top_level_subtrees() {
    let ids: Vec<u64> = (0..13).collect();
    let topology = directed_forest_topology(
        13,
        &edges(
            vec![0, 0, 0, 1, 1, 1, 5, 5, 5, 9, 9, 9],
            vec![1, 5, 9, 2, 3, 4, 6, 7, 8, 10, 11, 12],
        ),
    )
    .unwrap();
    let plan = topology.plan_clusters(&ids).unwrap();
    assert_eq!(plan.central, Some(0));
    let branches: Vec<u32> = plan.branches.iter().map(|b| b.node).collect();
    assert_eq!(branches, vec![1, 5, 9]);
    let slots: Vec<usize> = plan.branches.iter().map(|b| b.slot).collect();
    assert_eq!(slots, vec![0, 2, 1]);
    assert_eq!(plan.branches[1].nodes, vec![5, 6, 7, 8]);
    let mut placed: Vec<u32> = plan.branches.iter().flat_map(|b| b.nodes.clone()).collect();
    placed.push(0);
    placed.sort();
    assert_eq!(placed, (0..13).collect::<Vec<u32>>());
}

#[test]
fn only_forests_have_a_topology() {
    assert!(directed_forest_topology(0, &edges(vec![], vec![])).is_none());
    assert!(directed_forest_topology(2, &edges(vec![0, 1], vec![1, 0])).is_none());
    assert!(directed_forest_topology(3, &edges(vec![0, 1], vec![2, 2])).is_none());
    assert!(directed_forest_topology(3, &edges(vec![0], vec![0])).is_none());
    assert!(directed_forest_topology(3, &edges(vec![0], vec![3])).is_none());
    // A cycle beside a root is no forest.
    assert!(directed_forest_topology(4, &edges(vec![1, 2, 3], vec![2, 3, 1])).is_none());
    let lone = directed_forest_topology(3, &edges(vec![], vec![])).unwrap();
    assert_eq!(lone.roots, vec![0, 1, 2]);
    assert!(lone.plan_clusters(&vec![1, 2, 3]).unwrap().central.is_none());
    let single = directed_forest_topology(1, &edges(vec![], vec![])).unwrap();
    assert!(single.plan_clusters(&vec![1]).is_none());
}

#[test]
fn rings_and_label_groups_have_a_fixed_order() {
    let names: Vec<String> = ["B", "A", "B", "A"].iter().map(|n| n.to_string()).collect();
    assert_eq!(order_rings(&vec![10, 11, 12, 13], &names, &vec![1, 1, 3, 1]), vec![2, 1, 3, 0]);
    let (groups, count) = group_by_label(&names);
    assert_eq!(groups, vec![(0, 0), (1, 0), (0, 1), (1, 1)]);
    assert_eq!(count, 2);
}

#[test]
fn forces_are_bounded_by_size() {
    let options = LayoutOptions::default();
    assert_eq!(f32::from_bits(options.edge_length), 42.0);
    assert_eq!(f32::from_bits(options.attraction), 0.018);
    assert_eq!(f32::from_bits(options.repulsion), 1_600.0);
    assert_eq!(f32::from_bits(options.gravity), 0.0025);
    assert_eq!(spatial_iterations(72, 2_000), 72);
    assert_eq!(spatial_iterations(72, 2_001), 32);
    assert_eq!(spatial_iterations(72, 12_001), 12);
    assert_eq!(spatial_iterations(5, 12_001), 5);
    assert_eq!(sampled_epochs(0), 1);
    assert_eq!(sampled_epochs(72), 50);
    assert_eq!(component_passes(72), 15);
    assert_eq!(component_passes(0), 8);
    assert_eq!(component_passes(40), 10);
    assert_eq!(plan_forces(255, 10, 72), ForcePlan::Near(72));
    assert_eq!(plan_forces(256, 10, 32), ForcePlan::Sampled(32));
    assert_eq!(plan_forces(256, 0, 32), ForcePlan::Near(32));
}

#[test]
fn arrangements_follow_kind_and_shape() {
    let demo = SceneSnapshot::demo();
    match plan_arrangement(&demo, LayoutKind::Auto, None, None) {
        ArrangementPlan::Forces { by_label, pinned, recenter } => {
            assert!(by_label && !pinned && recenter);
        }
        _ => panic!("the demo scene is no forest"),
    }
    let pins = vec![true; 96];
    match plan_arrangement(&demo, LayoutKind::Force, Some(96), Some(&pins)) {
        ArrangementPlan::Forces { by_label, pinned, recenter } => {
            assert!(!by_label && pinned && !recenter);
        }
        _ => panic!("forces were asked for"),
    }
    match plan_arrangement(&demo, LayoutKind::Orbit, None, None) {
        ArrangementPlan::Rings(order) => assert_eq!(order.len(), 96),
        _ => panic!("rings were asked for"),
    }
    assert!(matches!(
        plan_arrangement(&demo, LayoutKind::Structure, Some(3), None),
        ArrangementPlan::Structure { by_label: true }
    ));
}

#[test]
fn layers_stand_near_their_parents() {
    let parents = focus_parents(5, &vec![(3, 1), (4, 0), (2, 9), (3, 0)]);
    assert_eq!(parents, vec![None, None, None, Some(0), Some(0)]);
    let angles = vec![bits(2.0), bits(1.0), bits(f32::NAN), bits(0.0), bits(0.0)];
    let ordered = order_layer(
        &vec![2, 3, 4],
        &vec![None, None, Some(1), Some(0), Some(1)],
        &angles,
    );
    assert_eq!(ordered, vec![2, 4, 3]);
}

#[test]
fn neighbors_are_listed_once() {
    assert_eq!(
        find_neighbors(4, &vec![0, 0, 1, 2, 2], &vec![1, 1, 0, 0, 2]),
        vec![vec![1, 2], vec![0], vec![0], vec![]]
    );
}

#[test]
fn workspace_drag_is_direct_pinned_and_degree_bounded() {
    let snapshot = SceneSnapshot::demo();
    let mut workspace = GraphWorkspace::new(&snapshot);
    let untouched = workspace.position(50).unwrap();
    let destination = point(420.0, -180.0);

    assert!(!workspace.begin_drag(0));
    let followers = workspace.drag_followers(0);
    assert!(followers.contains(&1) && !followers.contains(&50));
    let pulled: Vec<Vec2> = followers.iter().map(|_| point(1.0, 1.0)).collect();
    let before = workspace.position_revision();
    workspace.drag_to(0, destination, &pulled);

    assert_eq!(workspace.position(0), Some(destination));
    assert!(workspace.is_pinned(0));
    assert_eq!(workspace.position(50), Some(untouched));
    assert!(workspace.is_moving());
    assert_ne!(workspace.position_revision(), before);
    assert_eq!(workspace.targets[followers[0] as usize], point(1.0, 1.0));
    assert_eq!(workspace.overview_positions()[followers[0] as usize], point(1.0, 1.0));
    workspace.drag_to(0, point(f32::NAN, 0.0), &pulled);
    assert_eq!(workspace.position(0), Some(destination));
    assert_eq!(workspace.pinned_count(), 1);
    assert_eq!(workspace.position(96), None);
}

#[test]
fn focus_neighborhood_retargets_and_restores_the_base_layout() {
    let snapshot = SceneSnapshot::demo();
    let selection = SceneSelection::Node(7);
    let focus = snapshot.focus_neighborhood(selection, 18).unwrap();
    assert_eq!(focus.roots, vec![7]);
    assert!(focus.edges.len() <= 18);
    assert!(focus.nodes.contains(&7));

    let mut workspace = GraphWorkspace::new(&snapshot);
    let original = workspace.positions().clone();
    let placed: Vec<(usize, Vec2)> =
        focus.nodes.iter().map(|&node| (node, point(node as f32, 46.0))).collect();
    let far = vec![true; original.len()];
    let points = workspace.retarget_focus(&focus, &placed, &far).unwrap();
    assert_eq!(points.len(), focus.nodes.len());
    assert!(points.iter().all(|p| p.is_finite()));
    assert!(!workspace.begin_step(true));
    assert_ne!(workspace.positions(), &original);

    workspace.restore_layout(&far);
    assert!(!workspace.begin_step(true));
    assert_eq!(workspace.positions(), &original);

    let mut broken = focus.clone();
    broken.nodes.push(96);
    assert!(!workspace.accepts_focus(&broken));
    assert!(workspace.retarget_focus(&broken, &placed, &far).is_none());
    broken.nodes.clear();
    assert!(!workspace.accepts_focus(&broken));
}

#[test]
fn workspace_motion_converges_and_reduced_motion_snaps() {
    let snapshot = SceneSnapshot::demo();
    let mut workspace = GraphWorkspace::new(&snapshot);
    let mut targets = snapshot.nodes.positions.clone();
    targets[5] = point(100.0, -80.0);
    let mut far = vec![false; targets.len()];
    far[5] = true;
    assert!(workspace.retarget_layout(&targets, targets.clone(), &far));

    let mut steps = 0;
    while workspace.begin_step(false) && steps < 600 {
        // Each step covers half of what is left.
        let positions: Vec<Vec2> = workspace
            .positions
            .iter()
            .zip(&workspace.targets)
            .map(|(from, to)| {
                let x = (f32::from_bits(from.x) + f32::from_bits(to.x)) * 0.5;
                let y = (f32::from_bits(from.y) + f32::from_bits(to.y)) * 0.5;
                point(x, y)
            })
            .collect();
        let close: Vec<bool> = positions
            .iter()
            .zip(&workspace.targets)
            .map(|(at, to)| (f32::from_bits(at.x) - f32::from_bits(to.x)).abs() < 0.01)
            .collect();
        let velocities = vec![point(1.0, 1.0); positions.len()];
        workspace.finish_step(&positions, &velocities, &close);
        steps += 1;
    }
    assert!(!workspace.is_moving());
    assert!(workspace.positions().iter().all(|p| p.is_finite()));
    assert_eq!(workspace.position(5), Some(point(100.0, -80.0)));

    let mut targets = snapshot.nodes.positions.clone();
    targets[7] = point(-140.0, 95.0);
    let mut far = vec![false; targets.len()];
    far[7] = true;
    assert!(workspace.retarget_layout(&targets, targets.clone(), &far));
    assert!(!workspace.begin_step(true));
    assert!(!workspace.is_moving());
    assert_eq!(workspace.position(7), Some(point(-140.0, 95.0)));
}

#[test]
fn workspace_retarget_preserves_velocity_and_survives_long_frames() {
    let snapshot = SceneSnapshot::demo();
    let mut workspace = GraphWorkspace::new(&snapshot);
    let count = snapshot.nodes.ids.len();
    let mut first_targets = snapshot.nodes.positions.clone();
    first_targets[9] = point(160.0, 20.0);
    let far = vec![true; count];
    let open = vec![false; count];
    assert!(workspace.retarget_layout(&first_targets, first_targets.clone(), &far));
    assert!(workspace.begin_step(false));
    let moving = vec![point(3.0, 2.0); count];
    assert!(workspace.finish_step(&first_targets, &moving, &open));
    let velocity = workspace.velocities[9];
    assert_eq!(velocity, point(3.0, 2.0));

    let mut second_targets = snapshot.nodes.positions.clone();
    second_targets[9] = point(-180.0, -30.0);
    assert!(workspace.retarget_layout(&second_targets, second_targets.clone(), &far));
    assert_eq!(workspace.velocities[9], velocity);
    let wild = vec![point(f32::INFINITY, 0.0); count];
    assert!(!workspace.finish_step(&wild, &moving, &open));
    assert!(workspace.positions().iter().all(|p| p.is_finite()));
    assert!(workspace.velocities.iter().all(|v| v.is_finite()));
    assert!(!workspace.retarget_layout(&wild, wild.clone(), &far));
    assert!(!workspace.retarget_layout(&vec![], vec![], &vec![]));
}

#[test]
fn pins_are_taken_back_and_hold_still() {
    let snapshot = SceneSnapshot::demo();
    let mut workspace = GraphWorkspace::new(&snapshot);
    let before = workspace.positions().clone();
    let was = workspace.begin_drag(3);
    workspace.restore_pin(3, was);
    assert!(!workspace.is_pinned(3));
    assert_eq!(workspace.positions(), &before);
    assert!(!workspace.is_moving());
    workspace.set_pinned(3, true);
    let targets = vec![point(9.0, 9.0); before.len()];
    let far = vec![true; before.len()];
    assert!(workspace.retarget_layout(&targets, targets.clone(), &far));
    assert!(!workspace.begin_step(true));
    assert_eq!(workspace.position(3), Some(before[3]));
    assert_eq!(workspace.position(4), Some(point(9.0, 9.0)));
    workspace.set_pinned(3, false);
    assert!(workspace.is_moving());
    assert_eq!(workspace.pins()[3], false);
    workspace.restore_pin(500, true);
    assert_eq!(workspace.pinned_count(), 0);
}

#[test]
fn camera_motion_reuses_identical_navigator_geometry() {
    let snapshot = SceneSnapshot::demo();
    let mut workspace = GraphWorkspace::new(&snapshot);
    let frame = Rect { min: point(1_200.0, 12.0), max: point(1_348.0, 116.0) };
    let mut cache = GraphNavigatorCache::new();
    let key = |workspace: &GraphWorkspace, _camera: Camera| NavigatorCacheKey {
        scene: 1,
        position_revision: workspace.position_revision(),
        selected: Some(3),
        frame,
        world_bounds: snapshot.bounds,
    };
    let fitted = Camera::default();
    let moved = Camera { center: snapshot.bounds.max, zoom: bits(24.0) };
    assert!(!cache.holds(&key(&workspace, fitted), false));
    let cells: Vec<usize> = (0..96).map(|node| node % 7).collect();
    let bins = gather_bins(8, &cells, &vec![0; 96], Some(3));
    assert_eq!(bins.len(), 7);
    assert_eq!(bins[0].count, 14);
    assert!(bins[3].selected && !bins[2].selected);
    cache.keep(key(&workspace, fitted), &bins, false);
    assert!(cache.holds(&key(&workspace, moved), false));
    assert!(!cache.holds(&key(&workspace, moved), true));

    let pulled: Vec<Vec2> = workspace.drag_followers(3).iter().map(|_| point(0.0, 0.0)).collect();
    workspace.drag_to(3, point(900.0, -120.0), &pulled);
    assert!(!cache.holds(&key(&workspace, fitted), false));
    cache.clear();
    assert!(cache.bins.is_empty());
}

#[test]
fn cells_take_the_color_of_their_most_relevant_node() {
    let bins = gather_bins(3, &vec![2, 2, 2], &vec![bits(0.1), bits(0.9), bits(0.9)], None);
    assert_eq!(bins.len(), 1);
    assert_eq!(bins[0].cell, 2);
    assert_eq!(bins[0].label_index, 1);
    assert_eq!(bins[0].relevance, bits(0.9));
}

#[test]
fn lens_transition_retargets_from_its_current_presentation_and_reduces_motion() {
    let mut lens = LensTransition::new(2, 1);
    let blank = Lens { nodes: vec![0, 0], edges: vec![0], dim: 0 };
    let first = Lens { nodes: vec![bits(1.0), bits(0.4)], edges: vec![bits(0.8)], dim: bits(0.9) };
    lens.retarget(&blank, &first);
    assert!(lens.begin_step(false));
    let mix = 0.25f32;
    assert!(lens.finish_step(bits(mix), bits(2.0), false));
    let shown = Lens { nodes: vec![bits(mix), bits(0.1)], edges: vec![bits(0.2)], dim: bits(0.225) };
    let second = Lens { nodes: vec![0, bits(1.0)], edges: vec![bits(0.2)], dim: bits(0.7) };
    lens.retarget(&shown, &second);
    assert_eq!(lens.from_nodes[0], bits(mix));
    assert_eq!(lens.velocity, bits(2.0));
    assert!(!lens.begin_step(true));
    assert_eq!(lens.progress, bits(1.0));
    assert_eq!(lens.target_dim, bits(0.7));
    assert!(!lens.is_cleared());
    lens.retarget(&second, &blank);
    assert!(lens.is_moving());
    assert!(!lens.finish_step(bits(f32::NAN), 0, false));
    assert!(lens.is_cleared());
}
