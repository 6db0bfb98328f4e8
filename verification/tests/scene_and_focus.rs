use vecgra_studio::camera::{hold_zoom, pick_nearest, CameraMotion, MAX_CAMERA_ZOOM, MIN_CAMERA_ZOOM};
use vecgra_studio::evidence::{
    evidence_path_database, evidence_path_request, EvidenceNode, EvidencePathStrategy,
    EvidencePathTermination, PathSearch, ShortestPath,
};
use vecgra_studio::graph::{
    Direction, EdgeRecord, ElementRef, FloatValue, GraphData, GraphStats, NodeRecord, Property,
    Value,
};
use vecgra_studio::path_anchors::{path_anchors, path_seed, PathAnchor};
use vecgra_studio::scene::{
    detail_level, search_ids, Camera, DetailLevel, LayoutKind, Rect, SceneEdges, SceneNodes,
    SceneSelection, SceneSnapshot, SnapshotOptions, Vec2,
};
use vecgra_studio::search::{
    contains_text, fuse_signals, match_text, plan_search, retain_candidate, search_database,
    PhraseMatch, RankedElement, SearchMode, SemanticOutcome,
};
use vecgra_studio::single::{is_equal, is_finite, is_less, place_of};

fn bits(value: f32) -> u32 {
    value.to_bits()
}

fn point(x: f32, y: f32) -> Vec2 {
    Vec2 { x: bits(x), y: bits(y) }
}

fn float(value: f64) -> Value {
    Value::Float(FloatValue {
        bits: value.to_bits(),
        shortest: format!("{value}"),
        fixed: format!("{value:.5}"),
    })
}

fn text(value: &str) -> Value {
    Value::String(value.to_string())
}

fn stats(nodes: usize, edges: usize) -> GraphStats {
    GraphStats { nodes, edges, labels: 0, indexed_vectors: 0, transactions: 1 }
}

fn symbols(names: &[&str]) -> Vec<String> {
    names.iter().map(|name| name.to_string()).collect()
}

#[test]
fn snapshot_reads_real_database_and_preserves_symbols() {
    let database = GraphData {
        symbols: symbols(&["Document", "title", "Claim", "confidence", "SUPPORTS"]),
        nodes: vec![
            NodeRecord {
                id: 0,
                label: 0,
                vector_count: 1,
                properties: vec![Property { key: 1, value: text("The first") }],
            },
            NodeRecord {
                id: 1,
                label: 2,
                vector_count: 1,
                properties: vec![Property { key: 3, value: float(0.92) }],
            },
        ],
        edges: vec![EdgeRecord {
            id: 0,
            source: 0,
            target: 1,
            label: 4,
            vector_count: 1,
            properties: vec![],
        }],
        stats: stats(2, 1),
        file_name: Some("graph.vg".into()),
    };
    let snapshot = SceneSnapshot::from_database(&database, SnapshotOptions::default());
    assert_eq!(snapshot.nodes.ids, vec![0, 1]);
    assert_eq!(snapshot.nodes.labels[0], "Document");
    assert_eq!(snapshot.edges.labels[0], "SUPPORTS");
    assert_eq!(snapshot.nodes.vector_counts, vec![1, 1]);
    assert_eq!(snapshot.edges.sources, vec![0]);
    assert_eq!(snapshot.edges.targets, vec![1]);
    assert_eq!(snapshot.relationship_counts(), vec![("SUPPORTS".to_string(), 1)]);
    assert_eq!(snapshot.label_counts(), vec![("Claim".to_string(), 1), ("Document".to_string(), 1)]);
    assert_eq!(snapshot.nodes.degrees, vec![1, 1]);
    assert_eq!(snapshot.nodes.properties[0][0].key, "title");
    assert!(!snapshot.sampled);
}

fn evidence_data() -> GraphData {
    GraphData {
        symbols: symbols(&["Document", "title", "Claim", "name", "Source", "SUPPORTS"]),
        nodes: vec![
            NodeRecord {
                id: 0,
                label: 0,
                vector_count: 0,
                properties: vec![Property { key: 1, value: text("Alpha brief") }],
            },
            NodeRecord {
                id: 1,
                label: 2,
                vector_count: 0,
                properties: vec![Property { key: 3, value: text("Beta claim") }],
            },
            NodeRecord {
                id: 2,
                label: 4,
                vector_count: 0,
                properties: vec![Property { key: 1, value: text("Gamma source") }],
            },
        ],
        edges: vec![
            EdgeRecord {
                id: 0,
                source: 0,
                target: 1,
                label: 5,
                vector_count: 0,
                properties: vec![Property { key: 1, value: text("Primary support") }],
            },
            EdgeRecord { id: 1, source: 1, target: 2, label: 5, vector_count: 0, properties: vec![] },
        ],
        stats: stats(3, 2),
        file_name: Some("graph.vg".into()),
    }
}

fn found(nodes: Vec<u64>, edges: Vec<u64>) -> PathSearch {
    PathSearch {
        path: Some(ShortestPath { nodes, edges }),
        strategy: EvidencePathStrategy::BidirectionalBreadthFirst,
        termination: EvidencePathTermination::Found,
        visited_nodes: 3,
        start_expanded_nodes: 1,
        end_expanded_nodes: 1,
        expanded_nodes: 2,
        examined_relationships: 4,
    }
}

#[test]
fn evidence_paths_preserve_direction_hydration_and_incomplete_outcomes() {
    let database = evidence_data();
    let (alpha, beta, gamma, first, second) = (0u64, 1u64, 2u64, 0u64, 1u64);

    let request = evidence_path_request(
        &database,
        alpha,
        gamma,
        Direction::Outgoing,
        Some(" SUPPORTS "),
        4,
        32,
    )
    .unwrap();
    assert_eq!(request.label, Some(5));
    assert_eq!((request.max_hops, request.max_expansions), (4, 32));
    let outgoing = evidence_path_database(
        &database,
        alpha,
        gamma,
        Direction::Outgoing,
        Some("SUPPORTS"),
        4,
        32,
        Ok(found(vec![alpha, beta, gamma], vec![first, second])),
        "0.2".into(),
    )
    .unwrap();
    assert_eq!(outgoing.termination, EvidencePathTermination::Found);
    assert_eq!(outgoing.strategy, EvidencePathStrategy::BidirectionalBreadthFirst);
    assert_eq!(
        outgoing.start_expanded_nodes + outgoing.end_expanded_nodes,
        outgoing.expanded_nodes
    );
    assert_eq!(outgoing.start.title, "Alpha brief");
    let path = outgoing.path.as_ref().unwrap();
    assert_eq!(path.nodes.iter().map(|node| node.id).collect::<Vec<_>>(), vec![alpha, beta, gamma]);
    assert_eq!(
        path.steps.iter().map(|step| step.edge_id).collect::<Vec<_>>(),
        vec![first, second]
    );
    assert_eq!(path.steps[0].title, "Primary support");
    assert!(path.steps.iter().all(|step| step.forward));
    assert_eq!(path.nodes[0].vector_count, 0);
    assert_eq!(path.steps[0].properties.len(), 1);

    let sampled =
        SceneSnapshot::from_database(&database, SnapshotOptions { max_nodes: 2, max_edges: 1 });
    assert!(sampled.node_index(gamma).is_none());
    assert!(sampled.edge_index(second).is_none());
    let overview = vec![point(1.0, 2.0), point(3.0, 4.0)];
    let along = vec![point(1.0, 2.0), point(3.0, 4.0), point(5.0, 6.0)];
    let enriched = sampled
        .including_evidence_path(&outgoing, &overview, &along, Rect::default())
        .unwrap()
        .unwrap();
    assert_eq!(enriched.nodes.ids, vec![alpha, beta, gamma]);
    assert_eq!(enriched.edges.ids, vec![first, second]);
    assert_eq!(enriched.nodes.positions[..overview.len()], overview[..]);
    assert_eq!(enriched.nodes.positions[2], point(5.0, 6.0));
    let gamma_index = enriched.node_index(gamma).unwrap();
    assert_eq!(enriched.nodes.labels[gamma_index], "Source");
    assert!(matches!(
        &enriched.nodes.properties[gamma_index][0].value,
        Value::String(value) if value == "Gamma source"
    ));
    let second_index = enriched.edge_index(second).unwrap();
    assert_eq!(enriched.nodes.ids[enriched.edges.sources[second_index] as usize], beta);
    assert_eq!(enriched.nodes.ids[enriched.edges.targets[second_index] as usize], gamma);
    assert!(!enriched.sampled);
    let again = enriched.nodes.positions.clone();
    assert!(enriched
        .including_evidence_path(&outgoing, &again, &along, Rect::default())
        .unwrap()
        .is_none());
    assert_eq!(
        sampled
            .including_evidence_path(&outgoing, &vec![], &along, Rect::default())
            .unwrap_err(),
        "evidence scene positions do not match the current snapshot"
    );

    let incoming = evidence_path_database(
        &database,
        gamma,
        alpha,
        Direction::Incoming,
        None,
        4,
        32,
        Ok(found(vec![gamma, beta, alpha], vec![second, first])),
        "0.2".into(),
    )
    .unwrap();
    assert_eq!(incoming.termination, EvidencePathTermination::Found);
    assert!(incoming.path.unwrap().steps.iter().all(|step| !step.forward));

    let limited = evidence_path_database(
        &database,
        alpha,
        gamma,
        Direction::Outgoing,
        None,
        4,
        0,
        Ok(PathSearch {
            path: None,
            strategy: EvidencePathStrategy::BidirectionalBreadthFirst,
            termination: EvidencePathTermination::ExpansionLimit,
            visited_nodes: 0,
            start_expanded_nodes: 0,
            end_expanded_nodes: 0,
            expanded_nodes: 0,
            examined_relationships: 0,
        }),
        "0.0".into(),
    )
    .unwrap();
    assert_eq!(limited.termination, EvidencePathTermination::ExpansionLimit);
    assert!(limited.path.is_none());
    assert_eq!(limited.start_expanded_nodes, 0);
    assert_eq!(limited.end_expanded_nodes, 0);
    assert_eq!(limited.expanded_nodes, 0);

    let error = evidence_path_request(
        &database,
        alpha,
        gamma,
        Direction::Outgoing,
        Some("MISSING"),
        4,
        32,
    )
    .unwrap_err();
    assert!(error.contains("relationship label “MISSING” does not exist"));
    assert_eq!(
        evidence_path_request(&database, 9, gamma, Direction::Outgoing, None, 4, 32).unwrap_err(),
        "start node 9 does not exist"
    );
    assert_eq!(
        evidence_path_request(&database, alpha, 9, Direction::Outgoing, None, 4, 32).unwrap_err(),
        "end node 9 does not exist"
    );
    let failed = evidence_path_database(
        &database,
        alpha,
        gamma,
        Direction::Outgoing,
        None,
        4,
        32,
        Err("broken".into()),
        "0.0".into(),
    );
    assert_eq!(failed.unwrap_err(), "path search failed: broken");
}

#[test]
fn hybrid_search_ranks_native_node_and_edge_vectors() {
    let database = GraphData {
        symbols: symbols(&["Document", "title", "CONTRASTS_WITH", "body"]),
        nodes: vec![
            NodeRecord {
                id: 0,
                label: 0,
                vector_count: 1,
                properties: vec![Property { key: 1, value: text("Rust memory safety") }],
            },
            NodeRecord {
                id: 1,
                label: 0,
                vector_count: 1,
                properties: vec![Property { key: 1, value: text("Banana bread recipe") }],
            },
        ],
        edges: vec![EdgeRecord {
            id: 0,
            source: 0,
            target: 1,
            label: 2,
            vector_count: 1,
            properties: vec![Property {
                key: 3,
                value: text("ownership prevents use after free"),
            }],
        }],
        stats: stats(2, 1),
        file_name: None,
    };
    let rust = ElementRef::Node(0);
    let relationship = ElementRef::Edge(0);
    let plan = plan_search("ownership memory safety", SearchMode::Hybrid, 8).unwrap();
    assert_eq!(plan.terms, vec!["ownership", "memory", "safety"]);
    assert_eq!(plan.candidate_limit, 48);
    assert!(plan.wants_text && plan.wants_vectors);

    // Only the words of the query count for the text signal.
    let title = database.lexical_matches(
        "Document",
        &database.nodes[0].properties,
        &plan.phrase,
        &plan.terms,
    );
    assert!(title.iter().any(|m| m.1.matched == 2));
    let body = database.lexical_matches(
        "CONTRASTS_WITH",
        &database.edges[0].properties,
        &plan.phrase,
        &plan.terms,
    );
    assert!(body.iter().any(|m| m.1.matched == 1));

    let mut lexical: Vec<RankedElement> = Vec::new();
    for candidate in [
        RankedElement { element: rust, score: bits(1.0), vector_index: 0 },
        RankedElement { element: ElementRef::Node(1), score: bits(0.0), vector_index: 0 },
        RankedElement { element: relationship, score: bits(0.28), vector_index: 0 },
    ] {
        retain_candidate(&mut lexical, candidate, plan.candidate_limit);
    }
    assert_eq!(lexical.len(), 2);
    let semantic = vec![
        RankedElement { element: relationship, score: bits(0.8), vector_index: 0 },
        RankedElement { element: rust, score: bits(0.75), vector_index: 0 },
    ];
    let fused =
        fuse_signals(SearchMode::Hybrid, &lexical, SemanticOutcome::Hits(semantic)).unwrap();
    let mixed: Vec<u32> = fused
        .signals
        .iter()
        .map(|s| {
            let lexical = f32::from_bits(s.lexical.unwrap_or(0));
            let semantic = f32::from_bits(s.semantic.unwrap_or(0));
            bits(0.46_f32.mul_add(lexical, 0.54 * semantic))
        })
        .collect();
    let report = search_database(
        &database,
        plan.query,
        SearchMode::Hybrid,
        "hash",
        8,
        fused,
        &mixed,
        "0.3".into(),
    );
    assert!(!report.hits.is_empty());
    assert!(report.hits.iter().any(|hit| hit.element == rust));
    assert!(report.hits.iter().any(|hit| hit.element == relationship));
    assert!(report.hits[0].semantic_score.is_some());
    assert!(report.hits.iter().any(|hit| hit.lexical_score.is_some()));
    assert_eq!(report.hits[0].element, rust);
    assert_eq!(report.hits[0].title, "Rust memory safety");
    assert_eq!(report.embedding_model.as_deref(), Some("hash"));
}

#[test]
fn failed_embeddings_leave_text_matches_only_in_hybrid_search() {
    let lexical =
        vec![RankedElement { element: ElementRef::Node(3), score: bits(1.0), vector_index: 0 }];
    let fused = fuse_signals(
        SearchMode::Hybrid,
        &lexical,
        SemanticOutcome::EmbeddingFailed("offline".into()),
    )
    .unwrap();
    assert_eq!(fused.signals.len(), 1);
    assert_eq!(
        fused.warning.as_deref(),
        Some("Semantic retrieval unavailable (offline); showing text matches")
    );
    assert_eq!(
        fuse_signals(
            SearchMode::Semantic,
            &vec![],
            SemanticOutcome::EmbeddingFailed("offline".into())
        )
        .unwrap_err(),
        "offline"
    );
    assert_eq!(
        fuse_signals(SearchMode::Hybrid, &lexical, SemanticOutcome::SearchFailed("io".into()))
            .unwrap_err(),
        "semantic search failed: io"
    );
    assert_eq!(plan_search("  ", SearchMode::Text, 4).unwrap_err(), "search query is empty");
}

#[test]
fn text_matches_tell_phrases_from_terms() {
    let terms = vec!["memory".to_string(), "leak".to_string()];
    assert_eq!(match_text("memory leak", "memory leak", &terms).phrase, PhraseMatch::Exact);
    assert_eq!(match_text("a memory leak", "memory leak", &terms).phrase, PhraseMatch::Contained);
    let partial = match_text("leaky memory", "memory leak", &terms);
    assert_eq!(partial.phrase, PhraseMatch::Absent);
    assert_eq!(partial.matched, 2);
    assert!(contains_text("abc", ""));
    assert!(contains_text("abc", "bc"));
    assert!(!contains_text("abc", "cb"));
}

#[test]
fn the_best_candidates_are_kept_in_order() {
    let mut kept: Vec<RankedElement> = Vec::new();
    for (id, score) in [(0u64, 0.2f32), (1, 0.9), (2, 0.5), (3, -1.0), (4, 0.7)] {
        retain_candidate(
            &mut kept,
            RankedElement { element: ElementRef::Node(id), score: bits(score), vector_index: 0 },
            3,
        );
    }
    let ids: Vec<ElementRef> = kept.iter().map(|c| c.element).collect();
    assert_eq!(ids, vec![ElementRef::Node(1), ElementRef::Node(4), ElementRef::Node(2)]);
}

fn layered_scene() -> SceneSnapshot {
    let node_count = 9;
    SceneSnapshot {
        revision: 1,
        database_name: "focus-test".into(),
        source_stats: stats(0, 0),
        nodes: SceneNodes {
            ids: (0..node_count as u64).collect(),
            labels: vec!["Node".into(); node_count],
            positions: vec![Vec2::zero(); node_count],
            degrees: vec![4, 2, 2, 2, 2, 1, 1, 1, 1],
            vector_counts: vec![0; node_count],
            properties: (0..node_count).map(|_| vec![]).collect(),
        },
        edges: SceneEdges {
            ids: (0..8).collect(),
            sources: vec![0, 0, 0, 0, 1, 2, 3, 4],
            targets: vec![1, 2, 3, 4, 5, 6, 7, 8],
            labels: vec![
                "COMMON".into(),
                "COMMON".into(),
                "COMMON".into(),
                "RARE".into(),
                "CHILD".into(),
                "CHILD".into(),
                "CHILD".into(),
                "CHILD".into(),
            ],
            vector_counts: vec![0; 8],
            properties: (0..8).map(|_| vec![]).collect(),
        },
        bounds: Rect::default(),
        sampled: false,
    }
}

#[test]
fn layered_focus_reserves_two_hop_context_and_relationship_diversity() {
    let snapshot = layered_scene();
    let focus = snapshot
        .focus_neighborhood_layers(SceneSelection::Node(0), 2, 7, 10)
        .unwrap();
    assert_eq!(focus.layers.len(), 3);
    assert!(focus.nodes.len() <= 7);
    assert!(focus.edges.len() <= 10);
    assert!(focus.layers[1].contains(&4), "rare edge type must survive");
    assert!(
        focus.layers[1].iter().any(|node| (1..=3).contains(node)),
        "common edge type must survive"
    );
    assert!(!focus.layers[2].is_empty(), "capacity must reach hop two");
    assert!(focus
        .parents
        .iter()
        .all(|(child, parent)| { focus.nodes.contains(child) && focus.nodes.contains(parent) }));
    assert!(snapshot.focus_neighborhood_layers(SceneSelection::Node(9), 2, 7, 10).is_none());
}

#[test]
fn deep_zoom_reaches_individual_elements_in_large_scenes() {
    let mut camera = Camera::default();
    camera.zoom = hold_zoom(bits(1_000_000.0));
    assert_eq!(camera.zoom, MAX_CAMERA_ZOOM);
    assert_eq!(detail_level(camera, 50_000), DetailLevel::Elements);
    assert_eq!(
        detail_level(Camera { zoom: bits(4.0), ..camera }, 50_000),
        DetailLevel::Communities
    );
    assert_eq!(detail_level(Camera { zoom: bits(0.4), ..camera }, 10), DetailLevel::Overview);
    assert_eq!(detail_level(Camera { zoom: bits(1.5), ..camera }, 12_000), DetailLevel::Overview);
    assert_eq!(hold_zoom(bits(0.0)), MIN_CAMERA_ZOOM);
    assert_eq!(f32::from_bits(MIN_CAMERA_ZOOM), 0.08);
    assert_eq!(f32::from_bits(MAX_CAMERA_ZOOM), 1_024.0);
    assert_eq!(hold_zoom(bits(2.0)), bits(2.0));
}

#[test]
fn cameras_move_only_towards_proper_targets() {
    let mut camera = Camera::default();
    let mut motion = CameraMotion::new(camera);
    assert!(!motion.is_moving());
    motion.retarget(Camera { zoom: bits(0.0), ..camera });
    assert!(!motion.is_moving());
    motion.retarget(Camera { center: point(f32::NAN, 0.0), ..camera });
    assert!(!motion.is_moving());
    let target = Camera { center: point(3.0, 4.0), zoom: bits(2.0) };
    motion.retarget(target);
    assert!(motion.begin_step(&mut camera, false));
    let halfway = Camera { center: point(1.0, 1.0), zoom: bits(1.5) };
    assert!(motion.finish_step(&mut camera, halfway, point(0.5, 0.5), bits(0.1), false));
    assert_eq!(camera, halfway);
    assert!(!motion.begin_step(&mut camera, true));
    assert_eq!(camera, target);
    assert!(!motion.is_moving());

    motion.retarget(Camera { zoom: bits(3.0), ..camera });
    let broken = Camera { zoom: bits(f32::INFINITY), ..camera };
    assert!(!motion.finish_step(&mut camera, broken, point(0.0, 0.0), 0, false));
    assert_eq!(camera.zoom, bits(3.0));
}

#[test]
fn pointers_pick_the_first_of_the_nearest() {
    assert_eq!(pick_nearest(&vec![]), None);
    assert_eq!(pick_nearest(&vec![None, None]), None);
    assert_eq!(
        pick_nearest(&vec![None, Some(bits(4.0)), Some(bits(1.0)), Some(bits(1.0))]),
        Some(2)
    );
}

#[test]
fn bits_order_like_numbers() {
    assert!(is_less(bits(-1.0), bits(0.5)));
    assert!(!is_less(bits(0.0), bits(-0.0)));
    assert!(is_equal(bits(0.0), bits(-0.0)));
    assert!(!is_equal(bits(f32::NAN), bits(f32::NAN)));
    assert!(!is_less(bits(f32::NAN), bits(1.0)));
    assert!(is_finite(bits(f32::MAX)));
    assert!(!is_finite(bits(f32::INFINITY)));
    assert!(place_of(bits(-0.0)) < place_of(bits(0.0)));
    assert!(place_of(bits(f32::INFINITY)) < place_of(bits(f32::NAN)));
}

#[test]
fn ids_are_found_by_halving() {
    let ids = vec![2, 5, 9, 11];
    assert_eq!(search_ids(&ids, 9), Some(2));
    assert_eq!(search_ids(&ids, 2), Some(0));
    assert_eq!(search_ids(&ids, 10), None);
    assert_eq!(SceneSelection::Node(3).node(), Some(3));
    assert_eq!(SceneSelection::Edge(3).node(), None);
    assert_eq!(SceneSelection::Edge(3).edge(), Some(3));
    assert_eq!(LayoutKind::Structure.label(), "Structure");
    assert_eq!(SearchMode::Semantic.label(), "Semantic");
}

fn path_node(id: u64) -> EvidenceNode {
    EvidenceNode {
        id,
        label: "N".into(),
        title: "n".into(),
        vector_count: 0,
        properties: vec![],
    }
}

#[test]
fn missing_path_nodes_lean_on_the_nearest_visible_ones() {
    let snapshot = layered_scene();
    let nodes: Vec<EvidenceNode> = [3, 100, 5, 101, 102].iter().map(|&id| path_node(id)).collect();
    assert_eq!(
        path_anchors(&snapshot, &nodes),
        vec![
            PathAnchor::Visible(3),
            PathAnchor::Between { left: 0, right: 2 },
            PathAnchor::Visible(5),
            PathAnchor::After { left: 2, earlier: Some(0) },
            PathAnchor::After { left: 2, earlier: Some(0) },
        ]
    );
    let before: Vec<EvidenceNode> = [100, 5].iter().map(|&id| path_node(id)).collect();
    assert_eq!(
        path_anchors(&snapshot, &before),
        vec![PathAnchor::Before { right: 1, later: None }, PathAnchor::Visible(5)]
    );
    let nowhere: Vec<EvidenceNode> = [100, 101].iter().map(|&id| path_node(id)).collect();
    assert_eq!(path_anchors(&snapshot, &nowhere), vec![PathAnchor::Nowhere, PathAnchor::Nowhere]);
    assert_eq!(path_seed(&nodes), 3u64 ^ 102u64.rotate_left(29));
}

#[test]
fn the_demo_scene_is_a_ring_with_chords() {
    let demo = SceneSnapshot::demo();
    assert_eq!(demo.nodes.ids.len(), 96);
    assert_eq!(demo.nodes.labels[5], "Concept");
    assert_eq!(demo.database_name, "Demo graph");
    assert_eq!(demo.source_stats.labels, 6);
    assert_eq!(demo.edges.ids.len(), demo.source_stats.edges);
    assert_eq!((demo.edges.sources[0], demo.edges.targets[0]), (0, 1));
    assert_eq!(demo.edges.labels[0], "NEXT");
    assert_eq!((demo.edges.sources[1], demo.edges.targets[1]), (0, 7));
    assert_eq!(demo.edges.labels[1], "SUPPORTS");
    assert!(demo.edges.sources.iter().zip(&demo.edges.targets).any(|(&s, &t)| s == 95 && t == 0));
    let ends: u32 = demo.nodes.degrees.iter().sum();
    assert_eq!(ends as usize, 2 * demo.edges.ids.len());
    assert!(matches!(
        &demo.nodes.properties[7][0].value,
        Value::String(title) if title == "Context element 7"
    ));
}

#[test]
fn text_candidates_are_the_best_of_all_elements() {
    let database = evidence_data();
    let total = database.nodes.len() + database.edges.len();
    let mut scores = vec![bits(0.0); total];
    scores[1] = bits(0.5);
    scores[total - 1] = bits(2.0);
    let best = database.lexical_candidates(&scores, 4);
    assert_eq!(best.len(), 2);
    let last = database.edges[database.edges.len() - 1].id;
    assert_eq!(best[0].element, ElementRef::Edge(last));
    assert_eq!(best[1].element, ElementRef::Node(1));
    assert_eq!(database.lexical_candidates(&scores, 1).len(), 1);
    assert!(database.lexical_candidates(&scores, 0).is_empty());
}

#[test]
fn the_mode_decides_which_signals_a_search_has() {
    let node = ElementRef::Node(1);
    let edge = ElementRef::Edge(2);
    let lexical = vec![RankedElement { element: node, score: bits(3.0), vector_index: 0 }];
    let hits = || {
        SemanticOutcome::Hits(vec![
            RankedElement { element: edge, score: bits(0.5), vector_index: 4 },
            RankedElement { element: node, score: bits(-0.5), vector_index: 1 },
        ])
    };
    let text = fuse_signals(SearchMode::Text, &lexical, hits()).unwrap().signals;
    assert_eq!(text.len(), 1);
    assert_eq!(text[0].lexical, Some(bits(1.0)));
    assert_eq!((text[0].semantic, text[0].vector_index), (None, None));
    let failed = SemanticOutcome::SearchFailed("io".into());
    assert_eq!(fuse_signals(SearchMode::Text, &lexical, failed).unwrap().signals.len(), 1);
    let semantic = fuse_signals(SearchMode::Semantic, &lexical, hits()).unwrap().signals;
    assert_eq!(semantic.len(), 2);
    assert!(semantic.iter().all(|signals| signals.lexical.is_none()));
    assert_eq!(semantic[0].element, edge);
    assert_eq!(semantic[1].semantic, Some(bits(0.0)));
    let hybrid = fuse_signals(SearchMode::Hybrid, &lexical, hits()).unwrap().signals;
    assert_eq!(hybrid.len(), 2);
    assert_eq!(hybrid[0].lexical, Some(bits(1.0)));
    assert_eq!(hybrid[0].vector_index, Some(1));
}

fn plain_node(id: u64) -> NodeRecord {
    NodeRecord { id, label: 0, vector_count: 0, properties: vec![] }
}

fn plain_edge(id: u64, source: u64, target: u64) -> EdgeRecord {
    EdgeRecord { id, source, target, label: 0, vector_count: 0, properties: vec![] }
}

#[test]
fn relationships_without_a_stored_end_are_passed_over() {
    let database = GraphData {
        symbols: symbols(&["Thing"]),
        nodes: (0..5).map(plain_node).collect(),
        edges: vec![plain_edge(0, 0, 99), plain_edge(1, 3, 4), plain_edge(2, 98, 1)],
        stats: stats(5, 3),
        file_name: None,
    };
    let whole = SceneSnapshot::from_database(&database, SnapshotOptions::default());
    assert_eq!(whole.nodes.ids, vec![0, 1, 2, 3, 4]);
    assert_eq!(whole.edges.ids, vec![1]);
    assert_eq!(whole.edges.sources, vec![3]);
    assert_eq!(whole.edges.targets, vec![4]);
    assert_eq!(whole.nodes.degrees, vec![0, 0, 0, 1, 1]);
    assert!(whole.sampled);

    let limited = SnapshotOptions { max_nodes: 2, max_edges: 3 };
    let sample = SceneSnapshot::from_database(&database, limited);
    assert_eq!(sample.nodes.ids, vec![3, 4]);
    assert_eq!(sample.edges.ids, vec![1]);
    assert_eq!(sample.edges.sources, vec![0]);
    assert_eq!(sample.edges.targets, vec![1]);
}

#[test]
fn every_label_is_counted_once() {
    let mut scene = layered_scene();
    for (index, label) in ["B", "A", "B", "C", "A", "B", "D", "C", "B"].iter().enumerate() {
        scene.nodes.labels[index] = label.to_string();
    }
    let counts: Vec<(String, usize)> = scene.label_counts();
    let expected = [("B", 4), ("A", 2), ("C", 2), ("D", 1)];
    assert_eq!(counts, expected.map(|(label, count)| (label.to_string(), count)).to_vec());
}

#[test]
fn buckets_give_in_turn() {
    let scene = layered_scene();
    let near = |budget: usize| {
        scene
            .focus_neighborhood_layers(SceneSelection::Node(0), 1, budget, 20)
            .unwrap()
            .layers
    };
    // The common label offers 1, 2 and 3, the rare one 4.
    assert_eq!(near(3), vec![vec![0], vec![1, 4]]);
    assert_eq!(near(4), vec![vec![0], vec![1, 4, 2]]);
    assert_eq!(near(9), vec![vec![0], vec![1, 4, 2, 3]]);
}

#[test]
fn contexts_keep_what_joins_their_nodes() {
    let mut scene = layered_scene();
    scene.edges.ids.push(8);
    scene.edges.sources.push(6);
    scene.edges.targets.push(5);
    scene.edges.labels.push("CROSS".into());
    scene.edges.vector_counts.push(0);
    scene.edges.properties.push(vec![]);
    let focus = scene
        .focus_neighborhood_layers(SceneSelection::Node(0), 2, 9, 20)
        .unwrap();
    assert_eq!(focus.nodes.len(), 1 + focus.parents.len());
    for (index, (child, parent)) in focus.parents.iter().enumerate() {
        assert_eq!(focus.nodes[1 + index], *child);
        let depth = focus.layers.iter().position(|layer| layer.contains(child)).unwrap();
        assert!(focus.layers[depth - 1].contains(parent));
    }
    let joining: Vec<usize> = (0..scene.edges.ids.len())
        .filter(|&edge| {
            focus.nodes.contains(&(scene.edges.sources[edge] as usize))
                && focus.nodes.contains(&(scene.edges.targets[edge] as usize))
        })
        .collect();
    assert_eq!(focus.edges, joining);

    // Where the budget is used up, the last relationships stay out.
    let tight = scene
        .focus_neighborhood_layers(SceneSelection::Edge(8), 0, 2, 1)
        .unwrap();
    assert_eq!(tight.nodes, vec![6, 5]);
    assert_eq!(tight.edges, vec![8]);
}
