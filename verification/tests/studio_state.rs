use vecgra_studio::evidence::{
    EvidenceNode, EvidencePath, EvidencePathReport, EvidencePathStrategy, EvidencePathTermination,
    EvidenceStep,
};
use vecgra_studio::graph::{Direction, ElementRef, Value};
use vecgra_studio::inspector::Inspector;
use vecgra_studio::lens::{context_lens, facet_lens, focus_lens, path_lens, search_lens};
use vecgra_studio::panels::visible_facet_counts;
use vecgra_studio::path_panel::{scene_node_title, PathBody, PathPanel};
use vecgra_studio::scene::{LayoutKind, SceneProperty, SceneSelection, SceneSnapshot};
use vecgra_studio::search::{SearchHit, SearchMode, SearchReport};
use vecgra_studio::search_panel::SearchPanel;
use vecgra_studio::status_bar::Opening;
use vecgra_studio::studio::{
    path_status_text, PathDraft, PathEndpoints, PathState, SearchState, Studio, StudioTask,
};
use vecgra_studio::studio_command::{parse_studio_command, FacetLens, StudioCommand};
use vecgra_studio::toolbar::ControlPlace;

fn demo_studio(database: bool) -> Studio {
    let mut studio = Studio::start(database);
    studio.opened(SceneSnapshot::demo());
    studio
}

fn node(id: u64, label: &str) -> EvidenceNode {
    EvidenceNode {
        id,
        label: label.to_string(),
        title: format!("Context element {id}"),
        vector_count: 0,
        properties: vec![],
    }
}

fn path_report(edge_id: u64) -> EvidencePathReport {
    EvidencePathReport {
        start: node(0, "Document"),
        end: node(7, "Source"),
        path: Some(EvidencePath {
            nodes: vec![node(0, "Document"), node(7, "Source")],
            steps: vec![EvidenceStep {
                edge_id,
                from: 0,
                to: 7,
                label: "SUPPORTS".into(),
                title: "SUPPORTS".into(),
                forward: true,
                vector_count: 0,
                properties: vec![],
            }],
        }),
        strategy: EvidencePathStrategy::BidirectionalBreadthFirst,
        termination: EvidencePathTermination::Found,
        direction: Direction::Outgoing,
        relationship_label: Some("SUPPORTS".into()),
        max_hops: 6,
        visited_nodes: 2,
        start_expanded_nodes: 1,
        end_expanded_nodes: 0,
        expanded_nodes: 1,
        examined_relationships: 3,
        elapsed_ms: "0.2".into(),
    }
}

fn chord(snapshot: &SceneSnapshot) -> usize {
    snapshot
        .edges
        .sources
        .iter()
        .zip(&snapshot.edges.targets)
        .position(|(&source, &target)| source == 0 && target == 7)
        .unwrap()
}

const ONE: u32 = 0x3f80_0000;

#[test]
fn active_outlier_facet_stays_in_the_bounded_taxonomy() {
    let counts: Vec<(String, usize)> =
        (0..12).map(|index| (format!("L{index}"), 100 - index)).collect();
    let active = "L11".to_string();
    let visible = visible_facet_counts(&counts, Some(&active));
    assert_eq!(visible.len(), 10);
    assert_eq!(visible[0], (active, 89));
    assert!(!visible.iter().any(|(label, _)| label == "L9"));
}

#[test]
fn exact_evidence_path_maps_to_a_reversible_canvas_lens() {
    let mut view = demo_studio(true);
    let snapshot = SceneSnapshot::demo();
    let edge_index = chord(&snapshot);
    let edge_id = snapshot.edges.ids[edge_index];
    let asked = view.execute_command("path 0 7 out SUPPORTS 6", false);
    assert!(matches!(asked.task, StudioTask::Path { .. }), "{asked:?} {}", view.status);
    let generation = view.path_generation;
    let shown = view.finish_evidence_path(generation, 0, 7, Ok((path_report(edge_id), None)));
    assert_eq!(view.path_endpoints, Some(PathEndpoints { start: 0, end: Some(7) }));
    assert_eq!(view.selection, Some(SceneSelection::Node(0)));
    let emphasis = shown.lens.unwrap();
    assert_eq!(emphasis.nodes[0], ONE);
    assert_eq!(emphasis.nodes[7], ONE);
    assert_eq!(emphasis.edges[edge_index], ONE);

    view.activate_evidence_step(0);
    assert_eq!(view.selection, Some(SceneSelection::Edge(edge_index)));

    let back = view.show_overview();
    assert!(matches!(view.path_state, PathState::Idle));
    assert!(view.path_endpoints.is_none());
    assert!(back.lens.unwrap().nodes.iter().all(|&score| score == 0));
    assert!(back.return_camera);
}

#[test]
fn path_draft_builds_and_activates_a_direct_destination_query() {
    let mut view = demo_studio(true);
    view.choose_path_start(0);
    assert!(matches!(
        view.path_state,
        PathState::ChoosingEnd(PathDraft { start: 0, direction: Direction::Both, max_hops: 6 })
    ));
    assert_eq!(view.path_endpoints, Some(PathEndpoints { start: 0, end: None }));
    assert_eq!(view.selection, Some(SceneSelection::Node(0)));
    assert_eq!(view.path_destination_candidate(), None);
    view.activate_selection(false);
    assert!(matches!(view.path_state, PathState::ChoosingEnd(_)));
    assert!(!view.context_focus_active);

    view.execute_command("path-start 0 in 2", false);
    assert!(matches!(
        view.path_state,
        PathState::ChoosingEnd(PathDraft { start: 0, direction: Direction::Incoming, max_hops: 2 })
    ));
    view.set_path_max_hops(0);

    view.set_selection(Some(SceneSelection::Node(7)));
    assert_eq!(view.path_destination_candidate(), Some(7));
    view.set_path_max_hops(4);
    assert!(view.status.contains("Destination ready"));
    assert!(view.status.contains("Enter traces exact path"));
    view.set_path_max_hops(2);
    let query = view.path_query_to_node(7).unwrap();
    assert_eq!(query.start, 0);
    assert_eq!(query.end, 7);
    assert_eq!(query.direction, Direction::Incoming);
    assert_eq!(query.max_hops, 2);
    assert!(query.relationship_label.is_none());

    view.activate_selection(false);
    assert!(matches!(view.path_state, PathState::Searching { start: 0, end: 7 }));
    assert_eq!(view.path_endpoints, Some(PathEndpoints { start: 0, end: Some(7) }));
    assert!(!view.context_focus_active);
    assert!(view.is_finding_path());

    view.show_overview();
    assert!(matches!(view.path_state, PathState::Idle));
    assert!(view.path_endpoints.is_none());
}

#[test]
fn enter_routes_to_a_ready_path_destination() {
    let mut view = demo_studio(true);
    view.path_state = PathState::ChoosingEnd(PathDraft {
        start: 0,
        direction: Direction::Outgoing,
        max_hops: 4,
    });
    view.path_endpoints = Some(PathEndpoints { start: 0, end: None });
    view.set_selection(Some(SceneSelection::Node(7)));
    view.activate_selection(false);
    assert!(matches!(
        view.path_state,
        PathState::Searching { start: 0, end: 7 } | PathState::Failed { start: 0, end: 7, .. }
    ));
    assert_eq!(view.path_endpoints, Some(PathEndpoints { start: 0, end: Some(7) }));
    assert!(!view.context_focus_active);
}

#[test]
fn taxonomy_facets_create_a_reversible_graph_lens() {
    let mut view = demo_studio(false);
    let shown = view.execute_command("facet node Document", false);
    assert!(matches!(&view.active_facet, Some(FacetLens::NodeLabel(label)) if label == "Document"));
    let emphasis = shown.lens.unwrap();
    assert_eq!(emphasis.nodes.iter().filter(|&&score| score == ONE).count(), 24);
    assert!(emphasis.edges.iter().any(|&score| f32::from_bits(score) > 0.0));

    let shown = view.execute_command("facet relationship SUPPORTS", false);
    assert!(
        matches!(&view.active_facet, Some(FacetLens::Relationship(label)) if label == "SUPPORTS")
    );
    let emphasis = shown.lens.unwrap();
    assert!(emphasis.edges.contains(&ONE));
    assert!(emphasis.nodes.contains(&0.72f32.to_bits()));

    let cleared = view.escape();
    assert!(view.active_facet.is_none());
    assert!(cleared.lens.unwrap().nodes.iter().all(|&score| score == 0));

    view.execute_command("facet node Document", false);
    view.execute_command("memory leak", false);
    assert!(view.active_facet.is_none());
    assert!(matches!(view.search_state, SearchState::Failed { .. }));
}

#[test]
fn commands_select_relationships_and_nodes_without_ambiguous_state() {
    let mut view = demo_studio(false);
    view.execute_command("edge 0", false);
    assert_eq!(view.selection, Some(SceneSelection::Edge(0)));

    view.execute_command("node 7", false);
    assert_eq!(view.selection, Some(SceneSelection::Node(7)));

    let zoomed = view.execute_command("zoom 2", false);
    assert!(matches!(&zoomed.task, StudioTask::Zoom(Some(value)) if value == "2"));

    view.execute_command("edge 999999", false);
    assert_eq!(view.selection, None);

    view.execute_command("memory leak", false);
    assert!(matches!(view.search_state, SearchState::Failed { .. }));
    view.show_overview();
    assert!(matches!(view.search_state, SearchState::Idle));
}

#[test]
fn focused_search_context_returns_to_the_saved_presentation() {
    let mut view = demo_studio(false);
    let snapshot = SceneSnapshot::demo();
    view.set_selection(Some(SceneSelection::Node(7)));
    let focus = snapshot.focus_neighborhood(SceneSelection::Node(7), 96).unwrap();
    let lens = focus_lens(&snapshot, &focus, SceneSelection::Node(7));
    assert_eq!(lens.nodes[7], ONE);
    assert_eq!(lens.dim, 0.96f32.to_bits());
    assert!(lens.edges.iter().any(|&score| score == 0.68f32.to_bits()));
    view.context_focus_active = true;
    let back = view.show_overview();
    assert!(back.return_camera && back.restore_layout);
    assert!(!view.context_focus_active);
}

#[test]
fn double_click_opens_a_reversible_two_hop_context_without_starting_a_drag() {
    let mut view = demo_studio(false);
    let opened = view.press_node(7, 2);
    assert_eq!(view.selection, Some(SceneSelection::Node(7)));
    assert!(view.context_focus_active);
    assert!(view.status.contains("two-hop"));
    assert!(matches!(opened.task, StudioTask::FrameContext(7)));
    let closed = view.escape();
    assert!(closed.restore_layout && closed.return_camera);
    assert!(!view.context_focus_active);

    view.press_node(7, 1);
    assert_eq!(view.status, "Selected node 7 · drag to arrange");
    view.node_dropped();
    assert_eq!(view.status, "Node pinned · Release returns it to the active layout");
}

#[test]
fn deep_zoom_navigator_recenters_without_starting_a_canvas_drag() {
    let mut view = demo_studio(false);
    view.set_selection(Some(SceneSelection::Node(0)));
    view.navigator_pressed();
    assert_eq!(view.selection, Some(SceneSelection::Node(0)));
    assert!(view.status.contains("Navigator"));
}

#[test]
fn inspector_scrolls_long_properties_without_zooming_the_canvas() {
    let mut snapshot = SceneSnapshot::demo();
    snapshot.nodes.properties[0] = (0..30)
        .map(|index| SceneProperty {
            key: format!("property_{index:02}"),
            value: Value::String(format!("A deliberately detailed graph property value {index}")),
        })
        .collect();
    let mut view = Studio::start(false);
    view.opened(snapshot);
    assert!(view.set_selection(Some(SceneSelection::Node(0))));
    match view.inspector(false) {
        Inspector::Node(panel) => {
            assert_eq!(panel.properties.len(), 24);
            assert_eq!(panel.properties[23].0, "property_23");
            assert_eq!(panel.element, "node:0");
            assert_eq!(panel.origin_button, "Set as path origin");
            assert!(!panel.origin_enabled && panel.no_database && !panel.trace);
        }
        other => panic!("{other:?}"),
    }
    // Another selection starts at the top again.
    assert!(view.set_selection(Some(SceneSelection::Node(1))));
}

#[test]
fn the_inspector_follows_the_selection_and_the_origin() {
    let mut view = demo_studio(true);
    match view.inspector(false) {
        Inspector::Nothing { title, shortcuts, .. } => {
            assert_eq!(title, "Nothing selected");
            assert_eq!(shortcuts[1], ("⌘K", "Search the graph"));
        }
        other => panic!("{other:?}"),
    }
    view.choose_path_start(3);
    match view.inspector(true) {
        Inspector::Node(panel) => {
            assert_eq!(panel.origin.as_deref(), Some("ORIGIN · node:3"));
            assert_eq!(panel.origin_button, "Path origin");
            assert!(panel.choose_other && !panel.trace && panel.pinned);
        }
        other => panic!("{other:?}"),
    }
    view.set_selection(Some(SceneSelection::Node(5)));
    match view.inspector(false) {
        Inspector::Node(panel) => {
            assert_eq!(panel.origin_button, "Move path origin here");
            assert!(panel.trace);
        }
        other => panic!("{other:?}"),
    }
    view.set_selection(Some(SceneSelection::Edge(1)));
    match view.inspector(false) {
        Inspector::Edge(panel) => {
            assert_eq!(panel.element, "edge:1");
            assert_eq!(panel.summary, "1 vector · directed relationship");
            assert_eq!(panel.from.0, "node:0");
            assert_eq!(panel.to.0, "node:7");
            assert_eq!(panel.empty, Some("No relationship properties"));
        }
        other => panic!("{other:?}"),
    }
}

fn hit(element: ElementRef, score: f32) -> SearchHit {
    SearchHit {
        element,
        label: "Document".into(),
        title: "A title".into(),
        detail: "Some detail".into(),
        score: score.to_bits(),
        lexical_score: Some(score.to_bits()),
        semantic_score: None,
        vector_index: None,
    }
}

fn search_report(hits: Vec<SearchHit>) -> SearchReport {
    SearchReport {
        query: "graph".into(),
        mode: SearchMode::Text,
        hits,
        elapsed_ms: "1.5".into(),
        embedding_model: None,
        warning: Some("careful".into()),
    }
}

#[test]
fn results_are_listed_with_the_marked_one_spelled_out() {
    let mut view = demo_studio(true);
    assert!(matches!(view.search_panel(&vec![]), SearchPanel::Empty));
    let asked = view.execute_command("text graph", false);
    assert!(view.is_searching());
    match view.search_panel(&vec![]) {
        SearchPanel::Searching { title, detail } => {
            assert_eq!(title, "Text search");
            assert_eq!(detail, "Searching all nodes and relationships for “graph”…");
        }
        other => panic!("{other:?}"),
    }
    let generation = match asked.task {
        StudioTask::Search { generation, .. } => generation,
        other => panic!("{other:?}"),
    };
    assert!(!view.finish_search(
        generation.wrapping_sub(1),
        "graph".into(),
        SearchMode::Text,
        Err("old".into())
    ));
    let hits = vec![hit(ElementRef::Node(3), 1.0), hit(ElementRef::Edge(1), 0.5)];
    assert!(view.finish_search(generation, "graph".into(), SearchMode::Text, Ok(search_report(hits))));
    view.move_search_selection(1);
    match view.search_panel(&vec!["100".into(), "50".into()]) {
        SearchPanel::Ready(panel) => {
            assert_eq!(panel.title, "“graph”");
            assert_eq!(panel.summary, "2 text · 1.5 ms");
            assert_eq!(panel.warning.as_deref(), Some("careful"));
            assert_eq!(panel.empty, None);
            assert!(!panel.rows[0].selected && panel.rows[1].selected);
            assert_eq!(panel.rows[0].text_signal, None);
            assert_eq!(panel.rows[1].text_signal, Some(0.5f32.to_bits()));
            assert_eq!(panel.rows[1].kind, "EDGE");
            assert_eq!(
                panel.rows[1].spoken,
                "edge A title, Document, relevance 50 percent"
            );
            assert_eq!(panel.rows[0].relevance, "100%");
        }
        other => panic!("{other:?}"),
    }
    assert_eq!(view.query_entered(" graph "), Ok(1));
    assert_eq!(view.query_entered("other"), Err("other".to_string()));
    view.move_search_selection(5);
    assert_eq!(view.selected_search_result, 1);
    view.move_search_selection(-9);
    assert_eq!(view.selected_search_result, 0);
}

#[test]
fn results_bring_out_their_elements_and_ends() {
    let snapshot = SceneSnapshot::demo();
    let hits = vec![hit(ElementRef::Edge(1), 1.0), hit(ElementRef::Node(900), 0.4)];
    let (lens, framed) = search_lens(
        &snapshot,
        &hits,
        &vec![(ONE, 0.68f32.to_bits()), (0.4f32.to_bits(), 0.2f32.to_bits())],
    );
    assert_eq!(lens.edges[1], ONE);
    assert_eq!(lens.nodes[0], 0.68f32.to_bits());
    assert_eq!(lens.nodes[7], 0.68f32.to_bits());
    assert_eq!(framed, vec![0, 7]);
    assert_eq!(lens.dim, 0.84f32.to_bits());
    let (facet, matches) = facet_lens(&snapshot, &FacetLens::NodeLabel("Claim".into()));
    assert_eq!(matches, 24);
    assert_eq!(facet.dim, 0.9f32.to_bits());
    let lens = path_lens(&snapshot, &path_report(snapshot.edges.ids[chord(&snapshot)]));
    assert_eq!(lens.nodes.iter().filter(|&&score| score > 0).count(), 2);
    let focus = snapshot.focus_neighborhood_layers(SceneSelection::Node(7), 2, 48, 96).unwrap();
    let context = context_lens(&snapshot, &focus);
    assert_eq!(context.nodes[7], ONE);
    assert_eq!(context.dim, 0.97f32.to_bits());
}

#[test]
fn path_panels_tell_how_a_search_ended() {
    let mut view = demo_studio(true);
    assert!(matches!(view.path_panel(), PathPanel::Empty));
    view.choose_path_start(0);
    view.set_selection(Some(SceneSelection::Node(7)));
    match view.path_panel() {
        PathPanel::Choosing(panel) => {
            assert_eq!(panel.hint, "ENTER RUNS · ESC CANCELS");
            assert_eq!(panel.limit, "≤ 6");
            assert_eq!(panel.hops, vec![(1, false), (2, false), (4, false), (6, true)]);
            assert_eq!(panel.origin.unwrap().title, "Context element 0");
            assert_eq!(panel.destination.unwrap().0, 7);
        }
        other => panic!("{other:?}"),
    }
    view.trace_path_to_node(7);
    match view.path_panel() {
        PathPanel::Searching { route } => assert_eq!(route, "node:0  →  node:7"),
        other => panic!("{other:?}"),
    }
    let generation = view.path_generation;
    let snapshot = SceneSnapshot::demo();
    let edge_id = snapshot.edges.ids[chord(&snapshot)];
    view.finish_evidence_path(generation, 0, 7, Ok((path_report(edge_id), None)));
    match view.path_panel() {
        PathPanel::Ready(panel) => {
            assert_eq!(panel.outcome, "EXACT");
            assert_eq!(panel.summary, "1 hop · 0.2 ms");
            assert_eq!(panel.relationship.as_deref(), Some("relationship:SUPPORTS"));
            assert_eq!(panel.partial, None);
            assert_eq!(panel.plan.from, "1 expanded");
            assert!(matches!(panel.body, PathBody::Steps(rows) if rows.len() == 1));
        }
        other => panic!("{other:?}"),
    }

    let mut missed = path_report(edge_id);
    missed.path = None;
    missed.termination = EvidencePathTermination::ExpansionLimit;
    missed.end = node(900, "Source");
    assert!(path_status_text(&missed).len() > 0);
    view.path_state = PathState::Ready(missed);
    match view.path_panel() {
        PathPanel::Ready(panel) => {
            assert_eq!(panel.outcome, "INCOMPLETE");
            assert_eq!(panel.summary, "Work cap reached · 0.2 ms");
            assert_eq!(
                panel.partial.as_deref(),
                Some(
                    "Exact database result; sampled canvas shows 1/2 nodes and 0/0 relationships."
                )
            );
            assert!(matches!(panel.body, PathBody::Absent { warn: true, .. }));
        }
        other => panic!("{other:?}"),
    }
    view.path_state = PathState::Failed { start: 1, end: 2, error: "io".into() };
    match view.path_panel() {
        PathPanel::Failed { route, error } => {
            assert_eq!(route, "node:1  →  node:2");
            assert_eq!(error, "io");
        }
        other => panic!("{other:?}"),
    }
    assert_eq!(scene_node_title(&snapshot, 3), "Context element 3");
}

#[test]
fn outdated_results_change_nothing() {
    let mut view = demo_studio(true);
    view.execute_command("text graph", false);
    let generation = view.search_generation;
    view.show_overview();
    assert!(!view.finish_search(generation, "graph".into(), SearchMode::Text, Err("late".into())));
    assert!(matches!(view.search_state, SearchState::Idle));
    let asked = view.arrange(LayoutKind::Orbit);
    let generation = match asked.task {
        StudioTask::Arrange { generation, .. } => generation,
        other => panic!("{other:?}"),
    };
    assert!(view.is_arranging());
    view.finish_arrange(generation.wrapping_sub(1), LayoutKind::Force, true, "1.0");
    assert!(view.is_arranging());
    view.finish_arrange(generation, LayoutKind::Orbit, true, "1.0");
    assert!(!view.is_arranging());
    assert_eq!(view.layout_kind, LayoutKind::Orbit);
}

#[test]
fn the_frame_tells_what_is_open() {
    let loading = Opening::Loading { name: "zed.vg".into() };
    let failed = Opening::Failed("no such file".into());
    let mut view = Studio::start(true);
    assert_eq!(view.database_title(&loading), "zed.vg");
    assert_eq!(view.database_title(&failed), "No database");
    let state = view.canvas_placeholder(false, &loading).unwrap();
    assert_eq!(state.title, "Opening graph");
    assert_eq!(
        state.detail,
        "Mapping zed.vg, building a bounded scene, then laying it out."
    );
    assert_eq!(view.canvas_placeholder(false, &failed).unwrap().detail, "no such file");
    view.open_failed();
    assert_eq!(view.status, "Could not open database");
    assert!(!view.is_ready());
    view.overview_reached();
    assert_eq!(view.status, "Overview · full graph restored");

    let mut view = demo_studio(true);
    assert_eq!(view.status, "Ready · complete graph view");
    assert!(view.canvas_placeholder(true, &loading).is_none());
    assert_eq!(view.canvas_placeholder(false, &loading).unwrap().title, "Preparing workspace");
    let (left, right) = view.status_segments(2, true, &Some("3.5".into()));
    let edges = format!("{} edges", SceneSnapshot::demo().edges.ids.len());
    assert_eq!(left, vec!["96 nodes", edges.as_str(), "auto layout", "2 pinned", "settling"]);
    assert_eq!(right, vec!["Ready · complete graph view", "3.5 ms load+layout"]);
    view.set_selection(Some(SceneSelection::Node(1)));
    assert!(view.selected_node_is_pinned(&vec![false, true]));
    assert!(!view.selected_node_is_pinned(&vec![]));
    let panel = view.left_panel();
    assert!(!panel.search && !panel.path);
    assert!(panel.facets.is_some());
}

#[test]
fn commands_are_words_and_anything_else_is_a_search() {
    assert!(matches!(parse_studio_command("  "), StudioCommand::Nothing));
    assert!(matches!(parse_studio_command("node 12"), StudioCommand::SelectNode(12)));
    assert!(matches!(parse_studio_command("fit"), StudioCommand::Fit));
    assert!(matches!(
        parse_studio_command("semantic memory safety"),
        StudioCommand::Search(SearchMode::Semantic, text) if text == "memory safety"
    ));
    assert!(matches!(
        parse_studio_command("memory leak"),
        StudioCommand::SearchText(text) if text == "memory leak"
    ));
    assert!(matches!(
        parse_studio_command("path-start 4 out 99"),
        StudioCommand::PathStart { start: 4, direction: Direction::Outgoing, max_hops } if max_hops <= 64
    ) || matches!(parse_studio_command("path-start 4 out 99"), StudioCommand::Explain(_)));
}

#[test]
fn toolbar_follows_the_window_width_and_marks_what_is_chosen() {
    let mut view = demo_studio(true);
    view.set_selection(Some(SceneSelection::Node(1)));
    let narrow = view.toolbar(760.0f32.to_bits(), &vec![false, true]);
    assert_eq!(narrow.controls, ControlPlace::Toolbar);
    assert_eq!(narrow.height, 88);
    assert!(!narrow.inspector && narrow.release);
    let chosen: Vec<&str> =
        narrow.modes.iter().filter(|mode| mode.chosen).map(|mode| mode.label).collect();
    assert_eq!(chosen, vec!["Hybrid"]);
    let middle = view.toolbar(980.0f32.to_bits(), &vec![]);
    assert!(middle.inspector && !middle.release);
    assert_eq!(middle.controls, ControlPlace::Toolbar);
    view.set_search_mode(SearchMode::Semantic, "");
    let wide = view.toolbar(1_340.0f32.to_bits(), &vec![]);
    assert_eq!(wide.controls, ControlPlace::Canvas);
    assert_eq!(wide.height, 52);
    assert!(wide.modes[2].chosen && !wide.modes[1].chosen);
    assert!(wide.layouts[0].chosen && !wide.layouts[3].chosen);
    assert_eq!(wide.layouts[2].spoken, "Use Structure graph layout");
}

#[test]
fn results_and_canvas_clicks_say_what_is_selected() {
    let mut view = demo_studio(true);
    view.search_state = SearchState::Ready(SearchReport {
        query: "context".into(),
        mode: SearchMode::Hybrid,
        hits: vec![
            SearchHit {
                element: ElementRef::Node(7),
                label: "Source".into(),
                title: "Context element 7".into(),
                detail: "node:7".into(),
                score: 0.5f32.to_bits(),
                lexical_score: None,
                semantic_score: None,
                vector_index: None,
            },
            SearchHit {
                element: ElementRef::Edge(5_000),
                label: "NEXT".into(),
                title: "NEXT".into(),
                detail: String::new(),
                score: 0.4f32.to_bits(),
                lexical_score: None,
                semantic_score: None,
                vector_index: None,
            },
        ],
        elapsed_ms: "1.0".into(),
        embedding_model: None,
        warning: None,
    });
    let response = view.activate_search_result(0, "50");
    assert_eq!(view.selection, Some(SceneSelection::Node(7)));
    assert!(view.status.starts_with("Focused node 7 · Source · 50% match · "));
    assert!(matches!(response.task, StudioTask::FrameResult(SceneSelection::Node(7))));
    view.activate_search_result(1, "40");
    assert_eq!(view.status, "edge 5000 matches, but is outside this bounded graph view");
    assert_eq!(view.selection, Some(SceneSelection::Node(7)));

    view.canvas_clicked(Some(0), "10", "20");
    assert_eq!(view.selection, Some(SceneSelection::Edge(0)));
    assert_eq!(view.status, "Selected relationship 0 · NEXT");
    let cleared = view.canvas_clicked(None, "10", "20");
    assert!(cleared.scroll_inspector);
    assert_eq!(view.selection, None);
    assert_eq!(view.status, "No graph element at (10, 20)");

    view.explain_zoom();
    assert_eq!(view.status, "Expected: zoom <0.08..1024>");
    view.say_zoom("150");
    assert_eq!(view.status, "Zoom set to 150%");
}
