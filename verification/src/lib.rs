//! Verified core of the Vecgra tools: graph snapshots, search, imports and
//! the Studio's interaction rules.

pub mod answer_laws;
pub mod benchmark;
pub mod camera;
pub mod canvas_laws;
pub mod command_laws;
pub mod command_table;
pub mod commands;
pub mod demo;
pub mod digits;
pub mod digits_laws;
pub mod embedder;
pub mod embedding;
pub mod embedding_cache;
pub mod embedding_laws;
pub mod engineering;
pub mod engineering_laws;
pub mod enrich;
pub mod enrich_laws;
pub mod evidence;
pub mod evidence_laws;
pub mod fields;
pub mod focus;
pub mod focus_laws;
pub mod github;
pub mod github_crawl;
pub mod github_data;
pub mod github_fields;
pub mod github_history;
pub mod github_items;
pub mod github_laws;
pub mod github_model;
pub mod github_report;
pub mod github_schema;
pub mod graph;
pub mod graph_laws;
pub mod hash;
pub mod inspector;
pub mod json;
pub mod json_laws;
pub mod jsonl;
pub mod labels;
pub mod layout;
pub mod layout_clusters;
pub mod layout_components;
pub mod layout_forest;
pub mod layout_laws;
pub mod layout_random;
pub mod layout_union;
pub mod lens;
pub mod lens_laws;
pub mod lens_transition;
pub mod navigator;
pub mod order;
pub mod panel_laws;
pub mod panels;
pub mod path_anchors;
pub mod path_panel;
pub mod report;
pub mod report_hits;
pub mod report_laws;
pub mod scene;
pub mod search;
pub mod search_laws;
pub mod search_panel;
pub mod single;
pub mod snapshot;
pub mod snapshot_laws;
pub mod status_bar;
pub mod studio;
pub mod studio_actions;
pub mod studio_command;
pub mod studio_laws;
pub mod text;
pub mod text_laws;
pub mod toolbar;
pub mod workspace;
