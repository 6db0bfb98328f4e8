use vecgra_studio::command_table::{command_shape, command_usages};
use vecgra_studio::commands::{
    optional_usize, parse_invocation, parse_numeric_bound, parse_vector_target,
    print_command_help, print_help, required, split_facets, ArgValue, Argument, Invocation,
    NumericBound, VectorEncoding, VectorTarget,
};
use vecgra_studio::digits::{decimal_text, format_count, hex_text, padded_text, signed_text};
use vecgra_studio::evidence::{
    EvidencePathStrategy, EvidencePathTermination, PathSearch, ShortestPath,
};
use vecgra_studio::graph::{
    format_value, searchable_value, EdgeRecord, ElementRef, FloatValue, GraphData, GraphStats,
    NodeRecord, Property, Value,
};
use vecgra_studio::jsonl::{Endpoint, ExistingNode, ExternalId, JsonBatch};
use vecgra_studio::labels::{count_by_label, count_labels};
use vecgra_studio::order::text_is_leq;
use vecgra_studio::report::{
    check_lines, compact_lines, import_lines, neighbor_lines, node_import_lines, node_lines,
    optional_symbol, path_lines, plan_lines, require_symbol, stats_lines, vector_import_lines,
    IntegrityReport, SearchPlanReport,
};
use vecgra_studio::report_hits::{
    facet_lines, numeric_range_lines, optional_score, query_lines, range_lines, search_lines,
    semantic_lines, semantic_query_lines, FacetHit, PatternMatch, ScoredElement, ScoredNode,
    SemanticHit, SemanticMatch,
};
use vecgra_studio::text::{
    ascii_lowercase, ends_with_text, join_texts, normalize_whitespace, prefix_within,
    space_underscores, split_nonempty, split_text, starts_with_text, text_is_blank, trim_text,
    truncate_text, truncate_utf8, Separator,
};

fn argument(text: &str) -> Argument {
    Argument {
        text: text.to_string(),
        float: match text.parse::<f64>() {
            Ok(value) => Ok(FloatValue {
                bits: value.to_bits(),
                shortest: format!("{value}"),
                fixed: format!("{value:.5}"),
            }),
            Err(error) => Err(error.to_string()),
        },
    }
}

fn arguments(texts: &[&str]) -> Vec<Argument> {
    texts.iter().map(|text| argument(text)).collect()
}

fn invoke(texts: &[&str]) -> Result<Invocation, String> {
    parse_invocation(&arguments(texts), &None)
}

fn text(value: &str) -> Value {
    Value::String(value.to_string())
}

fn data() -> GraphData {
    GraphData {
        symbols: ["Person", "name", "KNOWS"].iter().map(|s| s.to_string()).collect(),
        nodes: vec![
            NodeRecord {
                id: 0,
                label: 0,
                vector_count: 1,
                properties: vec![Property { key: 1, value: text("Ada") }],
            },
            NodeRecord {
                id: 4,
                label: 0,
                vector_count: 0,
                properties: vec![Property { key: 1, value: Value::Node(0) }],
            },
        ],
        edges: vec![EdgeRecord {
            id: 2,
            source: 0,
            target: 4,
            label: 2,
            vector_count: 0,
            properties: vec![],
        }],
        stats: GraphStats { nodes: 2, edges: 1, labels: 3, indexed_vectors: 1, transactions: 1 },
        file_name: Some("people.vg".into()),
    }
}

#[test]
fn extra_arguments_are_rejected_before_import_or_append() {
    let refused = invoke(&["append-jsonl", "graph.vg", "nodes.jsonl", "edges.jsonl", "typo"]);
    assert_eq!(
        refused.unwrap_err(),
        "unexpected argument \"typo\" for command \"append-jsonl\""
    );
    let refused =
        invoke(&["import-jsonl", "nodes.jsonl", "edges.jsonl", "new.vg", "4", "f16", "typo"]);
    assert_eq!(
        refused.unwrap_err(),
        "unexpected argument \"typo\" for command \"import-jsonl\""
    );
    match invoke(&["import-jsonl", "nodes.jsonl", "edges.jsonl", "new.vg", "4", "f16"]).unwrap() {
        Invocation::Run(command, values) => {
            assert_eq!(command, "import-jsonl");
            assert!(matches!(values[3], ArgValue::Number(4)));
            assert!(matches!(values[4], ArgValue::Encoding(VectorEncoding::F16)));
        }
        other => panic!("{other:?}"),
    }
}

#[test]
fn append_connects_new_nodes_to_existing_nodes_and_accepts_edge_only_batches() {
    // Integer 0 is a batch ID; an existing node is named by its database ID.
    let mut batch = JsonBatch::new();
    batch.accept_node(&ExternalId::Signed(0), &vec![]).unwrap();
    batch.record_node(ExternalId::Signed(0), 1, 1);
    let edge = batch
        .accept_edge(
            &Endpoint::Batch(ExternalId::Signed(0)),
            &Endpoint::Existing { node: 0 },
            ExistingNode::Unavailable,
            ExistingNode::Found(0),
            &vec![],
        )
        .unwrap();
    assert_eq!((edge.source, edge.target), (1, 0));
    batch.record_edge(2);
    let stats = GraphStats {
        nodes: batch.stats.nodes,
        edges: batch.stats.edges,
        labels: 0,
        indexed_vectors: batch.stats.indexed_vectors,
        transactions: 0,
    };
    assert_eq!(import_lines(&stats).join("\n") + "\n", "nodes\t1\nedges\t1\nvectors\t3\n");

    let edges_only = JsonBatch::new();
    let reverse = edges_only
        .accept_edge(
            &Endpoint::Existing { node: 0 },
            &Endpoint::Existing { node: 1 },
            ExistingNode::Found(0),
            ExistingNode::Found(1),
            &vec![],
        )
        .unwrap();
    assert_eq!((reverse.source, reverse.target), (0, 1));
}

#[test]
fn invocations_ask_for_help_or_run() {
    assert!(matches!(invoke(&[]), Ok(Invocation::Help)));
    assert!(matches!(invoke(&["--help"]), Ok(Invocation::Help)));
    assert!(matches!(invoke(&["-V"]), Ok(Invocation::Version)));
    assert!(matches!(
        invoke(&["stats", "-h"]),
        Ok(Invocation::CommandHelp(help)) if help == print_command_help("stats").unwrap()
    ));
    assert_eq!(
        invoke(&["stats", "help", "x"]).unwrap_err(),
        "unexpected argument \"x\" after help"
    );
    assert_eq!(invoke(&["frobnicate"]).unwrap_err(), "unknown command frobnicate");
    assert!(invoke(&["stats"]).unwrap_err().starts_with("missing "));
    for (command, usage) in command_usages() {
        assert!(usage.starts_with(command));
        assert!(command_shape(command).is_some(), "{command} has no parameters");
        assert!(print_command_help(command).unwrap().contains(usage));
        assert!(print_help().contains(usage));
    }
    assert!(print_command_help("frobnicate").is_err());
    assert!(command_shape("frobnicate").is_none());
}

#[test]
fn arguments_are_read_by_kind() {
    assert_eq!(required(None, "database").unwrap_err(), "missing database");
    assert_eq!(required(Some(&argument("a.vg")), "database").unwrap(), "a.vg");
    assert_eq!(optional_usize(None, "limit").unwrap(), None);
    assert_eq!(optional_usize(Some(&argument("12")), "limit").unwrap(), Some(12));
    assert_eq!(
        optional_usize(Some(&argument("x")), "limit").unwrap_err(),
        "invalid limit \"x\": invalid digit found in string"
    );
    assert_eq!(parse_vector_target(None).unwrap(), VectorTarget::Both);
    assert_eq!(parse_vector_target(Some("nodes")).unwrap(), VectorTarget::Nodes);
    assert_eq!(parse_vector_target(Some("all")).unwrap_err(), "unknown vector target \"all\"");
    assert!(matches!(
        parse_numeric_bound(&argument("-"), "int"),
        Ok(NumericBound::Unbounded)
    ));
    assert!(matches!(parse_numeric_bound(&argument("-7"), "int"), Ok(NumericBound::Int(-7))));
    assert!(matches!(
        parse_numeric_bound(&argument("2.5"), "float"),
        Ok(NumericBound::Float(value)) if value.bits == 2.5f64.to_bits()
    ));
    assert_eq!(
        parse_numeric_bound(&argument("1"), "text").unwrap_err(),
        "unknown numeric type \"text\""
    );
    assert!(parse_numeric_bound(&argument("1.5"), "int").is_err());
    assert_eq!(split_facets("a | b || c ||"), vec!["a | b", "c"]);
}

#[test]
fn reports_are_tab_separated() {
    let stats = data().stats;
    assert_eq!(import_lines(&stats), vec!["nodes\t2", "edges\t1", "vectors\t1"]);
    assert_eq!(node_import_lines(&stats, 8), vec!["nodes\t2", "vectors\t1", "dimension\t8"]);
    assert!(vector_import_lines("a.vg", &stats, 8, "1.0").contains(&"vectors\t1".to_string()));
    assert!(compact_lines("b.vg", &stats, VectorEncoding::F32)
        .iter()
        .any(|line| line.contains("F32")));
    assert!(stats_lines("a.vg", &stats, 8, "Cosine", VectorEncoding::F16)
        .iter()
        .any(|line| line.contains("Cosine")));
    let report = IntegrityReport {
        nodes: 2,
        edges: 1,
        indexed_vectors: 1,
        transactions: 3,
        vector_bytes_verified: 32,
        vector_checksum_blocks_verified: 1,
    };
    assert!(check_lines(&report, "0.5").contains(&"transactions\t3".to_string()));
    assert_eq!(optional_score(&None), "-");
    assert_eq!(optional_score(&Some("0.500000".into())), "0.500000");
    let ranged = numeric_range_lines("Index", 5, "0.1", &vec![1, 2, 3], &vec![9], 2);
    assert!(ranged.iter().any(|line| line.contains("Index")));
}

#[test]
fn elements_are_printed_with_their_names() {
    let read = data();
    assert_eq!(require_symbol(&read, "label", "KNOWS").unwrap(), 2);
    assert!(require_symbol(&read, "label", "HATES").unwrap_err().contains("HATES"));
    assert_eq!(optional_symbol(&read, "label", &None).unwrap(), None);
    assert!(node_lines(&read, 0).unwrap().iter().any(|line| line.contains("Ada")));
    assert!(node_lines(&read, 9).is_err());
    assert_eq!(neighbor_lines(&read, &read.edges).len(), 1);
    assert_eq!(read.display_value(&Value::Node(4)), "node:4:Person");
    assert_eq!(read.display_value(&Value::Node(5)), "node:5");
    assert_eq!(read.display_value(&Value::Edge(2)), "edge:2:KNOWS");
    assert_eq!(read.concise_element(&read.nodes[0].properties), "Ada");
    assert_eq!(read.concise_element(&vec![]), "");
    let printed = search_lines(
        &read,
        &vec![ScoredElement { score: "0.9".into(), element: ElementRef::Node(0) }],
    );
    assert!(printed.failure.is_none());
    assert!(printed.lines.iter().any(|line| line.contains("Ada")));
    let search = PathSearch {
        path: Some(ShortestPath { nodes: vec![0, 4], edges: vec![2] }),
        strategy: EvidencePathStrategy::BreadthFirst,
        termination: EvidencePathTermination::Found,
        visited_nodes: 2,
        start_expanded_nodes: 1,
        end_expanded_nodes: 0,
        expanded_nodes: 1,
        examined_relationships: 1,
    };
    let printed = path_lines(&read, &search, 0, "0.1");
    assert!(printed.failure.is_none());
    assert!(printed.lines.iter().any(|line| line.contains("KNOWS")));
}

#[test]
fn values_have_a_text() {
    assert_eq!(format_value(&Value::Null), "null");
    assert_eq!(format_value(&Value::Bytes(vec![1, 2])), "<2 bytes>");
    assert_eq!(format_value(&Value::Int(-5)), "-5");
    assert_eq!(searchable_value(&Value::Bool(true)).as_deref(), Some("true"));
    assert_eq!(searchable_value(&Value::Null), None);
    assert_eq!(searchable_value(&Value::Edge(7)).as_deref(), Some("7"));
}

#[test]
fn labels_are_counted_in_order() {
    let labels: Vec<String> = ["b", "a", "b", "c", "a"].iter().map(|l| l.to_string()).collect();
    let pairs = |items: &[(&str, usize)]| -> Vec<(String, usize)> {
        items.iter().map(|(label, count)| (label.to_string(), *count)).collect()
    };
    assert_eq!(count_labels(&labels), pairs(&[("a", 2), ("b", 2), ("c", 1)]));
    assert_eq!(count_by_label(&labels), pairs(&[("a", 2), ("b", 2), ("c", 1)]));
    assert!(text_is_leq("a", "ab") && !text_is_leq("b", "ab"));
}

#[test]
fn numbers_have_digits() {
    assert_eq!(decimal_text(0), "0");
    assert_eq!(decimal_text(u64::MAX), "18446744073709551615");
    assert_eq!(signed_text(i64::MIN), "-9223372036854775808");
    assert_eq!(format_count(1_234_567), "1,234,567");
    assert_eq!(format_count(999), "999");
    assert_eq!(hex_text(0xab, 4), "00ab");
    assert_eq!(padded_text(7, 2), "07");
}

#[test]
fn texts_are_cut_split_and_joined() {
    assert_eq!(trim_text(" \t a b\n"), "a b");
    assert!(text_is_blank(" \u{a0}\n") && !text_is_blank("x"));
    assert_eq!(split_text("a//b", Separator::Slash), vec!["a", "", "b"]);
    assert_eq!(split_nonempty("a, b-c_d é", Separator::NonWord), vec!["a", "b", "c_d", "é"]);
    assert_eq!(join_texts(&vec!["a".into(), "b".into()], "; "), "a; b");
    assert_eq!(normalize_whitespace(" a \n\t b "), "a b");
    assert_eq!(truncate_text("abcdef", 4), "abc…");
    assert_eq!(truncate_text("abc", 4), "abc");
    assert_eq!(prefix_within("aé", 2), "a");
    assert_eq!(truncate_utf8("aé", 2), "a…");
    assert_eq!(truncate_utf8("aé", 3), "aé");
    assert_eq!(ascii_lowercase("AbÉ"), "abÉ");
    assert_eq!(space_underscores("a_b"), "a b");
    assert!(starts_with_text("abc", "ab") && !starts_with_text("abc", "b"));
    assert!(ends_with_text("abc", "bc") && !ends_with_text("abc", "ab"));
}

#[test]
fn search_reports_print_one_line_per_hit() {
    let read = data();
    let plan = SearchPlanReport {
        strategy: "Exact".into(),
        estimated_vectors: 4,
        estimated_floats: 16,
        candidate_vectors: 4,
    };
    assert_eq!(
        plan_lines(&plan, VectorTarget::Both, &None),
        vec![
            "strategy\tExact",
            "target\tBoth",
            "label\t*",
            "estimated_vectors\t4",
            "estimated_floats\t16",
            "candidate_vectors\t4",
        ]
    );
    let near = vec![
        ScoredNode { score: "0.900000".into(), node: 4 },
        ScoredNode { score: "0.100000".into(), node: 9 },
    ];
    let out = range_lines(&read, "Exact", 2, 3, &near);
    assert_eq!(
        out.lines,
        vec![
            "strategy\tExact",
            "candidate_nodes\t2",
            "candidate_vectors\t3",
            "0.900000\tnode\t4\tPerson\tnode:0:Person",
        ]
    );
    assert_eq!(out.failure.as_deref(), Some("matched node disappeared"));
    let facets = vec![
        FacetHit {
            score: "0.500000".into(),
            element: ElementRef::Node(0),
            matched: vec![1, 0],
        },
        FacetHit { score: "0.400000".into(), element: ElementRef::Edge(2), matched: vec![] },
    ];
    let out = facet_lines(&read, &facets);
    assert_eq!(
        out.lines,
        vec![
            "0.500000\tnode\t0\tPerson\tAda\tfacets=1,0",
            "0.400000\tedge\t2\tKNOWS\t0 -> 4\tfacets=",
        ]
    );
    assert!(out.failure.is_none());
    let paths = vec![
        SemanticHit { score: "0.700000".into(), seed: 0, node: 4, path: vec![2, 8] },
        SemanticHit { score: "0.600000".into(), seed: 0, node: 7, path: vec![] },
    ];
    assert_eq!(
        semantic_lines(&read, &paths),
        vec!["0.700000\tseed=0\tnode=4\thops=2\tpath=KNOWS\tPerson\tnode:0:Person"]
    );
}

#[test]
fn pattern_reports_print_both_ends_and_the_relationship() {
    let read = data();
    let pattern = PatternMatch { start: 0, edge: 2, end: 4 };
    let out = query_lines(&read, &vec![pattern]);
    assert_eq!(out.lines, vec!["0:Person Ada -[2:KNOWS]-> 4:Person node:0:Person"]);
    assert!(out.failure.is_none());
    let gone = query_lines(&read, &vec![PatternMatch { start: 0, edge: 3, end: 4 }]);
    assert!(gone.lines.is_empty());
    assert_eq!(gone.failure.as_deref(), Some("matched edge disappeared"));
    let found = vec![SemanticMatch {
        pattern,
        score: "0.800000".into(),
        start_score: "0.900000".into(),
        edge_score: None,
        end_score: Some("0.700000".into()),
    }];
    assert_eq!(
        semantic_query_lines(&read, &found).lines,
        vec![
            "0.800000\tstart=0.900000\tedge=-\tend=0.700000\t\
             0:Person Ada -[2:KNOWS]-> 4:Person node:0:Person",
        ]
    );
}
