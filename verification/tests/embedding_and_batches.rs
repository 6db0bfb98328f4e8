use vecgra_studio::benchmark::{
    check_expansion, check_selection, count_distinct, decode_row, matrix_shape, plan_queries,
    recall, recall_hits, recall_ids, sample_queries, stored_progress, strided_ids,
    target_elements, truth_row, QueryBenchmark, Share,
};
use vecgra_studio::commands::VectorTarget;
use vecgra_studio::embedder::{
    create_embedder, document_pause, embedder_kind, exhausted, plan_query, query_embedding,
    query_input, query_pause, Embedder, EmbedderKind, QueryPlan,
};
use vecgra_studio::embedding::{
    features, ordered_embeddings, validate_dimension, validate_vector, EmbeddingDatum, Feature,
};
use vecgra_studio::embedding_cache::{
    batch_count, batch_failure, batch_progress, batch_range, gather, worker_batches, BatchResult,
    EmbeddingCache,
};
use vecgra_studio::graph::ElementRef;
use vecgra_studio::jsonl::{
    accept_metadata, convert_properties, find_records, finish_metadata, invalid_line,
    is_record, refused_line, Endpoint, ExistingNode, ExternalId, JsonBatch,
};
use vecgra_studio::json::{parse_json_scalar, JsonValue};
use vecgra_studio::graph::Value;

/// Turns features into a unit vector.
fn unit(features: &[Feature], dimension: usize) -> Vec<f32> {
    let mut vector = vec![0.0f32; dimension];
    for feature in features {
        let weight = if feature.whole { 1.0 } else { 0.2 };
        vector[feature.slot] += if feature.negative { -weight } else { weight };
    }
    let length = vector.iter().map(|v| v * v).sum::<f32>().sqrt();
    if length > 0.0 {
        for value in &mut vector {
            *value /= length;
        }
    }
    vector
}

fn dot(left: &[f32], right: &[f32]) -> f32 {
    left.iter().zip(right).map(|(a, b)| a * b).sum()
}

#[test]
fn hash_vectors_are_normalized_and_related_tokens_overlap() {
    let first = unit(&features("rust function parser", 128), 128);
    let second = unit(&features("parser function declaration", 128), 128);
    let unrelated = unit(&features("database transaction checksum", 128), 128);
    assert!((dot(&first, &first) - 1.0).abs() < 0.000_1);
    assert!(dot(&first, &second) > dot(&first, &unrelated));
}

#[test]
fn feature_vectors_are_normalized_and_related_tokens_overlap() {
    let first = unit(&features("rust function parser", 128), 128);
    let second = unit(&features("parser function declaration", 128), 128);
    let unrelated = unit(&features("database transaction checksum", 128), 128);
    assert!((dot(&first, &first) - 1.0).abs() < 0.000_1);
    assert!(dot(&first, &second) > dot(&first, &unrelated));
    assert!(features("rust", 7).iter().all(|f| f.slot < 7));
    assert!(features("rust", 0).is_empty());
}

#[test]
fn cache_deduplicates_texts() {
    let embedder = create_embedder("hash", 64, 16, &None, &None).unwrap();
    let mut cache = EmbeddingCache::new(embedder.dimension());
    let texts = vec!["same".to_string(), "same".to_string(), "different".to_string()];
    let missing = cache.missing(&texts);
    assert_eq!(missing, vec!["same", "different"]);
    let vectors: Vec<Vec<u32>> = missing
        .iter()
        .map(|text| unit(&features(text, 64), 64).iter().map(|v| v.to_bits()).collect())
        .collect();
    cache.keep(missing, &vectors).unwrap();
    assert_eq!(cache.embedded_texts(), 2);
    assert_eq!(cache.vector("same").unwrap(), vectors[0]);
    assert_eq!(
        cache.vector("other").unwrap_err(),
        "embedding was not prepared for \"other\""
    );
    assert_eq!(
        cache.keep(vec!["third".into()], &vec![]).unwrap_err(),
        "embedder returned 0 vectors for 1 inputs"
    );
    assert_eq!(
        cache.keep(vec!["third".into()], &vec![vec![0]]).unwrap_err(),
        "embedding dimension 1 does not match requested dimension 64"
    );
}

#[test]
fn embedders_are_created_by_name() {
    assert!(matches!(embedder_kind("hash"), Ok(EmbedderKind::Hash)));
    assert!(matches!(embedder_kind("qwen/qwen3-embedding-8b"), Ok(EmbedderKind::Qwen)));
    assert_eq!(
        embedder_kind("word2vec").unwrap_err(),
        "unknown embedder \"word2vec\"; expected hash, qwen, or qwen/qwen3-embedding-8b"
    );
    let hash = create_embedder("hash", 64, 16, &None, &None).unwrap();
    assert!(matches!(hash, Embedder::Hash(_)));
    assert_eq!(hash.dimension(), 64);
    assert_eq!(
        create_embedder("hash", 0, 16, &None, &None).unwrap_err(),
        "embedding dimension must be greater than zero"
    );
    let key = Some("key".to_string());
    assert_eq!(
        create_embedder("qwen", 4_097, 16, &key, &None).unwrap_err(),
        "Qwen embedding dimension must be between 1 and 4096"
    );
    assert_eq!(
        create_embedder("qwen", 64, 16, &None, &None).unwrap_err(),
        "OPENROUTER_API_KEY must be set when using the qwen embedder"
    );
    assert_eq!(
        create_embedder("qwen", 64, 16, &Some(" ".into()), &None).unwrap_err(),
        "OPENROUTER_API_KEY is empty"
    );
    assert_eq!(
        create_embedder("qwen", 64, 16, &key, &Some("x".into())).unwrap_err(),
        "invalid VECGRA_EMBEDDING_CONCURRENCY: invalid digit found in string"
    );
    match create_embedder("qwen", 64, 0, &key, &Some("99".into())) {
        Ok(Embedder::OpenRouter(embedder)) => {
            assert_eq!(embedder.request_batch_size, 1);
            assert_eq!(embedder.concurrency, 32);
        }
        other => panic!("{other:?}"),
    }
    match create_embedder("qwen", 64, 8, &key, &None) {
        Ok(Embedder::OpenRouter(embedder)) => assert_eq!(embedder.concurrency, 4),
        other => panic!("{other:?}"),
    }
    assert!(matches!(plan_query("hash", 8, "q", &None), Ok(QueryPlan::Hash)));
    assert_eq!(
        plan_query("hash", 0, "q", &None).unwrap_err(),
        "embedding dimension must be greater than zero"
    );
    assert_eq!(
        plan_query("qwen", 8, "q", &None).unwrap_err(),
        "OPENROUTER_API_KEY must be set for Qwen semantic search"
    );
    assert_eq!(
        query_input("rust"),
        "Instruct: Retrieve graph elements relevant to the query\nQuery: rust"
    );
}

#[test]
fn retries_grow_and_end() {
    assert_eq!(document_pause(0), Some(500));
    assert_eq!(document_pause(3), Some(4_000));
    assert_eq!(document_pause(4), None);
    assert_eq!(query_pause(0), Some(350));
    assert_eq!(query_pause(1), Some(700));
    assert_eq!(query_pause(2), None);
    assert_eq!(
        exhausted(true, Some("timeout")),
        "OpenRouter embedding request failed after retries: timeout"
    );
    assert_eq!(exhausted(false, None), "OpenRouter embedding request failed: unknown error");
}

#[test]
fn replies_are_put_in_order_and_checked() {
    let datum = |index: usize, value: f32| EmbeddingDatum {
        index,
        embedding: vec![value.to_bits(), 0],
    };
    let ordered = ordered_embeddings(&vec![datum(1, 2.0), datum(0, 1.0)], 2, 2).unwrap();
    assert_eq!(ordered[0][0], 1.0f32.to_bits());
    assert_eq!(ordered[1][0], 2.0f32.to_bits());
    assert_eq!(
        ordered_embeddings(&vec![datum(0, 1.0)], 2, 2).unwrap_err(),
        "OpenRouter returned 1 embeddings for 2 inputs"
    );
    assert_eq!(
        ordered_embeddings(&vec![datum(0, 1.0), datum(0, 2.0)], 2, 2).unwrap_err(),
        "OpenRouter returned duplicate input index 0"
    );
    assert_eq!(
        ordered_embeddings(&vec![datum(0, 1.0), datum(5, 2.0)], 2, 2).unwrap_err(),
        "OpenRouter returned invalid input index 5"
    );
    assert_eq!(
        ordered_embeddings(&vec![datum(0, 1.0), datum(1, 2.0)], 2, 3).unwrap_err(),
        "embedding dimension 2 does not match requested dimension 3"
    );
    assert!(validate_dimension(&vec![0, 0], 2).is_ok());
    assert_eq!(
        validate_dimension(&vec![f32::INFINITY.to_bits()], 1).unwrap_err(),
        "embedding contains a non-finite value"
    );
    assert_eq!(
        validate_vector(&vec![0], 2).unwrap_err(),
        "embedding dimension 1 does not match database dimension 2"
    );
    assert_eq!(
        validate_vector(&vec![f32::NAN.to_bits(), 0], 2).unwrap_err(),
        "embedding contains a non-finite value"
    );
    assert_eq!(query_embedding(&vec![datum(1, 2.0), datum(0, 1.0)], 2).unwrap()[0], 1.0f32.to_bits());
    assert_eq!(
        query_embedding(&vec![datum(1, 2.0)], 2).unwrap_err(),
        "OpenRouter returned no query embedding"
    );
}

#[test]
fn batches_cover_the_texts_once() {
    assert_eq!(batch_count(10, 4), 3);
    assert_eq!(batch_range(0, 4, 10), (0, 4));
    assert_eq!(batch_range(2, 4, 10), (8, 10));
    let mut taken: Vec<usize> = Vec::new();
    for worker in 0..4 {
        taken.extend(worker_batches(worker, 4, 10));
    }
    taken.sort();
    assert_eq!(taken, (0..10).collect::<Vec<usize>>());
    assert_eq!(batch_failure(3, "io"), "embedding batch 3 failed: io");
    assert_eq!(batch_progress(10, 25), Some("embedded 10/25 batches".to_string()));
    assert_eq!(batch_progress(11, 25), None);
    assert_eq!(batch_progress(25, 25), Some("embedded 25/25 batches".to_string()));
    let results = vec![
        BatchResult { batch: 1, result: Ok(vec![vec![2]]) },
        BatchResult { batch: 0, result: Ok(vec![vec![1]]) },
    ];
    assert_eq!(gather(&results, 2).unwrap(), vec![vec![1], vec![2]]);
    let failing = vec![
        BatchResult { batch: 0, result: Ok(vec![vec![1]]) },
        BatchResult { batch: 1, result: Err("broken".into()) },
    ];
    assert_eq!(gather(&failing, 2).unwrap_err(), "broken");
    let lost = vec![BatchResult { batch: 1, result: Ok(vec![vec![2]]) }];
    assert_eq!(gather(&lost, 2).unwrap_err(), "embedding batch 0 was lost");
}

#[test]
fn matrices_are_read_little_endian() {
    let header = vec![2, 0, 0, 0, 3, 0, 0, 0];
    assert_eq!(matrix_shape(&header, 8 + 24, 4, "a.fbin").unwrap(), (2, 3));
    assert!(matrix_shape(&header, 8 + 23, 4, "a.fbin").is_err());
    let mut row: Vec<u8> = Vec::new();
    for value in [1.5f32, -2.0, 0.25] {
        row.extend(value.to_le_bytes());
    }
    assert_eq!(
        decode_row(&row),
        vec![1.5f32.to_bits(), (-2.0f32).to_bits(), 0.25f32.to_bits()]
    );
    let truth: Vec<u8> = [7u32, 1, 9].iter().flat_map(|n| n.to_le_bytes()).collect();
    assert_eq!(truth_row(&truth, 2), vec![7, 1]);
    assert!(stored_progress(1, 10, false).is_none());
}

#[test]
fn benchmarks_count_agreement() {
    let node = ElementRef::Node;
    assert_eq!(
        recall_ids(&vec![node(1), node(2), ElementRef::Edge(3)], &vec![1, 3]),
        Share { part: 1, whole: 2 }
    );
    let exact = vec![node(1), node(2), node(2)];
    assert_eq!(recall(&exact, &exact), Share { part: 3, whole: 3 });
    assert_eq!(count_distinct(&exact), 2);
    assert_eq!(
        recall_hits(&vec![node(1)], &vec![node(1), node(5)]).part,
        1
    );
    assert_eq!(strided_ids(10, 4), vec![0, 4, 8]);
    assert_eq!(
        target_elements(VectorTarget::Edges, &vec![1], &vec![2]).unwrap(),
        vec![ElementRef::Edge(2)]
    );
    assert_eq!(
        plan_queries(10, 4, 8, 5, None, 3).unwrap_err(),
        "query dimension 4 does not match database dimension 8"
    );
    assert_eq!(
        plan_queries(10, 8, 8, 5, Some((5, 2)), 3).unwrap_err(),
        "ground-truth matrix shape does not match queries/k"
    );
    assert_eq!(plan_queries(10, 8, 8, 5, Some((5, 3)), 3).unwrap(), 5);
    assert!(check_expansion(5, 5, 0).is_ok());
    assert_eq!(
        check_expansion(5, 5, 1).unwrap_err(),
        "node-only expansion disagrees with full expansion"
    );
    assert!(check_selection(1).is_ok());
    assert_eq!(check_selection(0).unwrap_err(), "numeric range selected no nodes");
    assert!(sample_queries(&vec![false, false], 3).is_err());
    let lines = QueryBenchmark {
        open_ms: "1.0".into(),
        iterations: 3,
        result_count: 2,
        query_min_ms: "0.1".into(),
        query_p50_ms: "0.2".into(),
        query_p95_ms: "0.3".into(),
        query_max_ms: "0.4".into(),
    }
    .lines();
    assert_eq!(lines[0], "open_ms\t1.0");
    assert!(lines.contains(&"iterations\t3".to_string()));
}

#[test]
fn batch_names_resolve_to_recorded_nodes() {
    let mut batch = JsonBatch::new();
    let name = ExternalId::String("a".into());
    assert!(batch.accept_node(&name, &vec![]).is_ok());
    batch.record_node(ExternalId::String("a".into()), 41, 2);
    assert_eq!(batch.accept_node(&name, &vec![]).unwrap_err(), "duplicate node id \"a\"");
    assert_eq!(batch.find(&name), Some(41));
    let end = Endpoint::Batch(ExternalId::String("a".into()));
    assert_eq!(batch.resolve(&end, ExistingNode::Unavailable).unwrap(), 41);
    let missing = Endpoint::Batch(ExternalId::String("missing".into()));
    assert_eq!(
        batch.resolve(&missing, ExistingNode::Unavailable).unwrap_err(),
        "edge endpoint \"missing\" does not name a node in this batch"
    );
    let stored = Endpoint::Existing { node: 99 };
    assert_eq!(
        batch.resolve(&stored, ExistingNode::Missing).unwrap_err(),
        "existing node 99 was not found"
    );
    assert_eq!(batch.resolve(&stored, ExistingNode::Found(99)).unwrap(), 99);
    assert_eq!(
        batch.resolve(&stored, ExistingNode::Unavailable).unwrap_err(),
        "existing node references require append-jsonl"
    );
    let edge = batch
        .accept_edge(&end, &stored, ExistingNode::Unavailable, ExistingNode::Found(99), &vec![])
        .unwrap();
    assert_eq!((edge.source, edge.target), (41, 99));
    batch.record_edge(1);
    assert_eq!((batch.stats.nodes, batch.stats.edges, batch.stats.indexed_vectors), (1, 1, 3));
    assert!(ExternalId::Unsigned(3).same(&ExternalId::Unsigned(3)));
    assert_eq!(ExternalId::Signed(-3).shown(), "-3");
}

#[test]
fn properties_must_be_scalars() {
    let properties = vec![
        ("title".to_string(), JsonValue::String("Alpha".into())),
        ("n".to_string(), JsonValue::Number(Some(-4), None)),
    ];
    let converted = convert_properties(&properties).unwrap();
    assert!(matches!(&converted[0].1, Value::String(s) if s == "Alpha"));
    assert!(matches!(converted[1].1, Value::Int(-4)));
    assert_eq!(
        convert_properties(&vec![("a".to_string(), JsonValue::Array)]).unwrap_err(),
        "property \"a\" must be a null, boolean, number, or string"
    );
    assert!(convert_properties(&vec![("a".to_string(), JsonValue::Object)]).is_err());
    assert_eq!(
        convert_properties(&vec![("a\t".to_string(), JsonValue::Number(None, None))]).unwrap_err(),
        "property \"a\\t\" is outside the numeric range"
    );
}

#[test]
fn json_scalars_are_parsed() {
    assert!(matches!(parse_json_scalar("true"), Ok(Value::Bool(true))));
    assert!(matches!(parse_json_scalar("42"), Ok(Value::Int(42))));
    assert!(matches!(parse_json_scalar("null"), Ok(Value::Null)));
    assert!(matches!(parse_json_scalar("\"a\\nb\""), Ok(Value::String(s)) if s == "a\nb"));
    match parse_json_scalar("1.5") {
        Ok(Value::Float(f)) => {
            assert_eq!(f.bits, 1.5f64.to_bits());
            assert_eq!(f.shortest, "1.5");
        }
        other => panic!("{other:?}"),
    }
    assert!(parse_json_scalar("[1]").is_err());
    assert!(parse_json_scalar("{\"a\":1}").is_err());
    assert!(parse_json_scalar("nope").is_err());
}

#[test]
fn lines_are_numbered_and_blank_ones_skipped() {
    let lines = vec!["{}".to_string(), "  ".to_string(), "{}".to_string()];
    assert_eq!(find_records(&lines), vec![0, 2]);
    assert!(is_record("{}") && !is_record(" \t"));
    assert_eq!(invalid_line("nodes.jsonl", 3, "eof"), "nodes.jsonl:3: invalid JSON: eof");
    assert_eq!(refused_line("nodes.jsonl", 3, "twice"), "nodes.jsonl:3: twice");
    assert!(accept_metadata(1, 2, "v.fbin").is_ok());
    assert_eq!(
        accept_metadata(2, 2, "v.fbin").unwrap_err(),
        "metadata has more records than the 2 vectors in v.fbin"
    );
    assert!(finish_metadata(2, 2, "m.jsonl", "v.fbin").is_ok());
    assert_eq!(
        finish_metadata(1, 2, "m.jsonl", "v.fbin").unwrap_err(),
        "m.jsonl has 1 metadata records but v.fbin contains 2 vectors"
    );
}
