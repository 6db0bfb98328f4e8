use vecgra_studio::embedding_cache::EmbeddingCache;
use vecgra_studio::engineering::{embedding_payload, EngineeringGraph, GraphNode};
use vecgra_studio::fields::{
    datetime_properties, short_oid, stored_text, text_summary, title_body_embeddings,
};
use vecgra_studio::github::{
    cache_file_name, cli_token, connection_nodes, crawl_discussions, crawl_issues,
    crawl_pull_requests, crawl_releases, fallback_cache_name, fingerprint_of, missing_repository,
    open_envelope, parse_repository, request_fingerprint, retry_delay, temporary_file_name,
    unreadable_reply, usable_token, Crawl, CrawlKind, Reply,
};
use vecgra_studio::github_data::{
    Actor, Answer, ChangedFile, Comment, Commit, CommitAuthor, Connection, Discussion,
    DiscussionCategory, Issue, Label, Milestone, PageInfo, PullRequest, PullRequestCommit, Release,
    Repository, Review, TagCommit,
};
use vecgra_studio::github_items::{add_issue, add_pull_request, add_release};
use vecgra_studio::github_model::{add_repository, ensure_actor, repository_key};
use vecgra_studio::github_report::{
    embedding_notice, existing_destination, github_lines, ImportSummary,
};
use vecgra_studio::graph::{GraphStats, Value};
use vecgra_studio::hash::fnv1a;
use vecgra_studio::json::{page_variables, repository_variables, Scalar};
use vecgra_studio::text::truncate_utf8;

fn info(next: bool, cursor: Option<&str>) -> PageInfo {
    PageInfo { has_next_page: next, end_cursor: cursor.map(|c| c.to_string()) }
}

fn connection<T>(nodes: Vec<T>) -> Connection<T> {
    Connection { total_count: nodes.len(), nodes, page_info: info(false, None) }
}

fn actor(login: &str) -> Actor {
    Actor {
        login: login.to_string(),
        avatar_url: format!("https://avatars/{login}"),
        url: format!("https://github.com/{login}"),
    }
}

fn repository() -> Repository {
    Repository {
        id: "R1".into(),
        name: "zed".into(),
        name_with_owner: "zed-industries/zed".into(),
        description: Some("Code at the speed of thought".into()),
        url: "https://github.com/zed-industries/zed".into(),
        created_at: "2021-02-20T03:01:06Z".into(),
        updated_at: "2024-01-01T00:00:00Z".into(),
        stargazer_count: 5,
        fork_count: 2,
        is_archived: false,
        is_fork: false,
        primary_language: Some("Rust".into()),
        repository_topics: vec!["Editor".into(), "rust".into()],
        issue_total: 1,
        pull_request_total: 1,
        discussion_total: 1,
        release_total: 1,
    }
}

fn comment(id: &str, replies: Vec<Comment>) -> Comment {
    Comment {
        id: id.to_string(),
        body_text: format!("body of {id}"),
        url: format!("https://github.com/c/{id}"),
        created_at: "2024-01-01T00:00:00Z".into(),
        updated_at: "2024-01-02T00:00:00Z".into(),
        author: Some(actor("carol")),
        replies,
    }
}

fn issue(id: &str, closed_by: Vec<PullRequest>) -> Issue {
    Issue {
        id: id.to_string(),
        number: 7,
        title: "Crash on start".into(),
        body_text: "It crashes.".into(),
        url: "https://github.com/zed-industries/zed/issues/7".into(),
        state: "OPEN".into(),
        created_at: "2024-01-01T00:00:00Z".into(),
        updated_at: "2024-01-02T00:00:00Z".into(),
        closed_at: None,
        author: Some(actor("alice")),
        assignees: connection(vec![actor("bob")]),
        labels: connection(vec![Label {
            id: "L1".into(),
            name: "bug".into(),
            color: "red".into(),
            description: None,
            url: "https://github.com/l/bug".into(),
        }]),
        milestone: Some(Milestone {
            id: "M1".into(),
            number: 1,
            title: "1.0".into(),
            description: None,
            state: "OPEN".into(),
            due_on: None,
            created_at: "2024-01-01T00:00:00Z".into(),
            updated_at: "2024-01-02T00:00:00Z".into(),
            url: "https://github.com/m/1".into(),
        }),
        comments: connection(vec![comment("IC1", vec![])]),
        closed_by_pull_requests: closed_by,
    }
}

fn pull_request(id: &str) -> PullRequest {
    PullRequest {
        id: id.to_string(),
        number: 8,
        title: "Fix crash".into(),
        body_text: "Fixes it.".into(),
        url: "https://github.com/zed-industries/zed/pull/8".into(),
        state: "MERGED".into(),
        is_draft: false,
        merged: true,
        created_at: "2024-01-01T00:00:00Z".into(),
        updated_at: "2024-01-02T00:00:00Z".into(),
        closed_at: Some("2024-01-03T00:00:00Z".into()),
        merged_at: Some("2024-01-03T00:00:00Z".into()),
        additions: 3,
        deletions: 1,
        changed_files: 1,
        base_ref_name: "main".into(),
        head_ref_name: "fix".into(),
        author: Some(actor("alice")),
        assignees: connection(vec![]),
        labels: connection(vec![]),
        milestone: None,
        comments: connection(vec![]),
        reviews: connection(vec![Review {
            id: "RV1".into(),
            body_text: "Nice".into(),
            url: "https://github.com/r/1".into(),
            state: "APPROVED".into(),
            submitted_at: Some("2024-01-02T00:00:00Z".into()),
            created_at: "2024-01-02T00:00:00Z".into(),
            updated_at: "2024-01-02T00:00:00Z".into(),
            author: Some(actor("bob")),
        }]),
        commits: connection(vec![PullRequestCommit {
            commit: Commit {
                id: "C1".into(),
                oid: "0123456789abcdef".into(),
                message_headline: "Fix".into(),
                message_body: "".into(),
                url: "https://github.com/commit/1".into(),
                authored_date: "2024-01-01T00:00:00Z".into(),
                committed_date: "2024-01-01T00:00:00Z".into(),
                author: Some(CommitAuthor { name: Some("Alice".into()), user: Some(actor("alice")) }),
            },
        }]),
        files: connection(vec![ChangedFile {
            path: "src/main.rs".into(),
            additions: 3,
            deletions: 1,
            change_type: "MODIFIED".into(),
        }]),
        closing_issues: vec![],
    }
}

fn discussion(id: &str) -> Discussion {
    Discussion {
        id: id.to_string(),
        number: 9,
        title: "How to?".into(),
        body_text: "Question".into(),
        url: "https://github.com/d/9".into(),
        created_at: "2024-01-01T00:00:00Z".into(),
        updated_at: "2024-01-02T00:00:00Z".into(),
        closed: false,
        locked: false,
        author: None,
        category: DiscussionCategory {
            id: "DC1".into(),
            name: "Q&A".into(),
            description: None,
            emoji: ":question:".into(),
        },
        answer: Some(Answer { id: "A1".into() }),
        comments: connection(vec![comment("A1", vec![comment("A2", vec![])])]),
    }
}

fn release(id: &str) -> Release {
    Release {
        id: id.to_string(),
        name: None,
        tag_name: "v1".into(),
        description: Some("First".into()),
        url: "https://github.com/rel/1".into(),
        created_at: "2024-01-01T00:00:00Z".into(),
        published_at: Some("2024-01-02T00:00:00Z".into()),
        updated_at: "2024-01-02T00:00:00Z".into(),
        is_draft: false,
        is_prerelease: true,
        author: Some(actor("alice")),
        tag_commit: Some(TagCommit { oid: "0123456789abcdef".into(), url: "u".into() }),
    }
}

fn linked(graph: &EngineeringGraph, source: &str, label: &str, target: &str) -> bool {
    graph
        .edges
        .iter()
        .any(|e| e.source == source && e.label == label && e.target == target)
}

#[test]
fn repository_parser_accepts_slug_and_url() {
    assert_eq!(
        parse_repository("zed-industries/zed").unwrap(),
        ("zed-industries".into(), "zed".into())
    );
    assert_eq!(
        parse_repository("https://github.com/zed-industries/zed.git").unwrap(),
        ("zed-industries".into(), "zed".into())
    );
    assert!(parse_repository("not-enough").is_err());
}

#[test]
fn graph_upgrades_stubs_and_deduplicates_relationships() {
    let mut graph = EngineeringGraph::default();
    graph.upsert_node(
        "issue:1".into(),
        GraphNode::new("Issue", Vec::new(), vec!["stub".into()], "stub".into()),
        1,
    );
    graph.upsert_node(
        "issue:1".into(),
        GraphNode::new("Issue", Vec::new(), vec!["full".into()], "full".into()),
        3,
    );
    graph.upsert_node(
        "user:a".into(),
        GraphNode::new("User", Vec::new(), vec!["a".into()], "a".into()),
        2,
    );
    graph.add_edge("user:a", "issue:1", "AUTHORED", Vec::new(), "a authored issue".into());
    graph.add_edge("user:a", "issue:1", "AUTHORED", Vec::new(), "duplicate".into());

    assert_eq!(graph.nodes.len(), 2);
    assert_eq!(graph.nodes[0].summary, "full");
    assert_eq!(graph.edges.len(), 1);
}

#[test]
fn utf8_truncation_preserves_boundaries() {
    let value = "hello 🦀 graph";
    let truncated = truncate_utf8(value, 8);
    assert!(truncated.is_char_boundary(truncated.len()));
    assert!(truncated.ends_with('…'));
}

#[test]
fn github_connections_tolerate_deleted_null_nodes() {
    let parsed: serde_json::Value = serde_json::from_str(
        r#"{"totalCount":3,"nodes":[{"name":"one"},null,{"name":"two"}]}"#,
    )
    .unwrap();
    let nodes: Vec<Option<String>> = parsed["nodes"]
        .as_array()
        .unwrap()
        .iter()
        .map(|node| node.get("name").and_then(|name| name.as_str()).map(|name| name.to_string()))
        .collect();
    let connection = Connection {
        total_count: parsed["totalCount"].as_u64().unwrap() as usize,
        nodes: connection_nodes(Some(nodes)),
        page_info: info(false, None),
    };
    assert_eq!(connection.total_count, 3);
    assert_eq!(connection.nodes.len(), 2);
    assert_eq!(connection.nodes, vec!["one".to_string(), "two".to_string()]);
    assert!(connection_nodes::<String>(None).is_empty());
}

#[test]
fn cache_fingerprint_includes_query_and_variables() {
    let first = request_fingerprint(
        "query",
        &vec![("first".to_string(), Scalar::Number(5)), ("after".to_string(), Scalar::Null)],
    );
    let different_page = request_fingerprint(
        "query",
        &vec![
            ("first".to_string(), Scalar::Number(5)),
            ("after".to_string(), Scalar::Text("cursor".to_string())),
        ],
    );
    let different_shape =
        request_fingerprint("lite query", &vec![("first".to_string(), Scalar::Number(5))]);
    assert_ne!(first, different_page);
    assert_ne!(first, different_shape);
}

#[test]
fn fingerprints_hash_the_query_and_the_written_variables() {
    let variables = page_variables("o", "n", 5, &None);
    assert_eq!(
        request_fingerprint("query", &variables),
        fingerprint_of("query", r#"{"after":null,"first":5,"name":"n","owner":"o"}"#)
    );
    assert_eq!(fingerprint_of("ab", "c"), fnv1a("abc".as_bytes()));
    assert_eq!(fnv1a("".as_bytes()), 0xcbf29ce484222325);
    assert_eq!(fnv1a("a".as_bytes()), 0xaf63dc4c8601ec8c);
    let plain = repository_variables("o\"", "n");
    assert_eq!(
        request_fingerprint("", &plain),
        fnv1a(r#"{"name":"n","owner":"o\""}"#.as_bytes())
    );
}

#[test]
fn cached_replies_have_stable_names() {
    assert_eq!(cache_file_name("issues-1", 0xab), "issues-1-00000000000000ab.json");
    assert_eq!(temporary_file_name("issues-1", 42), ".issues-1.42.tmp");
    assert_eq!(fallback_cache_name(Some("zed.vg")), "zed.vg.github-cache");
    assert_eq!(fallback_cache_name(None), "vecgra.github-cache");
}

#[test]
fn only_throttled_and_failing_requests_are_repeated() {
    assert_eq!(retry_delay(0, Some(429)), Some(250));
    assert_eq!(retry_delay(3, Some(503)), Some(2_000));
    assert_eq!(retry_delay(4, Some(503)), None);
    assert_eq!(retry_delay(0, Some(404)), None);
    assert_eq!(retry_delay(0, Some(600)), None);
    assert_eq!(retry_delay(0, None), None);
}

#[test]
fn envelopes_give_data_or_a_message() {
    assert!(matches!(open_envelope(&vec![], Some(7)), Reply::Data(7)));
    match open_envelope::<u8>(&vec!["a".to_string(), "b".to_string()], Some(1)) {
        Reply::Failed { message, discard } => {
            assert_eq!(message, "GitHub GraphQL request failed: a; b");
            assert!(discard);
        }
        Reply::Data(_) => panic!("errors win over data"),
    }
    match open_envelope::<u8>(&vec![], None) {
        Reply::Failed { message, discard } => {
            assert_eq!(message, "GitHub GraphQL response did not contain data");
            assert!(!discard);
        }
        Reply::Data(_) => panic!("there is no data"),
    }
    assert_eq!(
        unreadable_reply("a.json", "eof"),
        "invalid GitHub response a.json: eof; discarded it so the crawl can retry"
    );
    assert_eq!(missing_repository("o", "n"), "GitHub repository o/n was not found");
}

#[test]
fn tokens_come_from_the_first_variable_that_is_set() {
    assert_eq!(
        usable_token(&vec![None, Some("  ".to_string()), Some(" t ".to_string())]),
        Some(" t ".to_string())
    );
    assert_eq!(usable_token(&vec![None, None]), None);
    assert_eq!(cli_token(true, " abc\n").unwrap(), "abc");
    assert_eq!(
        cli_token(true, " \n").unwrap_err(),
        "GitHub authentication returned an empty token"
    );
    assert_eq!(
        cli_token(false, "abc").unwrap_err(),
        "set GITHUB_TOKEN/GH_TOKEN or run `gh auth login`"
    );
}

#[test]
fn repositories_are_linked_to_their_topics() {
    let mut graph = EngineeringGraph::default();
    add_repository(&mut graph, &repository());
    let key = repository_key("R1");
    assert_eq!(key, "repository:R1");
    assert_eq!(graph.keys, vec!["repository:R1", "topic:editor", "topic:rust"]);
    assert_eq!(graph.nodes[0].label, "Repository");
    assert!(linked(&graph, &key, "HAS_TOPIC", "topic:editor"));
    assert_eq!(graph.edges[0].embedding_text, "zed-industries/zed has repository topic Editor");
    assert!(graph.edge_endpoints().is_ok());
    assert_eq!(graph.node_label_counts(), vec![("Repository".to_string(), 1), ("Topic".to_string(), 2)]);
}

#[test]
fn crawled_pages_link_every_item() {
    let mut graph = EngineeringGraph::default();
    add_repository(&mut graph, &repository());
    let key = repository_key("R1");

    let mut issues = Crawl::new(CrawlKind::Issues, 10);
    crawl_issues(&mut issues, &mut graph, &key, &connection(vec![issue("I1", vec![pull_request("P1")])]));
    let mut pulls = Crawl::new(CrawlKind::PullRequests, 10);
    assert_eq!(pulls.lite_name(), "pull-requests-lite-00000");
    assert_eq!(
        pulls.lite_notice("timeout"),
        "rich pull-request page 0 failed (timeout); continuing with its lite shape"
    );
    crawl_pull_requests(&mut pulls, &mut graph, &key, &connection(vec![pull_request("P1")]), true);
    let mut discussions = Crawl::new(CrawlKind::Discussions, 10);
    crawl_discussions(&mut discussions, &mut graph, &key, &connection(vec![discussion("D1")]));
    let mut releases = Crawl::new(CrawlKind::Releases, 10);
    crawl_releases(&mut releases, &mut graph, &key, &connection(vec![release("E1")]));

    assert!(graph.resolve_stubs());
    assert!(graph.edge_endpoints().is_ok());
    let labels: Vec<String> = graph.node_label_counts().into_iter().map(|c| c.0).collect();
    for label in ["Issue", "PullRequest", "Discussion", "Release", "User", "Commit"] {
        assert!(labels.contains(&label.to_string()), "{label} is missing from {labels:?}");
    }
    assert!(graph.edges.iter().any(|e| e.label == "AUTHORED"));
    assert!(graph.edges.iter().any(|e| e.label == "ASSIGNED_TO"));
    assert_eq!(issues.imported, 1);
    assert_eq!(releases.imported, 1);
    assert!(issues.finished);
    assert_eq!(graph.embedding_text_count(), graph.embedding_texts().len());

    let mut cache = EmbeddingCache::new(1);
    let missing = cache.missing(&graph.embedding_texts());
    let vectors: Vec<Vec<u32>> = missing.iter().map(|_| vec![0]).collect();
    cache.keep(missing, &vectors).unwrap();
    for node in &graph.nodes {
        assert!(node.embedding_texts.iter().all(|text| cache.vector(text).is_ok()));
    }
    assert!(graph.edges.iter().all(|edge| cache.vector(&edge.embedding_text).is_ok()));
}

#[test]
fn crawls_stop_at_their_limit_and_follow_cursors() {
    let mut crawl = Crawl::new(CrawlKind::Issues, 60);
    let first = crawl.next_request().unwrap();
    assert_eq!(first.first, CrawlKind::Issues.page_size().min(60));
    assert_eq!(first.after, None);
    let page = first.first;
    crawl.receive(page, &info(true, Some("c1")));
    let second = crawl.next_request().unwrap();
    assert_eq!(second.after, Some("c1".to_string()));
    assert_eq!(second.first, CrawlKind::Issues.page_size().min(60 - page));
    assert_ne!(second.cache_name, first.cache_name);
    crawl.receive(1, &info(false, None));
    assert!(crawl.next_request().is_none());

    assert!(Crawl::new(CrawlKind::Releases, 0).next_request().is_none());
}

#[test]
fn texts_are_cut_and_dated() {
    assert_eq!(short_oid("0123456789abcdef"), "01234567");
    assert_eq!(short_oid("01"), "01");
    assert_eq!(stored_text("plain"), "plain");
    assert_eq!(embedding_payload("  a \n b  "), "a \n b");
    assert_eq!(text_summary("  a \n b  "), "a b");
    let dated = datetime_properties("at", "at_ms", Some("1970-01-01T00:00:01.500+00:00"));
    assert_eq!(dated.len(), 2);
    assert!(matches!(&dated[0].1, Value::String(s) if s == "1970-01-01T00:00:01.500+00:00"));
    assert!(matches!(dated[1].1, Value::Int(1_500)));
    let undated = datetime_properties("at", "at_ms", Some("yesterday"));
    assert_eq!(undated.len(), 1);
    assert!(datetime_properties("at", "at_ms", None).is_empty());
    assert_eq!(title_body_embeddings("Issue", "T", " "), vec!["Issue: T"]);
    assert_eq!(title_body_embeddings("Issue", "T", "B"), vec!["Issue: T", "Issue T. B"]);
}

#[test]
fn actors_are_users_by_login() {
    let mut graph = EngineeringGraph::default();
    let key = ensure_actor(&mut graph, &actor("Alice"));
    let again = ensure_actor(&mut graph, &actor("Alice"));
    assert_eq!(key, again);
    assert_eq!(graph.nodes.len(), 1);
    assert_eq!(graph.nodes[0].label, "User");
}

#[test]
fn imports_print_a_summary() {
    let mut graph = EngineeringGraph::default();
    add_repository(&mut graph, &repository());
    let summary = ImportSummary {
        database: "zed.vg".into(),
        owner: "zed-industries".into(),
        name: "zed".into(),
        cache: "/tmp/cache".into(),
        issues: 1,
        pull_requests: 2,
        discussions: 3,
        releases: 4,
        stats: GraphStats { nodes: 3, edges: 2, labels: 3, indexed_vectors: 5, transactions: 1 },
        embedder: "hash".into(),
        embedded_texts: 5,
        elapsed_ms: 12,
    };
    assert_eq!(
        github_lines(&summary, &graph),
        vec![
            "database\tzed.vg",
            "source\thttps://github.com/zed-industries/zed",
            "cache\t/tmp/cache",
            "issues\t1",
            "pull_requests\t2",
            "discussions\t3",
            "releases\t4",
            "nodes\t3",
            "edges\t2",
            "vectors\t5",
            "embedder\thash",
            "unique_embedding_texts\t5",
            "elapsed_ms\t12",
            "node_label.Repository\t1",
            "node_label.Topic\t2",
            "edge_label.HAS_TOPIC\t2",
        ]
    );
    let notice = embedding_notice(&graph, "hash");
    assert_eq!(
        notice,
        format!(
            "embedding {} node/relationship payloads for 3 nodes and 2 edges with hash",
            graph.embedding_text_count()
        )
    );
    assert_eq!(existing_destination("a.vg"), "bulk-load destination already exists: a.vg");
}

#[test]
fn repeated_texts_of_a_graph_are_embedded_once() {
    let mut graph = EngineeringGraph::default();
    add_repository(&mut graph, &repository());
    let mut cache = EmbeddingCache::new(2);
    let missing = cache.missing(&graph.embedding_texts());
    let vectors: Vec<Vec<u32>> = missing.iter().map(|_| vec![0x3f80_0000, 0]).collect();
    cache.keep(missing, &vectors).unwrap();
    assert!(cache.missing(&graph.embedding_texts()).is_empty());
    assert!(cache.embedded_texts() <= graph.embedding_text_count());
}

#[test]
fn records_that_are_added_again_change_nothing() {
    let key = repository_key("R1");
    let mut graph = EngineeringGraph::default();
    add_repository(&mut graph, &repository());
    let before = graph.edges.len();
    add_issue(&mut graph, &key, &issue("I1", vec![pull_request("P1")]), true);
    assert!(graph.edges.len() > before);
    assert!(linked(&graph, "repository:R1", "HAS_TOPIC", "topic:editor"));
    let once = format!("{graph:?}");
    add_issue(&mut graph, &key, &issue("I1", vec![pull_request("P1")]), true);
    add_repository(&mut graph, &repository());
    assert_eq!(format!("{graph:?}"), once);
    add_release(&mut graph, &key, &release("E1"));
    add_issue(&mut graph, &key, &issue("I1", vec![pull_request("P1")]), false);
    let later = format!("{graph:?}");
    add_release(&mut graph, &key, &release("E1"));
    assert_eq!(format!("{graph:?}"), later);
}

#[test]
fn pull_requests_are_as_complete_as_their_best_report() {
    let key = repository_key("R1");
    for order in [[false, true, false], [true, false, false], [false, false, true]] {
        let mut graph = EngineeringGraph::default();
        add_repository(&mut graph, &repository());
        for complete in order {
            add_pull_request(&mut graph, &key, &pull_request("P1"), complete);
        }
        assert!(says(&graph, "pull-request:P1", true) && !says(&graph, "pull-request:P1", false));
    }
    let mut graph = EngineeringGraph::default();
    add_repository(&mut graph, &repository());
    add_issue(&mut graph, &key, &issue("I1", vec![pull_request("P1")]), true);
    add_pull_request(&mut graph, &key, &pull_request("P1"), false);
    assert!(says(&graph, "pull-request:P1", false) && !says(&graph, "pull-request:P1", true));
}

fn says(graph: &EngineeringGraph, key: &str, complete: bool) -> bool {
    let index = graph.index_of_key(key).unwrap();
    graph.nodes[index]
        .properties
        .iter()
        .any(|field| field.0 == "detail_complete" && matches!(field.1, Value::Bool(b) if b == complete))
}

#[test]
fn closings_are_listed_once_whoever_reports_them() {
    let key = repository_key("R1");
    let closings = |graph: &EngineeringGraph| {
        graph
            .edges
            .iter()
            .filter(|e| {
                e.source == "pull-request:P1" && e.label == "CLOSES" && e.target == "issue:I1"
            })
            .count()
    };
    let closing = || {
        let mut told = pull_request("P1");
        told.closing_issues = vec![issue("I1", vec![])];
        told
    };
    let mut graph = EngineeringGraph::default();
    add_repository(&mut graph, &repository());
    add_issue(&mut graph, &key, &issue("I1", vec![pull_request("P1")]), true);
    assert_eq!(closings(&graph), 1);
    add_pull_request(&mut graph, &key, &closing(), true);
    assert_eq!(closings(&graph), 1);

    let mut graph = EngineeringGraph::default();
    add_repository(&mut graph, &repository());
    add_pull_request(&mut graph, &key, &closing(), true);
    add_issue(&mut graph, &key, &issue("I1", vec![closing()]), true);
    assert_eq!(closings(&graph), 1);
}
