//! The parameters of every command.
//!
//! A command is described by the parameters that it reads one after the
//! other; each takes one argument, or a default where there is none left.

use vstd::prelude::*;
use vstd::string::*;

use crate::graph::Direction;
use crate::text;

verus! {

/// A parameter of a command. Descriptions are for what is said when an
/// argument is missing or wrong.
#[derive(Clone, Copy, Debug)]
pub enum Param {
    /// A text that must be there.
    Required(&'static str),
    /// A node id that must be there.
    RequiredId(&'static str),
    /// A size that must be there.
    RequiredSize(&'static str),
    /// A floating-point number that must be there.
    RequiredFloat(&'static str),
    /// A size with a default; zero may be refused.
    Count(&'static str, usize, Option<&'static str>),
    /// A size that may be absent; zero may be refused.
    Maybe(&'static str, Option<&'static str>),
    /// How vectors are stored: in half precision unless asked otherwise.
    Encoding,
    /// Which way relationships are followed, with a default.
    Heading(Direction),
    /// Which elements are meant: both kinds unless asked otherwise.
    Target,
    /// Which elements are meant; it must be there.
    RequiredTarget(&'static str),
    /// A text that may be absent, `-` standing for its absence.
    Filter,
    /// A text that may be absent.
    Optional,
    /// Whether full-precision vectors are kept at hand.
    CacheMode,
    /// An embedder: the environment's, or the lexical one, unless named.
    EmbedderName,
    /// A JSON scalar that must be there.
    JsonScalar(&'static str),
    /// A bound of the numeric type that an earlier argument names.
    Bound(&'static str, usize),
    /// Texts between `||`.
    Facets(&'static str),
}

/// The parameters in order.
pub open spec fn shape_view(shape: Option<Vec<Param>>) -> Option<Seq<Param>> {
    match shape {
        Some(s) => Some(s@),
        None => None,
    }
}

/// The parameters of a command that makes or copies a database.
pub open spec fn import_params(command: Seq<char>) -> Option<Seq<Param>> {
    if command == "import-jsonl"@ {
        Some(
            seq![
                Param::Required("nodes JSONL path"),
                Param::Required("edges JSONL path"),
                Param::Required("database path"),
                Param::RequiredSize("vector dimension"),
                Param::Encoding,
            ],
        )
    } else if command == "append-jsonl"@ {
        Some(
            seq![
                Param::Required("database path"),
                Param::Required("nodes JSONL path"),
                Param::Required("edges JSONL path"),
            ],
        )
    } else if command == "import-fbin"@ {
        Some(
            seq![
                Param::Required("input fbin path"),
                Param::Required("database path"),
            ],
        )
    } else if command == "import-node-fbin"@ {
        Some(
            seq![
                Param::Required("input fbin path"),
                Param::Required("node metadata JSONL path"),
                Param::Required("database path"),
                Param::Encoding,
            ],
        )
    } else if command == "import-graphalytics"@ {
        Some(
            seq![
                Param::Required("vertex file"),
                Param::Required("edge file"),
                Param::Required("database path"),
            ],
        )
    } else if command == "import-rust"@ {
        Some(
            seq![
                Param::Required("repository path"),
                Param::Required("database path"),
                Param::Count("vector dimension", 256, None),
                Param::EmbedderName,
                Param::Count("embedding batch size", 128, None),
            ],
        )
    } else if command == "import-github"@ {
        Some(
            seq![
                Param::Required("GitHub owner/repository"),
                Param::Required("database path"),
                Param::Count("maximum issues", 1000, None),
                Param::Count("maximum pull requests", 1000, None),
                Param::Count("maximum discussions", 300, None),
                Param::Count("maximum releases", 100, None),
                Param::Count("vector dimension", 256, None),
                Param::EmbedderName,
                Param::Count("embedding batch size", 128, None),
            ],
        )
    } else if command == "compact"@ {
        Some(
            seq![
                Param::Required("source database"),
                Param::Required("destination database"),
                Param::Encoding,
            ],
        )
    } else if command == "export-ladybug"@ {
        Some(
            seq![
                Param::Required("database path"),
                Param::Required("output directory"),
            ],
        )
    } else {
        None
    }
}

fn import_shape(command: &str) -> (r: Option<Vec<Param>>)
    ensures
        shape_view(r) == import_params(command@),
{
    if text::same_text(command, "import-jsonl") {
        let shape: Vec<Param> = vec![
            Param::Required("nodes JSONL path"),
            Param::Required("edges JSONL path"),
            Param::Required("database path"),
            Param::RequiredSize("vector dimension"),
            Param::Encoding,
        ];
        assert(shape@ =~= import_params(command@)->0);
        Some(shape)
    } else if text::same_text(command, "append-jsonl") {
        let shape: Vec<Param> = vec![
            Param::Required("database path"),
            Param::Required("nodes JSONL path"),
            Param::Required("edges JSONL path"),
        ];
        assert(shape@ =~= import_params(command@)->0);
        Some(shape)
    } else if text::same_text(command, "import-fbin") {
        let shape: Vec<Param> = vec![
            Param::Required("input fbin path"),
            Param::Required("database path"),
        ];
        assert(shape@ =~= import_params(command@)->0);
        Some(shape)
    } else if text::same_text(command, "import-node-fbin") {
        let shape: Vec<Param> = vec![
            Param::Required("input fbin path"),
            Param::Required("node metadata JSONL path"),
            Param::Required("database path"),
            Param::Encoding,
        ];
        assert(shape@ =~= import_params(command@)->0);
        Some(shape)
    } else if text::same_text(command, "import-graphalytics") {
        let shape: Vec<Param> = vec![
            Param::Required("vertex file"),
            Param::Required("edge file"),
            Param::Required("database path"),
        ];
        assert(shape@ =~= import_params(command@)->0);
        Some(shape)
    } else if text::same_text(command, "import-rust") {
        let shape: Vec<Param> = vec![
            Param::Required("repository path"),
            Param::Required("database path"),
            Param::Count("vector dimension", 256, None),
            Param::EmbedderName,
            Param::Count("embedding batch size", 128, None),
        ];
        assert(shape@ =~= import_params(command@)->0);
        Some(shape)
    } else if text::same_text(command, "import-github") {
        let shape: Vec<Param> = vec![
            Param::Required("GitHub owner/repository"),
            Param::Required("database path"),
            Param::Count("maximum issues", 1000, None),
            Param::Count("maximum pull requests", 1000, None),
            Param::Count("maximum discussions", 300, None),
            Param::Count("maximum releases", 100, None),
            Param::Count("vector dimension", 256, None),
            Param::EmbedderName,
            Param::Count("embedding batch size", 128, None),
        ];
        assert(shape@ =~= import_params(command@)->0);
        Some(shape)
    } else if text::same_text(command, "compact") {
        let shape: Vec<Param> = vec![
            Param::Required("source database"),
            Param::Required("destination database"),
            Param::Encoding,
        ];
        assert(shape@ =~= import_params(command@)->0);
        Some(shape)
    } else if text::same_text(command, "export-ladybug") {
        let shape: Vec<Param> = vec![
            Param::Required("database path"),
            Param::Required("output directory"),
        ];
        assert(shape@ =~= import_params(command@)->0);
        Some(shape)
    } else {
        None
    }
}

/// The parameters of a command that measures.
pub open spec fn benchmark_params(command: Seq<char>) -> Option<Seq<Param>> {
    if command == "bench-bfs"@ {
        Some(
            seq![
                Param::Required("database path"),
                Param::RequiredId("source node"),
                Param::Filter,
                Param::Count("iterations", 5, None),
            ],
        )
    } else if command == "bench-wcc"@ {
        Some(
            seq![
                Param::Required("database path"),
                Param::Filter,
                Param::Count("iterations", 3, None),
            ],
        )
    } else if command == "bench-pagerank"@ {
        Some(
            seq![
                Param::Required("database path"),
                Param::Filter,
                Param::Count("benchmark iterations", 2, None),
            ],
        )
    } else if command == "bench-fbin"@ {
        Some(
            seq![
                Param::Required("database path"),
                Param::Required("query fbin path"),
                Param::Required("ground-truth ibin path"),
                Param::Count("query count", 100, None),
                Param::Count("candidate vectors", 12000, None),
                Param::Count("k", 10, None),
                Param::CacheMode,
            ],
        )
    } else if command == "bench-filtered-fbin"@ {
        Some(
            seq![
                Param::Required("database path"),
                Param::Required("query fbin path"),
                Param::Count("query count", 100, None),
                Param::Count("filter stride", 2, None),
                Param::Count("candidate elements", 20000, None),
                Param::Count("k", 10, None),
            ],
        )
    } else if command == "bench-range-fbin"@ {
        Some(
            seq![
                Param::Required("database path"),
                Param::Required("query fbin path"),
                Param::Required("ground-truth ibin path"),
                Param::Required("numeric property key"),
                Param::RequiredFloat("inclusive floating lower bound"),
                Param::Count("query count", 100, None),
                Param::Count("candidate elements", 20000, None),
                Param::Count("k", 10, None),
            ],
        )
    } else if command == "bench-property"@ {
        Some(
            seq![
                Param::Required("database path"),
                Param::RequiredTarget("nodes, edges, or both"),
                Param::Required("property key"),
                Param::JsonScalar("JSON scalar value"),
                Param::Count("iterations", 1000, Some("iterations must be greater than zero")),
            ],
        )
    } else if command == "bench-search"@ {
        Some(
            seq![
                Param::Required("database path"),
                Param::Required("query text"),
                Param::Count("iterations", 25, Some("iterations must be greater than zero")),
                Param::EmbedderName,
                Param::Target,
                Param::Filter,
                Param::Maybe("approximate candidate vectors", Some("approximate candidate vectors must be greater than zero")),
            ],
        )
    } else if command == "bench-ann"@ {
        Some(
            seq![
                Param::Required("database path"),
                Param::Count("query count", 20, None),
                Param::Count("approximate candidate vectors", 20000, None),
                Param::Target,
            ],
        )
    } else if command == "bench-pattern"@ {
        Some(
            seq![
                Param::Required("database path"),
                Param::Required("query statement"),
                Param::Count("iterations", 100, Some("iterations must be greater than zero")),
            ],
        )
    } else if command == "bench-neighbors"@ {
        Some(
            seq![
                Param::Required("database path"),
                Param::RequiredId("node id"),
                Param::Count("iterations", 1000, Some("iterations must be greater than zero")),
                Param::Heading(Direction::Both),
            ],
        )
    } else if command == "bench-expand"@ {
        Some(
            seq![
                Param::Required("database path"),
                Param::RequiredId("seed node id"),
                Param::RequiredSize("maximum hops"),
                Param::Count("iterations", 5, Some("iterations must be greater than zero")),
                Param::Heading(Direction::Outgoing),
            ],
        )
    } else {
        None
    }
}

fn benchmark_shape(command: &str) -> (r: Option<Vec<Param>>)
    ensures
        shape_view(r) == benchmark_params(command@),
{
    if text::same_text(command, "bench-bfs") {
        let shape: Vec<Param> = vec![
            Param::Required("database path"),
            Param::RequiredId("source node"),
            Param::Filter,
            Param::Count("iterations", 5, None),
        ];
        assert(shape@ =~= benchmark_params(command@)->0);
        Some(shape)
    } else if text::same_text(command, "bench-wcc") {
        let shape: Vec<Param> = vec![
            Param::Required("database path"),
            Param::Filter,
            Param::Count("iterations", 3, None),
        ];
        assert(shape@ =~= benchmark_params(command@)->0);
        Some(shape)
    } else if text::same_text(command, "bench-pagerank") {
        let shape: Vec<Param> = vec![
            Param::Required("database path"),
            Param::Filter,
            Param::Count("benchmark iterations", 2, None),
        ];
        assert(shape@ =~= benchmark_params(command@)->0);
        Some(shape)
    } else if text::same_text(command, "bench-fbin") {
        let shape: Vec<Param> = vec![
            Param::Required("database path"),
            Param::Required("query fbin path"),
            Param::Required("ground-truth ibin path"),
            Param::Count("query count", 100, None),
            Param::Count("candidate vectors", 12000, None),
            Param::Count("k", 10, None),
            Param::CacheMode,
        ];
        assert(shape@ =~= benchmark_params(command@)->0);
        Some(shape)
    } else if text::same_text(command, "bench-filtered-fbin") {
        let shape: Vec<Param> = vec![
            Param::Required("database path"),
            Param::Required("query fbin path"),
            Param::Count("query count", 100, None),
            Param::Count("filter stride", 2, None),
            Param::Count("candidate elements", 20000, None),
            Param::Count("k", 10, None),
        ];
        assert(shape@ =~= benchmark_params(command@)->0);
        Some(shape)
    } else if text::same_text(command, "bench-range-fbin") {
        let shape: Vec<Param> = vec![
            Param::Required("database path"),
            Param::Required("query fbin path"),
            Param::Required("ground-truth ibin path"),
            Param::Required("numeric property key"),
            Param::RequiredFloat("inclusive floating lower bound"),
            Param::Count("query count", 100, None),
            Param::Count("candidate elements", 20000, None),
            Param::Count("k", 10, None),
        ];
        assert(shape@ =~= benchmark_params(command@)->0);
        Some(shape)
    } else if text::same_text(command, "bench-property") {
        let shape: Vec<Param> = vec![
            Param::Required("database path"),
            Param::RequiredTarget("nodes, edges, or both"),
            Param::Required("property key"),
            Param::JsonScalar("JSON scalar value"),
            Param::Count("iterations", 1000, Some("iterations must be greater than zero")),
        ];
        assert(shape@ =~= benchmark_params(command@)->0);
        Some(shape)
    } else if text::same_text(command, "bench-search") {
        let shape: Vec<Param> = vec![
            Param::Required("database path"),
            Param::Required("query text"),
            Param::Count("iterations", 25, Some("iterations must be greater than zero")),
            Param::EmbedderName,
            Param::Target,
            Param::Filter,
            Param::Maybe("approximate candidate vectors", Some("approximate candidate vectors must be greater than zero")),
        ];
        assert(shape@ =~= benchmark_params(command@)->0);
        Some(shape)
    } else if text::same_text(command, "bench-ann") {
        let shape: Vec<Param> = vec![
            Param::Required("database path"),
            Param::Count("query count", 20, None),
            Param::Count("approximate candidate vectors", 20000, None),
            Param::Target,
        ];
        assert(shape@ =~= benchmark_params(command@)->0);
        Some(shape)
    } else if text::same_text(command, "bench-pattern") {
        let shape: Vec<Param> = vec![
            Param::Required("database path"),
            Param::Required("query statement"),
            Param::Count("iterations", 100, Some("iterations must be greater than zero")),
        ];
        assert(shape@ =~= benchmark_params(command@)->0);
        Some(shape)
    } else if text::same_text(command, "bench-neighbors") {
        let shape: Vec<Param> = vec![
            Param::Required("database path"),
            Param::RequiredId("node id"),
            Param::Count("iterations", 1000, Some("iterations must be greater than zero")),
            Param::Heading(Direction::Both),
        ];
        assert(shape@ =~= benchmark_params(command@)->0);
        Some(shape)
    } else if text::same_text(command, "bench-expand") {
        let shape: Vec<Param> = vec![
            Param::Required("database path"),
            Param::RequiredId("seed node id"),
            Param::RequiredSize("maximum hops"),
            Param::Count("iterations", 5, Some("iterations must be greater than zero")),
            Param::Heading(Direction::Outgoing),
        ];
        assert(shape@ =~= benchmark_params(command@)->0);
        Some(shape)
    } else {
        None
    }
}

/// The parameters of a command that reads a database.
pub open spec fn graph_params(command: Seq<char>) -> Option<Seq<Param>> {
    if command == "stats"@ {
        Some(
            seq![
                Param::Required("database path"),
            ],
        )
    } else if command == "check"@ {
        Some(
            seq![
                Param::Required("database path"),
            ],
        )
    } else if command == "plan-search"@ {
        Some(
            seq![
                Param::Required("database path"),
                Param::Target,
                Param::Optional,
            ],
        )
    } else if command == "numeric-range"@ {
        Some(
            seq![
                Param::Required("database path"),
                Param::RequiredTarget("nodes, edges, or both"),
                Param::Required("numeric property key"),
                Param::Required("int or float"),
                Param::Bound("inclusive lower bound or -", 3),
                Param::Bound("inclusive upper bound or -", 3),
                Param::Count("output limit", 100, None),
            ],
        )
    } else if command == "node"@ {
        Some(
            seq![
                Param::Required("database path"),
                Param::RequiredId("node id"),
            ],
        )
    } else if command == "neighbors"@ {
        Some(
            seq![
                Param::Required("database path"),
                Param::RequiredId("node id"),
                Param::Heading(Direction::Outgoing),
            ],
        )
    } else if command == "shortest-path"@ {
        Some(
            seq![
                Param::Required("database path"),
                Param::RequiredId("start node id"),
                Param::RequiredId("end node id"),
                Param::Count("maximum hops", 6, None),
                Param::Heading(Direction::Both),
                Param::Filter,
                Param::Count("maximum expansions", 100000, None),
            ],
        )
    } else if command == "search-text"@ {
        Some(
            seq![
                Param::Required("database path"),
                Param::Required("query text"),
                Param::Count("limit", 10, None),
                Param::EmbedderName,
            ],
        )
    } else if command == "range-text"@ {
        Some(
            seq![
                Param::Required("database path"),
                Param::RequiredId("seed node id"),
                Param::Required("query text"),
                Param::Count("maximum hops", 2, None),
                Param::Count("limit", 10, None),
                Param::EmbedderName,
                Param::Heading(Direction::Both),
                Param::Filter,
                Param::Filter,
            ],
        )
    } else if command == "search-facets"@ {
        Some(
            seq![
                Param::Required("database path"),
                Param::Facets("facet text separated by ||"),
                Param::Count("limit", 10, None),
                Param::EmbedderName,
                Param::Target,
                Param::Filter,
                Param::Maybe("candidate elements", None),
            ],
        )
    } else if command == "semantic-text"@ {
        Some(
            seq![
                Param::Required("database path"),
                Param::Required("query text"),
                Param::Count("limit", 20, None),
                Param::Count("max hops", 2, None),
                Param::EmbedderName,
            ],
        )
    } else if command == "query"@ {
        Some(
            seq![
                Param::Required("database path"),
                Param::Required("query statement"),
            ],
        )
    } else if command == "query-text"@ {
        Some(
            seq![
                Param::Required("database path"),
                Param::Required("query statement"),
                Param::Required("semantic query text"),
                Param::EmbedderName,
            ],
        )
    } else {
        None
    }
}

fn graph_shape(command: &str) -> (r: Option<Vec<Param>>)
    ensures
        shape_view(r) == graph_params(command@),
{
    if text::same_text(command, "stats") {
        let shape: Vec<Param> = vec![
            Param::Required("database path"),
        ];
        assert(shape@ =~= graph_params(command@)->0);
        Some(shape)
    } else if text::same_text(command, "check") {
        let shape: Vec<Param> = vec![
            Param::Required("database path"),
        ];
        assert(shape@ =~= graph_params(command@)->0);
        Some(shape)
    } else if text::same_text(command, "plan-search") {
        let shape: Vec<Param> = vec![
            Param::Required("database path"),
            Param::Target,
            Param::Optional,
        ];
        assert(shape@ =~= graph_params(command@)->0);
        Some(shape)
    } else if text::same_text(command, "numeric-range") {
        let shape: Vec<Param> = vec![
            Param::Required("database path"),
            Param::RequiredTarget("nodes, edges, or both"),
            Param::Required("numeric property key"),
            Param::Required("int or float"),
            Param::Bound("inclusive lower bound or -", 3),
            Param::Bound("inclusive upper bound or -", 3),
            Param::Count("output limit", 100, None),
        ];
        assert(shape@ =~= graph_params(command@)->0);
        Some(shape)
    } else if text::same_text(command, "node") {
        let shape: Vec<Param> = vec![
            Param::Required("database path"),
            Param::RequiredId("node id"),
        ];
        assert(shape@ =~= graph_params(command@)->0);
        Some(shape)
    } else if text::same_text(command, "neighbors") {
        let shape: Vec<Param> = vec![
            Param::Required("database path"),
            Param::RequiredId("node id"),
            Param::Heading(Direction::Outgoing),
        ];
        assert(shape@ =~= graph_params(command@)->0);
        Some(shape)
    } else if text::same_text(command, "shortest-path") {
        let shape: Vec<Param> = vec![
            Param::Required("database path"),
            Param::RequiredId("start node id"),
            Param::RequiredId("end node id"),
            Param::Count("maximum hops", 6, None),
            Param::Heading(Direction::Both),
            Param::Filter,
            Param::Count("maximum expansions", 100000, None),
        ];
        assert(shape@ =~= graph_params(command@)->0);
        Some(shape)
    } else if text::same_text(command, "search-text") {
        let shape: Vec<Param> = vec![
            Param::Required("database path"),
            Param::Required("query text"),
            Param::Count("limit", 10, None),
            Param::EmbedderName,
        ];
        assert(shape@ =~= graph_params(command@)->0);
        Some(shape)
    } else if text::same_text(command, "range-text") {
        let shape: Vec<Param> = vec![
            Param::Required("database path"),
            Param::RequiredId("seed node id"),
            Param::Required("query text"),
            Param::Count("maximum hops", 2, None),
            Param::Count("limit", 10, None),
            Param::EmbedderName,
            Param::Heading(Direction::Both),
            Param::Filter,
            Param::Filter,
        ];
        assert(shape@ =~= graph_params(command@)->0);
        Some(shape)
    } else if text::same_text(command, "search-facets") {
        let shape: Vec<Param> = vec![
            Param::Required("database path"),
            Param::Facets("facet text separated by ||"),
            Param::Count("limit", 10, None),
            Param::EmbedderName,
            Param::Target,
            Param::Filter,
            Param::Maybe("candidate elements", None),
        ];
        assert(shape@ =~= graph_params(command@)->0);
        Some(shape)
    } else if text::same_text(command, "semantic-text") {
        let shape: Vec<Param> = vec![
            Param::Required("database path"),
            Param::Required("query text"),
            Param::Count("limit", 20, None),
            Param::Count("max hops", 2, None),
            Param::EmbedderName,
        ];
        assert(shape@ =~= graph_params(command@)->0);
        Some(shape)
    } else if text::same_text(command, "query") {
        let shape: Vec<Param> = vec![
            Param::Required("database path"),
            Param::Required("query statement"),
        ];
        assert(shape@ =~= graph_params(command@)->0);
        Some(shape)
    } else if text::same_text(command, "query-text") {
        let shape: Vec<Param> = vec![
            Param::Required("database path"),
            Param::Required("query statement"),
            Param::Required("semantic query text"),
            Param::EmbedderName,
        ];
        assert(shape@ =~= graph_params(command@)->0);
        Some(shape)
    } else {
        None
    }
}

/// The parameters of a command.
pub open spec fn command_params(command: Seq<char>) -> Option<Seq<Param>> {
    match import_params(command) {
        Some(shape) => Some(shape),
        None => match benchmark_params(command) {
            Some(shape) => Some(shape),
            None => graph_params(command),
        },
    }
}

/// Finds the parameters of a command.
pub fn command_shape(command: &str) -> (r: Option<Vec<Param>>)
    ensures
        shape_view(r) == command_params(command@),
{
    match import_shape(command) {
        Some(shape) => Some(shape),
        None => match benchmark_shape(command) {
            Some(shape) => Some(shape),
            None => graph_shape(command),
        },
    }
}

/// The commands and how each is written, in the order in which they are
/// listed.
pub open spec fn usage_table() -> Seq<(&'static str, &'static str)> {
    seq![
        ("import-jsonl", "import-jsonl <nodes.jsonl> <edges.jsonl> <database> <dimension> [f16|f32]"),
        ("append-jsonl", "append-jsonl <database> <nodes.jsonl> <edges.jsonl>"),
        ("import-fbin", "import-fbin <train.fbin> <database>"),
        ("import-node-fbin", "import-node-fbin <train.fbin> <metadata.jsonl> <database> [f16|f32]"),
        ("bench-fbin", "bench-fbin <database> <test.fbin> <neighbors.ibin> [queries] [candidate-vectors] [k] [compressed|hot-f32]"),
        ("bench-filtered-fbin", "bench-filtered-fbin <database> <test.fbin> [queries] [stride] [candidate-elements] [k]"),
        ("bench-range-fbin", "bench-range-fbin <database> <test.fbin> <neighbors.ibin> <property> <inclusive-lower-bound> [queries] [candidate-elements] [k]"),
        ("import-graphalytics", "import-graphalytics <vertices> <edges> <database>"),
        ("bench-bfs", "bench-bfs <database> <source> [reference-output|-] [iterations]"),
        ("bench-wcc", "bench-wcc <database> [reference-output|-] [iterations]"),
        ("bench-pagerank", "bench-pagerank <database> [reference-output|-] [benchmark-iterations]"),
        ("import-rust", "import-rust <repository> <database> [dimension] [hash|qwen] [batch-size]"),
        ("import-github", "import-github <owner/repository> <database> [issues] [pulls] [discussions] [releases] [dimension] [hash|qwen] [batch-size]"),
        ("stats", "stats <database>"),
        ("check", "check <database>"),
        ("plan-search", "plan-search <database> [nodes|edges|both] [label]"),
        ("bench-property", "bench-property <database> <nodes|edges|both> <key> <json-scalar> [iterations]"),
        ("numeric-range", "numeric-range <database> <nodes|edges|both> <key> <int|float> <inclusive-lower|-> <inclusive-upper|-> [limit]"),
        ("node", "node <database> <node-id>"),
        ("neighbors", "neighbors <database> <node-id> [out|in|both]"),
        ("shortest-path", "shortest-path <database> <start-node-id> <end-node-id> [max-hops] [out|in|both] [edge-label|-] [max-expansions]"),
        ("search-text", "search-text <database> <query> [limit] [hash|qwen]"),
        ("range-text", "range-text <database> <seed-node-id> <query> [hops] [limit] [hash|qwen] [out|in|both] [edge-label|-] [node-label|-]"),
        ("search-facets", "search-facets <database> '<facet-1> || <facet-2>' [limit] [hash|qwen] [nodes|edges|both] [label|-] [candidate-elements]"),
        ("semantic-text", "semantic-text <database> <query> [limit] [max-hops] [hash|qwen]"),
        ("bench-search", "bench-search <database> <query> [iterations] [hash|qwen] [nodes|edges|both] [label|-] [candidate-vectors]"),
        ("bench-ann", "bench-ann <database> [queries] [candidate-vectors] [nodes|edges|both]"),
        ("query", "query <database> 'MATCH (a:A)-[e:E]->(b:B) RETURN a,e,b LIMIT 10'"),
        ("query-text", "query-text <database> '<MATCH query>' <semantic-text> [hash|qwen]"),
        ("bench-pattern", "bench-pattern <database> <query> [iterations]"),
        ("bench-neighbors", "bench-neighbors <database> <node-id> [iterations] [out|in|both]"),
        ("bench-expand", "bench-expand <database> <seed-node-id> <hops> [iterations] [out|in|both]"),
        ("compact", "compact <source-database> <destination-database> [f16|f32]"),
        ("export-ladybug", "export-ladybug <database> <output-directory>"),
    ]
}

/// The commands and how each is written.
pub fn command_usages() -> (r: Vec<(&'static str, &'static str)>)
    ensures
        r@ == usage_table(),
{
    let table: Vec<(&'static str, &'static str)> = vec![
        ("import-jsonl", "import-jsonl <nodes.jsonl> <edges.jsonl> <database> <dimension> [f16|f32]"),
        ("append-jsonl", "append-jsonl <database> <nodes.jsonl> <edges.jsonl>"),
        ("import-fbin", "import-fbin <train.fbin> <database>"),
        ("import-node-fbin", "import-node-fbin <train.fbin> <metadata.jsonl> <database> [f16|f32]"),
        ("bench-fbin", "bench-fbin <database> <test.fbin> <neighbors.ibin> [queries] [candidate-vectors] [k] [compressed|hot-f32]"),
        ("bench-filtered-fbin", "bench-filtered-fbin <database> <test.fbin> [queries] [stride] [candidate-elements] [k]"),
        ("bench-range-fbin", "bench-range-fbin <database> <test.fbin> <neighbors.ibin> <property> <inclusive-lower-bound> [queries] [candidate-elements] [k]"),
        ("import-graphalytics", "import-graphalytics <vertices> <edges> <database>"),
        ("bench-bfs", "bench-bfs <database> <source> [reference-output|-] [iterations]"),
        ("bench-wcc", "bench-wcc <database> [reference-output|-] [iterations]"),
        ("bench-pagerank", "bench-pagerank <database> [reference-output|-] [benchmark-iterations]"),
        ("import-rust", "import-rust <repository> <database> [dimension] [hash|qwen] [batch-size]"),
        ("import-github", "import-github <owner/repository> <database> [issues] [pulls] [discussions] [releases] [dimension] [hash|qwen] [batch-size]"),
        ("stats", "stats <database>"),
        ("check", "check <database>"),
        ("plan-search", "plan-search <database> [nodes|edges|both] [label]"),
        ("bench-property", "bench-property <database> <nodes|edges|both> <key> <json-scalar> [iterations]"),
        ("numeric-range", "numeric-range <database> <nodes|edges|both> <key> <int|float> <inclusive-lower|-> <inclusive-upper|-> [limit]"),
        ("node", "node <database> <node-id>"),
        ("neighbors", "neighbors <database> <node-id> [out|in|both]"),
        ("shortest-path", "shortest-path <database> <start-node-id> <end-node-id> [max-hops] [out|in|both] [edge-label|-] [max-expansions]"),
        ("search-text", "search-text <database> <query> [limit] [hash|qwen]"),
        ("range-text", "range-text <database> <seed-node-id> <query> [hops] [limit] [hash|qwen] [out|in|both] [edge-label|-] [node-label|-]"),
        ("search-facets", "search-facets <database> '<facet-1> || <facet-2>' [limit] [hash|qwen] [nodes|edges|both] [label|-] [candidate-elements]"),
        ("semantic-text", "semantic-text <database> <query> [limit] [max-hops] [hash|qwen]"),
        ("bench-search", "bench-search <database> <query> [iterations] [hash|qwen] [nodes|edges|both] [label|-] [candidate-vectors]"),
        ("bench-ann", "bench-ann <database> [queries] [candidate-vectors] [nodes|edges|both]"),
        ("query", "query <database> 'MATCH (a:A)-[e:E]->(b:B) RETURN a,e,b LIMIT 10'"),
        ("query-text", "query-text <database> '<MATCH query>' <semantic-text> [hash|qwen]"),
        ("bench-pattern", "bench-pattern <database> <query> [iterations]"),
        ("bench-neighbors", "bench-neighbors <database> <node-id> [iterations] [out|in|both]"),
        ("bench-expand", "bench-expand <database> <seed-node-id> <hops> [iterations] [out|in|both]"),
        ("compact", "compact <source-database> <destination-database> [f16|f32]"),
        ("export-ladybug", "export-ladybug <database> <output-directory>"),
    ];
    assert(table@ =~= usage_table());
    table
}

} // verus!
