//! Which embedder is used, how texts are handed to it, and what is kept of
//! the vectors that it gives.

use vstd::prelude::*;
use vstd::string::*;

use crate::digits;
use crate::embedding;
use crate::embedding::{copy_vector, validate_vector, EmbeddingDatum};
use crate::text;
use crate::text::{concat2, concat3};

verus! {

/// The lexical embedder.
#[derive(Debug)]
pub struct HashEmbedder {
    pub dimension: usize,
}

impl HashEmbedder {
    /// A lexical embedder of a dimension other than zero.
    pub fn new(dimension: usize) -> (r: Result<HashEmbedder, String>)
        ensures
            match r {
                Ok(embedder) => dimension > 0 && embedder.dimension == dimension,
                Err(message) => dimension == 0 && message@
                    == "embedding dimension must be greater than zero"@,
            },
    {
        if dimension == 0 {
            return Err("embedding dimension must be greater than zero".to_owned());
        }
        Ok(HashEmbedder { dimension })
    }
}

/// An embedder that asks OpenRouter.
#[derive(Debug)]
pub struct OpenRouterEmbedder {
    pub api_key: String,
    pub dimension: usize,
    pub request_batch_size: usize,
    pub concurrency: usize,
}

/// How many requests are made at a time: what was asked for, within 1 and 32.
pub open spec fn clamped(n: usize) -> usize {
    if n < 1 {
        1
    } else if n > 32 {
        32
    } else {
        n
    }
}

/// What is wrong with the settings of an embedder that asks OpenRouter, if
/// anything.
pub open spec fn qwen_error(
    dimension: usize,
    api_key: Option<Seq<char>>,
    concurrency: Option<Seq<char>>,
) -> Option<Seq<char>> {
    if dimension == 0 || dimension > 4096 {
        Some("Qwen embedding dimension must be between 1 and 4096"@)
    } else {
        match api_key {
            None => Some("OPENROUTER_API_KEY must be set when using the qwen embedder"@),
            Some(key) => if text::is_blank(key) {
                Some("OPENROUTER_API_KEY is empty"@)
            } else {
                match concurrency {
                    Some(value) if digits::usize_value(value) is None => Some(
                        "invalid VECGRA_EMBEDDING_CONCURRENCY: "@ + digits::usize_error(value),
                    ),
                    _ => None,
                }
            },
        }
    }
}

/// How many requests the setting stands for; four where there is none.
pub open spec fn concurrency_of(concurrency: Option<Seq<char>>) -> usize {
    match concurrency {
        Some(value) => match digits::usize_value(value) {
            Some(n) => clamped(n),
            None => 4,
        },
        None => 4,
    }
}

impl OpenRouterEmbedder {
    /// An embedder that asks OpenRouter, from the settings of the environment.
    pub fn qwen(
        dimension: usize,
        request_batch_size: usize,
        api_key: &Option<String>,
        concurrency: &Option<String>,
    ) -> (r: Result<OpenRouterEmbedder, String>)
        ensures
            ({
                let wrong = qwen_error(
                    dimension,
                    text::opt_view(*api_key),
                    text::opt_view(*concurrency),
                );
                match r {
                    Ok(embedder) => {
                        &&& wrong is None
                        &&& Some(embedder.api_key@) == text::opt_view(*api_key)
                        &&& embedder.dimension == dimension
                        &&& embedder.request_batch_size == if request_batch_size == 0 {
                            1
                        } else {
                            request_batch_size
                        }
                        &&& embedder.concurrency == concurrency_of(text::opt_view(*concurrency))
                    },
                    Err(message) => wrong == Some(message@),
                }
            }),
    {
        if dimension == 0 || dimension > 4096 {
            return Err("Qwen embedding dimension must be between 1 and 4096".to_owned());
        }
        let key = match api_key {
            None => {
                return Err(
                    "OPENROUTER_API_KEY must be set when using the qwen embedder".to_owned(),
                );
            },
            Some(key) => key.clone(),
        };
        if text::text_is_blank(key.as_str()) {
            return Err("OPENROUTER_API_KEY is empty".to_owned());
        }
        let requests: usize = match concurrency {
            None => 4,
            Some(value) => match digits::parse_usize(value.as_str()) {
                Ok(n) => if n < 1 {
                    1
                } else if n > 32 {
                    32
                } else {
                    n
                },
                Err(error) => {
                    return Err(
                        concat2("invalid VECGRA_EMBEDDING_CONCURRENCY: ", error.as_str()),
                    );
                },
            },
        };
        Ok(
            OpenRouterEmbedder {
                api_key: key,
                dimension,
                request_batch_size: if request_batch_size == 0 {
                    1
                } else {
                    request_batch_size
                },
                concurrency: requests,
            },
        )
    }
}

/// An embedder.
#[derive(Debug)]
pub enum Embedder {
    Hash(HashEmbedder),
    OpenRouter(OpenRouterEmbedder),
}

/// The embedders there are.
#[derive(Clone, Copy, Debug, PartialEq, Eq, Structural)]
pub enum EmbedderKind {
    Hash,
    Qwen,
}

/// The embedder that a name stands for.
pub open spec fn kind_named(name: Seq<char>) -> Option<EmbedderKind> {
    if name == "hash"@ {
        Some(EmbedderKind::Hash)
    } else if name == "qwen"@ || name == "qwen/qwen3-embedding-8b"@ {
        Some(EmbedderKind::Qwen)
    } else {
        None
    }
}

/// What is said of a name that stands for no embedder.
pub open spec fn unknown_embedder(name: Seq<char>) -> Seq<char> {
    "unknown embedder "@ + text::spec_quoted(name)
        + "; expected hash, qwen, or qwen/qwen3-embedding-8b"@
}

/// Finds the embedder that a name stands for.
pub fn embedder_kind(name: &str) -> (r: Result<EmbedderKind, String>)
    ensures
        match r {
            Ok(kind) => kind_named(name@) == Some(kind),
            Err(message) => kind_named(name@) is None && message@ == unknown_embedder(name@),
        },
{
    if text::same_text(name, "hash") {
        Ok(EmbedderKind::Hash)
    } else if text::same_text(name, "qwen") || text::same_text(name, "qwen/qwen3-embedding-8b") {
        Ok(EmbedderKind::Qwen)
    } else {
        let shown = text::quoted(name);
        Err(
            concat3(
                "unknown embedder ",
                shown.as_str(),
                "; expected hash, qwen, or qwen/qwen3-embedding-8b",
            ),
        )
    }
}

impl Embedder {
    pub open spec fn spec_dimension(self) -> usize {
        match self {
            Embedder::Hash(e) => e.dimension,
            Embedder::OpenRouter(e) => e.dimension,
        }
    }

    /// How long the vectors are.
    pub fn dimension(&self) -> (r: usize)
        ensures
            r == self.spec_dimension(),
    {
        match self {
            Embedder::Hash(e) => e.dimension,
            Embedder::OpenRouter(e) => e.dimension,
        }
    }

    /// What the embedder is called.
    pub fn name(&self) -> (r: &'static str)
        ensures
            r@ == (match self {
                Embedder::Hash(_) => "hash"@,
                Embedder::OpenRouter(_) => "qwen/qwen3-embedding-8b"@,
            }),
    {
        match self {
            Embedder::Hash(_) => "hash",
            Embedder::OpenRouter(_) => "qwen/qwen3-embedding-8b",
        }
    }
}

/// Makes the embedder that a name stands for, from the settings of the
/// environment.
pub fn create_embedder(
    name: &str,
    dimension: usize,
    request_batch_size: usize,
    api_key: &Option<String>,
    concurrency: &Option<String>,
) -> (r: Result<Embedder, String>)
    ensures
        match kind_named(name@) {
            None => r matches Err(message) && message@ == unknown_embedder(name@),
            Some(EmbedderKind::Hash) => match r {
                Ok(Embedder::Hash(e)) => dimension > 0 && e.dimension == dimension,
                Ok(_) => false,
                Err(message) => dimension == 0 && message@
                    == "embedding dimension must be greater than zero"@,
            },
            Some(EmbedderKind::Qwen) => match r {
                Ok(Embedder::OpenRouter(e)) => {
                    &&& qwen_error(
                        dimension,
                        text::opt_view(*api_key),
                        text::opt_view(*concurrency),
                    ) is None
                    &&& Some(e.api_key@) == text::opt_view(*api_key)
                    &&& e.dimension == dimension
                    &&& e.request_batch_size == if request_batch_size == 0 {
                        1
                    } else {
                        request_batch_size
                    }
                    &&& e.concurrency == concurrency_of(text::opt_view(*concurrency))
                },
                Ok(_) => false,
                Err(message) => qwen_error(
                    dimension,
                    text::opt_view(*api_key),
                    text::opt_view(*concurrency),
                ) == Some(message@),
            },
        },
{
    match embedder_kind(name) {
        Err(message) => Err(message),
        Ok(EmbedderKind::Hash) => match HashEmbedder::new(dimension) {
            Ok(e) => Ok(Embedder::Hash(e)),
            Err(message) => Err(message),
        },
        Ok(EmbedderKind::Qwen) => match OpenRouterEmbedder::qwen(
            dimension,
            request_batch_size,
            api_key,
            concurrency,
        ) {
            Ok(e) => Ok(Embedder::OpenRouter(e)),
            Err(message) => Err(message),
        },
    }
}

/// How the query of a search is embedded.
#[derive(Debug)]
pub enum QueryPlan {
    Hash,
    OpenRouter { api_key: String, input: String },
}

/// What is wrong with a search's embedder, if anything.
pub open spec fn query_error(model: Seq<char>, dimension: usize, api_key: Option<Seq<char>>) -> Option<
    Seq<char>,
> {
    if dimension == 0 {
        Some("embedding dimension must be greater than zero"@)
    } else {
        match kind_named(model) {
            None => Some(unknown_embedder(model)),
            Some(EmbedderKind::Hash) => None,
            Some(EmbedderKind::Qwen) => if dimension > 4096 {
                Some("Qwen embedding dimension must be between 1 and 4096"@)
            } else {
                match api_key {
                    None => Some("OPENROUTER_API_KEY must be set for Qwen semantic search"@),
                    Some(key) => if text::is_blank(key) {
                        Some("OPENROUTER_API_KEY is empty"@)
                    } else {
                        None
                    },
                }
            },
        }
    }
}

/// What OpenRouter is given for a query.
pub open spec fn query_prompt(value: Seq<char>) -> Seq<char> {
    "Instruct: Retrieve graph elements relevant to the query\nQuery: "@ + value
}

/// What OpenRouter is given for a query.
pub fn query_input(value: &str) -> (r: String)
    ensures
        r@ == query_prompt(value@),
{
    concat2("Instruct: Retrieve graph elements relevant to the query\nQuery: ", value)
}

/// Decides how the query of a search is embedded.
pub fn plan_query(model: &str, dimension: usize, value: &str, api_key: &Option<String>) -> (r:
    Result<QueryPlan, String>)
    ensures
        match r {
            Err(message) => query_error(model@, dimension, text::opt_view(*api_key)) == Some(
                message@,
            ),
            Ok(plan) => query_error(model@, dimension, text::opt_view(*api_key)) is None
                && match plan {
                QueryPlan::Hash => kind_named(model@) == Some(EmbedderKind::Hash),
                QueryPlan::OpenRouter { api_key: key, input } => kind_named(model@) == Some(
                    EmbedderKind::Qwen,
                ) && Some(key@) == text::opt_view(*api_key) && input@ == query_prompt(value@),
            },
        },
{
    if dimension == 0 {
        return Err("embedding dimension must be greater than zero".to_owned());
    }
    match embedder_kind(model) {
        Err(message) => Err(message),
        Ok(EmbedderKind::Hash) => Ok(QueryPlan::Hash),
        Ok(EmbedderKind::Qwen) => {
            if dimension > 4096 {
                return Err("Qwen embedding dimension must be between 1 and 4096".to_owned());
            }
            match api_key {
                None => Err("OPENROUTER_API_KEY must be set for Qwen semantic search".to_owned()),
                Some(key) => if text::text_is_blank(key.as_str()) {
                    Err("OPENROUTER_API_KEY is empty".to_owned())
                } else {
                    Ok(QueryPlan::OpenRouter { api_key: key.clone(), input: query_input(value) })
                },
            }
        },
    }
}

/// The first embedding of a reply that is for the only input.
pub open spec fn answers_query(data: Seq<EmbeddingDatum>, i: int) -> bool {
    0 <= i < data.len() && data[i].index == 0 && forall|j: int|
        0 <= j < i ==> (#[trigger] data[j]).index != 0
}

/// Takes the embedding of a query out of a reply.
pub fn query_embedding(data: &Vec<EmbeddingDatum>, dimension: usize) -> (r: Result<
    Vec<u32>,
    String,
>)
    ensures
        match r {
            Ok(vector) => exists|i: int|
                answers_query(data@, i) && vector@ == (#[trigger] data@[i]).embedding@
                    && embedding::vector_fits(vector@, dimension as nat),
            Err(message) => if exists|i: int| answers_query(data@, i) {
                exists|i: int|
                    answers_query(data@, i) && !embedding::vector_fits(
                        (#[trigger] data@[i]).embedding@,
                        dimension as nat,
                    ) && message@ == embedding::vector_error(
                        data@[i].embedding@,
                        dimension as nat,
                        "database"@,
                    )
            } else {
                message@ == "OpenRouter returned no query embedding"@
            },
        },
{
    let mut i: usize = 0;
    while i < data.len()
        invariant
            i <= data.len(),
            forall|j: int| 0 <= j < i ==> (#[trigger] data@[j]).index != 0,
        decreases data.len() - i,
    {
        if data[i].index == 0 {
            assert(answers_query(data@, i as int));
            let vector = copy_vector(&data[i].embedding);
            return match validate_vector(&vector, dimension) {
                Ok(_) => Ok(vector),
                Err(message) => Err(message),
            };
        }
        i = i + 1;
    }
    Err("OpenRouter returned no query embedding".to_owned())
}

/// A pause that doubles with every attempt.
pub open spec fn doubled(base: nat, attempt: nat) -> nat
    decreases attempt,
{
    if attempt == 0 {
        base
    } else {
        2 * doubled(base, (attempt - 1) as nat)
    }
}

fn doubled_pause(base: u64, attempt: u32) -> (r: u64)
    requires
        attempt < 8,
        base <= 1000,
    ensures
        r == doubled(base as nat, attempt as nat),
{
    let mut r: u64 = base;
    let mut i: u32 = 0;
    let mut most: u64 = 1;
    while i < attempt
        invariant
            i <= attempt < 8,
            base <= 1000,
            r == doubled(base as nat, i as nat),
            r <= 1000 * most,
            (i == 0 ==> most == 1) && (i == 1 ==> most == 2) && (i == 2 ==> most == 4) && (i == 3
                ==> most == 8) && (i == 4 ==> most == 16) && (i == 5 ==> most == 32) && (i == 6
                ==> most == 64) && (i == 7 ==> most == 128),
        decreases attempt - i,
    {
        r = 2 * r;
        most = 2 * most;
        i = i + 1;
    }
    r
}

/// How long to wait, in milliseconds, after a failed request for documents;
/// nothing after the fifth.
pub fn document_pause(attempt: u32) -> (r: Option<u64>)
    ensures
        match r {
            Some(millis) => attempt < 4 && millis == doubled(500, attempt as nat),
            None => attempt >= 4,
        },
{
    if attempt < 4 {
        Some(doubled_pause(500, attempt))
    } else {
        None
    }
}

/// How long to wait, in milliseconds, after a failed request for a query;
/// nothing after the third.
pub fn query_pause(attempt: u32) -> (r: Option<u64>)
    ensures
        match r {
            Some(millis) => attempt < 2 && millis == doubled(350, attempt as nat),
            None => attempt >= 2,
        },
{
    if attempt < 2 {
        Some(doubled_pause(350, attempt))
    } else {
        None
    }
}

/// What is said when no attempt was answered.
pub fn exhausted(documents: bool, last_error: Option<&str>) -> (r: String)
    ensures
        r@ == (if documents {
            "OpenRouter embedding request failed after retries: "@
        } else {
            "OpenRouter embedding request failed: "@
        }) + (match last_error {
            Some(error) => error@,
            None => "unknown error"@,
        }),
{
    let head = if documents {
        "OpenRouter embedding request failed after retries: "
    } else {
        "OpenRouter embedding request failed: "
    };
    match last_error {
        Some(error) => concat2(head, error),
        None => concat2(head, "unknown error"),
    }
}

} // verus!
