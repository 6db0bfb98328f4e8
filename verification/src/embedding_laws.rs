//! What embedding, its batches and its measurements keep.

use vstd::prelude::*;

use crate::benchmark;
use crate::commands::VectorTarget;
use crate::digits;
use crate::embedder;
use crate::embedder::EmbedderKind;
use crate::embedding;
use crate::embedding_cache;
use crate::embedding_cache::BatchResult;
use crate::graph::ElementRef;
use crate::single;
use crate::text_laws;

verus! {

/// Whether some result holds these vectors of the batch.
pub open spec fn delivered(results: Seq<BatchResult>, batch: nat, vectors: Seq<Seq<u32>>) -> bool {
    exists|i: int|
        0 <= i < results.len() && (#[trigger] results[i]).batch == batch && results[i].result is Ok
            && embedding_cache::components(results[i].result->Ok_0@) == vectors
}

/// The vectors of a batch are what some result of that batch delivered, and
/// are missing only where none did.
pub proof fn law_batches_have_their_own_vectors(results: Seq<BatchResult>, batch: nat)
    ensures
        match embedding_cache::vectors_of(results, batch) {
            Some(vectors) => delivered(results, batch, vectors),
            None => forall|i: int|
                0 <= i < results.len() && (#[trigger] results[i]).batch == batch
                    ==> results[i].result is Err,
        },
    decreases results.len(),
{
    if results.len() > 0 {
        let rest = results.drop_last();
        law_batches_have_their_own_vectors(rest, batch);
        let last = results[results.len() - 1];
        assert(last == results.last());
        match embedding_cache::vectors_of(results, batch) {
            Some(vectors) => {
                if last.batch == batch && last.result is Ok {
                    assert(delivered(results, batch, vectors));
                } else {
                    let i = choose|i: int|
                        0 <= i < rest.len() && (#[trigger] rest[i]).batch == batch
                            && rest[i].result is Ok && embedding_cache::components(
                            rest[i].result->Ok_0@,
                        ) == vectors;
                    assert(results[i] == rest[i]);
                }
            },
            None => {
                assert forall|i: int|
                    0 <= i < results.len() && (#[trigger] results[i]).batch == batch implies
                    results[i].result is Err by {
                    if i < rest.len() {
                        assert(rest[i] == results[i]);
                    }
                }
            },
        }
    }
}

/// Vectors are gathered in the order of the batches, whatever the order of the
/// results: where each batch was delivered once, two lists of the same results
/// are gathered alike.
pub proof fn law_gathering_ignores_the_order(
    results: Seq<BatchResult>,
    others: Seq<BatchResult>,
    count: nat,
)
    requires
        forall|i: int, j: int|
            0 <= i < j < results.len() ==> (#[trigger] results[i]).batch != (
            #[trigger] results[j]).batch,
        forall|i: int, j: int|
            0 <= i < j < others.len() ==> (#[trigger] others[i]).batch != (
            #[trigger] others[j]).batch,
        forall|i: int| 0 <= i < results.len() ==> others.contains(#[trigger] results[i]),
        forall|i: int| 0 <= i < others.len() ==> results.contains(#[trigger] others[i]),
    ensures
        embedding_cache::gathered(results, count) == embedding_cache::gathered(others, count),
    decreases count,
{
    if count > 0 {
        let batch = (count - 1) as nat;
        law_gathering_ignores_the_order(results, others, batch);
        law_batches_have_their_own_vectors(results, batch);
        law_batches_have_their_own_vectors(others, batch);
        let a = embedding_cache::vectors_of(results, batch);
        let b = embedding_cache::vectors_of(others, batch);
        if let Some(vectors) = a {
            let i = choose|i: int|
                0 <= i < results.len() && (#[trigger] results[i]).batch == batch
                    && results[i].result is Ok && embedding_cache::components(
                    results[i].result->Ok_0@,
                ) == vectors;
            assert(others.contains(results[i]));
            let k = choose|k: int| 0 <= k < others.len() && others[k] == results[i];
            assert(others[k].batch == batch && others[k].result is Ok);
            if let Some(more) = b {
                let j = choose|j: int|
                    0 <= j < others.len() && (#[trigger] others[j]).batch == batch
                        && others[j].result is Ok && embedding_cache::components(
                        others[j].result->Ok_0@,
                    ) == more;
                assert(j == k);
            }
        }
        if let Some(vectors) = b {
            let i = choose|i: int|
                0 <= i < others.len() && (#[trigger] others[i]).batch == batch
                    && others[i].result is Ok && embedding_cache::components(
                    others[i].result->Ok_0@,
                ) == vectors;
            assert(results.contains(others[i]));
            let k = choose|k: int| 0 <= k < results.len() && results[k] == others[i];
            assert(results[k].batch == batch && results[k].result is Ok);
        }
    }
}

/// What is gathered starts with the vectors of the first batch and ends with
/// those of the last.
pub proof fn law_gathered_vectors_keep_their_order(
    results: Seq<BatchResult>,
    count: nat,
    batch: nat,
    i: int,
)
    requires
        batch < count,
        embedding_cache::gathered(results, count) is Some,
        embedding_cache::vectors_of(results, batch) is Some,
        embedding_cache::gathered(results, batch) is Some,
        0 <= i < embedding_cache::vectors_of(results, batch)->0.len(),
    ensures
        ({
            let all = embedding_cache::gathered(results, count)->0;
            let at = embedding_cache::gathered(results, batch)->0.len() + i;
            at < all.len() && all[at] == embedding_cache::vectors_of(results, batch)->0[i]
        }),
    decreases count,
{
    if batch < count - 1 {
        law_gathered_vectors_keep_their_order(results, (count - 1) as nat, batch, i);
    }
}

/// A failure is reported where a batch failed: that of the first result that
/// did.
pub proof fn law_first_failure_is_reported(results: Seq<BatchResult>)
    ensures
        match embedding_cache::first_failure(results) {
            Some(message) => exists|i: int|
                0 <= i < results.len() && (#[trigger] results[i]).result is Err
                    && results[i].result->Err_0@ == message && forall|j: int|
                    0 <= j < i ==> (#[trigger] results[j]).result is Ok,
            None => forall|i: int| 0 <= i < results.len() ==> (#[trigger] results[i]).result is Ok,
        },
    decreases results.len(),
{
    if results.len() > 0 {
        let rest = results.drop_last();
        law_first_failure_is_reported(rest);
        assert forall|i: int| 0 <= i < rest.len() implies rest[i] == #[trigger] results[i] by {}
        match embedding_cache::first_failure(rest) {
            Some(message) => {
                let i = choose|i: int|
                    0 <= i < rest.len() && (#[trigger] rest[i]).result is Err
                        && rest[i].result->Err_0@ == message && forall|j: int|
                        0 <= j < i ==> (#[trigger] rest[j]).result is Ok;
                assert(results[i].result is Err);
                assert forall|j: int| 0 <= j < i implies (#[trigger] results[j]).result is Ok by {
                    assert(rest[j].result is Ok);
                }
            },
            None => {
                let last = results.len() - 1;
                assert(results[last] == results.last());
                assert forall|j: int| 0 <= j < last implies (#[trigger] results[j]).result is Ok by {
                    assert(rest[j].result is Ok);
                }
            },
        }
    }
}

/// Vectors are kept up to the first that does not fit: one of another
/// dimension, or one with a component that is not finite.
pub proof fn law_fitting_vectors_are_kept(vectors: Seq<Seq<u32>>, dimension: nat)
    ensures
        ({
            let n = embedding_cache::fitting(vectors, dimension) as int;
            &&& n <= vectors.len()
            &&& forall|i: int|
                0 <= i < n ==> (#[trigger] vectors[i]).len() == dimension && forall|k: int|
                    0 <= k < dimension ==> single::finite(#[trigger] vectors[i][k])
            &&& n < vectors.len() ==> vectors[n].len() != dimension || exists|k: int|
                0 <= k < dimension && !single::finite(#[trigger] vectors[n][k])
        }),
    decreases vectors.len(),
{
    if vectors.len() > 0 && embedding::vector_fits(vectors[0], dimension) {
        let rest = vectors.drop_first();
        law_fitting_vectors_are_kept(rest, dimension);
        let n = embedding_cache::fitting(vectors, dimension) as int;
        assert forall|i: int| 0 <= i < n implies (#[trigger] vectors[i]).len() == dimension
            && forall|k: int| 0 <= k < dimension ==> single::finite(#[trigger] vectors[i][k]) by {
            if i > 0 {
                assert(vectors[i] == rest[i - 1]);
            }
        }
        if n < vectors.len() {
            assert(vectors[n] == rest[n - 1]);
        }
    }
}

/// The embedders are known by their names, and no other name is.
pub proof fn law_embedders_are_named(name: Seq<char>)
    ensures
        embedder::kind_named("hash"@) == Some(EmbedderKind::Hash),
        embedder::kind_named("qwen"@) == Some(EmbedderKind::Qwen),
        embedder::kind_named("qwen/qwen3-embedding-8b"@) == Some(EmbedderKind::Qwen),
        embedder::kind_named(name) is Some ==> name == "hash"@ || name == "qwen"@ || name
            == "qwen/qwen3-embedding-8b"@,
{
    reveal_strlit("hash");
    reveal_strlit("qwen");
    reveal_strlit("qwen/qwen3-embedding-8b");
    assert("hash"@[0] == 'h' && "qwen"@[0] == 'q' && "qwen/qwen3-embedding-8b"@[0] == 'q');
}

/// The remote embedder is refused where its dimension is out of range, there
/// is no key, or the number of requests at a time is no number, and only there.
pub proof fn law_remote_embedders_need_a_key(
    dimension: usize,
    api_key: Option<Seq<char>>,
    concurrency: Option<Seq<char>>,
)
    ensures
        embedder::qwen_error(dimension, api_key, concurrency) is None <==> 1 <= dimension <= 4096
            && (api_key is Some && !text_laws::all_white(api_key->0)) && (concurrency is Some
            ==> digits::usize_value(concurrency->0) is Some),
        1 <= embedder::concurrency_of(concurrency) <= 32,
        concurrency is None ==> embedder::concurrency_of(concurrency) == 4,
        concurrency matches Some(value) ==> (digits::usize_value(value) matches Some(n) ==> (1 <= n
            <= 32 ==> embedder::concurrency_of(concurrency) == n)),
{
    if let Some(key) = api_key {
        text_laws::law_blank_is_whitespace_alone(key);
    }
}

/// A query can be embedded with the local embedder always, and with the remote
/// one where its dimension is in range and there is a key.
pub proof fn law_queries_are_embedded_where_possible(
    model: Seq<char>,
    dimension: usize,
    api_key: Option<Seq<char>>,
)
    ensures
        embedder::query_error(model, dimension, api_key) is None <==> dimension > 0 && (model
            == "hash"@ || ((model == "qwen"@ || model == "qwen/qwen3-embedding-8b"@) && dimension
            <= 4096 && api_key is Some && !text_laws::all_white(api_key->0))),
{
    law_embedders_are_named(model);
    if let Some(key) = api_key {
        text_laws::law_blank_is_whitespace_alone(key);
    }
}

/// Each wait is twice the one before.
pub proof fn law_waits_double(base: nat, attempt: nat)
    ensures
        embedder::doubled(base, 0) == base,
        embedder::doubled(base, attempt + 1) == 2 * embedder::doubled(base, attempt),
{
}

proof fn lemma_le32(a: u8, b: u8, c: u8, d: u8)
    ensures
        (a as u32) | (b as u32) << 8 | (c as u32) << 16 | (d as u32) << 24 == a + 0x100 * b
            + 0x1_0000 * c + 0x100_0000 * d,
{
    assert((a as u32) | (b as u32) << 8 | (c as u32) << 16 | (d as u32) << 24 == (a as u64) + 0x100
        * (b as u64) + 0x1_0000 * (c as u64) + 0x100_0000 * (d as u64)) by (bit_vector);
}

/// Numbers in matrix files are little-endian, and a row is read number by
/// number.
pub proof fn law_matrix_rows_are_little_endian(bytes: Seq<u8>, i: int)
    requires
        0 <= i < bytes.len() / 4,
    ensures
        benchmark::row_values(bytes).len() == bytes.len() / 4,
        benchmark::row_values(bytes)[i] == (bytes[4 * i] as u32) | (bytes[4 * i + 1] as u32) << 8 | (
        bytes[4 * i + 2] as u32) << 16 | (bytes[4 * i + 3] as u32) << 24,
{
    lemma_le32(bytes[4 * i], bytes[4 * i + 1], bytes[4 * i + 2], bytes[4 * i + 3]);
}

/// As many results agree as occur among the others: none where none does.
pub proof fn law_agreeing_results_are_counted(
    elements: Seq<ElementRef>,
    others: Seq<ElementRef>,
)
    ensures
        benchmark::among(elements, others) == elements.filter(
            |e: ElementRef| others.contains(e),
        ).len(),
        (forall|i: int| 0 <= i < elements.len() ==> !others.contains(#[trigger] elements[i]))
            ==> benchmark::among(elements, others) == 0,
    decreases elements.len(),
{
    reveal(Seq::filter);
    if elements.len() > 0 {
        let rest = elements.drop_last();
        law_agreeing_results_are_counted(rest, others);
        if forall|i: int| 0 <= i < elements.len() ==> !others.contains(#[trigger] elements[i]) {
            assert(!others.contains(elements[elements.len() - 1]));
            assert forall|i: int| 0 <= i < rest.len() implies !others.contains(
                #[trigger] rest[i],
            ) by {
                assert(rest[i] == elements[i]);
            }
        }
    }
}

/// A benchmark of nodes is over every node and no relationship, one of
/// relationships over every relationship and no node, and one of both over
/// all.
pub proof fn law_targets_are_what_they_say(target: VectorTarget, nodes: Seq<u64>, edges: Seq<u64>)
    ensures
        ({
            let all = benchmark::elements_for(target, nodes, edges);
            &&& target == VectorTarget::Nodes ==> all.len() == nodes.len()
            &&& target == VectorTarget::Edges ==> all.len() == edges.len()
            &&& target == VectorTarget::Both ==> all.len() == nodes.len() + edges.len()
            &&& target != VectorTarget::Edges ==> forall|i: int|
                0 <= i < nodes.len() ==> all[i] == ElementRef::Node(#[trigger] nodes[i])
            &&& target == VectorTarget::Edges ==> forall|i: int|
                0 <= i < edges.len() ==> all[i] == ElementRef::Edge(#[trigger] edges[i])
            &&& target == VectorTarget::Both ==> forall|i: int|
                0 <= i < edges.len() ==> all[nodes.len() + i] == ElementRef::Edge(
                    #[trigger] edges[i],
                )
        }),
{
}

/// A matrix file has a header of eight bytes and as many values as its rows
/// have columns; one that could not be addressed is refused.
pub proof fn law_matrix_files_have_their_length(rows: nat, columns: nat, width: nat)
    requires
        width > 0,
    ensures
        match benchmark::matrix_length(rows, columns, width) {
            Some(length) => length == 8 + rows * columns * width && length <= usize::MAX,
            None => 8 + rows * columns * width > usize::MAX,
        },
{
    assert(rows * columns * width >= rows * columns) by (nonlinear_arith)
        requires
            width > 0,
            rows * columns >= 0,
    ;
}

/// As many requests run at once as are asked for, at least one and at most
/// thirty-two, and four where nothing is asked for.
pub proof fn law_concurrency_is_held(n: usize, asked: Seq<char>)
    ensures
        1 <= embedder::concurrency_of(Some(asked)) <= 32,
        asked == digits::decimal(n as nat) && 1 <= n <= 32 ==> embedder::concurrency_of(Some(asked))
            == n,
        asked == digits::decimal(n as nat) && n > 32 ==> embedder::concurrency_of(Some(asked)) == 32,
        asked == digits::decimal(n as nat) && n == 0 ==> embedder::concurrency_of(Some(asked)) == 1,
        embedder::concurrency_of(None) == 4,
{
    digits::law_decimal_round_trips(n as u64);
    assert(digits::unsigned_value(digits::decimal(n as nat)) == Some(n as nat));
}

/// What is embedded for a query ends with the query, so that different queries
/// are embedded differently.
pub proof fn law_queries_are_asked_in_full(a: Seq<char>, b: Seq<char>)
    ensures
        a.is_suffix_of(embedder::query_prompt(a)),
        a != b ==> embedder::query_prompt(a) != embedder::query_prompt(b),
{
    let x = embedder::query_prompt(a);
    let y = embedder::query_prompt(b);
    let head = "Instruct: Retrieve graph elements relevant to the query\nQuery: "@;
    assert(x.subrange(x.len() - a.len(), x.len() as int) =~= a);
    if x == y {
        assert(x.skip(head.len() as int) =~= a);
        assert(y.skip(head.len() as int) =~= b);
    }
}

/// The header of a matrix file names its rows and then its columns, each in
/// four bytes with the lowest first, and is believed exactly where the file is
/// as long as they ask for.
pub proof fn law_headers_name_rows_and_columns(
    header: Seq<u8>,
    rows: nat,
    columns: nat,
    file_len: usize,
    width: nat,
    path: Seq<char>,
)
    requires
        header.len() == 8,
        rows == header[0] + 256 * header[1] + 65_536 * header[2] + 16_777_216 * header[3],
        columns == header[4] + 256 * header[5] + 65_536 * header[6] + 16_777_216 * header[7],
        rows * columns <= usize::MAX,
        rows * columns * width + 8 <= usize::MAX,
    ensures
        file_len == rows * columns * width + 8 ==> benchmark::shape_of(
            header,
            file_len,
            width,
            path,
        ) == Ok::<(nat, nat), Seq<char>>((rows, columns)),
        file_len != rows * columns * width + 8 ==> benchmark::shape_of(
            header,
            file_len,
            width,
            path,
        ) is Err,
{
    assert(benchmark::le32(header, 0) == rows);
    assert(benchmark::le32(header, 4) == columns);
}

/// The share of what was found counts the found elements that were wanted, of
/// all that were wanted.
pub proof fn law_shares_are_of_what_was_wanted(found: Seq<ElementRef>, wanted: Seq<ElementRef>)
    ensures
        benchmark::share_of(found, wanted).0 == found.filter(
            |e: ElementRef| wanted.contains(e),
        ).len(),
        benchmark::share_of(found, wanted).1 == wanted.to_set().len(),
        benchmark::share_of(Seq::empty(), wanted).0 == 0,
{
    lemma_among_is_filter(found, wanted);
    lemma_among_is_filter(Seq::empty(), wanted);
}

proof fn lemma_among_is_filter(found: Seq<ElementRef>, wanted: Seq<ElementRef>)
    ensures
        benchmark::among(found, wanted) == found.filter(|e: ElementRef| wanted.contains(e)).len(),
        benchmark::among(found, wanted) <= found.len(),
    decreases found.len(),
{
    reveal(Seq::filter);
    if found.len() > 0 {
        lemma_among_is_filter(found.drop_last(), wanted);
    }
}

} // verus!
