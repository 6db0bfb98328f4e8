//! Texts that are embedded once each, in batches.

use vstd::prelude::*;
use vstd::string::*;

use crate::digits;
use crate::digits::usize_text;
use crate::embedding;
use crate::embedding::{copy_vector, validate_dimension};
use crate::text;
use crate::text::{concat2, concat3, concat4, concat5};

verus! {

/// The vectors of texts.
#[derive(Debug)]
pub struct EmbeddingCache {
    pub dimension: usize,
    pub texts: Vec<String>,
    pub vectors: Vec<Vec<u32>>,
}

/// The vectors of texts.
#[verifier::ext_equal]
pub struct CacheView {
    pub dimension: nat,
    pub texts: Seq<Seq<char>>,
    pub vectors: Seq<Seq<u32>>,
}

/// The components of vectors.
pub open spec fn components(vectors: Seq<Vec<u32>>) -> Seq<Seq<u32>> {
    vectors.map_values(|v: Vec<u32>| v@)
}

impl View for EmbeddingCache {
    type V = CacheView;

    open spec fn view(&self) -> CacheView {
        CacheView {
            dimension: self.dimension as nat,
            texts: text::views(self.texts@),
            vectors: components(self.vectors@),
        }
    }
}

impl CacheView {
    /// Every text has one vector, no text occurs twice, and every vector
    /// fits.
    pub open spec fn wf(self) -> bool {
        &&& self.texts.len() == self.vectors.len()
        &&& self.texts.no_duplicates()
        &&& forall|i: int|
            0 <= i < self.vectors.len() ==> embedding::vector_fits(
                #[trigger] self.vectors[i],
                self.dimension,
            )
    }

    /// None of the texts is there yet, and none occurs twice.
    pub open spec fn lacks(self, texts: Seq<Seq<char>>) -> bool {
        &&& texts.no_duplicates()
        &&& forall|i: int| 0 <= i < texts.len() ==> !self.texts.contains(#[trigger] texts[i])
    }

    /// The cache with more texts and their vectors.
    pub open spec fn with(self, texts: Seq<Seq<char>>, vectors: Seq<Seq<u32>>) -> CacheView {
        CacheView { texts: self.texts + texts, vectors: self.vectors + vectors, ..self }
    }
}

/// The texts that are not known, each once, in the order in which they first
/// occur.
pub open spec fn unknown(known: Seq<Seq<char>>, texts: Seq<Seq<char>>) -> Seq<Seq<char>>
    decreases texts.len(),
{
    if texts.len() == 0 {
        Seq::empty()
    } else {
        let before = unknown(known, texts.drop_last());
        if known.contains(texts.last()) || before.contains(texts.last()) {
            before
        } else {
            before.push(texts.last())
        }
    }
}

fn contains_text(texts: &Vec<String>, value: &str) -> (r: Option<usize>)
    ensures
        match r {
            Some(i) => i < texts@.len() && text::views(texts@)[i as int] == value@
                && text::views(texts@).contains(value@),
            None => !text::views(texts@).contains(value@),
        },
{
    let mut i: usize = 0;
    while i < texts.len()
        invariant
            i <= texts.len(),
            forall|j: int| 0 <= j < i ==> #[trigger] text::views(texts@)[j] != value@,
        decreases texts.len() - i,
    {
        assert(text::views(texts@)[i as int] == texts@[i as int]@);
        if text::same_text(texts[i].as_str(), value) {
            return Some(i);
        }
        i = i + 1;
    }
    None
}

/// The number of leading vectors that fit.
pub open spec fn fitting(vectors: Seq<Seq<u32>>, dimension: nat) -> nat
    decreases vectors.len(),
{
    if vectors.len() == 0 || !embedding::vector_fits(vectors[0], dimension) {
        0
    } else {
        1 + fitting(vectors.drop_first(), dimension)
    }
}

proof fn lemma_fitting(vectors: Seq<Seq<u32>>, dimension: nat, n: int)
    requires
        0 <= n <= vectors.len(),
        forall|i: int|
            0 <= i < n ==> embedding::vector_fits(#[trigger] vectors[i], dimension),
        n == vectors.len() || !embedding::vector_fits(vectors[n], dimension),
    ensures
        fitting(vectors, dimension) == n,
    decreases n,
{
    if n > 0 {
        let rest = vectors.drop_first();
        assert forall|i: int| 0 <= i < n - 1 implies embedding::vector_fits(
            #[trigger] rest[i],
            dimension,
        ) by {
            assert(rest[i] == vectors[i + 1]);
        }
        lemma_fitting(rest, dimension, n - 1);
    }
}

impl EmbeddingCache {
    /// A cache without texts.
    pub fn new(dimension: usize) -> (r: EmbeddingCache)
        ensures
            r@ == (CacheView {
                dimension: dimension as nat,
                texts: Seq::empty(),
                vectors: Seq::empty(),
            }),
            r@.wf(),
    {
        let r = EmbeddingCache { dimension, texts: Vec::new(), vectors: Vec::new() };
        assert(r@ =~= (CacheView {
            dimension: dimension as nat,
            texts: Seq::empty(),
            vectors: Seq::empty(),
        }));
        r
    }

    /// How many texts were embedded.
    pub fn embedded_texts(&self) -> (r: usize)
        ensures
            r == self@.texts.len(),
    {
        self.texts.len()
    }

    /// Which of the texts have to be embedded.
    pub fn missing(&self, texts: &Vec<String>) -> (r: Vec<String>)
        ensures
            text::views(r@) == unknown(self@.texts, text::views(texts@)),
            self@.lacks(text::views(r@)),
    {
        let ghost all = text::views(texts@);
        let mut out: Vec<String> = Vec::new();
        let mut i: usize = 0;
        assert(all.take(0) =~= Seq::<Seq<char>>::empty());
        assert(text::views(out@) =~= unknown(self@.texts, all.take(0)));
        while i < texts.len()
            invariant
                i <= texts.len(),
                all == text::views(texts@),
                text::views(out@) == unknown(self@.texts, all.take(i as int)),
                self@.lacks(text::views(out@)),
            decreases texts.len() - i,
        {
            let ghost before = text::views(out@);
            proof {
                assert(all.take(i + 1).drop_last() =~= all.take(i as int));
                assert(all.take(i + 1).last() == texts@[i as int]@);
            }
            if contains_text(&self.texts, texts[i].as_str()).is_none() && contains_text(
                &out,
                texts[i].as_str(),
            ).is_none() {
                out.push(texts[i].clone());
                assert(text::views(out@) =~= before.push(texts@[i as int]@));
            }
            i = i + 1;
        }
        assert(all.take(all.len() as int) =~= all);
        out
    }

    /// Keeps the vectors of texts that were missing, up to the first that
    /// does not fit.
    pub fn keep(&mut self, missing: Vec<String>, vectors: &Vec<Vec<u32>>) -> (r: Result<
        (),
        String,
    >)
        requires
            old(self)@.wf(),
            old(self)@.lacks(text::views(missing@)),
        ensures
            final(self)@.wf(),
            ({
                let names = text::views(missing@);
                let given = components(vectors@);
                let n = fitting(given, old(self)@.dimension) as int;
                if given.len() != names.len() {
                    &&& *final(self) == *old(self)
                    &&& r matches Err(message)
                    &&& message@ == "embedder returned "@ + digits::decimal(given.len())
                        + " vectors for "@ + digits::decimal(names.len()) + " inputs"@
                } else {
                    &&& n <= given.len()
                    &&& final(self)@ == old(self)@.with(names.take(n), given.take(n))
                    &&& match r {
                        Ok(_) => n == given.len(),
                        Err(message) => n < given.len() && message@ == embedding::vector_error(
                            given[n],
                            old(self)@.dimension,
                            "requested"@,
                        ),
                    }
                }
            }),
    {
        if vectors.len() != missing.len() {
            let found = usize_text(vectors.len());
            let wanted = usize_text(missing.len());
            return Err(
                concat5(
                    "embedder returned ",
                    found.as_str(),
                    " vectors for ",
                    wanted.as_str(),
                    " inputs",
                ),
            );
        }
        let ghost start = self@;
        let ghost names = text::views(missing@);
        let ghost given = components(vectors@);
        let dimension: usize = self.dimension;
        let mut i: usize = 0;
        assert(self@ =~= start.with(names.take(0), given.take(0)));
        while i < vectors.len()
            invariant
                i <= vectors.len(),
                vectors@.len() == missing@.len(),
                names == text::views(missing@),
                given == components(vectors@),
                start == old(self)@,
                start.wf(),
                start.lacks(names),
                dimension == start.dimension,
                forall|j: int|
                    0 <= j < i ==> embedding::vector_fits(#[trigger] given[j], start.dimension),
                self@ == start.with(names.take(i as int), given.take(i as int)),
                self@.wf(),
            decreases vectors.len() - i,
        {
            assert(given[i as int] == vectors@[i as int]@);
            match validate_dimension(&vectors[i], dimension) {
                Err(message) => {
                    proof {
                        lemma_fitting(given, start.dimension, i as int);
                    }
                    return Err(message);
                },
                Ok(_) => {},
            }
            let ghost before = self@;
            self.texts.push(missing[i].clone());
            self.vectors.push(copy_vector(&vectors[i]));
            proof {
                assert(names[i as int] == missing@[i as int]@);
                assert(self@.texts =~= before.texts.push(names[i as int]));
                assert(self@.vectors =~= before.vectors.push(given[i as int]));
                assert(names.take(i + 1) =~= names.take(i as int).push(names[i as int]));
                assert(given.take(i + 1) =~= given.take(i as int).push(given[i as int]));
                assert(self@ =~= start.with(names.take(i + 1), given.take(i + 1)));
                assert(!before.texts.contains(names[i as int])) by {
                    if before.texts.contains(names[i as int]) {
                        let k = choose|k: int|
                            0 <= k < before.texts.len() && before.texts[k] == names[i as int];
                        if k < start.texts.len() {
                            assert(start.texts[k] == names[i as int]);
                            assert(start.texts.contains(names[i as int]));
                        } else {
                            assert(names[k - start.texts.len()] == names[i as int]);
                        }
                    }
                }
                assert(self@.texts.no_duplicates()) by {
                    assert forall|a: int, b: int|
                        0 <= a < self@.texts.len() && 0 <= b < self@.texts.len() && a
                            != b implies self@.texts[a] != self@.texts[b] by {
                        let last = before.texts.len();
                        if a == last {
                            assert(self@.texts[b] == before.texts[b]);
                        } else if b == last {
                            assert(self@.texts[a] == before.texts[a]);
                        } else {
                            assert(self@.texts[a] == before.texts[a]);
                            assert(self@.texts[b] == before.texts[b]);
                        }
                    }
                }
            }
            i = i + 1;
        }
        proof {
            lemma_fitting(given, start.dimension, i as int);
        }
        Ok(())
    }

    /// The vector of a text.
    pub fn vector(&self, value: &str) -> (r: Result<Vec<u32>, String>)
        requires
            self@.wf(),
        ensures
            match r {
                Ok(vector) => self@.texts.contains(value@) && vector@
                    == self@.vectors[self@.texts.index_of(value@)],
                Err(message) => !self@.texts.contains(value@) && message@
                    == "embedding was not prepared for "@ + text::spec_quoted(value@),
            },
    {
        match contains_text(&self.texts, value) {
            Some(i) => {
                let r = copy_vector(&self.vectors[i]);
                proof {
                    let k = self@.texts.index_of(value@);
                    assert(self@.texts[k] == value@);
                    assert(k == i);
                    assert(self@.vectors[i as int] == self.vectors@[i as int]@);
                }
                Ok(r)
            },
            None => {
                let shown = text::quoted(value);
                Err(concat2("embedding was not prepared for ", shown.as_str()))
            },
        }
    }
}

/// Every text is known already or among those that have to be embedded, which
/// are all new and differ from each other.
pub proof fn law_texts_are_embedded_once(known: Seq<Seq<char>>, texts: Seq<Seq<char>>)
    ensures
        unknown(known, texts).no_duplicates(),
        forall|i: int|
            0 <= i < texts.len() ==> known.contains(#[trigger] texts[i]) || unknown(
                known,
                texts,
            ).contains(texts[i]),
        forall|i: int|
            0 <= i < unknown(known, texts).len() ==> {
                &&& !known.contains(#[trigger] unknown(known, texts)[i])
                &&& texts.contains(unknown(known, texts)[i])
            },
    decreases texts.len(),
{
    if texts.len() > 0 {
        let shorter = texts.drop_last();
        law_texts_are_embedded_once(known, shorter);
        let before = unknown(known, shorter);
        let now = unknown(known, texts);
        let last = texts.last();
        assert(texts[texts.len() - 1] == last);
        assert forall|i: int| 0 <= i < texts.len() implies known.contains(#[trigger] texts[i])
            || now.contains(texts[i]) by {
            if now.len() > before.len() {
                assert(now.last() == last);
            }
            if i < shorter.len() {
                assert(shorter[i] == texts[i]);
                if before.contains(texts[i]) {
                    let k = choose|k: int| 0 <= k < before.len() && before[k] == texts[i];
                    assert(now[k] == texts[i]);
                }
            }
        }
        assert forall|i: int| 0 <= i < now.len() implies !known.contains(#[trigger] now[i])
            && texts.contains(now[i]) by {
            if i < before.len() {
                assert(now[i] == before[i]);
                let k = choose|k: int| 0 <= k < shorter.len() && shorter[k] == before[i];
                assert(texts[k] == now[i]);
            }
        }
    }
}

/// A text whose vector was kept is found again, and its vector is the one
/// that was kept.
pub proof fn law_kept_vectors_are_found(
    cache: CacheView,
    names: Seq<Seq<char>>,
    given: Seq<Seq<u32>>,
    i: int,
)
    requires
        cache.wf(),
        cache.lacks(names),
        names.len() == given.len(),
        0 <= i < names.len(),
    ensures
        ({
            let now = cache.with(names, given);
            now.texts.contains(names[i]) && now.vectors[now.texts.index_of(names[i])] == given[i]
        }),
{
    let now = cache.with(names, given);
    let at = cache.texts.len() + i;
    assert(now.texts[at] == names[i]);
    let k = now.texts.index_of(names[i]);
    assert(now.texts[k] == names[i]);
    if k < cache.texts.len() {
        assert(cache.texts[k] == names[i]);
        assert(cache.texts.contains(names[i]));
    } else {
        assert(names[k - cache.texts.len()] == names[i]);
    }
}

/// How many batches of a size the texts make.
pub open spec fn batches(texts: nat, size: nat) -> nat {
    if texts == 0 {
        0
    } else {
        ((texts - 1) / size as int + 1) as nat
    }
}

/// Where a batch starts.
pub open spec fn batch_start(batch: nat, size: nat) -> nat {
    batch * size
}

/// Where a batch ends.
pub open spec fn batch_end(batch: nat, size: nat, texts: nat) -> nat {
    if (batch + 1) * size <= texts {
        (batch + 1) * size
    } else {
        texts
    }
}

/// How many batches of a size the texts make.
pub fn batch_count(texts: usize, size: usize) -> (r: usize)
    requires
        size > 0,
    ensures
        r == batches(texts as nat, size as nat),
{
    if texts == 0 {
        0
    } else {
        let full: usize = (texts - 1) / size;
        proof {
            assert((texts - 1) / (size as int) <= texts - 1) by (nonlinear_arith)
                requires
                    size > 0,
                    texts > 0,
            ;
        }
        full + 1
    }
}

proof fn lemma_batch_starts(batch: nat, size: nat, texts: nat)
    requires
        size > 0,
        batch < batches(texts, size),
    ensures
        batch * size < texts,
{
    assert(batch <= (texts - 1) / size as int);
    assert(batch * size <= texts - 1) by (nonlinear_arith)
        requires
            size > 0,
            batch <= (texts - 1) / size as int,
            texts > 0,
    ;
}

/// Where a batch starts and ends.
pub fn batch_range(batch: usize, size: usize, texts: usize) -> (r: (usize, usize))
    requires
        size > 0,
        batch < batches(texts as nat, size as nat),
    ensures
        r.0 == batch_start(batch as nat, size as nat),
        r.1 == batch_end(batch as nat, size as nat, texts as nat),
        r.0 < r.1 <= texts,
{
    proof {
        lemma_batch_starts(batch as nat, size as nat, texts as nat);
        assert((batch + 1) * size == batch * size + size) by (nonlinear_arith);
    }
    let start: usize = batch * size;
    let end: usize = if texts - start <= size {
        texts
    } else {
        start + size
    };
    (start, end)
}

/// The batches are not empty, each starts where the one before it ends, the
/// first starts at the first text and the last ends behind the last.
pub proof fn law_batches_cover_the_texts(texts: nat, size: nat, batch: nat)
    requires
        size > 0,
        batch < batches(texts, size),
    ensures
        batch_start(0, size) == 0,
        batch_start(batch, size) < batch_end(batch, size, texts) <= texts,
        batch_end(batch, size, texts) - batch_start(batch, size) <= size,
        batch + 1 < batches(texts, size) ==> batch_start(batch + 1, size) == batch_end(
            batch,
            size,
            texts,
        ),
        batch + 1 == batches(texts, size) ==> batch_end(batch, size, texts) == texts,
{
    lemma_batch_starts(batch, size, texts);
    assert((batch + 1) * size == batch * size + size) by (nonlinear_arith);
    if batch + 1 < batches(texts, size) {
        lemma_batch_starts(batch + 1, size, texts);
    } else {
        let q = (texts - 1) / size as int;
        assert(batch == q);
        assert(texts - 1 < (q + 1) * size) by (nonlinear_arith)
            requires
                size > 0,
                q == (texts - 1) / size as int,
        ;
    }
}

/// Which worker takes a batch.
pub open spec fn worker_of(batch: nat, workers: nat) -> nat {
    batch % workers
}

/// The batches that a worker takes: every so many, from its own number on.
pub open spec fn taken(worker: nat, workers: nat, count: nat) -> Seq<usize>
    decreases count,
{
    if count == 0 {
        Seq::empty()
    } else {
        let before = taken(worker, workers, (count - 1) as nat);
        if worker_of((count - 1) as nat, workers) == worker {
            before.push((count - 1) as usize)
        } else {
            before
        }
    }
}

/// The batches that a worker takes.
pub fn worker_batches(worker: usize, workers: usize, count: usize) -> (r: Vec<usize>)
    requires
        worker < workers,
    ensures
        r@ == taken(worker as nat, workers as nat, count as nat),
{
    let mut out: Vec<usize> = Vec::new();
    let mut i: usize = 0;
    while i < count
        invariant
            worker < workers,
            i <= count,
            out@ == taken(worker as nat, workers as nat, i as nat),
        decreases count - i,
    {
        if i % workers == worker {
            out.push(i);
        }
        i = i + 1;
    }
    out
}

proof fn lemma_taken(worker: nat, workers: nat, count: nat, batch: usize)
    requires
        worker < workers,
        count <= usize::MAX,
    ensures
        taken(worker, workers, count).contains(batch) <==> (batch < count && worker_of(
            batch as nat,
            workers,
        ) == worker),
    decreases count,
{
    if count > 0 {
        let before = taken(worker, workers, (count - 1) as nat);
        let now = taken(worker, workers, count);
        lemma_taken(worker, workers, (count - 1) as nat, batch);
        if before.contains(batch) {
            let k = choose|k: int| 0 <= k < before.len() && before[k] == batch;
            assert(now[k] == batch);
        }
        if now.contains(batch) && !before.contains(batch) {
            let k = choose|k: int| 0 <= k < now.len() && now[k] == batch;
            assert(k == before.len());
        }
        if batch == count - 1 && worker_of(batch as nat, workers) == worker {
            assert(now[before.len() as int] == batch);
        }
    }
}

/// Every batch is taken by one worker and no other.
pub proof fn law_every_batch_has_one_worker(
    workers: nat,
    count: nat,
    batch: usize,
    worker: nat,
    other: nat,
)
    requires
        worker < workers,
        other < workers,
        batch < count <= usize::MAX,
        taken(worker, workers, count).contains(batch),
        taken(other, workers, count).contains(batch),
    ensures
        worker == other,
        worker == worker_of(batch as nat, workers),
{
    lemma_taken(worker, workers, count, batch);
    lemma_taken(other, workers, count, batch);
}

/// No batch is left out.
pub proof fn law_no_batch_is_left_out(workers: nat, count: nat, batch: usize)
    requires
        workers > 0,
        batch < count <= usize::MAX,
    ensures
        worker_of(batch as nat, workers) < workers,
        taken(worker_of(batch as nat, workers), workers, count).contains(batch),
{
    assert(batch as nat % workers < workers) by (nonlinear_arith)
        requires
            workers > 0,
    ;
    lemma_taken(worker_of(batch as nat, workers), workers, count, batch);
}

/// What is said of a batch that failed.
pub fn batch_failure(batch: usize, error: &str) -> (r: String)
    ensures
        r@ == "embedding batch "@ + digits::decimal(batch as nat) + " failed: "@ + error@,
{
    let shown = usize_text(batch);
    concat4("embedding batch ", shown.as_str(), " failed: ", error)
}

/// What is said of the progress, at every tenth batch and at the last.
pub fn batch_progress(done: usize, count: usize) -> (r: Option<String>)
    ensures
        match r {
            Some(line) => (done == count || done % 10 == 0) && line@ == "embedded "@
                + digits::decimal(done as nat) + "/"@ + digits::decimal(count as nat)
                + " batches"@,
            None => done != count && done % 10 != 0,
        },
{
    if done == count || done % 10 == 0 {
        let first = usize_text(done);
        let second = usize_text(count);
        Some(concat5("embedded ", first.as_str(), "/", second.as_str(), " batches"))
    } else {
        None
    }
}

/// What a worker gave for a batch.
#[derive(Debug)]
pub struct BatchResult {
    pub batch: usize,
    pub result: Result<Vec<Vec<u32>>, String>,
}

/// The first failure in the order in which results came.
pub open spec fn first_failure(results: Seq<BatchResult>) -> Option<Seq<char>>
    decreases results.len(),
{
    if results.len() == 0 {
        None
    } else {
        match first_failure(results.drop_last()) {
            Some(message) => Some(message),
            None => match results.last().result {
                Ok(_) => None,
                Err(message) => Some(message@),
            },
        }
    }
}

/// The vectors that came for a batch, if any did; the last to come count.
pub open spec fn vectors_of(results: Seq<BatchResult>, batch: nat) -> Option<Seq<Seq<u32>>>
    decreases results.len(),
{
    if results.len() == 0 {
        None
    } else {
        let last = results.last();
        match last.result {
            Ok(vectors) if last.batch == batch => Some(components(vectors@)),
            _ => vectors_of(results.drop_last(), batch),
        }
    }
}

/// The vectors of the first `count` batches, in the order of the batches, if
/// none is lost.
pub open spec fn gathered(results: Seq<BatchResult>, count: nat) -> Option<Seq<Seq<u32>>>
    decreases count,
{
    if count == 0 {
        Some(Seq::empty())
    } else {
        match (gathered(results, (count - 1) as nat), vectors_of(results, (count - 1) as nat)) {
            (Some(before), Some(more)) => Some(before + more),
            _ => None,
        }
    }
}

/// The first batch that is lost.
pub open spec fn first_lost(results: Seq<BatchResult>, count: nat, lost: nat) -> bool {
    lost < count && vectors_of(results, lost) is None && gathered(results, lost) is Some
}

fn find_failure(results: &Vec<BatchResult>) -> (r: Option<String>)
    ensures
        text::opt_view(r) == first_failure(results@),
{
    let mut i: usize = 0;
    assert(results@.take(0) =~= Seq::<BatchResult>::empty());
    while i < results.len()
        invariant
            i <= results.len(),
            first_failure(results@.take(i as int)) is None,
        decreases results.len() - i,
    {
        assert(results@.take(i + 1).drop_last() =~= results@.take(i as int));
        match &results[i].result {
            Ok(_) => {},
            Err(message) => {
                proof {
                    lemma_failure_stays(results@, i + 1);
                }
                return Some(message.clone());
            },
        }
        i = i + 1;
    }
    assert(results@.take(results@.len() as int) =~= results@);
    None
}

proof fn lemma_failure_stays(results: Seq<BatchResult>, n: int)
    requires
        0 <= n <= results.len(),
        first_failure(results.take(n)) is Some,
    ensures
        first_failure(results) == first_failure(results.take(n)),
    decreases results.len(),
{
    if n == results.len() {
        assert(results.take(n) =~= results);
    } else {
        assert(results.drop_last().take(n) =~= results.take(n));
        lemma_failure_stays(results.drop_last(), n);
    }
}

fn find_vectors(results: &Vec<BatchResult>, batch: usize) -> (r: Option<usize>)
    ensures
        match r {
            Some(i) => {
                &&& i < results@.len()
                &&& results@[i as int].result matches Ok(vectors)
                &&& vectors_of(results@, batch as nat) == Some(components(vectors@))
            },
            None => vectors_of(results@, batch as nat) is None,
        },
{
    let mut i: usize = results.len();
    assert(results@.take(results@.len() as int) =~= results@);
    while i > 0
        invariant
            i <= results.len(),
            vectors_of(results@.take(i as int), batch as nat) == vectors_of(
                results@,
                batch as nat,
            ),
        decreases i,
    {
        assert(results@.take(i as int).drop_last() =~= results@.take(i - 1));
        i = i - 1;
        if results[i].batch == batch {
            match &results[i].result {
                Ok(_) => {
                    return Some(i);
                },
                Err(_) => {},
            }
        }
    }
    None
}

fn append_vectors(out: &mut Vec<Vec<u32>>, more: &Vec<Vec<u32>>)
    ensures
        components(final(out)@) == components(old(out)@) + components(more@),
{
    let ghost before = components(out@);
    let mut i: usize = 0;
    assert(components(out@) =~= before + components(more@).take(0));
    while i < more.len()
        invariant
            i <= more.len(),
            components(out@) == before + components(more@).take(i as int),
        decreases more.len() - i,
    {
        let ghost now = components(out@);
        let vector = copy_vector(&more[i]);
        let ghost view = vector@;
        out.push(vector);
        assert(components(out@) =~= now.push(view));
        assert(components(more@).take(i + 1) =~= components(more@).take(i as int).push(
            components(more@)[i as int],
        ));
        assert(components(out@) =~= before + components(more@).take(i + 1));
        i = i + 1;
    }
    assert(components(more@).take(more@.len() as int) =~= components(more@));
}

/// Puts the results of all batches together: the first failure to come, or
/// else the first batch that is lost, or else all vectors in order.
pub fn gather(results: &Vec<BatchResult>, count: usize) -> (r: Result<Vec<Vec<u32>>, String>)
    ensures
        match first_failure(results@) {
            Some(failure) => r matches Err(message) && message@ == failure,
            None => match r {
                Ok(vectors) => gathered(results@, count as nat) == Some(components(vectors@)),
                Err(message) => gathered(results@, count as nat) is None && exists|lost: nat|
                    #[trigger] first_lost(results@, count as nat, lost) && message@
                        == "embedding batch "@ + digits::decimal(lost) + " was lost"@,
            },
        },
{
    match find_failure(results) {
        Some(message) => {
            return Err(message);
        },
        None => {},
    }
    let mut out: Vec<Vec<u32>> = Vec::new();
    let mut i: usize = 0;
    assert(components(out@) =~= Seq::<Seq<u32>>::empty());
    while i < count
        invariant
            i <= count,
            first_failure(results@) is None,
            gathered(results@, i as nat) == Some(components(out@)),
        decreases count - i,
    {
        match find_vectors(results, i) {
            Some(k) => match &results[k].result {
                Ok(vectors) => {
                    append_vectors(&mut out, vectors);
                },
                Err(_) => {},
            },
            None => {
                let shown = usize_text(i);
                proof {
                    assert(first_lost(results@, count as nat, i as nat));
                    lemma_lost(results@, count as nat, i as nat);
                }
                return Err(concat3("embedding batch ", shown.as_str(), " was lost"));
            },
        }
        i = i + 1;
    }
    Ok(out)
}

proof fn lemma_lost(results: Seq<BatchResult>, count: nat, lost: nat)
    requires
        lost < count,
        vectors_of(results, lost) is None,
    ensures
        gathered(results, count) is None,
    decreases count,
{
    if count > lost + 1 {
        lemma_lost(results, (count - 1) as nat, lost);
    }
}

} // verus!
