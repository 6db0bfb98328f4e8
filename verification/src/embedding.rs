//! Embedding texts: the features of the lexical embedding, the choice of an
//! embedder, and what is checked of the vectors that come back.
//!
//! Vectors are kept by the bits of their single-precision components.

use vstd::prelude::*;
use vstd::string::*;
use vstd::utf8::*;

use crate::digits;
use crate::digits::usize_text;
use crate::hash;
use crate::hash::{hash_more, FNV_OFFSET};
use crate::single;
use crate::text;
use crate::text::{concat2, concat5, Separator};

verus! {

/// The model that OpenRouter is asked for.
pub const QWEN_MODEL: &'static str = "qwen/qwen3-embedding-8b";

/// One contribution to the lexical embedding: at which component, with which
/// sign, and whether with the weight of a whole token or of a part of one.
#[derive(Clone, Copy, Debug, PartialEq, Eq, Structural)]
pub struct Feature {
    pub slot: usize,
    pub negative: bool,
    pub whole: bool,
}

/// The contribution of some bytes.
pub open spec fn feature_of(bytes: Seq<u8>, dimension: nat, whole: bool) -> Feature {
    let hash = hash::fnv(bytes);
    Feature {
        slot: ((hash as usize) as nat % dimension) as usize,
        negative: hash & 0x8000_0000_0000_0000 != 0,
        whole,
    }
}

/// The contributions of a token: its own, and those of every three bytes in
/// a row.
pub open spec fn token_features(bytes: Seq<u8>, dimension: nat) -> Seq<Feature> {
    seq![feature_of(bytes, dimension, true)] + if bytes.len() >= 3 {
        Seq::new(
            (bytes.len() - 2) as nat,
            |i: int| feature_of(bytes.subrange(i, i + 3), dimension, false),
        )
    } else {
        Seq::empty()
    }
}

/// The contributions of tokens, one after the other.
pub open spec fn tokens_features(tokens: Seq<Seq<char>>, dimension: nat) -> Seq<Feature>
    decreases tokens.len(),
{
    if tokens.len() == 0 {
        Seq::empty()
    } else {
        tokens_features(tokens.drop_last(), dimension) + token_features(
            encode_utf8(tokens.last()),
            dimension,
        )
    }
}

/// The tokens of a text, in lower case.
pub open spec fn tokens_of(value: Seq<char>) -> Seq<Seq<char>> {
    text::nonempty_pieces(text::ascii_lowered(value), Separator::NonWord)
}

/// The contributions of a text: those of its tokens, or of the text as a
/// whole where it has none. A vector without components takes none.
pub open spec fn text_features(value: Seq<char>, dimension: nat) -> Seq<Feature> {
    if dimension == 0 {
        Seq::empty()
    } else if tokens_of(value).len() == 0 {
        seq![feature_of(encode_utf8(text::ascii_lowered(value)), dimension, true)]
    } else {
        tokens_features(tokens_of(value), dimension)
    }
}

fn feature(bytes: &[u8], from: usize, to: usize, dimension: usize, whole: bool) -> (r: Feature)
    requires
        dimension > 0,
        from <= to <= bytes@.len(),
    ensures
        r == feature_of(bytes@.subrange(from as int, to as int), dimension as nat, whole),
{
    let hash = hash_more(FNV_OFFSET, bytes, from, to);
    let slot: usize = (hash as usize) % dimension;
    Feature { slot, negative: hash & 0x8000_0000_0000_0000u64 != 0, whole }
}

fn push_token(out: &mut Vec<Feature>, token: &str, dimension: usize)
    requires
        dimension > 0,
    ensures
        final(out)@ == old(out)@ + token_features(encode_utf8(token@), dimension as nat),
{
    let bytes = token.as_bytes();
    let ghost before = out@;
    assert(bytes@.subrange(0, bytes@.len() as int) =~= bytes@);
    out.push(feature(bytes, 0, bytes.len(), dimension, true));
    let ghost first = out@;
    assert(first =~= before + seq![feature_of(bytes@, dimension as nat, true)]);
    if bytes.len() >= 3 {
        let length: usize = bytes.len();
        let count: usize = length - 2;
        let mut i: usize = 0;
        let ghost part = |i: int| feature_of(bytes@.subrange(i, i + 3), dimension as nat, false);
        assert(out@ =~= first + Seq::new(0, part));
        while i < count
            invariant
                dimension > 0,
                length == bytes@.len(),
                length >= 3,
                count == length - 2,
                i <= count,
                part == (|i: int|
                    feature_of(bytes@.subrange(i, i + 3), dimension as nat, false)),
                out@ == first + Seq::new(i as nat, part),
            decreases count - i,
        {
            out.push(feature(bytes, i, i + 3, dimension, false));
            assert(out@ =~= first + Seq::new((i + 1) as nat, part));
            i = i + 1;
        }
    }
    assert(out@ =~= before + token_features(bytes@, dimension as nat));
}

/// The contributions that make up the lexical embedding of a text, in the
/// order in which they are added.
pub fn features(value: &str, dimension: usize) -> (r: Vec<Feature>)
    ensures
        r@ == text_features(value@, dimension as nat),
{
    if dimension == 0 {
        return Vec::new();
    }
    let lowered = text::ascii_lowercase(value);
    let tokens = text::split_nonempty(lowered.as_str(), Separator::NonWord);
    let ghost all = tokens_of(value@);
    assert(all.len() == tokens@.len());
    let mut out: Vec<Feature> = Vec::new();
    if tokens.len() == 0 {
        let bytes = lowered.as_str().as_bytes();
        assert(bytes@.subrange(0, bytes@.len() as int) =~= bytes@);
        out.push(feature(bytes, 0, bytes.len(), dimension, true));
        assert(out@ =~= text_features(value@, dimension as nat));
        return out;
    }
    let mut i: usize = 0;
    assert(all.take(0) =~= Seq::<Seq<char>>::empty());
    assert(out@ =~= tokens_features(all.take(0), dimension as nat));
    while i < tokens.len()
        invariant
            dimension > 0,
            i <= tokens.len(),
            all == text::views(tokens@),
            out@ == tokens_features(all.take(i as int), dimension as nat),
        decreases tokens.len() - i,
    {
        assert(all.take(i + 1).drop_last() =~= all.take(i as int));
        assert(all.take(i + 1).last() == tokens@[i as int]@);
        push_token(&mut out, tokens[i].as_str(), dimension);
        i = i + 1;
    }
    assert(all.take(all.len() as int) =~= all);
    out
}

proof fn lemma_token_among(tokens: Seq<Seq<char>>, dimension: nat, t: int, f: Feature)
    requires
        0 <= t < tokens.len(),
        token_features(encode_utf8(tokens[t]), dimension).contains(f),
    ensures
        tokens_features(tokens, dimension).contains(f),
    decreases tokens.len(),
{
    let before = tokens_features(tokens.drop_last(), dimension);
    let last = token_features(encode_utf8(tokens.last()), dimension);
    let all = tokens_features(tokens, dimension);
    if t == tokens.len() - 1 {
        let k = choose|k: int| 0 <= k < last.len() && last[k] == f;
        assert(all[before.len() + k] == f);
    } else {
        lemma_token_among(tokens.drop_last(), dimension, t, f);
        let k = choose|k: int| 0 <= k < before.len() && before[k] == f;
        assert(all[k] == f);
    }
}

/// Texts that share a token share the token's contributions, whatever else
/// they hold.
pub proof fn law_shared_tokens_share_features(
    a: Seq<char>,
    b: Seq<char>,
    token: Seq<char>,
    dimension: nat,
    f: Feature,
)
    requires
        dimension > 0,
        tokens_of(a).contains(token),
        tokens_of(b).contains(token),
        token_features(encode_utf8(token), dimension).contains(f),
    ensures
        text_features(a, dimension).contains(f),
        text_features(b, dimension).contains(f),
{
    let i = choose|i: int| 0 <= i < tokens_of(a).len() && tokens_of(a)[i] == token;
    lemma_token_among(tokens_of(a), dimension, i, f);
    let j = choose|j: int| 0 <= j < tokens_of(b).len() && tokens_of(b)[j] == token;
    lemma_token_among(tokens_of(b), dimension, j, f);
}

proof fn lemma_token_features_fit(bytes: Seq<u8>, dimension: nat)
    requires
        0 < dimension <= usize::MAX,
    ensures
        forall|k: int|
            0 <= k < token_features(bytes, dimension).len() ==> (#[trigger] token_features(
                bytes,
                dimension,
            )[k]).slot < dimension,
{
}

/// Every contribution lies within the vector, and there is at least one.
pub proof fn law_features_fit(value: Seq<char>, dimension: nat)
    requires
        0 < dimension <= usize::MAX,
    ensures
        text_features(value, dimension).len() > 0,
        forall|k: int|
            0 <= k < text_features(value, dimension).len() ==> (#[trigger] text_features(
                value,
                dimension,
            )[k]).slot < dimension,
{
    lemma_tokens_features_fit(tokens_of(value), dimension);
}

proof fn lemma_tokens_features_fit(tokens: Seq<Seq<char>>, dimension: nat)
    requires
        0 < dimension <= usize::MAX,
    ensures
        tokens.len() > 0 ==> tokens_features(tokens, dimension).len() > 0,
        forall|k: int|
            0 <= k < tokens_features(tokens, dimension).len() ==> (#[trigger] tokens_features(
                tokens,
                dimension,
            )[k]).slot < dimension,
    decreases tokens.len(),
{
    if tokens.len() > 0 {
        lemma_tokens_features_fit(tokens.drop_last(), dimension);
        let last = encode_utf8(tokens.last());
        lemma_token_features_fit(last, dimension);
        let before = tokens_features(tokens.drop_last(), dimension);
        assert forall|k: int| 0 <= k < tokens_features(tokens, dimension).len() implies (
        #[trigger] tokens_features(tokens, dimension)[k]).slot < dimension by {
            if k < before.len() {
                assert(tokens_features(tokens, dimension)[k] == before[k]);
            } else {
                assert(tokens_features(tokens, dimension)[k] == token_features(last, dimension)[k
                    - before.len()]);
            }
        }
    }
}

/// Whether a vector fits: of the right length, every component finite.
pub open spec fn vector_fits(vector: Seq<u32>, dimension: nat) -> bool {
    vector.len() == dimension && forall|i: int|
        0 <= i < vector.len() ==> single::finite(#[trigger] vector[i])
}

/// What is wrong with a vector that does not fit.
pub open spec fn vector_error(vector: Seq<u32>, dimension: nat, whose: Seq<char>) -> Seq<char> {
    if vector.len() != dimension {
        "embedding dimension "@ + digits::decimal(vector.len()) + " does not match "@ + whose
            + " dimension "@ + digits::decimal(dimension)
    } else {
        "embedding contains a non-finite value"@
    }
}

fn check_vector(vector: &Vec<u32>, dimension: usize, whose: &str) -> (r: Result<(), String>)
    ensures
        match r {
            Ok(_) => vector_fits(vector@, dimension as nat),
            Err(message) => !vector_fits(vector@, dimension as nat) && message@ == vector_error(
                vector@,
                dimension as nat,
                whose@,
            ),
        },
{
    if vector.len() != dimension {
        let found = usize_text(vector.len());
        let wanted = usize_text(dimension);
        let head = concat5(
            "embedding dimension ",
            found.as_str(),
            " does not match ",
            whose,
            " dimension ",
        );
        return Err(concat2(head.as_str(), wanted.as_str()));
    }
    let mut i: usize = 0;
    while i < vector.len()
        invariant
            vector@.len() == dimension,
            i <= vector.len(),
            forall|j: int| 0 <= j < i ==> single::finite(#[trigger] vector@[j]),
        decreases vector.len() - i,
    {
        if !single::is_finite(vector[i]) {
            assert(!single::finite(vector@[i as int]));
            return Err("embedding contains a non-finite value".to_owned());
        }
        i = i + 1;
    }
    Ok(())
}

/// Checks a vector against the dimension that was asked for.
pub fn validate_dimension(vector: &Vec<u32>, dimension: usize) -> (r: Result<(), String>)
    ensures
        match r {
            Ok(_) => vector_fits(vector@, dimension as nat),
            Err(message) => !vector_fits(vector@, dimension as nat) && message@ == vector_error(
                vector@,
                dimension as nat,
                "requested"@,
            ),
        },
{
    check_vector(vector, dimension, "requested")
}

/// Checks a vector against the dimension of a database.
pub fn validate_vector(vector: &Vec<u32>, dimension: usize) -> (r: Result<(), String>)
    ensures
        match r {
            Ok(_) => vector_fits(vector@, dimension as nat),
            Err(message) => !vector_fits(vector@, dimension as nat) && message@ == vector_error(
                vector@,
                dimension as nat,
                "database"@,
            ),
        },
{
    check_vector(vector, dimension, "database")
}

/// One embedding of a reply, and which input it is for.
#[derive(Debug)]
pub struct EmbeddingDatum {
    pub index: usize,
    pub embedding: Vec<u32>,
}

/// What is wrong with the embedding at position `i` of a reply, if anything.
pub open spec fn datum_error(
    data: Seq<EmbeddingDatum>,
    i: int,
    expected: nat,
    dimension: nat,
) -> Option<Seq<char>> {
    let datum = data[i];
    if datum.index >= expected {
        Some("OpenRouter returned invalid input index "@ + digits::decimal(datum.index as nat))
    } else if !vector_fits(datum.embedding@, dimension) {
        Some(vector_error(datum.embedding@, dimension, "requested"@))
    } else if exists|j: int| 0 <= j < i && (#[trigger] data[j]).index == datum.index {
        Some("OpenRouter returned duplicate input index "@ + digits::decimal(datum.index as nat))
    } else {
        None
    }
}

/// What is wrong with a reply, if anything: its length, or else the first of
/// its embeddings that is wrong.
pub open spec fn reply_error(
    data: Seq<EmbeddingDatum>,
    expected: nat,
    dimension: nat,
    message: Seq<char>,
) -> bool {
    if data.len() != expected {
        message == "OpenRouter returned "@ + digits::decimal(data.len()) + " embeddings for "@
            + digits::decimal(expected) + " inputs"@
    } else {
        exists|i: int|
            {
                &&& 0 <= i < data.len()
                &&& #[trigger] datum_error(data, i, expected, dimension) == Some(message)
                &&& forall|j: int|
                    0 <= j < i ==> #[trigger] datum_error(data, j, expected, dimension) is None
            }
    }
}

/// Whether nothing is wrong with a reply.
pub open spec fn reply_fits(data: Seq<EmbeddingDatum>, expected: nat, dimension: nat) -> bool {
    data.len() == expected && forall|j: int|
        0 <= j < data.len() ==> #[trigger] datum_error(data, j, expected, dimension) is None
}

/// Among the first `n` embeddings, the one for an input.
pub open spec fn placed(data: Seq<EmbeddingDatum>, n: int, index: int, j: int) -> bool {
    0 <= j < n && data[j].index == index
}

/// The embeddings in the order of the inputs.
pub open spec fn in_input_order(data: Seq<EmbeddingDatum>, ordered: Seq<Vec<u32>>) -> bool {
    ordered.len() == data.len() && forall|j: int|
        0 <= j < data.len() ==> ordered[(#[trigger] data[j]).index as int]@ == data[j].embedding@
}

spec fn indexes(data: Seq<EmbeddingDatum>) -> Seq<int> {
    data.map_values(|d: EmbeddingDatum| d.index as int)
}

/// In a reply with nothing wrong every input has its embedding.
proof fn lemma_every_input_is_placed(
    data: Seq<EmbeddingDatum>,
    expected: nat,
    dimension: nat,
    index: int,
)
    requires
        reply_fits(data, expected, dimension),
        0 <= index < expected,
    ensures
        exists|j: int| placed(data, data.len() as int, index, j),
{
    let at = indexes(data);
    assert forall|j: int| 0 <= j < data.len() implies 0 <= #[trigger] at[j] < expected by {
        assert(datum_error(data, j, expected, dimension) is None);
    }
    assert(at.no_duplicates()) by {
        assert forall|i: int, j: int| 0 <= i < at.len() && 0 <= j < at.len() && i != j implies at[i]
            != at[j] by {
            assert(datum_error(data, i, expected, dimension) is None);
            assert(datum_error(data, j, expected, dimension) is None);
            assert(data[i].index == at[i] && data[j].index == at[j]);
        }
    }
    at.unique_seq_to_set();
    let range = vstd::set_lib::set_int_range(0, expected as int);
    vstd::set_lib::lemma_int_range(0, expected as int);
    assert(at.to_set().subset_of(range));
    vstd::set_lib::lemma_subset_equality(at.to_set(), range);
    assert(at.to_set().contains(index));
    let j = choose|j: int| 0 <= j < at.len() && at[j] == index;
    assert(placed(data, data.len() as int, index, j));
}

/// Puts the embeddings of a reply into the order of the inputs.
pub fn ordered_embeddings(data: &Vec<EmbeddingDatum>, expected: usize, dimension: usize) -> (r:
    Result<Vec<Vec<u32>>, String>)
    ensures
        match r {
            Ok(ordered) => reply_fits(data@, expected as nat, dimension as nat)
                && in_input_order(data@, ordered@),
            Err(message) => !reply_fits(data@, expected as nat, dimension as nat) && reply_error(
                data@,
                expected as nat,
                dimension as nat,
                message@,
            ),
        },
{
    if data.len() != expected {
        let found = usize_text(data.len());
        let wanted = usize_text(expected);
        return Err(
            concat5(
                "OpenRouter returned ",
                found.as_str(),
                " embeddings for ",
                wanted.as_str(),
                " inputs",
            ),
        );
    }
    let mut places: Vec<Option<usize>> = Vec::new();
    let mut k: usize = 0;
    while k < expected
        invariant
            k <= expected,
            places@.len() == k,
            forall|p: int| 0 <= p < k ==> #[trigger] places@[p] is None,
        decreases expected - k,
    {
        places.push(None);
        k = k + 1;
    }
    let mut i: usize = 0;
    while i < data.len()
        invariant
            data@.len() == expected,
            i <= data.len(),
            places@.len() == expected,
            forall|j: int|
                0 <= j < i ==> #[trigger] datum_error(
                    data@,
                    j,
                    expected as nat,
                    dimension as nat,
                ) is None,
            forall|p: int|
                0 <= p < expected ==> match #[trigger] places@[p] {
                    Some(j) => placed(data@, i as int, p, j as int),
                    None => forall|j: int| !placed(data@, i as int, p, j),
                },
        decreases data.len() - i,
    {
        let datum = &data[i];
        let ghost wrong = datum_error(data@, i as int, expected as nat, dimension as nat);
        if datum.index >= expected {
            let shown = usize_text(datum.index);
            let message = concat2("OpenRouter returned invalid input index ", shown.as_str());
            assert(wrong == Some(message@));
            return Err(message);
        }
        match validate_dimension(&datum.embedding, dimension) {
            Err(message) => {
                assert(wrong == Some(message@));
                return Err(message);
            },
            Ok(_) => {},
        }
        let ghost before = places@;
        match places[datum.index] {
            Some(j) => {
                assert(placed(data@, i as int, datum.index as int, j as int));
                assert(data@[j as int].index == datum.index);
                let shown = usize_text(datum.index);
                let message = concat2(
                    "OpenRouter returned duplicate input index ",
                    shown.as_str(),
                );
                assert(wrong == Some(message@));
                return Err(message);
            },
            None => {},
        }
        assert(wrong is None) by {
            if exists|j: int| 0 <= j < i && (#[trigger] data@[j]).index == datum.index {
                let j = choose|j: int| 0 <= j < i && (#[trigger] data@[j]).index == datum.index;
                assert(placed(data@, i as int, datum.index as int, j));
            }
        }
        places.set(datum.index, Some(i));
        proof {
            let next = i + 1;
            assert forall|p: int| 0 <= p < expected implies match #[trigger] places@[p] {
                Some(j) => placed(data@, next, p, j as int),
                None => forall|j: int| !placed(data@, next, p, j),
            } by {
                if p != datum.index {
                    assert(places@[p] == before[p]);
                    if before[p] is None {
                        assert forall|j: int| !placed(data@, next, p, j) by {
                            assert(!placed(data@, i as int, p, j));
                        }
                    }
                }
            }
        }
        i = i + 1;
    }
    let mut ordered: Vec<Vec<u32>> = Vec::new();
    let mut p: usize = 0;
    while p < expected
        invariant
            data@.len() == expected,
            places@.len() == expected,
            reply_fits(data@, expected as nat, dimension as nat),
            p <= expected,
            ordered@.len() == p,
            forall|q: int|
                0 <= q < expected ==> match #[trigger] places@[q] {
                    Some(j) => placed(data@, data@.len() as int, q, j as int),
                    None => forall|j: int| !placed(data@, data@.len() as int, q, j),
                },
            forall|q: int, j: int|
                0 <= q < p && placed(data@, data@.len() as int, q, j) ==> (#[trigger] ordered@[q])@
                    == (#[trigger] data@[j]).embedding@,
        decreases expected - p,
    {
        match places[p] {
            Some(j) => {
                let vector = copy_vector(&data[j].embedding);
                let ghost before = ordered@;
                ordered.push(vector);
                proof {
                    assert forall|q: int, l: int|
                        0 <= q < p + 1 && placed(data@, data@.len() as int, q, l) implies (
                    #[trigger] ordered@[q])@ == (#[trigger] data@[l]).embedding@ by {
                        if q < p {
                            assert(ordered@[q] == before[q]);
                        } else {
                            assert(datum_error(
                                data@,
                                l,
                                expected as nat,
                                dimension as nat,
                            ) is None);
                            assert(datum_error(
                                data@,
                                j as int,
                                expected as nat,
                                dimension as nat,
                            ) is None);
                            assert(data@[l].index == data@[j as int].index);
                            assert(l == j);
                        }
                    }
                }
            },
            None => {
                proof {
                    lemma_every_input_is_placed(
                        data@,
                        expected as nat,
                        dimension as nat,
                        p as int,
                    );
                    assert(false);
                }
                ordered.push(Vec::new());
            },
        }
        p = p + 1;
    }
    proof {
        assert forall|j: int| 0 <= j < data@.len() implies ordered@[(
        #[trigger] data@[j]).index as int]@ == data@[j].embedding@ by {
            assert(datum_error(data@, j, expected as nat, dimension as nat) is None);
            assert(placed(data@, data@.len() as int, data@[j].index as int, j));
        }
    }
    Ok(ordered)
}

/// A copy of a vector.
pub fn copy_vector(vector: &Vec<u32>) -> (r: Vec<u32>)
    ensures
        r@ == vector@,
{
    let mut out: Vec<u32> = Vec::new();
    let mut i: usize = 0;
    while i < vector.len()
        invariant
            i <= vector.len(),
            out@ == vector@.take(i as int),
        decreases vector.len() - i,
    {
        out.push(vector[i]);
        assert(out@ =~= vector@.take(i + 1));
        i = i + 1;
    }
    assert(vector@.take(vector@.len() as int) =~= vector@);
    out
}

} // verus!
