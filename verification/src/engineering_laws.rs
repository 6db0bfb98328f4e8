//! What the engineering graph keeps, which texts of it are embedded, and the
//! features of a text.

use vstd::prelude::*;
use vstd::string::*;
use vstd::utf8::*;

use crate::embedding;
use crate::embedding::Feature;
use crate::engineering;
use crate::engineering::{GraphNodeView, GraphView};
use crate::fields;
use crate::graph::ValueView;
use crate::hash;
use crate::text;
use crate::text_laws;

verus! {

/// A node that is recorded stands under its key from then on, unless a record
/// at least as good stands there. No other node changes, and none moves.
pub proof fn law_nodes_stand_under_their_key(
    g: GraphView,
    key: Seq<char>,
    node: GraphNodeView,
    rank: u8,
    i: int,
)
    requires
        g.wf(),
        0 <= i < g.keys.len(),
    ensures
        ({
            let now = g.with_node(key, node, rank);
            &&& now.keys.contains(key)
            &&& now.keys[i] == g.keys[i]
            &&& g.keys[i] != key ==> now.nodes[i] == g.nodes[i] && now.ranks[i] == g.ranks[i]
            &&& g.keys[i] == key && rank > g.ranks[i] ==> now.nodes[i] == node && now.ranks[i]
                == rank
            &&& g.keys[i] == key && rank <= g.ranks[i] ==> now.nodes[i] == g.nodes[i]
                && now.ranks[i] == g.ranks[i]
            &&& !g.keys.contains(key) ==> now.keys.len() == g.keys.len() + 1 && now.nodes.last()
                == node && now.keys.last() == key && now.ranks.last() == rank
            &&& g.keys.contains(key) ==> now.keys == g.keys
            &&& now.edges == g.edges
        }),
{
    let now = g.with_node(key, node, rank);
    if g.keys.contains(key) {
        let k = g.keys.index_of(key);
        assert(g.keys[k] == key);
        if g.keys[i] == key {
            assert(i == k);
        }
    } else {
        assert(now.keys[g.keys.len() as int] == key);
        assert(g.keys[i] != key);
    }
}

/// A relationship that is recorded leads from its source to its target under
/// its label, with what is told of it; recorded once more it changes nothing.
pub proof fn law_recorded_relationships_lead_as_told(
    g: GraphView,
    source: Seq<char>,
    target: Seq<char>,
    label: Seq<char>,
    properties: Seq<(Seq<char>, ValueView)>,
    told: Seq<char>,
)
    ensures
        ({
            let now = g.with_edge(source, target, label, properties, told);
            let new = forall|i: int|
                0 <= i < g.edges.len() ==> !((#[trigger] g.edges[i]).source == source
                    && g.edges[i].target == target && g.edges[i].label == label);
            &&& new ==> {
                &&& now.edges.len() == g.edges.len() + 1
                &&& now.edges.last().source == source
                &&& now.edges.last().target == target
                &&& now.edges.last().label == label
                &&& now.edges.last().properties == properties
                &&& now.edges.last().embedding_text == engineering::payload(told)
            }
            &&& !new ==> now.edges == g.edges
            &&& now.keys == g.keys
            &&& now.nodes == g.nodes
            &&& now.ranks == g.ranks
            &&& forall|i: int| 0 <= i < g.edges.len() ==> #[trigger] now.edges[i] == g.edges[i]
        }),
{
    if g.links(source, target, label) {
        let i = choose|i: int|
            0 <= i < g.edges.len() && engineering::same_link(
                #[trigger] g.edges[i],
                source,
                target,
                label,
            );
        assert(g.edges[i].source == source);
    } else {
        assert forall|i: int| 0 <= i < g.edges.len() implies !((#[trigger] g.edges[i]).source
            == source && g.edges[i].target == target && g.edges[i].label == label) by {
            assert(!engineering::same_link(g.edges[i], source, target, label));
        }
    }
}

/// Where the texts of a node begin among all texts.
pub open spec fn texts_before(nodes: Seq<GraphNodeView>, i: int) -> nat
    decreases i,
{
    if i <= 0 {
        0
    } else {
        texts_before(nodes, i - 1) + nodes[i - 1].embedding_texts.len()
    }
}

proof fn lemma_node_texts(nodes: Seq<GraphNodeView>, upto: nat, i: int, k: int)
    requires
        0 <= i < upto <= nodes.len(),
        0 <= k < nodes[i].embedding_texts.len(),
    ensures
        engineering::node_texts(nodes, upto).len() == texts_before(nodes, upto as int),
        texts_before(nodes, i) + k < texts_before(nodes, upto as int),
        engineering::node_texts(nodes, upto)[texts_before(nodes, i) + k]
            == nodes[i].embedding_texts[k],
    decreases upto,
{
    lemma_node_texts_length(nodes, upto);
    lemma_node_texts_length(nodes, (upto - 1) as nat);
    if i < upto - 1 {
        lemma_node_texts(nodes, (upto - 1) as nat, i, k);
    }
}

proof fn lemma_node_texts_length(nodes: Seq<GraphNodeView>, upto: nat)
    requires
        upto <= nodes.len(),
    ensures
        engineering::node_texts(nodes, upto).len() == texts_before(nodes, upto as int),
    decreases upto,
{
    if upto > 0 {
        lemma_node_texts_length(nodes, (upto - 1) as nat);
    }
}

/// Every text of every node is embedded, node by node, and after them the text
/// of every relationship; nothing else is.
pub proof fn law_every_text_is_embedded(g: GraphView, i: int, k: int, e: int)
    requires
        0 <= i < g.nodes.len(),
        0 <= k < g.nodes[i].embedding_texts.len(),
        0 <= e < g.edges.len(),
    ensures
        ({
            let nodes = texts_before(g.nodes, g.nodes.len() as int);
            &&& g.texts().len() == nodes + g.edges.len()
            &&& texts_before(g.nodes, i) + k < nodes
            &&& g.texts()[texts_before(g.nodes, i) + k] == g.nodes[i].embedding_texts[k]
            &&& g.texts()[nodes + e] == g.edges[e].embedding_text
        }),
{
    lemma_node_texts(g.nodes, g.nodes.len(), i, k);
}

/// A graph is refused by the first relationship that lacks an end: by its
/// source where that is missing, and otherwise by its target.
pub proof fn law_missing_ends_are_named(g: GraphView, from: int, i: int)
    requires
        0 <= from <= i < g.edges.len(),
        forall|j: int|
            from <= j < i ==> g.keys.contains((#[trigger] g.edges[j]).source) && g.keys.contains(
                g.edges[j].target,
            ),
        !g.keys.contains(g.edges[i].source) || !g.keys.contains(g.edges[i].target),
    ensures
        !g.closed(),
        g.missing_end(from) == if !g.keys.contains(g.edges[i].source) {
            "missing source node "@ + g.edges[i].source
        } else {
            "missing target node "@ + g.edges[i].target
        },
    decreases i - from,
{
    if from < i {
        assert(g.keys.contains(g.edges[from].source));
        law_missing_ends_are_named(g, from + 1, i);
    }
}

/// A relationship is stored from the slot of its source to the slot of its
/// target.
pub proof fn law_relationships_are_stored_between_slots(
    g: GraphView,
    ends: Seq<(usize, usize)>,
    e: int,
)
    requires
        g.wf(),
        g.ends_at(ends),
        0 <= e < g.edges.len(),
    ensures
        ends.len() == g.edges.len(),
        ends[e].0 == g.slot(g.edges[e].source),
        ends[e].1 == g.slot(g.edges[e].target),
        ends[e].0 < g.nodes.len(),
        ends[e].1 < g.nodes.len(),
{
    let (s, t) = ends[e];
    assert(g.keys.contains(g.keys[s as int]));
    assert(g.keys.contains(g.keys[t as int]));
    let a = g.keys.index_of(g.edges[e].source);
    let b = g.keys.index_of(g.edges[e].target);
    assert(g.keys[a] == g.keys[s as int]);
    assert(g.keys[b] == g.keys[t as int]);
}

/// The hash of nothing is the offset, and each further byte is mixed in and
/// then multiplied.
pub proof fn law_bytes_are_hashed_in_turn(bytes: Seq<u8>, byte: u8)
    ensures
        hash::fnv(Seq::empty()) == 0xcbf2_9ce4_8422_2325,
        hash::fnv(bytes.push(byte)) == ((hash::fnv(bytes) ^ (byte as u64)) * 0x100_0000_01b3)
            % 0x1_0000_0000_0000_0000,
{
    assert(bytes.push(byte).drop_last() =~= bytes);
    let mixed = hash::fnv(bytes) ^ (byte as u64);
    assert(mixed.wrapping_mul(0x100_0000_01b3u64) == (mixed * 0x100_0000_01b3)
        % 0x1_0000_0000_0000_0000);
}

/// A feature falls into the slot of its hash, negative where the hash has its
/// highest bit.
pub proof fn law_features_follow_the_hash(bytes: Seq<u8>, dimension: nat, whole: bool)
    requires
        0 < dimension <= usize::MAX,
        usize::BITS == 64,
    ensures
        ({
            let f: Feature = embedding::feature_of(bytes, dimension, whole);
            &&& f.slot == hash::fnv(bytes) as nat % dimension
            &&& f.negative <==> hash::fnv(bytes) >= 0x8000_0000_0000_0000
            &&& f.whole == whole
        }),
{
    let h = hash::fnv(bytes);
    assert(h & 0x8000_0000_0000_0000u64 != 0 <==> h >= 0x8000_0000_0000_0000u64) by (bit_vector);
    assert((h as usize) as nat == h as nat);
    let slot = h as nat % dimension;
    assert(slot < dimension) by (nonlinear_arith)
        requires
            dimension > 0,
            slot == h as nat % dimension,
    ;
}

proof fn lemma_among(tokens: Seq<Seq<char>>, dimension: nat, t: int, f: Feature)
    requires
        0 <= t < tokens.len(),
        embedding::token_features(encode_utf8(tokens[t]), dimension).contains(f),
    ensures
        embedding::tokens_features(tokens, dimension).contains(f),
    decreases tokens.len(),
{
    let before = embedding::tokens_features(tokens.drop_last(), dimension);
    let last = embedding::token_features(encode_utf8(tokens.last()), dimension);
    let all = embedding::tokens_features(tokens, dimension);
    if t == tokens.len() - 1 {
        let k = choose|k: int| 0 <= k < last.len() && last[k] == f;
        assert(all[before.len() + k] == f);
    } else {
        lemma_among(tokens.drop_last(), dimension, t, f);
        let k = choose|k: int| 0 <= k < before.len() && before[k] == f;
        assert(all[k] == f);
    }
}

/// Every word of a text counts as a whole, and so does every run of three
/// bytes in it, not as a whole.
pub proof fn law_words_and_their_parts_are_features(
    value: Seq<char>,
    dimension: nat,
    t: int,
    at: int,
)
    requires
        dimension > 0,
        0 <= t < embedding::tokens_of(value).len(),
    ensures
        ({
            let word = encode_utf8(embedding::tokens_of(value)[t]);
            let found = embedding::text_features(value, dimension);
            &&& found.contains(embedding::feature_of(word, dimension, true))
            &&& 0 <= at && at + 3 <= word.len() ==> found.contains(
                embedding::feature_of(word.subrange(at, at + 3), dimension, false),
            )
        }),
{
    let tokens = embedding::tokens_of(value);
    let word = encode_utf8(tokens[t]);
    let own = embedding::token_features(word, dimension);
    assert(own[0] == embedding::feature_of(word, dimension, true));
    lemma_among(tokens, dimension, t, own[0]);
    if 0 <= at && at + 3 <= word.len() {
        assert(own[at + 1] == embedding::feature_of(word.subrange(at, at + 3), dimension, false));
        lemma_among(tokens, dimension, t, own[at + 1]);
    }
}

/// The number of features of words: one for each, and one for each run of
/// three bytes.
pub open spec fn feature_count(words: Seq<Seq<char>>) -> nat
    decreases words.len(),
{
    if words.len() == 0 {
        0
    } else {
        let bytes = encode_utf8(words.last()).len();
        feature_count(words.drop_last()) + 1 + if bytes >= 3 {
            (bytes - 2) as nat
        } else {
            0
        }
    }
}

/// A text has no features but those of its words.
pub proof fn law_only_words_are_features(words: Seq<Seq<char>>, dimension: nat)
    ensures
        embedding::tokens_features(words, dimension).len() == feature_count(words),
    decreases words.len(),
{
    if words.len() > 0 {
        law_only_words_are_features(words.drop_last(), dimension);
    }
}

/// A short text that stands on one line is its own summary, and a short
/// identifier stands for itself; what is stored of a text is the text.
pub proof fn law_short_texts_are_kept(value: Seq<char>)
    ensures
        text::normalized(value) == value && text::trimmed(value) == value && text::utf8_len(value)
            <= 160 ==> fields::summary(value) == value,
        text::utf8_len(value) <= 8 ==> fields::short(value) == value,
        text::trimmed(value) == value && text::utf8_len(value) <= 32_768 ==> fields::stored(value)
            == value,
        text::trimmed(value) == value && text::utf8_len(value) <= 12_288 ==> engineering::payload(
            value,
        ) == value,
{
    text_laws::law_byte_limits_keep_what_fits(value, 160);
    text_laws::law_byte_limits_keep_what_fits(value, 8);
    text_laws::law_byte_limits_keep_what_fits(value, 32_768);
    text_laws::law_byte_limits_keep_what_fits(value, 12_288);
}

/// A long text is cut to its beginning and marked; a long identifier is cut
/// to its beginning and not marked.
pub proof fn law_long_texts_are_cut(value: Seq<char>)
    requires
        text::trimmed(value) == value,
    ensures
        text::utf8_len(value) > 32_768 ==> {
            let kept = fields::stored(value);
            &&& kept.len() > 0
            &&& kept.last() == '…'
            &&& kept.drop_last() == value.take(kept.len() - 1)
            &&& text::utf8_len(value.take(kept.len() as int)) > 32_768
        },
        text::utf8_len(value) > 8 ==> {
            let kept = fields::short(value);
            &&& kept == value.take(kept.len() as int)
            &&& text::utf8_len(kept) <= 8
            &&& text::utf8_len(value.take(kept.len() as int + 1)) > 8
        },
{
    text_laws::law_byte_limits_keep_what_fits(value, 32_768);
    text_laws::law_byte_limits_keep_what_fits(value, 8);
    let kept = fields::stored(value);
    let prefix = text::fitting_prefix(value, 32_768);
    if text::utf8_len(value) > 32_768 {
        assert(kept.drop_last() =~= prefix);
    }
}

} // verus!
