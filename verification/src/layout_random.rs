//! The reproducible choices of the sampled arrangement: a 64-bit generator,
//! the order in which relationships are relaxed, and the nodes they are
//! pushed away from.

use vstd::prelude::*;
use vstd::seq_lib::*;

verus! {

/// What the generator's state grows by.
pub const STATE_STEP: u64 = 0x9e37_79b9_7f4a_7c15;

/// The seed that the sampled arrangement starts from.
pub const SAMPLED_SEED: u64 = 0x5647_534e_4150_5446;

/// The seed that a component of the structural arrangement starts from.
pub const COMPONENT_SEED: u64 = 0x4f4d_4547_4152_4453;

/// The finalizer of SplitMix64.
pub open spec fn mixed(value: u64) -> u64 {
    let first = (value ^ (value >> 30u64)).wrapping_mul(0xbf58_476d_1ce4_e5b9u64);
    let second = (first ^ (first >> 27u64)).wrapping_mul(0x94d0_49bb_1331_11ebu64);
    second ^ (second >> 31u64)
}

fn mix(value: u64) -> (r: u64)
    ensures
        r == mixed(value),
{
    let first: u64 = (value ^ (value >> 30u64)).wrapping_mul(0xbf58_476d_1ce4_e5b9u64);
    let second: u64 = (first ^ (first >> 27u64)).wrapping_mul(0x94d0_49bb_1331_11ebu64);
    second ^ (second >> 31u64)
}

/// The 32 bits whose share of `u32::MAX` is the stable value of an integer in
/// the unit interval.
pub open spec fn stable(value: u64) -> nat {
    (mixed(value) % 0x1_0000_0000) as nat
}

/// The numerator over `u32::MAX` of the stable value of an integer in the
/// unit interval.
pub fn stable_numerator(value: u64) -> (r: u32)
    ensures
        r == stable(value),
{
    (mix(value) % 0x1_0000_0000) as u32
}

/// The bits of `value` turned left by `places`.
pub open spec fn turned(value: u64, places: u64) -> u64 {
    (value << places) | (value >> ((64 - places) as u64))
}

/// Turns the bits of `value` left.
pub fn turn(value: u64, places: u64) -> (r: u64)
    requires
        0 < places < 64,
    ensures
        r == turned(value, places),
{
    (value << places) | (value >> (64 - places))
}

/// The seed of the sampled arrangement of a graph.
pub fn sampled_seed(node_count: usize, edge_count: usize) -> (r: u64)
    ensures
        r == SAMPLED_SEED ^ (node_count as u64) ^ turned(edge_count as u64, 29),
{
    SAMPLED_SEED ^ (node_count as u64) ^ turn(edge_count as u64, 29)
}

/// The seed of the structural arrangement of one component, whose first node
/// is `first`.
pub fn component_seed(first: u64, node_count: usize) -> (r: u64)
    ensures
        r == COMPONENT_SEED ^ first ^ turned(node_count as u64, 17),
{
    COMPONENT_SEED ^ first ^ turn(node_count as u64, 17)
}

/// The value that turns a layer of a focused neighborhood.
pub fn layer_seed(root: usize, depth: usize, size: usize) -> (r: u64)
    ensures
        r == (root as u64) ^ turned(depth as u64, 17) ^ turned(size as u64, 31),
{
    (root as u64) ^ turn(depth as u64, 17) ^ turn(size as u64, 31)
}

/// The share of `bound` that a 64-bit value stands for.
pub open spec fn scaled(value: u64, bound: nat) -> nat {
    (value as nat) * bound / 0x1_0000_0000_0000_0000
}

proof fn lemma_scaled(value: u64, bound: nat)
    requires
        bound > 0,
    ensures
        scaled(value, bound) < bound,
{
    assert((value as nat) * bound < 0x1_0000_0000_0000_0000 * bound) by (nonlinear_arith)
        requires
            value < 0x1_0000_0000_0000_0000,
            bound > 0,
    ;
    let product = (value as nat) * bound;
    assert(product / 0x1_0000_0000_0000_0000 < bound) by (nonlinear_arith)
        requires
            product < 0x1_0000_0000_0000_0000 * bound,
    ;
}

/// A small generator that gives the same values on every machine.
#[derive(Debug)]
pub struct LayoutRng {
    pub state: u64,
}

impl LayoutRng {
    pub fn new(seed: u64) -> (r: LayoutRng)
        ensures
            r.state == seed,
    {
        LayoutRng { state: seed }
    }

    pub fn next_u64(&mut self) -> (r: u64)
        ensures
            final(self).state == old(self).state.wrapping_add(STATE_STEP),
            r == mixed(final(self).state),
    {
        self.state = self.state.wrapping_add(STATE_STEP);
        mix(self.state)
    }

    /// A position below `upper_bound`.
    pub fn index(&mut self, upper_bound: usize) -> (r: usize)
        requires
            upper_bound > 0,
        ensures
            final(self).state == old(self).state.wrapping_add(STATE_STEP),
            r == scaled(mixed(final(self).state), upper_bound as nat),
            r < upper_bound,
    {
        let value: u64 = self.next_u64();
        proof {
            lemma_scaled(value, upper_bound as nat);
            assert((value as nat) * (upper_bound as nat) <= 0xffff_ffff_ffff_ffff
                * 0xffff_ffff_ffff_ffff) by (nonlinear_arith)
                requires
                    value <= 0xffff_ffff_ffff_ffff,
                    upper_bound <= 0xffff_ffff_ffff_ffff,
            ;
        }
        let product: u128 = (value as u128) * (upper_bound as u128);
        (product / 0x1_0000_0000_0000_0000) as usize
    }
}

/// Both directions of every relationship between two different nodes.
pub open spec fn oriented(node_count: nat, sources: Seq<u32>, targets: Seq<u32>) -> Seq<
    (usize, usize),
>
    decreases sources.len(),
{
    if sources.len() == 0 {
        Seq::empty()
    } else {
        let rest = oriented(node_count, sources.drop_last(), targets.drop_last());
        let source = sources.last();
        let target = targets.last();
        if source < node_count && target < node_count && source != target {
            rest.push((source as usize, target as usize)).push((target as usize, source as usize))
        } else {
            rest
        }
    }
}

/// Lists both directions of every relationship between two different nodes.
pub fn oriented_edges(node_count: usize, sources: &Vec<u32>, targets: &Vec<u32>) -> (r: Vec<
    (usize, usize),
>)
    requires
        sources@.len() == targets@.len(),
    ensures
        r@ == oriented(node_count as nat, sources@, targets@),
{
    let mut out: Vec<(usize, usize)> = Vec::new();
    let mut i: usize = 0;
    assert(sources@.take(0) =~= Seq::<u32>::empty());
    while i < sources.len()
        invariant
            i <= sources.len(),
            sources@.len() == targets@.len(),
            out@ == oriented(node_count as nat, sources@.take(i as int), targets@.take(i as int)),
        decreases sources.len() - i,
    {
        proof {
            assert(sources@.take(i + 1).drop_last() =~= sources@.take(i as int));
            assert(targets@.take(i + 1).drop_last() =~= targets@.take(i as int));
        }
        let source: usize = sources[i] as usize;
        let target: usize = targets[i] as usize;
        if source < node_count && target < node_count && source != target {
            out.push((source, target));
            out.push((target, source));
        }
        i = i + 1;
    }
    assert(sources@.take(sources@.len() as int) =~= sources@);
    assert(targets@.take(targets@.len() as int) =~= targets@);
    out
}

/// A relationship is relaxed from one end exactly as often as it is in the
/// list from the other end, and it joins two different nodes of the graph.
pub proof fn law_both_directions_are_listed(
    node_count: nat,
    sources: Seq<u32>,
    targets: Seq<u32>,
    a: usize,
    b: usize,
)
    requires
        sources.len() == targets.len(),
        oriented(node_count, sources, targets).contains((a, b)),
    ensures
        oriented(node_count, sources, targets).contains((b, a)),
        a < node_count,
        b < node_count,
        a != b,
    decreases sources.len(),
{
    let all = oriented(node_count, sources, targets);
    let rest = oriented(node_count, sources.drop_last(), targets.drop_last());
    let source = sources.last();
    let target = targets.last();
    let k = choose|k: int| 0 <= k < all.len() && all[k] == (a, b);
    if source < node_count && target < node_count && source != target {
        assert(all[rest.len() as int] == (source as usize, target as usize));
        assert(all[rest.len() as int + 1] == (target as usize, source as usize));
        if k < rest.len() {
            assert(rest[k] == (a, b));
            law_both_directions_are_listed(
                node_count,
                sources.drop_last(),
                targets.drop_last(),
                a,
                b,
            );
            let j = choose|j: int| 0 <= j < rest.len() && rest[j] == (b, a);
            assert(all[j] == (b, a));
        }
    } else {
        law_both_directions_are_listed(node_count, sources.drop_last(), targets.drop_last(), a, b);
    }
}

/// A list with two places exchanged.
pub open spec fn exchanged<T>(items: Seq<T>, i: int, j: int) -> Seq<T> {
    items.update(i, items[j]).update(j, items[i])
}

/// The list after places `index` down to one have each been exchanged with a
/// place up to their own, and the generator's state then.
pub open spec fn shuffled<T>(items: Seq<T>, state: u64, index: nat) -> (Seq<T>, u64)
    decreases index,
{
    if index == 0 {
        (items, state)
    } else {
        let next = state.wrapping_add(STATE_STEP);
        let other = scaled(mixed(next), index + 1);
        shuffled(exchanged(items, index as int, other as int), next, (index - 1) as nat)
    }
}

/// Puts a list in a reproducible random order.
pub fn shuffle(items: &mut Vec<(usize, usize)>, rng: &mut LayoutRng)
    ensures
        old(items)@.len() == 0 ==> final(items)@ == old(items)@ && *final(rng) == *old(rng),
        old(items)@.len() > 0 ==> (final(items)@, final(rng).state) == shuffled(
            old(items)@,
            old(rng).state,
            (old(items)@.len() - 1) as nat,
        ),
        final(items)@.len() == old(items)@.len(),
{
    if items.len() == 0 {
        return ;
    }
    let length: usize = items.len();
    let mut index: usize = length - 1;
    while index > 0
        invariant
            index < length,
            length == items@.len(),
            items@.len() == old(items)@.len(),
            shuffled(items@, rng.state, index as nat) == shuffled(
                old(items)@,
                old(rng).state,
                (old(items)@.len() - 1) as nat,
            ),
        decreases index,
    {
        let other: usize = rng.index(index + 1);
        let ghost before = items@;
        let here = items[index];
        let there = items[other];
        items.set(index, there);
        items.set(other, here);
        assert(items@ =~= exchanged(before, index as int, other as int));
        index = index - 1;
    }
}

proof fn lemma_exchange_keeps_items<T>(items: Seq<T>, i: int, j: int)
    requires
        0 <= i < items.len(),
        0 <= j < items.len(),
    ensures
        exchanged(items, i, j).to_multiset() == items.to_multiset(),
{
    broadcast use group_to_multiset_ensures;

    let first = items.update(i, items[j]);
    assert(first.to_multiset() =~= items.to_multiset().insert(items[j]).remove(items[i]));
    assert(first[j] == items[j]);
    assert(first.update(j, items[i]).to_multiset() =~= first.to_multiset().insert(items[i]).remove(
        items[j],
    ));
    assert(items.to_multiset().count(items[i]) > 0);
    assert(first.update(j, items[i]).to_multiset() =~= items.to_multiset());
}

/// Shuffling keeps every item as often as it was there.
pub proof fn law_shuffle_keeps_items<T>(items: Seq<T>, state: u64, index: nat)
    requires
        index < items.len(),
    ensures
        shuffled(items, state, index).0.to_multiset() == items.to_multiset(),
        shuffled(items, state, index).0.len() == items.len(),
    decreases index,
{
    if index > 0 {
        let next = state.wrapping_add(STATE_STEP);
        let other = scaled(mixed(next), index + 1);
        lemma_scaled(mixed(next), index + 1);
        lemma_exchange_keeps_items(items, index as int, other as int);
        law_shuffle_keeps_items(
            exchanged(items, index as int, other as int),
            next,
            (index - 1) as nat,
        );
    }
}

/// The node that a sample stands for: every node but `source`, in order.
pub open spec fn skipping(sampled: nat, source: nat) -> nat {
    if sampled < source {
        sampled
    } else {
        sampled + 1
    }
}

/// Picks a node other than `source`.
pub fn negative_sample(rng: &mut LayoutRng, node_count: usize, source: usize) -> (r: usize)
    requires
        node_count >= 2,
        source < node_count,
    ensures
        final(rng).state == old(rng).state.wrapping_add(STATE_STEP),
        r == skipping(
            scaled(mixed(final(rng).state), (node_count - 1) as nat),
            source as nat,
        ),
        r < node_count,
        r != source,
{
    let sampled: usize = rng.index(node_count - 1);
    if sampled < source {
        sampled
    } else {
        sampled + 1
    }
}

/// Every node but the source is what exactly one sample stands for.
pub proof fn law_samples_reach_every_other_node(node_count: nat, source: nat, node: nat)
    requires
        source < node_count,
        node < node_count,
        node != source,
    ensures
        exists|sampled: nat|
            sampled < node_count - 1 && #[trigger] skipping(sampled, source) == node,
        forall|a: nat, b: nat| #[trigger]
            skipping(a, source) == #[trigger] skipping(b, source) ==> a == b,
{
    if node < source {
        assert(skipping(node, source) == node);
    } else {
        assert(skipping((node - 1) as nat, source) == node);
    }
}

} // verus!
