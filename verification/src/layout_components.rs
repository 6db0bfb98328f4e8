//! The connected components of a graph, in the order and with the local
//! relationships that the structural arrangement draws them by.

use std::collections::HashSet;

use vstd::prelude::*;
use vstd::relations::*;
use vstd::seq_lib::*;

use crate::focus::copy_indices;
use crate::layout_union;
use crate::layout_union::LayoutUnionFind;
use crate::order::{sort_ranked, Ranked};
use crate::order;

verus! {

/// A relationship without its direction: the smaller end first.
pub open spec fn undirected(source: u32, target: u32) -> (usize, usize) {
    if source < target {
        (source as usize, target as usize)
    } else {
        (target as usize, source as usize)
    }
}

/// The pairs of different nodes that relationships join, each once, in order
/// of first occurrence.
pub open spec fn unique_pairs(node_count: nat, sources: Seq<u32>, targets: Seq<u32>) -> Seq<
    (usize, usize),
>
    decreases sources.len(),
{
    if sources.len() == 0 {
        Seq::empty()
    } else {
        let rest = unique_pairs(node_count, sources.drop_last(), targets.drop_last());
        let source = sources.last();
        let target = targets.last();
        if source >= node_count || target >= node_count || source == target || rest.contains(
            undirected(source, target),
        ) {
            rest
        } else {
            rest.push(undirected(source, target))
        }
    }
}

/// Pairs join two different nodes, the smaller one first, and none is there
/// twice.
pub open spec fn proper(node_count: nat, pairs: Seq<(usize, usize)>) -> bool {
    &&& pairs.no_duplicates()
    &&& forall|i: int| 0 <= i < pairs.len() ==> (#[trigger] pairs[i]).0 < pairs[i].1 < node_count
}

/// The pairs that relationships join are proper.
pub proof fn law_unique_pairs_are_proper(node_count: nat, sources: Seq<u32>, targets: Seq<u32>)
    requires
        sources.len() == targets.len(),
    ensures
        proper(node_count, unique_pairs(node_count, sources, targets)),
    decreases sources.len(),
{
    if sources.len() > 0 {
        law_unique_pairs_are_proper(node_count, sources.drop_last(), targets.drop_last());
    }
}

spec fn pair_key(pair: (usize, usize)) -> int {
    pair.0 * 0x1_0000_0000 + pair.1
}

/// Lists the pairs of different nodes that relationships join.
pub fn unique_edges(node_count: usize, sources: &Vec<u32>, targets: &Vec<u32>) -> (r: Vec<
    (usize, usize),
>)
    requires
        sources@.len() == targets@.len(),
    ensures
        r@ == unique_pairs(node_count as nat, sources@, targets@),
        proper(node_count as nat, r@),
{
    broadcast use vstd::std_specs::hash::group_hash_axioms;

    let mut out: Vec<(usize, usize)> = Vec::new();
    let mut seen: HashSet<u64> = HashSet::new();
    let mut i: usize = 0;
    assert(sources@.take(0) =~= Seq::<u32>::empty());
    while i < sources.len()
        invariant
            i <= sources.len(),
            sources@.len() == targets@.len(),
            out@ == unique_pairs(
                node_count as nat,
                sources@.take(i as int),
                targets@.take(i as int),
            ),
            forall|j: int|
                0 <= j < out@.len() ==> (#[trigger] out@[j]).0 <= u32::MAX && out@[j].1 <= u32::MAX
                    && seen@.contains(pair_key(out@[j]) as u64),
            forall|key: u64| #[trigger]
                seen@.contains(key) ==> exists|j: int|
                    0 <= j < out@.len() && pair_key(#[trigger] out@[j]) == key,
        decreases sources.len() - i,
    {
        proof {
            assert(sources@.take(i + 1).drop_last() =~= sources@.take(i as int));
            assert(targets@.take(i + 1).drop_last() =~= targets@.take(i as int));
        }
        let source: u32 = sources[i];
        let target: u32 = targets[i];
        if (source as usize) < node_count && (target as usize) < node_count && source != target {
            let pair: (usize, usize) = if source < target {
                (source as usize, target as usize)
            } else {
                (target as usize, source as usize)
            };
            let key: u64 = (pair.0 as u64) * 0x1_0000_0000 + (pair.1 as u64);
            let ghost before = out@;
            let known = seen.contains(&key);
            assert(known == before.contains(pair)) by {
                if known {
                    let j = choose|j: int|
                        0 <= j < out@.len() && pair_key(#[trigger] out@[j]) == key;
                    assert(out@[j].0 <= u32::MAX && out@[j].1 <= u32::MAX);
                    assert(out@[j] == pair);
                }
                if before.contains(pair) {
                    let j = choose|j: int| 0 <= j < before.len() && before[j] == pair;
                    assert(seen@.contains(pair_key(out@[j]) as u64));
                }
            }
            if !known {
                seen.insert(key);
                out.push(pair);
                proof {
                    assert(out@[before.len() as int] == pair);
                    assert forall|k: u64| #[trigger] seen@.contains(k) implies exists|j: int|
                        0 <= j < out@.len() && pair_key(#[trigger] out@[j]) == k by {
                        if k != key {
                            let j = choose|j: int|
                                0 <= j < before.len() && pair_key(#[trigger] before[j]) == k;
                            assert(out@[j] == before[j]);
                        } else {
                            assert(pair_key(out@[before.len() as int]) == k);
                        }
                    }
                }
            }
        }
        i = i + 1;
    }
    proof {
        assert(sources@.take(sources@.len() as int) =~= sources@);
        assert(targets@.take(targets@.len() as int) =~= targets@);
        law_unique_pairs_are_proper(node_count as nat, sources@, targets@);
    }
    out
}

/// For each node the one that stands for its component.
fn component_roots(node_count: usize, pairs: &Vec<(usize, usize)>) -> (r: Vec<usize>)
    requires
        proper(node_count as nat, pairs@),
    ensures
        r@.len() == node_count,
        forall|a: int| 0 <= a < node_count ==> #[trigger] r@[a] < node_count,
        layout_union::separates(r@.map_values(|x: usize| x as int), pairs@),
{
    let mut union = LayoutUnionFind::new(node_count);
    let mut i: usize = 0;
    assert(layout_union::separates(union@, pairs@.take(0))) by {
        assert(pairs@.take(0) =~= Seq::<(usize, usize)>::empty());
    }
    while i < pairs.len()
        invariant
            i <= pairs.len(),
            proper(node_count as nat, pairs@),
            union.wf(),
            union@.len() == node_count,
            layout_union::separates(union@, pairs@.take(i as int)),
        decreases pairs.len() - i,
    {
        let (left, right) = pairs[i];
        assert(pairs@[i as int].0 < pairs@[i as int].1 < node_count);
        let ghost before = union@;
        let ghost swapped = union.rank@[before[left as int]] < union.rank@[before[right as int]];
        union.join(left, right);
        proof {
            let first = before[left as int];
            let second = before[right as int];
            let kept = if swapped {
                second
            } else {
                first
            };
            let lost = if swapped {
                first
            } else {
                second
            };
            layout_union::lemma_join_separates(
                before,
                union@,
                pairs@.take(i as int),
                left,
                right,
                kept,
                lost,
            );
            assert(pairs@.take(i + 1) =~= pairs@.take(i as int).push((left, right)));
        }
        i = i + 1;
    }
    assert(pairs@.take(pairs@.len() as int) =~= pairs@);
    let ghost tops = union@;
    let mut roots: Vec<usize> = Vec::new();
    let mut node: usize = 0;
    while node < node_count
        invariant
            node <= node_count,
            union.wf(),
            union@ == tops,
            tops.len() == node_count,
            roots@.len() == node,
            forall|a: int| 0 <= a < node ==> #[trigger] roots@[a] == tops[a] && roots@[a] < node_count,
        decreases node_count - node,
    {
        let root: usize = union.root(node);
        roots.push(root);
        node = node + 1;
    }
    assert(roots@.map_values(|x: usize| x as int) =~= tops);
    roots
}

/// The contents of lists of nodes.
pub open spec fn lists<T>(items: Seq<Vec<T>>) -> Seq<Seq<T>> {
    items.map_values(|v: Vec<T>| v@)
}

/// Whether nodes strictly ascend.
pub open spec fn rising(nodes: Seq<usize>) -> bool {
    forall|i: int, j: int| 0 <= i < j < nodes.len() ==> nodes[i] < nodes[j]
}

/// Whether one of the lists holds a node.
pub open spec fn listed(components: Seq<Seq<usize>>, node: usize) -> bool {
    exists|i: int| 0 <= i < components.len() && (#[trigger] components[i]).contains(node)
}

/// Whether a list holds, in ascending order, the nodes with the root of its
/// first one.
spec fn grouped(roots: Seq<usize>, upto: nat, nodes: Seq<usize>) -> bool {
    &&& nodes.len() > 0
    &&& rising(nodes)
    &&& forall|node: usize| #[trigger]
        nodes.contains(node) <==> node < upto && roots[node as int] == roots[nodes[0] as int]
}

spec fn groups(roots: Seq<usize>, upto: nat, components: Seq<Seq<usize>>) -> bool {
    &&& forall|i: int|
        0 <= i < components.len() ==> grouped(roots, upto, #[trigger] components[i])
    &&& forall|i: int, j: int|
        0 <= i < j < components.len() ==> roots[(#[trigger] components[i])[0] as int]
            != roots[(#[trigger] components[j])[0] as int]
}

proof fn lemma_group_grows(
    roots: Seq<usize>,
    node: usize,
    nodes: Seq<usize>,
    after: Seq<usize>,
    joins: bool,
)
    requires
        grouped(roots, node as nat, nodes),
        joins <==> roots[node as int] == roots[nodes[0] as int],
        after == if joins {
            nodes.push(node)
        } else {
            nodes
        },
    ensures
        grouped(roots, (node + 1) as nat, after),
        after[0] == nodes[0],
{
    assert forall|i: int| 0 <= i < nodes.len() implies #[trigger] nodes[i] < node by {
        assert(nodes.contains(nodes[i]));
    }
    if joins {
        assert forall|other: usize| #[trigger] after.contains(other) <==> other < node + 1
            && roots[other as int] == roots[after[0] as int] by {
            assert(after[nodes.len() as int] == node);
            if nodes.contains(other) {
                let i = choose|i: int| 0 <= i < nodes.len() && nodes[i] == other;
                assert(after[i] == other);
            }
            if after.contains(other) && other != node {
                let i = choose|i: int| 0 <= i < after.len() && after[i] == other;
                assert(nodes[i] == other);
                assert(nodes.contains(other));
            }
        }
    } else {
        assert forall|other: usize| #[trigger] after.contains(other) <==> other < node + 1
            && roots[other as int] == roots[after[0] as int] by {}
    }
}

/// Collects the nodes of each component, components in order of their first
/// node.
fn group_nodes(roots: &Vec<usize>) -> (r: Vec<Vec<usize>>)
    requires
        forall|a: int| 0 <= a < roots@.len() ==> #[trigger] roots@[a] < roots@.len(),
    ensures
        groups(roots@, roots@.len(), lists(r@)),
        forall|node: usize| node < roots@.len() ==> #[trigger] listed(lists(r@), node),
{
    let count: usize = roots.len();
    let mut place: Vec<Option<usize>> = Vec::new();
    let mut i: usize = 0;
    while i < count
        invariant
            i <= count,
            place@.len() == i,
            forall|r: int| 0 <= r < i ==> #[trigger] place@[r] is None,
        decreases count - i,
    {
        place.push(None);
        i = i + 1;
    }
    let mut components: Vec<Vec<usize>> = Vec::new();
    let mut node: usize = 0;
    while node < count
        invariant
            node <= count,
            count == roots@.len(),
            place@.len() == count,
            forall|a: int| 0 <= a < count ==> #[trigger] roots@[a] < count,
            groups(roots@, node as nat, lists(components@)),
            forall|a: int|
                0 <= a < node ==> place@[#[trigger] roots@[a] as int] is Some,
            forall|r: int|
                0 <= r < count && #[trigger] place@[r] is Some ==> place@[r]->0 < components@.len()
                    && roots@[lists(components@)[place@[r]->0 as int][0] as int] == r,
        decreases count - node,
    {
        let root: usize = roots[node];
        let ghost before = lists(components@);
        match place[root] {
            Some(k) => {
                components[k].push(node);
                proof {
                    let after = lists(components@);
                    assert forall|c: int| 0 <= c < after.len() implies grouped(
                        roots@,
                        (node + 1) as nat,
                        #[trigger] after[c],
                    ) && after[c][0] == before[c][0] by {
                        assert(grouped(roots@, node as nat, before[c]));
                        if c != k {
                            if c < k {
                                assert(roots@[before[c][0] as int] != roots@[before[k as int][0] as int]);
                            } else {
                                assert(roots@[before[k as int][0] as int] != roots@[before[c][0] as int]);
                            }
                        }
                        lemma_group_grows(roots@, node, before[c], after[c], c == k);
                    }
                    assert forall|c: int, d: int| 0 <= c < d < after.len() implies roots@[(
                    #[trigger] after[c])[0] as int] != roots@[(#[trigger] after[d])[0] as int] by {
                        assert(roots@[before[c][0] as int] != roots@[before[d][0] as int]);
                    }
                }
            },
            None => {
                let mut fresh: Vec<usize> = Vec::new();
                fresh.push(node);
                let k: usize = components.len();
                components.push(fresh);
                place.set(root, Some(k));
                proof {
                    let after = lists(components@);
                    assert(after =~= before.push(fresh@));
                    assert(fresh@ =~= seq![node]);
                    assert forall|c: int| 0 <= c < before.len() implies roots@[(
                    #[trigger] before[c])[0] as int] != root by {
                        assert(grouped(roots@, node as nat, before[c]));
                        assert(before[c].contains(before[c][0]));
                        assert(place@[roots@[before[c][0] as int] as int] is Some);
                    }
                    assert forall|c: int| 0 <= c < after.len() implies grouped(
                        roots@,
                        (node + 1) as nat,
                        #[trigger] after[c],
                    ) by {
                        if c < before.len() {
                            assert(grouped(roots@, node as nat, before[c]));
                            lemma_group_grows(roots@, node, before[c], after[c], false);
                        } else {
                            assert(after[c] == seq![node]);
                            assert forall|other: usize| #[trigger] after[c].contains(other)
                                <==> other < node + 1 && roots@[other as int]
                                == roots@[after[c][0] as int] by {
                                assert(after[c][0] == node);
                            }
                        }
                    }
                    assert forall|c: int, d: int| 0 <= c < d < after.len() implies roots@[(
                    #[trigger] after[c])[0] as int] != roots@[(#[trigger] after[d])[0] as int] by {
                        if d < before.len() {
                            assert(roots@[before[c][0] as int] != roots@[before[d][0] as int]);
                        } else {
                            assert(roots@[before[c][0] as int] != root);
                        }
                    }
                }
            },
        }
        node = node + 1;
    }
    proof {
        assert forall|node: usize| node < roots@.len() implies #[trigger] listed(
            lists(components@),
            node,
        ) by {
            let r = roots@[node as int];
            assert(place@[r as int] is Some);
            let k = place@[r as int]->0;
            assert(grouped(roots@, roots@.len(), lists(components@)[k as int]));
            assert(lists(components@)[k as int].contains(node));
        }
    }
    components
}

/// What a component is ordered by.
#[derive(Clone, Copy, Debug)]
pub struct ComponentKey {
    pub size: usize,
    pub first: usize,
    pub place: usize,
}

impl View for ComponentKey {
    type V = (usize, usize, usize);

    open spec fn view(&self) -> (usize, usize, usize) {
        (self.size, self.first, self.place)
    }
}

impl Ranked for ComponentKey {
    /// Large components first, then those with small first nodes.
    open spec fn leq(a: (usize, usize, usize), b: (usize, usize, usize)) -> bool {
        a.0 > b.0 || (a.0 == b.0 && (a.1 < b.1 || (a.1 == b.1 && a.2 <= b.2)))
    }

    proof fn order_is_total() {
    }

    fn is_leq(&self, other: &ComponentKey) -> (r: bool) {
        self.size > other.size || (self.size == other.size && (self.first < other.first || (
        self.first == other.first && self.place <= other.place)))
    }
}

/// Whether one component is drawn before another: it has more nodes, or as
/// many and a smaller first one.
pub open spec fn drawn_before(a: Seq<usize>, b: Seq<usize>) -> bool {
    a.len() > b.len() || (a.len() == b.len() && a[0] < b[0])
}

/// Whether the lists are the connected components in drawing order: each
/// holds, in ascending order, the nodes connected to its first one, and every
/// node is in one.
pub open spec fn components_of(
    node_count: nat,
    pairs: Seq<(usize, usize)>,
    components: Seq<Seq<usize>>,
) -> bool {
    &&& forall|i: int|
        0 <= i < components.len() ==> (#[trigger] components[i]).len() > 0 && rising(components[i])
    &&& forall|i: int, node: usize|
        0 <= i < components.len() ==> (#[trigger] components[i].contains(node) <==> node
            < node_count && layout_union::connected(pairs, components[i][0] as int, node as int))
    &&& forall|node: usize| node < node_count ==> #[trigger] listed(components, node)
    &&& forall|i: int, j: int|
        0 <= i < j < components.len() ==> drawn_before(
            #[trigger] components[i],
            #[trigger] components[j],
        )
}

/// Puts components in drawing order.
fn order_components(components: Vec<Vec<usize>>) -> (r: Vec<Vec<usize>>)
    requires
        forall|i: int| 0 <= i < components@.len() ==> (#[trigger] lists(components@)[i]).len() > 0,
        forall|i: int, j: int|
            0 <= i < j < components@.len() ==> (#[trigger] lists(components@)[i])[0] != (
            #[trigger] lists(components@)[j])[0],
    ensures
        r@.len() == components@.len(),
        forall|i: int|
            0 <= i < r@.len() ==> lists(components@).contains(#[trigger] lists(r@)[i]),
        forall|i: int|
            0 <= i < components@.len() ==> lists(r@).contains(#[trigger] lists(components@)[i]),
        forall|i: int, j: int|
            0 <= i < j < r@.len() ==> drawn_before(
                #[trigger] lists(r@)[i],
                #[trigger] lists(r@)[j],
            ),
{
    broadcast use group_to_multiset_ensures;

    let ghost all = lists(components@);
    let mut keys: Vec<ComponentKey> = Vec::new();
    let mut i: usize = 0;
    while i < components.len()
        invariant
            i <= components.len(),
            all == lists(components@),
            keys@.len() == i,
            forall|k: int| 0 <= k < components@.len() ==> (#[trigger] all[k]).len() > 0,
            forall|k: int|
                0 <= k < i ==> (#[trigger] keys@[k]).place == k && keys@[k].size == all[k].len()
                    && keys@[k].first == all[k][0],
        decreases components.len() - i,
    {
        assert(all[i as int].len() > 0);
        keys.push(
            ComponentKey { size: components[i].len(), first: components[i][0], place: i },
        );
        i = i + 1;
    }
    let ghost listed_keys = keys@;
    let sorted = sort_ranked(keys);
    proof {
        order::lemma_ranked_sort::<ComponentKey>(order::ranked_views(listed_keys));
        assert(listed_keys.no_duplicates()) by {
            assert forall|a: int, b: int|
                0 <= a < listed_keys.len() && 0 <= b < listed_keys.len() && a
                    != b implies listed_keys[a] != listed_keys[b] by {
                assert(listed_keys[a].place == a);
                assert(listed_keys[b].place == b);
            }
        }
        listed_keys.lemma_multiset_has_no_duplicates();
        sorted@.lemma_multiset_has_no_duplicates_conv();
        assert forall|k: int| 0 <= k < sorted@.len() implies listed_keys.contains(
            #[trigger] sorted@[k],
        ) by {
            assert(sorted@.to_multiset().count(sorted@[k]) > 0);
        }
        assert forall|k: int| 0 <= k < listed_keys.len() implies sorted@.contains(
            #[trigger] listed_keys[k],
        ) by {
            assert(listed_keys.to_multiset().count(listed_keys[k]) > 0);
        }
    }
    let mut out: Vec<Vec<usize>> = Vec::new();
    let mut at: usize = 0;
    while at < sorted.len()
        invariant
            at <= sorted.len(),
            all == lists(components@),
            sorted@.len() == components@.len(),
            out@.len() == at,
            forall|k: int| 0 <= k < sorted@.len() ==> (#[trigger] sorted@[k]).place < components@.len(),
            forall|k: int| 0 <= k < at ==> (#[trigger] lists(out@)[k]) == all[sorted@[k].place as int],
        decreases sorted.len() - at,
    {
        let ghost before = lists(out@);
        out.push(copy_indices(&components[sorted[at].place]));
        proof {
            assert forall|k: int| 0 <= k < at + 1 implies (#[trigger] lists(out@)[k])
                == all[sorted@[k].place as int] by {
                if k < at {
                    assert(before[k] == lists(out@)[k]);
                }
            }
        }
        at = at + 1;
    }
    proof {
        assert forall|k: int| 0 <= k < out@.len() implies all.contains(
            #[trigger] lists(out@)[k],
        ) by {
            assert(lists(out@)[k] == all[sorted@[k].place as int]);
        }
        assert forall|k: int| 0 <= k < all.len() implies lists(out@).contains(#[trigger] all[k]) by {
            assert(sorted@.contains(listed_keys[k]));
            let m = choose|m: int| 0 <= m < sorted@.len() && sorted@[m] == listed_keys[k];
            assert(lists(out@)[m] == all[sorted@[m].place as int]);
        }
        assert forall|a: int, b: int| 0 <= a < b < out@.len() implies drawn_before(
            #[trigger] lists(out@)[a],
            #[trigger] lists(out@)[b],
        ) by {
            let views = order::ranked_views(sorted@);
            assert(order::ranking::<ComponentKey>()(views[a], views[b]));
            assert(listed_keys.contains(sorted@[a]));
            assert(listed_keys.contains(sorted@[b]));
            let p = sorted@[a].place as int;
            let q = sorted@[b].place as int;
            let m = choose|m: int| 0 <= m < listed_keys.len() && listed_keys[m] == sorted@[a];
            let n = choose|n: int| 0 <= n < listed_keys.len() && listed_keys[n] == sorted@[b];
            assert(listed_keys[m].place == m && listed_keys[n].place == n);
            assert(lists(out@)[a] == all[p]);
            assert(lists(out@)[b] == all[q]);
            assert(sorted@[a] != sorted@[b]);
            if p < q {
                assert(all[p][0] != all[q][0]);
            } else if q < p {
                assert(all[q][0] != all[p][0]);
            } else {
                assert(listed_keys[m] == listed_keys[n]);
            }
        }
    }
    out
}

/// Finds the connected components in drawing order.
pub fn find_components(node_count: usize, pairs: &Vec<(usize, usize)>) -> (r: Vec<Vec<usize>>)
    requires
        proper(node_count as nat, pairs@),
    ensures
        components_of(node_count as nat, pairs@, lists(r@)),
{
    let roots = component_roots(node_count, pairs);
    let found = group_nodes(&roots);
    let ghost all = lists(found@);
    let ghost tops = roots@.map_values(|x: usize| x as int);
    proof {
        assert forall|i: int| 0 <= i < all.len() implies (#[trigger] all[i]).len() > 0 by {
            assert(grouped(roots@, roots@.len(), all[i]));
        }
    }
    let ordered = order_components(found);
    proof {
        let out = lists(ordered@);
        assert forall|i: int| 0 <= i < out.len() implies grouped(
            roots@,
            roots@.len(),
            #[trigger] out[i],
        ) by {
            assert(all.contains(out[i]));
            let k = choose|k: int| 0 <= k < all.len() && all[k] == out[i];
            assert(grouped(roots@, roots@.len(), all[k]));
        }
        assert forall|i: int, node: usize| 0 <= i < out.len() implies (#[trigger] out[i].contains(
            node,
        ) <==> node < node_count && layout_union::connected(
            pairs@,
            out[i][0] as int,
            node as int,
        )) by {
            assert(grouped(roots@, roots@.len(), out[i]));
            assert(out[i].contains(out[i][0]));
            if node < node_count {
                assert(tops[out[i][0] as int] == tops[node as int] <==> layout_union::connected(
                    pairs@,
                    out[i][0] as int,
                    node as int,
                ));
            }
        }
        assert forall|i: int| 0 <= i < out.len() implies (#[trigger] out[i]).len() > 0 && rising(
            out[i],
        ) by {
            assert(grouped(roots@, roots@.len(), out[i]));
        }
        assert forall|node: usize| node < node_count implies #[trigger] listed(out, node) by {
            assert(listed(all, node));
            let k = choose|k: int| 0 <= k < all.len() && (#[trigger] all[k]).contains(node);
            assert(out.contains(all[k]));
            let m = choose|m: int| 0 <= m < out.len() && out[m] == all[k];
            assert(out[m].contains(node));
        }
    }
    ordered
}

/// No node is in two components.
pub proof fn law_components_are_disjoint(
    node_count: nat,
    pairs: Seq<(usize, usize)>,
    components: Seq<Seq<usize>>,
    i: int,
    j: int,
    node: usize,
)
    requires
        components_of(node_count, pairs, components),
        0 <= i < components.len(),
        0 <= j < components.len(),
        components[i].contains(node),
        components[j].contains(node),
    ensures
        i == j,
{
    if i != j {
        let a = components[i];
        let b = components[j];
        assert forall|other: usize| a.contains(other) implies b.contains(other) by {
            lemma_same_component(node_count, pairs, components, i, j, node, other);
        }
        assert forall|other: usize| b.contains(other) implies a.contains(other) by {
            lemma_same_component(node_count, pairs, components, j, i, node, other);
        }
        lemma_rising_is_determined(a, b);
        if i < j {
            assert(drawn_before(components[i], components[j]));
        } else {
            assert(drawn_before(components[j], components[i]));
        }
    }
}

proof fn lemma_same_component(
    node_count: nat,
    pairs: Seq<(usize, usize)>,
    components: Seq<Seq<usize>>,
    i: int,
    j: int,
    node: usize,
    other: usize,
)
    requires
        components_of(node_count, pairs, components),
        0 <= i < components.len(),
        0 <= j < components.len(),
        components[i].contains(node),
        components[j].contains(node),
        components[i].contains(other),
    ensures
        components[j].contains(other),
{
    let a = components[i][0] as int;
    let b = components[j][0] as int;
    layout_union::law_connected_is_symmetric(pairs, a, node as int);
    layout_union::law_connected_is_transitive(pairs, b, node as int, a);
    layout_union::law_connected_is_transitive(pairs, b, a, other as int);
}

/// Ascending lists with the same nodes are the same.
proof fn lemma_rising_is_determined(a: Seq<usize>, b: Seq<usize>)
    requires
        rising(a),
        rising(b),
        forall|node: usize| a.contains(node) <==> b.contains(node),
    ensures
        a == b,
    decreases a.len(),
{
    if a.len() == 0 {
        if b.len() > 0 {
            assert(b.contains(b[0]));
            assert(a.contains(b[0]));
        }
        assert(a =~= b);
    } else {
        assert(a.contains(a.last()));
        assert(b.contains(a.last()));
        let k = choose|k: int| 0 <= k < b.len() && b[k] == a.last();
        assert(b.contains(b.last()));
        assert(a.contains(b.last()));
        let m = choose|m: int| 0 <= m < a.len() && a[m] == b.last();
        assert(a.last() == b.last()) by {
            if k < b.len() - 1 {
                assert(b[k] < b[b.len() - 1]);
            }
            if m < a.len() - 1 {
                assert(a[m] < a[a.len() - 1]);
            }
        }
        let x = a.drop_last();
        let y = b.drop_last();
        assert forall|node: usize| x.contains(node) <==> y.contains(node) by {
            if x.contains(node) {
                let p = choose|p: int| 0 <= p < x.len() && x[p] == node;
                assert(a[p] < a[a.len() - 1]);
                assert(a.contains(node));
                let q = choose|q: int| 0 <= q < b.len() && b[q] == node;
                assert(y[q] == node);
            }
            if y.contains(node) {
                let p = choose|p: int| 0 <= p < y.len() && y[p] == node;
                assert(b[p] < b[b.len() - 1]);
                assert(b.contains(node));
                let q = choose|q: int| 0 <= q < a.len() && a[q] == node;
                assert(x[q] == node);
            }
        }
        lemma_rising_is_determined(x, y);
        assert(a =~= x.push(a.last()));
        assert(b =~= y.push(b.last()));
    }
}

/// The pairs within a component, by the places of their ends in it.
pub open spec fn local_pairs(pairs: Seq<(usize, usize)>, component: Seq<usize>) -> Seq<
    (usize, usize),
>
    decreases pairs.len(),
{
    if pairs.len() == 0 {
        Seq::empty()
    } else {
        let rest = local_pairs(pairs.drop_last(), component);
        let (a, b) = pairs.last();
        if component.contains(a) {
            rest.push((component.index_of(a) as usize, component.index_of(b) as usize))
        } else {
            rest
        }
    }
}

/// Both ends of a pair are in the same components.
pub proof fn law_pairs_stay_in_a_component(
    node_count: nat,
    pairs: Seq<(usize, usize)>,
    components: Seq<Seq<usize>>,
    i: int,
    c: int,
)
    requires
        proper(node_count, pairs),
        components_of(node_count, pairs, components),
        0 <= i < pairs.len(),
        0 <= c < components.len(),
    ensures
        components[c].contains(pairs[i].0) <==> components[c].contains(pairs[i].1),
{
    let (a, b) = pairs[i];
    let first = components[c][0] as int;
    layout_union::law_pairs_are_connected(pairs, i);
    layout_union::law_connected_is_symmetric(pairs, a as int, b as int);
    if components[c].contains(a) {
        layout_union::law_connected_is_transitive(pairs, first, a as int, b as int);
    }
    if components[c].contains(b) {
        layout_union::law_connected_is_transitive(pairs, first, b as int, a as int);
    }
}

/// For each node the component that holds it and its place there.
spec fn placed(components: Seq<Seq<usize>>, upto: int, places: Seq<(usize, usize)>) -> bool {
    forall|c: int, l: int|
        0 <= c < upto && 0 <= l < components[c].len() ==> places[(
        #[trigger] components[c][l]) as int] == (c as usize, l as usize)
}

fn place_nodes(
    node_count: usize,
    components: &Vec<Vec<usize>>,
    Ghost(pairs): Ghost<Seq<(usize, usize)>>,
) -> (r: Vec<(usize, usize)>)
    requires
        components_of(node_count as nat, pairs, lists(components@)),
    ensures
        r@.len() == node_count,
        placed(lists(components@), components@.len() as int, r@),
{
    let ghost all = lists(components@);
    let mut places: Vec<(usize, usize)> = Vec::new();
    let mut i: usize = 0;
    while i < node_count
        invariant
            i <= node_count,
            places@.len() == i,
        decreases node_count - i,
    {
        places.push((0, 0));
        i = i + 1;
    }
    let mut c: usize = 0;
    while c < components.len()
        invariant
            c <= components.len(),
            all == lists(components@),
            components_of(node_count as nat, pairs, all),
            places@.len() == node_count,
            placed(all, c as int, places@),
        decreases components.len() - c,
    {
        let mut l: usize = 0;
        assert(all[c as int] == components@[c as int]@);
        while l < components[c].len()
            invariant
                c < components@.len(),
                l <= components@[c as int].len(),
                all == lists(components@),
                all[c as int] == components@[c as int]@,
                components_of(node_count as nat, pairs, all),
                places@.len() == node_count,
                placed(all, c as int, places@),
                forall|m: int|
                    0 <= m < l ==> places@[(#[trigger] all[c as int][m]) as int] == (
                        c,
                        m as usize,
                    ),
            decreases components@[c as int].len() - l,
        {
            let node: usize = components[c][l];
            let ghost before = places@;
            assert(all[c as int].contains(node)) by {
                assert(all[c as int][l as int] == node);
            }
            places.set(node, (c, l));
            proof {
                assert forall|d: int, m: int|
                    0 <= d < c && 0 <= m < all[d].len() implies places@[(
                #[trigger] all[d][m]) as int] == (d as usize, m as usize) by {
                    assert(all[d].contains(all[d][m]));
                    if all[d][m] == node {
                        law_components_are_disjoint(
                            node_count as nat,
                            pairs,
                            all,
                            c as int,
                            d,
                            node,
                        );
                    }
                    assert(before[all[d][m] as int] == (d as usize, m as usize));
                    assert(all[d][m] < node_count);
                }
                assert forall|m: int| 0 <= m < l + 1 implies places@[(
                #[trigger] all[c as int][m]) as int] == (c, m as usize) by {
                    assert(all[c as int].contains(all[c as int][m]));
                    if m < l {
                        assert(all[c as int][m] < all[c as int][l as int]);
                        assert(before[all[c as int][m] as int] == (c, m as usize));
                    }
                }
            }
            l = l + 1;
        }
        assert(placed(all, c + 1, places@));
        c = c + 1;
    }
    places
}

/// Lists the pairs within each component, by the places of their ends in it.
fn component_edges(
    node_count: usize,
    pairs: &Vec<(usize, usize)>,
    components: &Vec<Vec<usize>>,
) -> (r: Vec<Vec<(usize, usize)>>)
    requires
        proper(node_count as nat, pairs@),
        components_of(node_count as nat, pairs@, lists(components@)),
    ensures
        r@.len() == components@.len(),
        forall|c: int|
            0 <= c < r@.len() ==> (#[trigger] lists(r@)[c]) == local_pairs(
                pairs@,
                lists(components@)[c],
            ),
{
    let places = place_nodes(node_count, components, Ghost(pairs@));
    let ghost all = lists(components@);
    let mut out: Vec<Vec<(usize, usize)>> = Vec::new();
    let mut c: usize = 0;
    while c < components.len()
        invariant
            c <= components.len(),
            out@.len() == c,
            forall|k: int| 0 <= k < c ==> (#[trigger] lists(out@)[k]) == Seq::<(usize, usize)>::empty(),
        decreases components.len() - c,
    {
        let ghost before = lists(out@);
        out.push(Vec::new());
        proof {
            assert forall|k: int| 0 <= k < c + 1 implies (#[trigger] lists(out@)[k]) == Seq::<
                (usize, usize),
            >::empty() by {
                if k < c {
                    assert(before[k] == lists(out@)[k]);
                }
            }
        }
        c = c + 1;
    }
    let count: usize = components.len();
    let mut i: usize = 0;
    assert(pairs@.take(0) =~= Seq::<(usize, usize)>::empty());
    while i < pairs.len()
        invariant
            i <= pairs.len(),
            count == all.len(),
            all == lists(components@),
            proper(node_count as nat, pairs@),
            components_of(node_count as nat, pairs@, all),
            places@.len() == node_count,
            placed(all, all.len() as int, places@),
            out@.len() == all.len(),
            forall|k: int|
                0 <= k < all.len() ==> (#[trigger] lists(out@)[k]) == local_pairs(
                    pairs@.take(i as int),
                    all[k],
                ),
        decreases pairs.len() - i,
    {
        let (a, b) = pairs[i];
        let ghost before = lists(out@);
        let ghost home = choose|k: int| 0 <= k < all.len() && (#[trigger] all[k]).contains(a);
        proof {
            assert(pairs@[i as int].0 < pairs@[i as int].1 < node_count);
            assert(listed(all, a));
            let k = home;
            law_pairs_stay_in_a_component(node_count as nat, pairs@, all, i as int, k);
            let m = all[k].index_of(a);
            let n = all[k].index_of(b);
            assert(all[k][m] == a);
            assert(all[k][n] == b);
            assert(places@[a as int] == (k as usize, m as usize));
            assert(places@[b as int] == (k as usize, n as usize));
            assert(all[k] == components@[k]@);
            assert(pairs@.take(i + 1).drop_last() =~= pairs@.take(i as int));
        }
        let component: usize = places[a].0;
        let edge = (places[a].1, places[b].1);
        out[component].push(edge);
        proof {
            assert(component == home);
            assert(edge == (all[home].index_of(a) as usize, all[home].index_of(b) as usize));
            assert forall|k: int| 0 <= k < all.len() implies (#[trigger] lists(out@)[k])
                == local_pairs(pairs@.take(i + 1), all[k]) by {
                assert(before[k] == local_pairs(pairs@.take(i as int), all[k]));
                if k != home {
                    if all[k].contains(a) {
                        law_components_are_disjoint(
                            node_count as nat,
                            pairs@,
                            all,
                            k,
                            home,
                            a,
                        );
                    }
                }
            }
        }
        i = i + 1;
    }
    assert(pairs@.take(pairs@.len() as int) =~= pairs@);
    out
}

/// How the structural arrangement draws a graph.
pub enum StructurePlan {
    /// Too little to draw: the near forces alone.
    Spatial,
    /// Relationships, but none between two different nodes: rings.
    Orbits,
    /// Each component by itself, with its local relationships.
    Components { components: Vec<Vec<usize>>, edges: Vec<Vec<(usize, usize)>> },
}

/// Decides how the structural arrangement draws a graph.
pub fn plan_structure(node_count: usize, sources: &Vec<u32>, targets: &Vec<u32>) -> (r:
    StructurePlan)
    requires
        sources@.len() == targets@.len(),
    ensures
        r is Spatial <==> node_count < 3 || sources@.len() == 0,
        r is Orbits <==> node_count >= 3 && sources@.len() > 0 && unique_pairs(
            node_count as nat,
            sources@,
            targets@,
        ).len() == 0,
        r matches StructurePlan::Components { components, edges } ==> components_of(
            node_count as nat,
            unique_pairs(node_count as nat, sources@, targets@),
            lists(components@),
        ) && edges@.len() == components@.len() && forall|c: int|
            0 <= c < edges@.len() ==> (#[trigger] lists(edges@)[c]) == local_pairs(
                unique_pairs(node_count as nat, sources@, targets@),
                lists(components@)[c],
            ),
{
    if node_count < 3 || sources.len() == 0 {
        return StructurePlan::Spatial;
    }
    let pairs = unique_edges(node_count, sources, targets);
    if pairs.len() == 0 {
        return StructurePlan::Orbits;
    }
    let components = find_components(node_count, &pairs);
    let edges = component_edges(node_count, &pairs, &components);
    StructurePlan::Components { components, edges }
}

} // verus!
