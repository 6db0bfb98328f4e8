//! Disjoint sets of nodes, and what the relationships of a graph connect.

use vstd::prelude::*;

verus! {

/// Whether every parent is a node and stands at a smaller depth than its
/// child, unless a node is its own parent.
pub open spec fn climbing(parent: Seq<usize>, depth: Seq<nat>) -> bool {
    &&& depth.len() == parent.len()
    &&& forall|i: int| 0 <= i < parent.len() ==> (#[trigger] parent[i]) < parent.len()
    &&& forall|i: int|
        0 <= i < parent.len() && #[trigger] parent[i] != i ==> depth[parent[i] as int] < depth[i]
}

/// The node that stands for the set of a node: the one that climbing over
/// parents ends at.
pub open spec fn top(parent: Seq<usize>, depth: Seq<nat>, node: int) -> int
    decreases depth[node],
{
    if climbing(parent, depth) && 0 <= node < parent.len() && parent[node] != node {
        top(parent, depth, parent[node] as int)
    } else {
        node
    }
}

proof fn lemma_top(parent: Seq<usize>, depth: Seq<nat>, node: int)
    requires
        climbing(parent, depth),
        0 <= node < parent.len(),
    ensures
        0 <= top(parent, depth, node) < parent.len(),
        parent[top(parent, depth, node)] == top(parent, depth, node),
        top(parent, depth, node) != node ==> depth[top(parent, depth, node)] < depth[node],
        top(parent, depth, top(parent, depth, node)) == top(parent, depth, node),
    decreases depth[node],
{
    if parent[node] != node {
        lemma_top(parent, depth, parent[node] as int);
    }
}

/// Pointing a node directly at the top of its set changes no set.
proof fn lemma_shortcut(parent: Seq<usize>, depth: Seq<nat>, from: int, node: int)
    requires
        climbing(parent, depth),
        0 <= from < parent.len(),
        0 <= node < parent.len(),
    ensures
        climbing(parent.update(from, top(parent, depth, from) as usize), depth),
        top(parent.update(from, top(parent, depth, from) as usize), depth, node) == top(
            parent,
            depth,
            node,
        ),
    decreases depth[node],
{
    lemma_top(parent, depth, from);
    let root = top(parent, depth, from);
    let after = parent.update(from, root as usize);
    assert(climbing(after, depth)) by {
        assert forall|i: int| 0 <= i < after.len() && #[trigger] after[i] != i implies depth[after[i] as int]
            < depth[i] by {
            if i != from {
                assert(parent[i] != i);
            }
        }
    }
    if node == from {
        if root != from {
            assert(after[root] == parent[root]);
            assert(top(after, depth, root) == root);
        }
    } else if parent[node] != node {
        lemma_shortcut(parent, depth, from, parent[node] as int);
        assert(after[node] == parent[node]);
    }
}

/// The depths after the set of `lost` has been hung below `kept`.
pub open spec fn sunk(parent: Seq<usize>, depth: Seq<nat>, kept: int, lost: int) -> Seq<nat> {
    Seq::new(
        depth.len(),
        |i: int|
            if top(parent, depth, i) == lost {
                depth[i] + depth[kept] + 1
            } else {
                depth[i]
            },
    )
}

proof fn lemma_hang(parent: Seq<usize>, depth: Seq<nat>, kept: int, lost: int)
    requires
        climbing(parent, depth),
        0 <= kept < parent.len(),
        0 <= lost < parent.len(),
        kept != lost,
        parent[kept] == kept,
        parent[lost] == lost,
    ensures
        climbing(parent.update(lost, kept as usize), sunk(parent, depth, kept, lost)),
{
    let after = parent.update(lost, kept as usize);
    let below = sunk(parent, depth, kept, lost);
    assert(top(parent, depth, kept) == kept);
    assert(top(parent, depth, lost) == lost);
    assert forall|i: int| 0 <= i < after.len() && #[trigger] after[i] != i implies below[after[i] as int]
        < below[i] by {
        if i != lost {
            assert(parent[i] != i);
            assert(top(parent, depth, parent[i] as int) == top(parent, depth, i));
        }
    }
}

proof fn lemma_hang_top(parent: Seq<usize>, depth: Seq<nat>, kept: int, lost: int, node: int)
    requires
        climbing(parent, depth),
        0 <= kept < parent.len(),
        0 <= lost < parent.len(),
        kept != lost,
        parent[kept] == kept,
        parent[lost] == lost,
        0 <= node < parent.len(),
    ensures
        top(parent.update(lost, kept as usize), sunk(parent, depth, kept, lost), node) == (if top(
            parent,
            depth,
            node,
        ) == lost {
            kept
        } else {
            top(parent, depth, node)
        }),
    decreases depth[node],
{
    let after = parent.update(lost, kept as usize);
    let below = sunk(parent, depth, kept, lost);
    lemma_hang(parent, depth, kept, lost);
    if node == lost {
        assert(after[kept] == kept);
        assert(top(after, below, kept) == kept);
        assert(after[lost] == kept);
        assert(top(parent, depth, lost) == lost);
        reveal_with_fuel(top, 2);
    } else if parent[node] != node {
        assert(after[node] == parent[node]);
        lemma_hang_top(parent, depth, kept, lost, parent[node] as int);
    } else {
        assert(after[node] == node);
    }
}

/// Disjoint sets of the nodes below a bound.
pub struct LayoutUnionFind {
    pub parent: Vec<usize>,
    pub rank: Vec<u8>,
    pub depth: Ghost<Seq<nat>>,
}

impl View for LayoutUnionFind {
    type V = Seq<int>;

    /// For each node the one that stands for its set.
    open spec fn view(&self) -> Seq<int> {
        Seq::new(self.parent@.len(), |i: int| top(self.parent@, self.depth@, i))
    }
}

impl LayoutUnionFind {
    /// Climbing over parents ends, and every node has a rank.
    pub open spec fn wf(self) -> bool {
        &&& climbing(self.parent@, self.depth@)
        &&& self.rank@.len() == self.parent@.len()
    }

    /// Every node in a set of its own.
    pub fn new(len: usize) -> (r: LayoutUnionFind)
        ensures
            r.wf(),
            r@ == Seq::new(len as nat, |i: int| i),
            r.rank@ == Seq::new(len as nat, |i: int| 0u8),
    {
        let mut parent: Vec<usize> = Vec::new();
        let mut rank: Vec<u8> = Vec::new();
        let mut i: usize = 0;
        while i < len
            invariant
                i <= len,
                parent@.len() == i,
                forall|j: int| 0 <= j < i ==> parent@[j] == j,
                rank@ == Seq::new(i as nat, |k: int| 0u8),
            decreases len - i,
        {
            parent.push(i);
            rank.push(0);
            assert(rank@ =~= Seq::new((i + 1) as nat, |k: int| 0u8));
            i = i + 1;
        }
        let r = LayoutUnionFind { parent, rank, depth: Ghost(Seq::new(len as nat, |k: int| 0nat)) };
        assert(r@ =~= Seq::new(len as nat, |k: int| k));
        r
    }

    /// The node that stands for the set of `node`; shortens the way to it.
    pub fn root(&mut self, node: usize) -> (r: usize)
        requires
            old(self).wf(),
            node < old(self)@.len(),
        ensures
            final(self).wf(),
            final(self)@ == old(self)@,
            final(self).rank == old(self).rank,
            final(self).depth == old(self).depth,
            r == old(self)@[node as int],
            r < old(self)@.len(),
            final(self)@[r as int] == r,
            final(self).parent@[r as int] == r,
        decreases old(self).depth@[node as int],
    {
        let above: usize = self.parent[node];
        proof {
            lemma_top(self.parent@, self.depth@, node as int);
        }
        if above != node {
            let ghost before = self@;
            let root: usize = self.root(above);
            proof {
                assert(before[above as int] == before[node as int]);
                assert forall|i: int| 0 <= i < self.parent@.len() implies top(
                    self.parent@.update(node as int, root),
                    self.depth@,
                    i,
                ) == top(self.parent@, self.depth@, i) && climbing(
                    self.parent@.update(node as int, root),
                    self.depth@,
                ) by {
                    assert(self@[node as int] == before[node as int]);
                    lemma_shortcut(self.parent@, self.depth@, node as int, i);
                }
            }
            let ghost middle = self@;
            let ghost parents = self.parent@;
            self.parent.set(node, root);
            proof {
                assert forall|i: int| 0 <= i < self.parent@.len() implies self@[i] == middle[i] by {
                    assert(top(parents.update(node as int, root), self.depth@, i) == top(
                        parents,
                        self.depth@,
                        i,
                    ));
                }
                assert(self@ =~= middle);
                assert(climbing(self.parent@, self.depth@)) by {
                    assert(top(parents.update(node as int, root), self.depth@, node as int) == top(
                        parents,
                        self.depth@,
                        node as int,
                    ));
                }
            }
            root
        } else {
            node
        }
    }

    /// Makes one set of two. The root of lower rank, or else the right one,
    /// goes below the other, and roots of equal rank raise the one that stays.
    pub fn join(&mut self, left: usize, right: usize)
        requires
            old(self).wf(),
            left < old(self)@.len(),
            right < old(self)@.len(),
        ensures
            final(self).wf(),
            final(self)@.len() == old(self)@.len(),
            ({
                let first = old(self)@[left as int];
                let second = old(self)@[right as int];
                let swapped = old(self).rank@[first] < old(self).rank@[second];
                let kept = if swapped {
                    second
                } else {
                    first
                };
                let lost = if swapped {
                    first
                } else {
                    second
                };
                let level = old(self).rank@[kept];
                &&& first == second ==> final(self)@ == old(self)@ && final(self).rank@ == old(
                    self,
                ).rank@
                &&& first != second ==> final(self)@ == old(self)@.map_values(
                    |root: int|
                        if root == lost {
                            kept
                        } else {
                            root
                        },
                )
                &&& first != second ==> final(self).rank@ == if level == old(self).rank@[lost]
                    && level < u8::MAX {
                    old(self).rank@.update(kept, (level + 1) as u8)
                } else {
                    old(self).rank@
                }
            }),
    {
        let mut kept: usize = self.root(left);
        let mut lost: usize = self.root(right);
        proof {
            lemma_top(self.parent@, self.depth@, left as int);
            assert(self@[left as int] == kept);
        }
        if kept == lost {
            return ;
        }
        if self.rank[kept] < self.rank[lost] {
            let other: usize = kept;
            kept = lost;
            lost = other;
        }
        let ghost before = self@;
        let ghost below = sunk(self.parent@, self.depth@, kept as int, lost as int);
        let ghost parents = self.parent@;
        let ghost depths = self.depth@;
        proof {
            lemma_hang(parents, depths, kept as int, lost as int);
        }
        self.parent.set(lost, kept);
        self.depth = Ghost(below);
        proof {
            assert forall|i: int| 0 <= i < parents.len() implies self@[i] == (if before[i] == lost {
                kept as int
            } else {
                before[i]
            }) by {
                lemma_hang_top(parents, depths, kept as int, lost as int, i);
            }
            assert(self@ =~= before.map_values(
                |root: int|
                    if root == lost {
                        kept as int
                    } else {
                        root
                    },
            ));
        }
        let level: u8 = self.rank[kept];
        if level == self.rank[lost] {
            if level < u8::MAX {
                self.rank.set(kept, level + 1);
            }
        }
    }
}

/// Whether the pairs connect two nodes.
pub open spec fn connected(pairs: Seq<(usize, usize)>, a: int, b: int) -> bool
    decreases pairs.len(),
{
    if pairs.len() == 0 {
        a == b
    } else {
        let rest = pairs.drop_last();
        let (x, y) = pairs.last();
        ||| connected(rest, a, b)
        ||| connected(rest, a, x as int) && connected(rest, y as int, b)
        ||| connected(rest, a, y as int) && connected(rest, x as int, b)
    }
}

/// Being connected is reflexive.
pub proof fn law_connected_is_reflexive(pairs: Seq<(usize, usize)>, a: int)
    ensures
        connected(pairs, a, a),
    decreases pairs.len(),
{
    if pairs.len() > 0 {
        law_connected_is_reflexive(pairs.drop_last(), a);
    }
}

/// Being connected is symmetric.
pub proof fn law_connected_is_symmetric(pairs: Seq<(usize, usize)>, a: int, b: int)
    requires
        connected(pairs, a, b),
    ensures
        connected(pairs, b, a),
    decreases pairs.len(),
{
    if pairs.len() > 0 {
        let rest = pairs.drop_last();
        let (x, y) = pairs.last();
        if connected(rest, a, b) {
            law_connected_is_symmetric(rest, a, b);
        } else if connected(rest, a, x as int) && connected(rest, y as int, b) {
            law_connected_is_symmetric(rest, a, x as int);
            law_connected_is_symmetric(rest, y as int, b);
        } else {
            law_connected_is_symmetric(rest, a, y as int);
            law_connected_is_symmetric(rest, x as int, b);
        }
    }
}

/// Being connected is transitive.
pub proof fn law_connected_is_transitive(pairs: Seq<(usize, usize)>, a: int, b: int, c: int)
    requires
        connected(pairs, a, b),
        connected(pairs, b, c),
    ensures
        connected(pairs, a, c),
    decreases pairs.len(),
{
    if pairs.len() > 0 {
        let rest = pairs.drop_last();
        let (p, q) = pairs.last();
        let x = p as int;
        let y = q as int;
        let near = connected(rest, a, b);
        let over = connected(rest, a, x) && connected(rest, y, b);
        if connected(rest, b, c) {
            if near {
                law_connected_is_transitive(rest, a, b, c);
            } else if over {
                law_connected_is_transitive(rest, y, b, c);
            } else {
                law_connected_is_transitive(rest, x, b, c);
            }
        } else if connected(rest, b, x) && connected(rest, y, c) {
            if near {
                law_connected_is_transitive(rest, a, b, x);
            } else if !over {
                law_connected_is_transitive(rest, a, y, c);
            }
        } else {
            if near {
                law_connected_is_transitive(rest, a, b, y);
            } else if over {
                law_connected_is_transitive(rest, a, x, c);
            }
        }
    }
}

/// The ends of every pair are connected.
pub proof fn law_pairs_are_connected(pairs: Seq<(usize, usize)>, i: int)
    requires
        0 <= i < pairs.len(),
    ensures
        connected(pairs, pairs[i].0 as int, pairs[i].1 as int),
    decreases pairs.len(),
{
    let rest = pairs.drop_last();
    if i < rest.len() {
        law_pairs_are_connected(rest, i);
        assert(rest[i] == pairs[i]);
    } else {
        law_connected_is_reflexive(rest, pairs[i].0 as int);
        law_connected_is_reflexive(rest, pairs[i].1 as int);
    }
}

/// What stands on both sides of every pair alike stands alike at connected
/// nodes: pairs connect no more than they have to.
pub proof fn law_connected_is_least<T>(
    pairs: Seq<(usize, usize)>,
    color: spec_fn(int) -> T,
    a: int,
    b: int,
)
    requires
        forall|i: int|
            0 <= i < pairs.len() ==> color((#[trigger] pairs[i]).0 as int) == color(
                pairs[i].1 as int,
            ),
        connected(pairs, a, b),
    ensures
        color(a) == color(b),
    decreases pairs.len(),
{
    if pairs.len() > 0 {
        let rest = pairs.drop_last();
        let (x, y) = pairs.last();
        assert(pairs[pairs.len() - 1] == (x, y));
        assert forall|i: int| 0 <= i < rest.len() implies color((#[trigger] rest[i]).0 as int)
            == color(rest[i].1 as int) by {
            assert(pairs[i] == rest[i]);
        }
        if connected(rest, a, b) {
            law_connected_is_least(rest, color, a, b);
        } else if connected(rest, a, x as int) && connected(rest, y as int, b) {
            law_connected_is_least(rest, color, a, x as int);
            law_connected_is_least(rest, color, y as int, b);
        } else {
            law_connected_is_least(rest, color, a, y as int);
            law_connected_is_least(rest, color, x as int, b);
        }
    }
}

/// Whether the sets are those that the pairs connect.
pub open spec fn separates(roots: Seq<int>, pairs: Seq<(usize, usize)>) -> bool {
    forall|a: int, b: int|
        0 <= a < roots.len() && 0 <= b < roots.len() ==> ((#[trigger] roots[a] == #[trigger] roots[b])
            <==> connected(pairs, a, b))
}

/// Joining the ends of one more pair keeps the sets those that the pairs
/// connect.
pub proof fn lemma_join_separates(
    before: Seq<int>,
    after: Seq<int>,
    pairs: Seq<(usize, usize)>,
    left: usize,
    right: usize,
    kept: int,
    lost: int,
)
    requires
        separates(before, pairs),
        left < before.len(),
        right < before.len(),
        (kept, lost) == (before[left as int], before[right as int]) || (lost, kept) == (
            before[left as int],
            before[right as int],
        ),
        before[left as int] == before[right as int] ==> after == before,
        before[left as int] != before[right as int] ==> after == before.map_values(
            |root: int|
                if root == lost {
                    kept
                } else {
                    root
                },
        ),
    ensures
        separates(after, pairs.push((left, right))),
{
    let all = pairs.push((left, right));
    assert(all.drop_last() =~= pairs);
    let x = left as int;
    let y = right as int;
    assert forall|a: int, b: int| 0 <= a < after.len() && 0 <= b < after.len() implies ((
    #[trigger] after[a] == #[trigger] after[b]) <==> connected(all, a, b)) by {
        assert(before[a] == before[b] <==> connected(pairs, a, b));
        assert(before[a] == before[x] <==> connected(pairs, a, x));
        assert(before[a] == before[y] <==> connected(pairs, a, y));
        assert(before[x] == before[b] <==> connected(pairs, x, b));
        assert(before[y] == before[b] <==> connected(pairs, y, b));
    }
}

} // verus!
