//! The top-level branches of a forest: their ring slots and the order in
//! which their nodes are placed.

use vstd::prelude::*;
use vstd::relations::*;
use vstd::seq_lib::*;
use vstd::set_lib::*;

use crate::layout_forest;
use crate::layout_forest::ForestTopology;
use crate::order;
use crate::order::{sort_ranked, Ranked};

verus! {

/// A node and everything below it, each node before its children and children
/// in order.
pub open spec fn preorder(kids: Seq<Seq<u32>>, sizes: Seq<nat>, node: u32) -> Seq<u32>
    decreases 2 * sizes[node as int] + 1, 0nat,
{
    seq![node] + preorder_all(kids, sizes, kids[node as int], sizes[node as int])
}

/// The same for several nodes one after the other, as long as they are
/// smaller than `bound`.
pub open spec fn preorder_all(
    kids: Seq<Seq<u32>>,
    sizes: Seq<nat>,
    nodes: Seq<u32>,
    bound: nat,
) -> Seq<u32>
    decreases 2 * bound, nodes.len(),
{
    if nodes.len() == 0 || sizes[nodes[0] as int] >= bound {
        Seq::empty()
    } else {
        preorder(kids, sizes, nodes[0]) + preorder_all(kids, sizes, nodes.drop_first(), bound)
    }
}

/// Whether sizes count a node and what its children count.
pub open spec fn counted(kids: Seq<Seq<u32>>, sizes: Seq<nat>) -> bool {
    &&& kids.len() == sizes.len()
    &&& forall|x: int, k: int|
        0 <= x < kids.len() && 0 <= k < kids[x].len() ==> (#[trigger] kids[x][k]) < kids.len()
    &&& forall|x: int|
        0 <= x < kids.len() ==> #[trigger] sizes[x] == 1 + layout_forest::total_of(kids[x], sizes)
}

spec fn within(nodes: Seq<u32>, count: nat) -> bool {
    forall|i: int| 0 <= i < nodes.len() ==> (#[trigger] nodes[i]) < count
}

proof fn lemma_total_first(nodes: Seq<u32>, values: Seq<nat>)
    requires
        nodes.len() > 0,
    ensures
        layout_forest::total_of(nodes, values) == values[nodes[0] as int] + layout_forest::total_of(
            nodes.drop_first(),
            values,
        ),
    decreases nodes.len(),
{
    if nodes.len() > 1 {
        lemma_total_first(nodes.drop_last(), values);
        assert(nodes.drop_last().drop_first() =~= nodes.drop_first().drop_last());
        assert(nodes.drop_first().last() == nodes.last());
    } else {
        assert(nodes.drop_last() =~= Seq::<u32>::empty());
        assert(nodes.drop_first() =~= Seq::<u32>::empty());
        reveal_with_fuel(layout_forest::total_of, 2);
    }
}

proof fn lemma_total_concat(a: Seq<u32>, b: Seq<u32>, values: Seq<nat>)
    ensures
        layout_forest::total_of(a + b, values) == layout_forest::total_of(a, values)
            + layout_forest::total_of(b, values),
    decreases b.len(),
{
    if b.len() == 0 {
        assert(a + b =~= a);
    } else {
        lemma_total_concat(a, b.drop_last(), values);
        assert((a + b).drop_last() =~= a + b.drop_last());
        assert((a + b).last() == b.last());
    }
}

proof fn lemma_total_member(nodes: Seq<u32>, values: Seq<nat>, i: int)
    requires
        0 <= i < nodes.len(),
    ensures
        values[nodes[i] as int] <= layout_forest::total_of(nodes, values),
    decreases nodes.len(),
{
    if i < nodes.len() - 1 {
        assert(nodes.drop_last()[i] == nodes[i]);
        lemma_total_member(nodes.drop_last(), values, i);
    }
}

/// Nodes smaller than two bounds give the same list.
proof fn lemma_bound_is_free(
    kids: Seq<Seq<u32>>,
    sizes: Seq<nat>,
    nodes: Seq<u32>,
    a: nat,
    b: nat,
)
    requires
        forall|i: int|
            0 <= i < nodes.len() ==> sizes[(#[trigger] nodes[i]) as int] < a && sizes[nodes[i] as int]
                < b,
    ensures
        preorder_all(kids, sizes, nodes, a) == preorder_all(kids, sizes, nodes, b),
    decreases nodes.len(),
{
    if nodes.len() > 0 {
        let rest = nodes.drop_first();
        assert(sizes[nodes[0] as int] < a && sizes[nodes[0] as int] < b);
        assert forall|i: int| 0 <= i < rest.len() implies sizes[(#[trigger] rest[i]) as int] < a
            && sizes[rest[i] as int] < b by {
            assert(rest[i] == nodes[i + 1]);
        }
        lemma_bound_is_free(kids, sizes, rest, a, b);
    }
}

proof fn lemma_preorder_concat(
    kids: Seq<Seq<u32>>,
    sizes: Seq<nat>,
    a: Seq<u32>,
    b: Seq<u32>,
    bound: nat,
)
    requires
        forall|i: int| 0 <= i < a.len() ==> sizes[(#[trigger] a[i]) as int] < bound,
    ensures
        preorder_all(kids, sizes, a + b, bound) == preorder_all(kids, sizes, a, bound)
            + preorder_all(kids, sizes, b, bound),
    decreases a.len(),
{
    let all = a + b;
    if a.len() == 0 {
        assert(all =~= b);
        assert(preorder_all(kids, sizes, a, bound) + preorder_all(kids, sizes, b, bound)
            =~= preorder_all(kids, sizes, b, bound));
    } else {
        let rest = a.drop_first();
        assert(sizes[a[0] as int] < bound);
        assert forall|i: int| 0 <= i < rest.len() implies sizes[(#[trigger] rest[i]) as int]
            < bound by {
            assert(rest[i] == a[i + 1]);
        }
        lemma_preorder_concat(kids, sizes, rest, b, bound);
        assert(all.drop_first() =~= rest + b);
        assert(all[0] == a[0]);
        let head = preorder(kids, sizes, a[0]);
        assert(preorder_all(kids, sizes, all, bound) =~= head + (preorder_all(
            kids,
            sizes,
            rest,
            bound,
        ) + preorder_all(kids, sizes, b, bound)));
        assert(preorder_all(kids, sizes, a, bound) =~= head + preorder_all(
            kids,
            sizes,
            rest,
            bound,
        ));
        assert(preorder_all(kids, sizes, all, bound) =~= preorder_all(kids, sizes, a, bound)
            + preorder_all(kids, sizes, b, bound));
    }
}

/// Children are smaller than their parent.
proof fn lemma_children_are_smaller(kids: Seq<Seq<u32>>, sizes: Seq<nat>, node: u32)
    requires
        counted(kids, sizes),
        node < kids.len(),
    ensures
        forall|k: int|
            0 <= k < kids[node as int].len() ==> sizes[(#[trigger] kids[node as int][k]) as int]
                < sizes[node as int],
{
    let children = kids[node as int];
    assert(sizes[node as int] == 1 + layout_forest::total_of(children, sizes));
    assert forall|k: int| 0 <= k < children.len() implies sizes[(#[trigger] children[k]) as int]
        < sizes[node as int] by {
        lemma_total_member(children, sizes, k);
    }
}

/// The list of a node is as long as its subtree.
pub proof fn law_preorder_has_subtree_size(kids: Seq<Seq<u32>>, sizes: Seq<nat>, node: u32)
    requires
        counted(kids, sizes),
        node < kids.len(),
    ensures
        preorder(kids, sizes, node).len() == sizes[node as int],
    decreases 2 * sizes[node as int] + 1, 0nat,
{
    lemma_children_are_smaller(kids, sizes, node);
    let children = kids[node as int];
    assert(within(children, kids.len())) by {
        assert forall|i: int| 0 <= i < children.len() implies (#[trigger] children[i])
            < kids.len() by {
            assert(kids[node as int][i] < kids.len());
        }
    }
    lemma_preorder_all_size(kids, sizes, children, sizes[node as int]);
}

proof fn lemma_preorder_all_size(
    kids: Seq<Seq<u32>>,
    sizes: Seq<nat>,
    nodes: Seq<u32>,
    bound: nat,
)
    requires
        counted(kids, sizes),
        within(nodes, kids.len()),
        forall|i: int| 0 <= i < nodes.len() ==> sizes[(#[trigger] nodes[i]) as int] < bound,
    ensures
        preorder_all(kids, sizes, nodes, bound).len() == layout_forest::total_of(nodes, sizes),
    decreases 2 * bound, nodes.len(),
{
    if nodes.len() > 0 {
        let rest = nodes.drop_first();
        assert(nodes[0] < kids.len());
        assert(sizes[nodes[0] as int] < bound);
        law_preorder_has_subtree_size(kids, sizes, nodes[0]);
        assert forall|i: int| 0 <= i < rest.len() implies sizes[(#[trigger] rest[i]) as int] < bound
            && rest[i] < kids.len() by {
            assert(rest[i] == nodes[i + 1]);
        }
        assert(within(rest, kids.len()));
        lemma_preorder_all_size(kids, sizes, rest, bound);
        lemma_total_first(nodes, sizes);
    }
}

/// A list that holds a node holds its children.
pub proof fn law_preorder_holds_children(
    kids: Seq<Seq<u32>>,
    sizes: Seq<nat>,
    node: u32,
    parent: u32,
    child: u32,
)
    requires
        counted(kids, sizes),
        node < kids.len(),
        preorder(kids, sizes, node).contains(parent),
        parent < kids.len(),
        kids[parent as int].contains(child),
    ensures
        preorder(kids, sizes, node).contains(child),
    decreases 2 * sizes[node as int] + 1, 0nat,
{
    lemma_children_are_smaller(kids, sizes, node);
    let children = kids[node as int];
    let below = preorder_all(kids, sizes, children, sizes[node as int]);
    let all = preorder(kids, sizes, node);
    assert(all == seq![node] + below);
    assert forall|i: int| 0 <= i < children.len() implies (#[trigger] children[i])
        < kids.len() by {
        assert(kids[node as int][i] < kids.len());
    }
    let at = choose|at: int| 0 <= at < all.len() && all[at] == parent;
    if at == 0 {
        lemma_preorder_all_heads(kids, sizes, children, sizes[node as int], child);
    } else {
        assert(below[at - 1] == parent);
        lemma_preorder_all_children(kids, sizes, children, sizes[node as int], parent, child);
    }
    let k = choose|k: int| 0 <= k < below.len() && below[k] == child;
    assert(all[k + 1] == child);
}

proof fn lemma_preorder_all_heads(
    kids: Seq<Seq<u32>>,
    sizes: Seq<nat>,
    nodes: Seq<u32>,
    bound: nat,
    node: u32,
)
    requires
        forall|i: int| 0 <= i < nodes.len() ==> sizes[(#[trigger] nodes[i]) as int] < bound,
        nodes.contains(node),
    ensures
        preorder_all(kids, sizes, nodes, bound).contains(node),
    decreases nodes.len(),
{
    let rest = nodes.drop_first();
    let all = preorder_all(kids, sizes, nodes, bound);
    let head = preorder(kids, sizes, nodes[0]);
    let tail = preorder_all(kids, sizes, rest, bound);
    assert(sizes[nodes[0] as int] < bound);
    assert(all == head + tail);
    if nodes[0] == node {
        assert(all[0] == node);
    } else {
        let k = choose|k: int| 0 <= k < nodes.len() && nodes[k] == node;
        assert(rest[k - 1] == node);
        assert forall|i: int| 0 <= i < rest.len() implies sizes[(#[trigger] rest[i]) as int]
            < bound by {
            assert(rest[i] == nodes[i + 1]);
        }
        lemma_preorder_all_heads(kids, sizes, rest, bound, node);
        let m = choose|m: int| 0 <= m < tail.len() && tail[m] == node;
        assert(all[head.len() + m] == node);
    }
}

proof fn lemma_preorder_all_children(
    kids: Seq<Seq<u32>>,
    sizes: Seq<nat>,
    nodes: Seq<u32>,
    bound: nat,
    parent: u32,
    child: u32,
)
    requires
        counted(kids, sizes),
        forall|i: int|
            0 <= i < nodes.len() ==> sizes[(#[trigger] nodes[i]) as int] < bound && nodes[i]
                < kids.len(),
        preorder_all(kids, sizes, nodes, bound).contains(parent),
        parent < kids.len(),
        kids[parent as int].contains(child),
    ensures
        preorder_all(kids, sizes, nodes, bound).contains(child),
    decreases 2 * bound, nodes.len(),
{
    let all = preorder_all(kids, sizes, nodes, bound);
    if nodes.len() > 0 {
        let rest = nodes.drop_first();
        let head = preorder(kids, sizes, nodes[0]);
        let tail = preorder_all(kids, sizes, rest, bound);
        assert(sizes[nodes[0] as int] < bound);
        assert(all == head + tail);
        let at = choose|at: int| 0 <= at < all.len() && all[at] == parent;
        if at < head.len() {
            assert(head[at] == parent);
            law_preorder_holds_children(kids, sizes, nodes[0], parent, child);
            let k = choose|k: int| 0 <= k < head.len() && head[k] == child;
            assert(all[k] == child);
        } else {
            assert(tail[at - head.len()] == parent);
            assert forall|i: int| 0 <= i < rest.len() implies sizes[(#[trigger] rest[i]) as int]
                < bound && rest[i] < kids.len() by {
                assert(rest[i] == nodes[i + 1]);
            }
            lemma_preorder_all_children(kids, sizes, rest, bound, parent, child);
            let k = choose|k: int| 0 <= k < tail.len() && tail[k] == child;
            assert(all[head.len() + k] == child);
        }
    }
}

spec fn pending(kids: Seq<Seq<u32>>, sizes: Seq<nat>, stack: Seq<u32>, bound: nat) -> bool {
    forall|i: int|
        0 <= i < stack.len() ==> (#[trigger] stack[i]) < kids.len() && sizes[stack[i] as int]
            < bound
}

proof fn lemma_list_step(
    kids: Seq<Seq<u32>>,
    sizes: Seq<nat>,
    stack: Seq<u32>,
    out: Seq<u32>,
    bound: nat,
)
    requires
        counted(kids, sizes),
        stack.len() > 0,
        pending(kids, sizes, stack, bound),
    ensures
        ({
            let node = stack.last();
            let after = stack.drop_last() + kids[node as int].reverse();
            &&& pending(kids, sizes, after, bound)
            &&& out.push(node) + preorder_all(kids, sizes, after.reverse(), bound) == out
                + preorder_all(kids, sizes, stack.reverse(), bound)
            &&& layout_forest::total_of(after, sizes) < layout_forest::total_of(stack, sizes)
        }),
{
    let node = stack.last();
    let rest = stack.drop_last();
    let children = kids[node as int];
    let after = rest + children.reverse();
    let later = rest.reverse();
    assert(stack[stack.len() - 1] == node);
    lemma_children_are_smaller(kids, sizes, node);
    assert forall|i: int| 0 <= i < children.len() implies sizes[(#[trigger] children[i]) as int]
        < bound && children[i] < kids.len() by {
        assert(kids[node as int][i] < kids.len());
        assert(sizes[kids[node as int][i] as int] < sizes[node as int]);
    }
    assert(pending(kids, sizes, after, bound)) by {
        assert forall|i: int| 0 <= i < after.len() implies (#[trigger] after[i]) < kids.len()
            && sizes[after[i] as int] < bound by {
            if i < rest.len() {
                assert(after[i] == stack[i]);
            } else {
                assert(after[i] == children[children.len() - 1 - (i - rest.len())]);
            }
        }
    }
    assert(stack.reverse() =~= seq![node] + later);
    assert(stack.reverse().drop_first() =~= later);
    assert(stack.reverse()[0] == node);
    assert(after.reverse() =~= children + later);
    lemma_preorder_concat(kids, sizes, children, later, bound);
    lemma_bound_is_free(kids, sizes, children, sizes[node as int], bound);
    let here = preorder(kids, sizes, node);
    let tail = preorder_all(kids, sizes, later, bound);
    let below = preorder_all(kids, sizes, children, bound);
    assert(preorder_all(kids, sizes, stack.reverse(), bound) == here + tail);
    assert(here == seq![node] + below);
    assert(out.push(node) + (below + tail) =~= out + (seq![node] + below + tail));
    lemma_total_concat(rest, children.reverse(), sizes);
    lemma_total_reverse(children, sizes);
    assert(sizes[node as int] == 1 + layout_forest::total_of(children, sizes));
}

/// Lists a node and everything below it.
fn list_branch(topology: &ForestTopology, branch: u32) -> (r: Vec<u32>)
    requires
        topology.wf(),
        branch < topology.children@.len(),
    ensures
        r@ == preorder(topology.kids(), topology.sizes(), branch),
{
    let ghost kids = topology.kids();
    let ghost sizes = topology.sizes();
    let ghost bound = (sizes[branch as int] + 1) as nat;
    let mut out: Vec<u32> = Vec::new();
    let mut stack: Vec<u32> = Vec::new();
    stack.push(branch);
    proof {
        assert(stack@.reverse() =~= seq![branch]);
        let nodes = seq![branch];
        assert(nodes.drop_first() =~= Seq::<u32>::empty());
        assert(preorder_all(kids, sizes, Seq::<u32>::empty(), bound) =~= Seq::<u32>::empty());
        assert(preorder_all(kids, sizes, nodes, bound) =~= preorder(kids, sizes, branch));
        assert(out@ + preorder_all(kids, sizes, nodes, bound) =~= preorder(kids, sizes, branch));
    }
    while stack.len() > 0
        invariant
            topology.wf(),
            kids == topology.kids(),
            sizes == topology.sizes(),
            counted(kids, sizes),
            pending(kids, sizes, stack@, bound),
            out@ + preorder_all(kids, sizes, stack@.reverse(), bound) == preorder(
                kids,
                sizes,
                branch,
            ),
        decreases layout_forest::total_of(stack@, sizes),
    {
        let ghost before = stack@;
        let ghost listed = out@;
        let ghost rest = before.drop_last();
        let node: u32 = stack.pop().unwrap();
        out.push(node);
        assert(before[before.len() - 1] == node);
        let children = &topology.children[node as usize];
        assert(children@ == kids[node as int]);
        let mut k: usize = children.len();
        assert(stack@ =~= rest + children@.skip(k as int).reverse());
        while k > 0
            invariant
                k <= children@.len(),
                stack@ == rest + children@.skip(k as int).reverse(),
            decreases k,
        {
            k = k - 1;
            stack.push(children[k]);
            assert(stack@ =~= rest + children@.skip(k as int).reverse());
        }
        proof {
            assert(children@.skip(0) =~= children@);
            lemma_list_step(kids, sizes, before, listed, bound);
        }
    }
    proof {
        assert(stack@.reverse() =~= Seq::<u32>::empty());
        assert(out@ + Seq::<u32>::empty() =~= out@);
    }
    out
}

proof fn lemma_total_reverse(nodes: Seq<u32>, values: Seq<nat>)
    ensures
        layout_forest::total_of(nodes.reverse(), values) == layout_forest::total_of(nodes, values),
    decreases nodes.len(),
{
    if nodes.len() > 0 {
        lemma_total_reverse(nodes.drop_first(), values);
        lemma_total_first(nodes, values);
        assert(nodes.reverse().drop_last() =~= nodes.drop_first().reverse());
        assert(nodes.reverse().last() == nodes[0]);
    } else {
        assert(nodes.reverse() =~= nodes);
    }
}

/// The ring slot of the branch at a rank: even ranks go round first, odd
/// ranks start half-way.
pub open spec fn slot_of(rank: nat, count: nat) -> nat {
    if rank % 2 == 0 {
        rank / 2
    } else {
        (count + 1) / 2 + rank / 2
    }
}

/// Different ranks have different slots, and there are as many slots as
/// branches.
pub proof fn law_slots_are_distinct(count: nat, a: nat, b: nat)
    requires
        a < count,
        b < count,
    ensures
        slot_of(a, count) < count,
        slot_of(a, count) == slot_of(b, count) ==> a == b,
{
}

/// What a branch is ranked by.
#[derive(Clone, Copy, Debug)]
pub struct BranchKey {
    pub size: usize,
    pub id: u64,
    pub node: u32,
}

impl View for BranchKey {
    type V = (usize, u64, u32);

    open spec fn view(&self) -> (usize, u64, u32) {
        (self.size, self.id, self.node)
    }
}

impl Ranked for BranchKey {
    /// Large branches first, then small ids.
    open spec fn leq(a: (usize, u64, u32), b: (usize, u64, u32)) -> bool {
        a.0 > b.0 || (a.0 == b.0 && (a.1 < b.1 || (a.1 == b.1 && a.2 <= b.2)))
    }

    proof fn order_is_total() {
    }

    fn is_leq(&self, other: &BranchKey) -> (r: bool) {
        self.size > other.size || (self.size == other.size && (self.id < other.id || (self.id
            == other.id && self.node <= other.node)))
    }
}

/// A top-level branch: its node, its size, its slot, and its nodes in the
/// order of their placement.
#[derive(Debug)]
pub struct ClusterBranch {
    pub node: u32,
    pub size: usize,
    pub slot: usize,
    pub nodes: Vec<u32>,
}

/// The top-level branches of a forest, largest first, and the root that they
/// all hang from.
#[derive(Debug)]
pub struct ClusterPlan {
    pub central: Option<u32>,
    pub branches: Vec<ClusterBranch>,
}

impl ForestTopology {
    /// The only root.
    pub open spec fn central(self) -> Option<u32> {
        if self.roots@.len() == 1 {
            Some(self.roots@[0])
        } else {
            None
        }
    }

    /// The children of the only root, or else the roots.
    pub open spec fn tops(self) -> Seq<u32> {
        if self.roots@.len() == 1 {
            self.kids()[self.roots@[0] as int]
        } else {
            self.roots@
        }
    }

    /// What the branches are ranked by, in rank order.
    pub open spec fn ranked_branches(self, ids: Seq<u64>) -> Seq<(usize, u64, u32)> {
        order::ranked_sort::<BranchKey>(
            self.tops().map_values(
                |b: u32| (self.subtree_sizes@[b as int], ids[b as int], b),
            ),
        )
    }

    /// Whether the plan has the branches in rank order, each with its slot
    /// and its nodes.
    pub open spec fn clusters(self, ids: Seq<u64>, plan: ClusterPlan) -> bool {
        &&& plan.central == self.central()
        &&& plan.branches@.len() == self.tops().len()
        &&& forall|i: int|
            0 <= i < plan.branches@.len() ==> {
                let key = self.ranked_branches(ids)[i];
                let branch = #[trigger] plan.branches@[i];
                &&& branch.node == key.2
                &&& branch.size == key.0
                &&& branch.slot == slot_of(i as nat, self.tops().len())
                &&& branch.nodes@ == preorder(self.kids(), self.sizes(), key.2)
            }
    }

    /// The total number of leaves, at least one.
    pub fn total_weight(&self) -> (r: u64)
        requires
            self.wf(),
        ensures
            r == if layout_forest::total_of(self.roots@, self.leaf_counts()) == 0 {
                1
            } else {
                layout_forest::total_of(self.roots@, self.leaf_counts())
            },
    {
        let mut total: u64 = 0;
        let mut i: usize = 0;
        assert(self.roots@.take(0) =~= Seq::<u32>::empty());
        while i < self.roots.len()
            invariant
                i <= self.roots.len(),
                self.wf(),
                total == layout_forest::total_of(self.roots@.take(i as int), self.leaf_counts()),
            decreases self.roots.len() - i,
        {
            let root: u32 = self.roots[i];
            proof {
                assert(self.roots@[i as int] < self.children@.len());
                assert(self.roots@.take(i + 1).drop_last() =~= self.roots@.take(i as int));
                assert(self.roots@ =~= self.roots@.take(i + 1) + self.roots@.skip(i + 1));
                lemma_total_concat(
                    self.roots@.take(i + 1),
                    self.roots@.skip(i + 1),
                    self.leaf_counts(),
                );
            }
            total = total + self.weights[root as usize];
            i = i + 1;
        }
        assert(self.roots@.take(self.roots@.len() as int) =~= self.roots@);
        if total == 0 {
            1
        } else {
            total
        }
    }

    /// Plans the top-level branches, if there are between 2 and 64.
    pub fn plan_clusters(&self, ids: &Vec<u64>) -> (r: Option<ClusterPlan>)
        requires
            self.wf(),
            ids@.len() == self.children@.len(),
        ensures
            r is Some <==> 2 <= self.tops().len() <= 64,
            r matches Some(plan) ==> self.clusters(ids@, plan),
    {
        let (central, tops): (Option<u32>, &Vec<u32>) = if self.roots.len() == 1 {
            let root: u32 = self.roots[0];
            assert(self.roots@[0] < self.children@.len());
            (Some(root), &self.children[root as usize])
        } else {
            (None, &self.roots)
        };
        assert(tops@ == self.tops());
        assert forall|i: int| 0 <= i < tops@.len() implies (#[trigger] tops@[i])
            < self.children@.len() by {
            if self.roots@.len() == 1 {
                assert(self.kids()[self.roots@[0] as int][i] < self.children@.len());
            } else {
                assert(self.roots@[i] < self.children@.len());
            }
        }
        if tops.len() < 2 || tops.len() > 64 {
            return None;
        }
        let count: usize = tops.len();
        let mut keys: Vec<BranchKey> = Vec::new();
        let ghost wanted = self.tops().map_values(
            |b: u32| (self.subtree_sizes@[b as int], ids@[b as int], b),
        );
        let mut i: usize = 0;
        while i < count
            invariant
                i <= count,
                count == tops@.len(),
                self.wf(),
                ids@.len() == self.children@.len(),
                forall|k: int| 0 <= k < tops@.len() ==> (#[trigger] tops@[k]) < self.children@.len(),
                wanted.len() == count,
                forall|k: int|
                    0 <= k < count ==> #[trigger] wanted[k] == (
                        self.subtree_sizes@[tops@[k] as int],
                        ids@[tops@[k] as int],
                        tops@[k],
                    ),
                order::ranked_views(keys@) == wanted.take(i as int),
            decreases count - i,
        {
            let node: u32 = tops[i];
            let ghost before = keys@;
            let key = BranchKey {
                size: self.subtree_sizes[node as usize],
                id: ids[node as usize],
                node,
            };
            keys.push(key);
            proof {
                assert(order::ranked_views(keys@) =~= order::ranked_views(before).push(key@));
                assert(wanted[i as int] == key@);
                assert(wanted.take(i + 1) =~= wanted.take(i as int).push(wanted[i as int]));
            }
            i = i + 1;
        }
        assert(wanted.take(count as int) =~= wanted);
        let sorted = sort_ranked(keys);
        proof {
            order::lemma_ranked_sort::<BranchKey>(wanted);
            assert forall|k: int| 0 <= k < sorted@.len() implies (#[trigger] sorted@[k]).node
                < self.children@.len() by {
                let views = order::ranked_views(sorted@);
                assert(views[k] == sorted@[k]@);
                assert(views.contains(views[k]));
                assert(wanted.contains(views[k]));
                let m = choose|m: int| 0 <= m < wanted.len() && wanted[m] == views[k];
                assert(wanted[m].2 == tops@[m]);
            }
        }
        let mut branches: Vec<ClusterBranch> = Vec::new();
        let mut rank: usize = 0;
        while rank < count
            invariant
                rank <= count,
                count <= 64,
                count == sorted@.len(),
                count == self.tops().len(),
                self.wf(),
                order::ranked_views(sorted@) == self.ranked_branches(ids@),
                forall|k: int|
                    0 <= k < sorted@.len() ==> (#[trigger] sorted@[k]).node < self.children@.len(),
                branches@.len() == rank,
                forall|k: int|
                    0 <= k < rank ==> {
                        let key = self.ranked_branches(ids@)[k];
                        let branch = #[trigger] branches@[k];
                        &&& branch.node == key.2
                        &&& branch.size == key.0
                        &&& branch.slot == slot_of(k as nat, self.tops().len())
                        &&& branch.nodes@ == preorder(self.kids(), self.sizes(), key.2)
                    },
            decreases count - rank,
        {
            let key = sorted[rank];
            assert(order::ranked_views(sorted@)[rank as int] == key@);
            let slot: usize = if rank % 2 == 0 {
                rank / 2
            } else {
                (count + 1) / 2 + rank / 2
            };
            let nodes = list_branch(self, key.node);
            branches.push(ClusterBranch { node: key.node, size: key.size, slot, nodes });
            rank = rank + 1;
        }
        Some(ClusterPlan { central, branches })
    }
}

/// The nodes in the order of their placement, branch after branch.
pub open spec fn placement(topology: ForestTopology) -> Seq<u32> {
    let below = preorder_all(
        topology.kids(),
        topology.sizes(),
        topology.tops(),
        (topology.children@.len() + 1) as nat,
    );
    match topology.central() {
        Some(root) => seq![root] + below,
        None => below,
    }
}

proof fn lemma_tops(topology: ForestTopology)
    requires
        topology.wf(),
    ensures
        within(topology.tops(), topology.children@.len()),
        forall|i: int|
            0 <= i < topology.tops().len() ==> topology.sizes()[(
            #[trigger] topology.tops()[i]) as int] < topology.children@.len() + 1,
        layout_forest::total_of(topology.tops(), topology.sizes()) + (if topology.central()
            is Some {
            1nat
        } else {
            0nat
        }) == topology.children@.len(),
{
    let tops = topology.tops();
    let sizes = topology.sizes();
    if topology.roots@.len() == 1 {
        let root = topology.roots@[0];
        assert(root < topology.children@.len());
        lemma_total_first(topology.roots@, sizes);
        assert(topology.roots@.drop_first() =~= Seq::<u32>::empty());
        assert(sizes[root as int] == 1 + layout_forest::total_of(tops, sizes));
    }
    assert forall|i: int| 0 <= i < tops.len() implies (#[trigger] tops[i])
        < topology.children@.len() && sizes[tops[i] as int] < topology.children@.len() + 1 by {
        lemma_total_member(tops, sizes, i);
        if topology.roots@.len() == 1 {
            assert(topology.kids()[topology.roots@[0] as int][i] < topology.children@.len());
        } else {
            assert(topology.roots@[i] < topology.children@.len());
        }
    }
}

proof fn lemma_placement_holds(
    topology: ForestTopology,
    node_count: nat,
    sources: Seq<u32>,
    targets: Seq<u32>,
    node: u32,
    steps: nat,
)
    requires
        topology.topology_of(node_count, sources, targets),
        layout_forest::forest(node_count, sources, targets),
        node < node_count,
        layout_forest::climbs(sources, targets, node, steps),
    ensures
        placement(topology).contains(node),
    decreases steps,
{
    let kids = topology.kids();
    let sizes = topology.sizes();
    let tops = topology.tops();
    let bound = (topology.children@.len() + 1) as nat;
    let below = preorder_all(kids, sizes, tops, bound);
    let all = placement(topology);
    lemma_tops(topology);
    match layout_forest::parent_in(sources, targets, node) {
        None => {
            layout_forest::lemma_root_is_listed(sources, targets, node_count, node);
            assert(topology.roots@.contains(node));
            if topology.roots@.len() == 1 {
                let k = choose|k: int| 0 <= k < topology.roots@.len() && topology.roots@[k] == node;
                assert(all[0] == node);
            } else {
                lemma_preorder_all_heads(kids, sizes, tops, bound, node);
            }
        },
        Some(parent) => {
            layout_forest::lemma_child_is_listed(sources, targets, node_count, parent, node);
            lemma_placement_holds(
                topology,
                node_count,
                sources,
                targets,
                parent,
                (steps - 1) as nat,
            );
            assert(kids[parent as int].contains(node));
            let at = choose|at: int| 0 <= at < all.len() && all[at] == parent;
            let shift: int = if topology.central() is Some {
                1
            } else {
                0
            };
            if at < shift {
                lemma_preorder_all_heads(kids, sizes, tops, bound, node);
            } else {
                assert(below[at - shift] == parent);
                lemma_preorder_all_children(kids, sizes, tops, bound, parent, node);
            }
            let k = choose|k: int| 0 <= k < below.len() && below[k] == node;
            assert(all[k + shift] == node);
        },
    }
}

/// The branches of a forest, with the root they hang from, hold every node
/// exactly once.
pub proof fn law_branches_hold_every_node_once(
    topology: ForestTopology,
    node_count: nat,
    sources: Seq<u32>,
    targets: Seq<u32>,
)
    requires
        topology.topology_of(node_count, sources, targets),
        layout_forest::forest(node_count, sources, targets),
    ensures
        placement(topology).len() == node_count,
        placement(topology).no_duplicates(),
        forall|node: u32| node < node_count ==> #[trigger] placement(topology).contains(node),
{
    let all = placement(topology);
    let kids = topology.kids();
    let sizes = topology.sizes();
    let bound = (topology.children@.len() + 1) as nat;
    lemma_tops(topology);
    lemma_preorder_all_size(kids, sizes, topology.tops(), bound);
    assert(all.len() == node_count);
    assert forall|node: u32| node < node_count implies #[trigger] all.contains(node) by {
        assert(layout_forest::reaches_root(sources, targets, node));
        let steps = choose|steps: nat| layout_forest::climbs(sources, targets, node, steps);
        lemma_placement_holds(topology, node_count, sources, targets, node, steps);
    }
    let held = all.map_values(|x: u32| x as int).to_set();
    let ints = all.map_values(|x: u32| x as int);
    let full = set_int_range(0, node_count as int);
    lemma_int_range(0, node_count as int);
    assert(full.subset_of(held)) by {
        assert forall|x: int| full.contains(x) implies held.contains(x) by {
            assert(all.contains(x as u32));
            let k = choose|k: int| 0 <= k < all.len() && all[k] == x as u32;
            assert(ints[k] == x);
        }
    }
    ints.lemma_cardinality_of_set();
    seq_to_set_is_finite(ints);
    lemma_len_subset(full, held);
    ints.lemma_no_dup_set_cardinality();
    assert forall|i: int, j: int|
        0 <= i < all.len() && 0 <= j < all.len() && i != j implies all[i] != all[j] by {
        assert(ints[i] != ints[j]);
    }
}

} // verus!
