//! Directed forests: graphs in which every node has at most one parent and
//! climbing from parent to parent ends at a root.

use vstd::prelude::*;
use vstd::seq_lib::*;
use vstd::set_lib::*;

use crate::layout_components;
use crate::scene::SceneEdges;

verus! {

/// Whether relationships join two different nodes of the graph and no two
/// lead to the same one.
pub open spec fn branching(node_count: nat, sources: Seq<u32>, targets: Seq<u32>) -> bool {
    &&& sources.len() == targets.len()
    &&& targets.no_duplicates()
    &&& forall|e: int|
        0 <= e < sources.len() ==> (#[trigger] sources[e]) < node_count && targets[e] < node_count
            && sources[e] != targets[e]
}

/// Where the relationship to a node comes from.
pub open spec fn parent_in(sources: Seq<u32>, targets: Seq<u32>, node: u32) -> Option<u32>
    decreases targets.len(),
{
    if targets.len() == 0 {
        None
    } else if targets.last() == node {
        Some(sources.last())
    } else {
        parent_in(sources.drop_last(), targets.drop_last(), node)
    }
}

/// Where the relationships from a node lead, in their order.
pub open spec fn children_in(sources: Seq<u32>, targets: Seq<u32>, node: u32) -> Seq<u32>
    decreases targets.len(),
{
    if targets.len() == 0 {
        Seq::empty()
    } else {
        let rest = children_in(sources.drop_last(), targets.drop_last(), node);
        if sources.last() == node {
            rest.push(targets.last())
        } else {
            rest
        }
    }
}

/// The nodes below a bound to which no relationship leads, ascending.
pub open spec fn roots_below(targets: Seq<u32>, bound: nat) -> Seq<u32>
    decreases bound,
{
    if bound == 0 {
        Seq::empty()
    } else {
        let rest = roots_below(targets, (bound - 1) as nat);
        if targets.contains((bound - 1) as u32) {
            rest
        } else {
            rest.push((bound - 1) as u32)
        }
    }
}

/// Whether a root is at most `steps` parents above a node.
pub open spec fn climbs(sources: Seq<u32>, targets: Seq<u32>, node: u32, steps: nat) -> bool
    decreases steps,
{
    match parent_in(sources, targets, node) {
        None => true,
        Some(parent) => steps > 0 && climbs(sources, targets, parent, (steps - 1) as nat),
    }
}

/// Whether climbing from parent to parent ends.
pub open spec fn reaches_root(sources: Seq<u32>, targets: Seq<u32>, node: u32) -> bool {
    exists|steps: nat| climbs(sources, targets, node, steps)
}

/// Whether relationships form a forest over the nodes.
pub open spec fn forest(node_count: nat, sources: Seq<u32>, targets: Seq<u32>) -> bool {
    &&& sources.len() < node_count
    &&& branching(node_count, sources, targets)
    &&& forall|node: u32| node < node_count ==> #[trigger] reaches_root(sources, targets, node)
}

proof fn lemma_parent_exists(sources: Seq<u32>, targets: Seq<u32>, node: u32)
    requires
        sources.len() == targets.len(),
    ensures
        parent_in(sources, targets, node) is Some <==> targets.contains(node),
    decreases targets.len(),
{
    if targets.len() > 0 {
        lemma_parent_exists(sources.drop_last(), targets.drop_last(), node);
        let rest = targets.drop_last();
        if rest.contains(node) {
            let k = choose|k: int| 0 <= k < rest.len() && rest[k] == node;
            assert(targets[k] == node);
        }
        if targets.contains(node) && targets.last() != node {
            let k = choose|k: int| 0 <= k < targets.len() && targets[k] == node;
            assert(rest[k] == node);
        }
    }
}

proof fn lemma_children(sources: Seq<u32>, targets: Seq<u32>, node: u32, child: u32)
    requires
        sources.len() == targets.len(),
        targets.no_duplicates(),
    ensures
        children_in(sources, targets, node).contains(child) <==> parent_in(sources, targets, child)
            == Some(node),
        children_in(sources, targets, node).no_duplicates(),
    decreases targets.len(),
{
    if targets.len() > 0 {
        let first = sources.drop_last();
        let second = targets.drop_last();
        lemma_children(first, second, node, child);
        lemma_children(first, second, node, targets.last());
        lemma_parent_exists(first, second, targets.last());
        assert(!second.contains(targets.last())) by {
            if second.contains(targets.last()) {
                let k = choose|k: int| 0 <= k < second.len() && second[k] == targets.last();
                assert(targets[k] == targets[targets.len() - 1]);
            }
        }
        let rest = children_in(first, second, node);
        let all = children_in(sources, targets, node);
        if sources.last() == node {
            assert(all == rest.push(targets.last()));
            assert(all[rest.len() as int] == targets.last());
            if rest.contains(child) {
                let k = choose|k: int| 0 <= k < rest.len() && rest[k] == child;
                assert(all[k] == child);
            }
            if all.contains(child) && child != targets.last() {
                let k = choose|k: int| 0 <= k < all.len() && all[k] == child;
                assert(rest[k] == child);
            }
        }
    }
}

proof fn lemma_parent_is_source(node_count: nat, sources: Seq<u32>, targets: Seq<u32>, node: u32)
    requires
        sources.len() == targets.len(),
        forall|e: int|
            0 <= e < sources.len() ==> (#[trigger] sources[e]) < node_count && sources[e]
                != targets[e],
    ensures
        parent_in(sources, targets, node) matches Some(parent) ==> parent < node_count && parent
            != node,
    decreases targets.len(),
{
    if targets.len() > 0 {
        let first = sources.drop_last();
        let second = targets.drop_last();
        assert forall|e: int| 0 <= e < first.len() implies (#[trigger] first[e]) < node_count
            && first[e] != second[e] by {
            assert(first[e] == sources[e]);
        }
        lemma_parent_is_source(node_count, first, second, node);
        assert(sources[sources.len() - 1] == sources.last());
    }
}

proof fn lemma_roots(targets: Seq<u32>, bound: nat, node: u32)
    requires
        bound <= u32::MAX,
    ensures
        roots_below(targets, bound).contains(node) <==> node < bound && !targets.contains(node),
        roots_below(targets, bound).no_duplicates(),
        forall|i: int|
            0 <= i < roots_below(targets, bound).len() ==> (#[trigger] roots_below(targets, bound)[i])
                < bound,
    decreases bound,
{
    if bound > 0 {
        lemma_roots(targets, (bound - 1) as nat, node);
        let rest = roots_below(targets, (bound - 1) as nat);
        let all = roots_below(targets, bound);
        let last = (bound - 1) as u32;
        if !targets.contains(last) {
            assert(all == rest.push(last));
            assert(all[rest.len() as int] == last);
            if rest.contains(node) {
                let k = choose|k: int| 0 <= k < rest.len() && rest[k] == node;
                assert(all[k] == node);
            }
            if all.contains(node) && node != last {
                let k = choose|k: int| 0 <= k < all.len() && all[k] == node;
                assert(rest[k] == node);
            }
        }
    }
}

/// A list of different nodes below a bound is no longer than the bound, and
/// as long only if it holds every one.
proof fn lemma_fill(nodes: Seq<u32>, bound: nat)
    requires
        nodes.no_duplicates(),
        forall|i: int| 0 <= i < nodes.len() ==> (#[trigger] nodes[i]) < bound,
        bound <= u32::MAX,
    ensures
        nodes.len() <= bound,
        nodes.len() == bound <==> forall|node: u32| node < bound ==> nodes.contains(node),
{
    let ints = nodes.map_values(|x: u32| x as int);
    assert(ints.no_duplicates()) by {
        assert forall|i: int, j: int|
            0 <= i < ints.len() && 0 <= j < ints.len() && i != j implies ints[i] != ints[j] by {
            assert(nodes[i] != nodes[j]);
        }
    }
    ints.unique_seq_to_set();
    let held = ints.to_set();
    let full = set_int_range(0, bound as int);
    lemma_int_range(0, bound as int);
    assert(held.subset_of(full)) by {
        assert forall|x: int| held.contains(x) implies full.contains(x) by {
            let k = choose|k: int| 0 <= k < ints.len() && ints[k] == x;
            assert(nodes[k] < bound);
        }
    }
    lemma_len_subset(held, full);
    if nodes.len() == bound {
        lemma_subset_equality(held, full);
        assert forall|node: u32| node < bound implies nodes.contains(node) by {
            assert(full.contains(node as int));
            assert(held.contains(node as int));
            let k = choose|k: int| 0 <= k < ints.len() && ints[k] == node as int;
            assert(nodes[k] == node);
        }
    }
    if forall|node: u32| node < bound ==> nodes.contains(node) {
        assert(full.subset_of(held)) by {
            assert forall|x: int| full.contains(x) implies held.contains(x) by {
                assert(nodes.contains(x as u32));
                let k = choose|k: int| 0 <= k < nodes.len() && nodes[k] == x as u32;
                assert(ints[k] == x);
            }
        }
        lemma_len_subset(full, held);
    }
}

/// Every node stands behind its parent.
spec fn parents_first(sources: Seq<u32>, targets: Seq<u32>, order: Seq<u32>) -> bool {
    forall|i: int|
        0 <= i < order.len() ==> match parent_in(sources, targets, #[trigger] order[i]) {
            None => true,
            Some(parent) => order.take(i).contains(parent),
        }
}

/// What a depth-first walk has listed and still has to visit.
spec fn walked(
    node_count: nat,
    sources: Seq<u32>,
    targets: Seq<u32>,
    order: Seq<u32>,
    stack: Seq<u32>,
) -> bool {
    &&& order.no_duplicates()
    &&& stack.no_duplicates()
    &&& forall|i: int| 0 <= i < order.len() ==> (#[trigger] order[i]) < node_count
    &&& forall|i: int| 0 <= i < stack.len() ==> (#[trigger] stack[i]) < node_count
    &&& forall|node: u32| !(#[trigger] order.contains(node) && stack.contains(node))
    &&& forall|node: u32|
        node < node_count ==> ((#[trigger] order.contains(node) || stack.contains(node)) <==> match parent_in(
            sources,
            targets,
            node,
        ) {
            None => true,
            Some(parent) => order.contains(parent),
        })
    &&& parents_first(sources, targets, order)
}

proof fn lemma_contains_push(nodes: Seq<u32>, more: u32, node: u32)
    ensures
        nodes.push(more).contains(node) <==> nodes.contains(node) || node == more,
{
    let all = nodes.push(more);
    assert(all[nodes.len() as int] == more);
    if nodes.contains(node) {
        let k = choose|k: int| 0 <= k < nodes.len() && nodes[k] == node;
        assert(all[k] == node);
    }
    if all.contains(node) && node != more {
        let k = choose|k: int| 0 <= k < all.len() && all[k] == node;
        assert(nodes[k] == node);
    }
}

proof fn lemma_contains_concat(a: Seq<u32>, b: Seq<u32>, node: u32)
    ensures
        (a + b).contains(node) <==> a.contains(node) || b.contains(node),
{
    let all = a + b;
    if a.contains(node) {
        let k = choose|k: int| 0 <= k < a.len() && a[k] == node;
        assert(all[k] == node);
    }
    if b.contains(node) {
        let k = choose|k: int| 0 <= k < b.len() && b[k] == node;
        assert(all[a.len() + k] == node);
    }
    if all.contains(node) {
        let k = choose|k: int| 0 <= k < all.len() && all[k] == node;
        if k < a.len() {
            assert(a[k] == node);
        } else {
            assert(b[k - a.len()] == node);
        }
    }
}

proof fn lemma_walk(
    node_count: nat,
    sources: Seq<u32>,
    targets: Seq<u32>,
    order: Seq<u32>,
    stack: Seq<u32>,
)
    requires
        branching(node_count, sources, targets),
        walked(node_count, sources, targets, order, stack),
        stack.len() > 0,
    ensures
        !order.contains(stack.last()),
        walked(
            node_count,
            sources,
            targets,
            order.push(stack.last()),
            stack.drop_last() + children_in(sources, targets, stack.last()),
        ),
{
    let node = stack.last();
    let below = stack.drop_last();
    let children = children_in(sources, targets, node);
    let listed = order.push(node);
    let after = below + children;
    assert(stack.contains(node)) by {
        assert(stack[stack.len() - 1] == node);
    }
    assert(!order.contains(node));
    assert forall|x: u32| #[trigger] stack.contains(x) <==> below.contains(x) || x == node by {
        assert(stack =~= below.push(node));
        lemma_contains_push(below, node, x);
    }
    assert(!below.contains(node)) by {
        if below.contains(node) {
            let k = choose|k: int| 0 <= k < below.len() && below[k] == node;
            assert(stack[k] == stack[stack.len() - 1]);
        }
    }
    assert forall|x: u32| #[trigger] children.contains(x) <==> parent_in(sources, targets, x)
        == Some(node) by {
        lemma_children(sources, targets, node, x);
    }
    lemma_children(sources, targets, node, node);
    assert forall|x: u32| #[trigger] children.contains(x) implies x < node_count && !order.contains(
        x,
    ) && !stack.contains(x) by {
        lemma_parent_exists(sources, targets, x);
        let e = choose|e: int| 0 <= e < targets.len() && targets[e] == x;
        assert(sources[e] < node_count && targets[e] < node_count);
        assert(order.contains(x) || stack.contains(x) <==> order.contains(node));
    }
    assert forall|x: u32| #[trigger] listed.contains(x) <==> order.contains(x) || x == node by {
        lemma_contains_push(order, node, x);
    }
    assert forall|x: u32| #[trigger] after.contains(x) <==> below.contains(x) || children.contains(
        x,
    ) by {
        lemma_contains_concat(below, children, x);
    }
    assert(listed.no_duplicates()) by {
        assert forall|i: int, j: int|
            0 <= i < listed.len() && 0 <= j < listed.len() && i != j implies listed[i]
            != listed[j] by {
            if i < order.len() && j < order.len() {
                assert(order[i] != order[j]);
            } else if i < order.len() {
                assert(order.contains(order[i]));
            } else {
                assert(order.contains(order[j]));
            }
        }
    }
    assert(after.no_duplicates()) by {
        assert forall|i: int, j: int|
            0 <= i < after.len() && 0 <= j < after.len() && i != j implies after[i] != after[j] by {
            let n = below.len() as int;
            if i < n && j < n {
                assert(stack[i] != stack[j]);
            } else if i < n {
                assert(below.contains(below[i]));
                assert(children.contains(children[j - n]));
            } else if j < n {
                assert(below.contains(below[j]));
                assert(children.contains(children[i - n]));
            } else {
                assert(children[i - n] != children[j - n]);
            }
        }
    }
    assert forall|i: int| 0 <= i < after.len() implies (#[trigger] after[i]) < node_count by {
        let n = below.len() as int;
        if i < n {
            assert(stack[i] < node_count);
        } else {
            assert(children.contains(children[i - n]));
        }
    }
    assert forall|x: u32| !(#[trigger] listed.contains(x) && after.contains(x)) by {
        assert(!(order.contains(x) && stack.contains(x)));
    }
    assert forall|x: u32| x < node_count implies ((#[trigger] listed.contains(x) || after.contains(
        x,
    )) <==> match parent_in(sources, targets, x) {
        None => true,
        Some(parent) => listed.contains(parent),
    }) by {
        assert((order.contains(x) || stack.contains(x)) <==> match parent_in(sources, targets, x) {
            None => true,
            Some(parent) => order.contains(parent),
        });
    }
    assert(parents_first(sources, targets, listed)) by {
        assert forall|i: int| 0 <= i < listed.len() implies match parent_in(
            sources,
            targets,
            #[trigger] listed[i],
        ) {
            None => true,
            Some(parent) => listed.take(i).contains(parent),
        } by {
            assert(listed.take(i) =~= order.take(i));
            if i < order.len() {
                assert(listed[i] == order[i]);
            } else {
                assert(order.take(i) =~= order);
                assert(order.contains(node) || stack.contains(node));
            }
        }
    }
}

proof fn lemma_walk_starts(node_count: nat, sources: Seq<u32>, targets: Seq<u32>)
    requires
        branching(node_count, sources, targets),
        node_count <= u32::MAX,
    ensures
        walked(
            node_count,
            sources,
            targets,
            Seq::<u32>::empty(),
            roots_below(targets, node_count),
        ),
{
    let order = Seq::<u32>::empty();
    let stack = roots_below(targets, node_count);
    lemma_roots(targets, node_count, 0);
    assert forall|node: u32| node < node_count implies ((#[trigger] order.contains(node)
        || stack.contains(node)) <==> match parent_in(sources, targets, node) {
        None => true,
        Some(parent) => order.contains(parent),
    }) by {
        lemma_roots(targets, node_count, node);
        lemma_parent_exists(sources, targets, node);
    }
}

proof fn lemma_climb_is_listed(
    node_count: nat,
    sources: Seq<u32>,
    targets: Seq<u32>,
    order: Seq<u32>,
    node: u32,
    steps: nat,
)
    requires
        branching(node_count, sources, targets),
        walked(node_count, sources, targets, order, Seq::<u32>::empty()),
        node < node_count,
        climbs(sources, targets, node, steps),
    ensures
        order.contains(node),
    decreases steps,
{
    let stack = Seq::<u32>::empty();
    assert(!stack.contains(node));
    assert(order.contains(node) || stack.contains(node) <==> match parent_in(
        sources,
        targets,
        node,
    ) {
        None => true,
        Some(parent) => order.contains(parent),
    });
    if let Some(parent) = parent_in(sources, targets, node) {
        lemma_parent_is_source(node_count, sources, targets, node);
        lemma_climb_is_listed(node_count, sources, targets, order, parent, (steps - 1) as nat);
    }
}

proof fn lemma_listed_climbs(sources: Seq<u32>, targets: Seq<u32>, order: Seq<u32>, i: int)
    requires
        parents_first(sources, targets, order),
        0 <= i < order.len(),
    ensures
        climbs(sources, targets, order[i], i as nat),
    decreases i,
{
    if let Some(parent) = parent_in(sources, targets, order[i]) {
        let earlier = order.take(i);
        assert(earlier.contains(parent));
        let j = choose|j: int| 0 <= j < earlier.len() && earlier[j] == parent;
        assert(order[j] == parent);
        lemma_listed_climbs(sources, targets, order, j);
        lemma_climbs_more(sources, targets, parent, j as nat, (i - 1) as nat);
    }
}

proof fn lemma_climbs_more(
    sources: Seq<u32>,
    targets: Seq<u32>,
    node: u32,
    steps: nat,
    more: nat,
)
    requires
        climbs(sources, targets, node, steps),
        steps <= more,
    ensures
        climbs(sources, targets, node, more),
    decreases steps,
{
    if let Some(parent) = parent_in(sources, targets, node) {
        lemma_climbs_more(sources, targets, parent, (steps - 1) as nat, (more - 1) as nat);
    }
}

/// The values of the listed nodes together.
pub open spec fn total_of(nodes: Seq<u32>, values: Seq<nat>) -> nat
    decreases nodes.len(),
{
    if nodes.len() == 0 {
        0
    } else {
        total_of(nodes.drop_last(), values) + values[nodes.last() as int]
    }
}

/// The values of those listed nodes together that are done.
spec fn partial(nodes: Seq<u32>, values: Seq<nat>, done: Seq<u32>) -> nat
    decreases nodes.len(),
{
    if nodes.len() == 0 {
        0
    } else {
        partial(nodes.drop_last(), values, done) + if done.contains(nodes.last()) {
            values[nodes.last() as int]
        } else {
            0nat
        }
    }
}

proof fn lemma_partial_none(nodes: Seq<u32>, values: Seq<nat>)
    ensures
        partial(nodes, values, Seq::<u32>::empty()) == 0,
    decreases nodes.len(),
{
    if nodes.len() > 0 {
        lemma_partial_none(nodes.drop_last(), values);
    }
}

proof fn lemma_partial_all(nodes: Seq<u32>, values: Seq<nat>, done: Seq<u32>)
    requires
        forall|i: int| 0 <= i < nodes.len() ==> done.contains(#[trigger] nodes[i]),
    ensures
        partial(nodes, values, done) == total_of(nodes, values),
    decreases nodes.len(),
{
    if nodes.len() > 0 {
        assert(done.contains(nodes[nodes.len() - 1]));
        let rest = nodes.drop_last();
        assert forall|i: int| 0 <= i < rest.len() implies done.contains(#[trigger] rest[i]) by {
            assert(done.contains(nodes[i]));
        }
        lemma_partial_all(rest, values, done);
    }
}

proof fn lemma_partial_same(
    nodes: Seq<u32>,
    values: Seq<nat>,
    done: Seq<u32>,
    other_values: Seq<nat>,
    other_done: Seq<u32>,
)
    requires
        forall|i: int|
            0 <= i < nodes.len() ==> (done.contains(#[trigger] nodes[i]) <==> other_done.contains(
                nodes[i],
            )) && (done.contains(nodes[i]) ==> values[nodes[i] as int]
                == other_values[nodes[i] as int]),
    ensures
        partial(nodes, values, done) == partial(nodes, other_values, other_done),
    decreases nodes.len(),
{
    if nodes.len() > 0 {
        let rest = nodes.drop_last();
        assert(done.contains(nodes[nodes.len() - 1]) <==> other_done.contains(nodes[nodes.len() - 1]));
        assert forall|i: int| 0 <= i < rest.len() implies (done.contains(#[trigger] rest[i])
            <==> other_done.contains(rest[i])) && (done.contains(rest[i]) ==> values[rest[i] as int]
            == other_values[rest[i] as int]) by {
            assert(done.contains(nodes[i]) <==> other_done.contains(nodes[i]));
        }
        lemma_partial_same(rest, values, done, other_values, other_done);
    }
}

/// One more done node adds its value.
proof fn lemma_partial_more(
    nodes: Seq<u32>,
    values: Seq<nat>,
    done: Seq<u32>,
    other_done: Seq<u32>,
    node: u32,
)
    requires
        nodes.no_duplicates(),
        nodes.contains(node),
        !done.contains(node),
        other_done.contains(node),
        forall|x: u32| x != node ==> (#[trigger] done.contains(x) <==> other_done.contains(x)),
    ensures
        partial(nodes, values, other_done) == partial(nodes, values, done) + values[node as int],
    decreases nodes.len(),
{
    let rest = nodes.drop_last();
    let k = choose|k: int| 0 <= k < nodes.len() && nodes[k] == node;
    if nodes.last() == node {
        assert forall|i: int| 0 <= i < rest.len() implies (done.contains(#[trigger] rest[i])
            <==> other_done.contains(rest[i])) by {
            assert(nodes[i] != nodes[nodes.len() - 1]);
        }
        lemma_partial_same(rest, values, done, values, other_done);
    } else {
        assert(rest[k] == node);
        lemma_partial_more(rest, values, done, other_done, node);
    }
}

proof fn lemma_partial_holds(nodes: Seq<u32>, values: Seq<nat>, done: Seq<u32>, i: int)
    requires
        0 <= i < nodes.len(),
        done.contains(nodes[i]),
    ensures
        values[nodes[i] as int] <= partial(nodes, values, done),
    decreases nodes.len(),
{
    if i < nodes.len() - 1 {
        assert(nodes.drop_last()[i] == nodes[i]);
        lemma_partial_holds(nodes.drop_last(), values, done, i);
    }
}

proof fn lemma_total_same(nodes: Seq<u32>, values: Seq<nat>, other: Seq<nat>)
    requires
        forall|i: int|
            0 <= i < nodes.len() ==> values[(#[trigger] nodes[i]) as int] == other[nodes[i] as int],
    ensures
        total_of(nodes, values) == total_of(nodes, other),
    decreases nodes.len(),
{
    if nodes.len() > 0 {
        let rest = nodes.drop_last();
        assert(values[nodes[nodes.len() - 1] as int] == other[nodes[nodes.len() - 1] as int]);
        assert forall|i: int| 0 <= i < rest.len() implies values[(#[trigger] rest[i]) as int]
            == other[rest[i] as int] by {
            assert(rest[i] == nodes[i]);
        }
        lemma_total_same(rest, values, other);
    }
}

/// Raising the value of one listed node raises the total by as much.
proof fn lemma_total_raised(nodes: Seq<u32>, values: Seq<nat>, node: u32, by: nat)
    requires
        nodes.no_duplicates(),
        nodes.contains(node),
        forall|i: int| 0 <= i < nodes.len() ==> (#[trigger] nodes[i]) < values.len(),
    ensures
        total_of(nodes, values.update(node as int, values[node as int] + by)) == total_of(
            nodes,
            values,
        ) + by,
    decreases nodes.len(),
{
    let rest = nodes.drop_last();
    let after = values.update(node as int, values[node as int] + by);
    let k = choose|k: int| 0 <= k < nodes.len() && nodes[k] == node;
    assert(nodes[k] < values.len());
    assert(nodes[nodes.len() - 1] < values.len());
    assert forall|i: int| 0 <= i < rest.len() implies (#[trigger] rest[i]) < values.len() by {
        assert(rest[i] == nodes[i]);
    }
    if nodes.last() == node {
        assert forall|i: int| 0 <= i < rest.len() implies values[(#[trigger] rest[i]) as int]
            == after[rest[i] as int] by {
            assert(nodes[i] != nodes[nodes.len() - 1]);
        }
        lemma_total_same(rest, values, after);
    } else {
        assert(rest[k] == node);
        lemma_total_raised(rest, values, node, by);
    }
}

proof fn lemma_total_holds(nodes: Seq<u32>, values: Seq<nat>, i: int)
    requires
        0 <= i < nodes.len(),
    ensures
        values[nodes[i] as int] <= total_of(nodes, values),
    decreases nodes.len(),
{
    if i < nodes.len() - 1 {
        assert(nodes.drop_last()[i] == nodes[i]);
        lemma_total_holds(nodes.drop_last(), values, i);
    }
}

proof fn lemma_total_bounded(nodes: Seq<u32>, values: Seq<nat>)
    requires
        forall|i: int| 0 <= i < nodes.len() ==> values[(#[trigger] nodes[i]) as int] <= 1,
    ensures
        total_of(nodes, values) <= nodes.len(),
    decreases nodes.len(),
{
    if nodes.len() > 0 {
        let rest = nodes.drop_last();
        assert(values[nodes[nodes.len() - 1] as int] <= 1);
        assert forall|i: int| 0 <= i < rest.len() implies values[(#[trigger] rest[i]) as int]
            <= 1 by {
            assert(rest[i] == nodes[i]);
        }
        lemma_total_bounded(rest, values);
    }
}

/// The values as numbers.
pub open spec fn numbers(values: Seq<usize>) -> Seq<nat> {
    values.map_values(|x: usize| x as nat)
}

/// A list of every node, parents before their children.
spec fn full_order(node_count: nat, sources: Seq<u32>, targets: Seq<u32>, order: Seq<u32>) -> bool {
    &&& branching(node_count, sources, targets)
    &&& node_count <= u32::MAX
    &&& walked(node_count, sources, targets, order, Seq::<u32>::empty())
    &&& order.len() == node_count
}

/// What the running totals satisfy when the nodes from `at` on are done.
spec fn accumulated(
    sources: Seq<u32>,
    targets: Seq<u32>,
    order: Seq<u32>,
    base: Seq<nat>,
    totals: Seq<nat>,
    at: int,
) -> bool {
    let done = order.skip(at);
    let roots = roots_below(targets, order.len());
    &&& totals.len() == order.len()
    &&& forall|x: u32|
        x < order.len() ==> #[trigger] totals[x as int] == base[x as int] + partial(
            children_in(sources, targets, x),
            totals,
            done,
        )
    &&& total_of(order.take(at), totals) + partial(roots, totals, done) == total_of(order, base)
    &&& forall|i: int|
        at <= i < order.len() && (forall|x: u32|
            x < order.len() ==> base[x as int] > 0 || (#[trigger] children_in(
                sources,
                targets,
                x,
            )).len() > 0) ==> totals[(#[trigger] order[i]) as int] > 0
}

proof fn lemma_done_grows(order: Seq<u32>, at: int, node: u32)
    requires
        order.no_duplicates(),
        0 < at <= order.len(),
    ensures
        order.skip(at - 1).contains(node) <==> order.skip(at).contains(node) || node == order[at
            - 1],
        !order.skip(at).contains(order[at - 1]),
        order.take(at - 1).contains(node) ==> !order.skip(at - 1).contains(node),
{
    let done = order.skip(at);
    let after = order.skip(at - 1);
    assert(after[0] == order[at - 1]);
    if done.contains(node) {
        let k = choose|k: int| 0 <= k < done.len() && done[k] == node;
        assert(after[k + 1] == node);
    }
    if after.contains(node) && node != order[at - 1] {
        let k = choose|k: int| 0 <= k < after.len() && after[k] == node;
        assert(done[k - 1] == node);
    }
    if done.contains(order[at - 1]) {
        let k = choose|k: int| 0 <= k < done.len() && done[k] == order[at - 1];
        assert(order[at + k] == order[at - 1]);
    }
    if order.take(at - 1).contains(node) && after.contains(node) {
        let front = order.take(at - 1);
        let j = choose|j: int| 0 <= j < front.len() && front[j] == node;
        let k = choose|k: int| 0 <= k < after.len() && after[k] == node;
        assert(order[j] == order[at - 1 + k]);
    }
}

/// The children of a node stand behind it.
proof fn lemma_children_are_done(
    node_count: nat,
    sources: Seq<u32>,
    targets: Seq<u32>,
    order: Seq<u32>,
    at: int,
    child: u32,
)
    requires
        full_order(node_count, sources, targets, order),
        0 < at <= order.len(),
        children_in(sources, targets, order[at - 1]).contains(child),
    ensures
        order.skip(at).contains(child),
{
    let node = order[at - 1];
    assert(branching(node_count, sources, targets));
    lemma_children(sources, targets, node, child);
    lemma_parent_exists(sources, targets, child);
    assert(targets.contains(child));
    let e = choose|e: int| 0 <= e < targets.len() && targets[e] == child;
    assert(sources[e] < node_count && targets[e] < node_count);
    lemma_fill(order, node_count);
    assert(order.contains(child));
    let k = choose|k: int| 0 <= k < order.len() && order[k] == child;
    assert(order.take(k).contains(node));
    let earlier = order.take(k);
    let j = choose|j: int| 0 <= j < earlier.len() && earlier[j] == node;
    assert(order[j] == order[at - 1]);
    assert(order.skip(at)[k - at] == child);
}

proof fn lemma_accumulate(
    node_count: nat,
    sources: Seq<u32>,
    targets: Seq<u32>,
    order: Seq<u32>,
    base: Seq<nat>,
    totals: Seq<nat>,
    at: int,
)
    requires
        full_order(node_count, sources, targets, order),
        base.len() == node_count,
        0 < at <= order.len(),
        accumulated(sources, targets, order, base, totals, at),
    ensures
        match parent_in(sources, targets, order[at - 1]) {
            None => accumulated(sources, targets, order, base, totals, at - 1),
            Some(parent) => parent < node_count && parent != order[at - 1]
                && totals[parent as int] + totals[order[at - 1] as int] <= total_of(order, base)
                && accumulated(
                sources,
                targets,
                order,
                base,
                totals.update(
                    parent as int,
                    totals[parent as int] + totals[order[at - 1] as int],
                ),
                at - 1,
            ),
        },
{
    let node = order[at - 1];
    let done = order.skip(at);
    let after = order.skip(at - 1);
    let front = order.take(at - 1);
    let roots = roots_below(targets, order.len());
    assert(node < node_count);
    assert(order.take(at).drop_last() =~= front);
    assert(order.take(at).last() == node);
    assert(total_of(order.take(at), totals) == total_of(front, totals) + totals[node as int]);
    assert forall|x: u32| #[trigger] after.contains(x) <==> done.contains(x) || x == node by {
        lemma_done_grows(order, at, x);
    }
    lemma_done_grows(order, at, node);
    lemma_roots(targets, order.len(), node);
    lemma_parent_exists(sources, targets, node);
    // The value of `node` itself is final.
    assert((forall|x: u32|
        x < order.len() ==> base[x as int] > 0 || (#[trigger] children_in(
            sources,
            targets,
            x,
        )).len() > 0) ==> totals[node as int] > 0) by {
        let children = children_in(sources, targets, node);
        if (forall|x: u32|
            x < order.len() ==> base[x as int] > 0 || (#[trigger] children_in(
                sources,
                targets,
                x,
            )).len() > 0) && base[node as int] == 0 {
            assert(children.len() > 0);
            let child = children[0];
            assert(children.contains(child));
            lemma_children_are_done(node_count, sources, targets, order, at, child);
            let k = choose|k: int| 0 <= k < done.len() && done[k] == child;
            assert(order[at + k] == child);
            assert(totals[order[at + k] as int] > 0);
            lemma_partial_holds(children, totals, done, 0);
        }
    }
    match parent_in(sources, targets, node) {
        None => {
            assert forall|x: u32| x < order.len() implies #[trigger] totals[x as int]
                == base[x as int] + partial(children_in(sources, targets, x), totals, after) by {
                let children = children_in(sources, targets, x);
                assert forall|i: int| 0 <= i < children.len() implies (done.contains(
                    #[trigger] children[i],
                ) <==> after.contains(children[i])) by {
                    assert(children.contains(children[i]));
                    lemma_children(sources, targets, x, children[i]);
                }
                lemma_partial_same(children, totals, done, totals, after);
            }
            assert(roots.contains(node));
            lemma_partial_more(roots, totals, done, after, node);
            assert(accumulated(sources, targets, order, base, totals, at - 1)) by {
                assert forall|i: int|
                    at - 1 <= i < order.len() && (forall|x: u32|
                        x < order.len() ==> base[x as int] > 0 || (#[trigger] children_in(
                            sources,
                            targets,
                            x,
                        )).len() > 0) implies totals[(#[trigger] order[i]) as int] > 0 by {}
            }
        },
        Some(parent) => {
            lemma_parent_is_source(node_count, sources, targets, node);
            assert(order.take(at - 1).contains(parent)) by {
                assert(order[at - 1] == node);
            }
            lemma_done_grows(order, at, parent);
            assert(!after.contains(parent));
            let raised = totals.update(
                parent as int,
                totals[parent as int] + totals[node as int],
            );
            assert(front.no_duplicates()) by {
                assert forall|i: int, j: int|
                    0 <= i < front.len() && 0 <= j < front.len() && i != j implies front[i]
                    != front[j] by {
                    assert(order[i] != order[j]);
                }
            }
            assert forall|i: int| 0 <= i < front.len() implies (#[trigger] front[i])
                < totals.len() by {
                assert(order[i] < node_count);
            }
            lemma_total_raised(front, totals, parent, totals[node as int]);
            let k = choose|k: int| 0 <= k < front.len() && front[k] == parent;
            lemma_total_holds(front, totals, k);
            assert forall|x: u32| x < order.len() implies #[trigger] raised[x as int]
                == base[x as int] + partial(children_in(sources, targets, x), raised, after) by {
                let children = children_in(sources, targets, x);
                assert(totals[x as int] == base[x as int] + partial(children, totals, done));
                lemma_children(sources, targets, x, node);
                if x == parent {
                    lemma_partial_more(children, totals, done, after, node);
                    lemma_partial_same(children, totals, after, raised, after);
                } else {
                    assert forall|i: int| 0 <= i < children.len() implies (done.contains(
                        #[trigger] children[i],
                    ) <==> after.contains(children[i])) by {
                        assert(children.contains(children[i]));
                    }
                    lemma_partial_same(children, totals, done, raised, after);
                }
            }
            assert forall|i: int| 0 <= i < roots.len() implies (done.contains(#[trigger] roots[i])
                <==> after.contains(roots[i])) by {
                assert(roots.contains(roots[i]));
            }
            lemma_partial_same(roots, totals, done, raised, after);
            assert(accumulated(sources, targets, order, base, raised, at - 1)) by {
                assert forall|i: int|
                    at - 1 <= i < order.len() && (forall|x: u32|
                        x < order.len() ==> base[x as int] > 0 || (#[trigger] children_in(
                            sources,
                            targets,
                            x,
                        )).len() > 0) implies raised[(#[trigger] order[i]) as int] > 0 by {
                    if i >= at {
                        assert(totals[order[i] as int] > 0);
                    }
                }
            }
        },
    }
}

/// The parents and children of every node.
struct Branches {
    parents: Vec<Option<u32>>,
    children: Vec<Vec<u32>>,
}

impl Branches {
    spec fn of(self, node_count: nat, sources: Seq<u32>, targets: Seq<u32>) -> bool {
        &&& self.parents@.len() == node_count
        &&& self.children@.len() == node_count
        &&& forall|x: u32|
            x < node_count ==> #[trigger] self.parents@[x as int] == parent_in(sources, targets, x)
        &&& forall|x: u32|
            x < node_count ==> #[trigger] layout_components::lists(self.children@)[x as int]
                == children_in(sources, targets, x)
    }
}

/// Collects parents and children, unless two relationships lead to one node
/// or one does not join two different nodes.
fn gather(node_count: usize, sources: &Vec<u32>, targets: &Vec<u32>) -> (r: Option<Branches>)
    requires
        node_count <= u32::MAX,
        sources@.len() == targets@.len(),
    ensures
        r is Some <==> branching(node_count as nat, sources@, targets@),
        r matches Some(branches) ==> branches.of(node_count as nat, sources@, targets@),
{
    let mut branches = Branches { parents: Vec::new(), children: Vec::new() };
    let mut x: usize = 0;
    while x < node_count
        invariant
            x <= node_count,
            branches.parents@.len() == x,
            branches.children@.len() == x,
            forall|k: int| 0 <= k < x ==> #[trigger] branches.parents@[k] is None,
            forall|k: int|
                0 <= k < x ==> #[trigger] layout_components::lists(branches.children@)[k] == Seq::<
                    u32,
                >::empty(),
        decreases node_count - x,
    {
        let ghost before = layout_components::lists(branches.children@);
        branches.parents.push(None);
        branches.children.push(Vec::new());
        proof {
            assert forall|k: int| 0 <= k < x + 1 implies #[trigger] layout_components::lists(
                branches.children@,
            )[k] == Seq::<u32>::empty() by {
                if k < x {
                    assert(before[k] == layout_components::lists(branches.children@)[k]);
                }
            }
        }
        x = x + 1;
    }
    let mut i: usize = 0;
    proof {
        assert(sources@.take(0) =~= Seq::<u32>::empty());
        assert(targets@.take(0) =~= Seq::<u32>::empty());
    }
    while i < sources.len()
        invariant
            i <= sources.len(),
            node_count <= u32::MAX,
            sources@.len() == targets@.len(),
            branching(node_count as nat, sources@.take(i as int), targets@.take(i as int)),
            branches.of(node_count as nat, sources@.take(i as int), targets@.take(i as int)),
        decreases sources.len() - i,
    {
        let source: u32 = sources[i];
        let target: u32 = targets[i];
        let ghost first = sources@.take(i as int);
        let ghost second = targets@.take(i as int);
        let ghost first_after = sources@.take(i + 1);
        let ghost second_after = targets@.take(i + 1);
        proof {
            assert(first_after.drop_last() =~= first);
            assert(second_after.drop_last() =~= second);
        }
        if source as usize >= node_count || target as usize >= node_count || source == target {
            assert(sources@[i as int] == source);
            return None;
        }
        if branches.parents[target as usize].is_some() {
            proof {
                lemma_parent_exists(first, second, target);
                let k = choose|k: int| 0 <= k < second.len() && second[k] == target;
                assert(targets@[k] == targets@[i as int]);
            }
            return None;
        }
        proof {
            lemma_parent_exists(first, second, target);
            assert(branching(node_count as nat, first_after, second_after)) by {
                assert forall|a: int, b: int|
                    0 <= a < second_after.len() && 0 <= b < second_after.len() && a
                        != b implies second_after[a] != second_after[b] by {
                    if a < i && b < i {
                        assert(second[a] != second[b]);
                    } else if a < i {
                        assert(second.contains(second[a]));
                    } else {
                        assert(second.contains(second[b]));
                    }
                }
                assert forall|e: int| 0 <= e < first_after.len() implies (#[trigger] first_after[e])
                    < node_count && second_after[e] < node_count && first_after[e]
                    != second_after[e] by {
                    if e < i {
                        assert(first[e] == first_after[e]);
                    }
                }
            }
        }
        let ghost kept = branches.parents@;
        let ghost lists = layout_components::lists(branches.children@);
        branches.parents.set(target as usize, Some(source));
        branches.children[source as usize].push(target);
        proof {
            let after = layout_components::lists(branches.children@);
            assert forall|x: u32| x < node_count implies #[trigger] branches.parents@[x as int]
                == parent_in(first_after, second_after, x) by {
                assert(kept[x as int] == parent_in(first, second, x));
            }
            assert forall|x: u32| x < node_count implies #[trigger] after[x as int] == children_in(
                first_after,
                second_after,
                x,
            ) by {
                assert(lists[x as int] == children_in(first, second, x));
            }
        }
        i = i + 1;
    }
    proof {
        assert(sources@.take(sources@.len() as int) =~= sources@);
        assert(targets@.take(targets@.len() as int) =~= targets@);
    }
    Some(branches)
}

/// Lists the nodes to which no relationship leads.
fn find_roots(node_count: usize, branches: &Branches, sources: Ghost<Seq<u32>>, targets: Ghost<Seq<u32>>) -> (r: Vec<u32>)
    requires
        node_count <= u32::MAX,
        sources@.len() == targets@.len(),
        branches.of(node_count as nat, sources@, targets@),
    ensures
        r@ == roots_below(targets@, node_count as nat),
{
    let mut roots: Vec<u32> = Vec::new();
    let mut x: usize = 0;
    while x < node_count
        invariant
            x <= node_count,
            node_count <= u32::MAX,
            sources@.len() == targets@.len(),
            branches.of(node_count as nat, sources@, targets@),
            roots@ == roots_below(targets@, x as nat),
        decreases node_count - x,
    {
        proof {
            lemma_parent_exists(sources@, targets@, x as u32);
            assert(branches.parents@[(x as u32) as int] == parent_in(
                sources@,
                targets@,
                x as u32,
            ));
        }
        if branches.parents[x].is_none() {
            roots.push(x as u32);
        }
        x = x + 1;
    }
    roots
}

/// Copies a list of nodes.
fn copy_nodes(nodes: &Vec<u32>) -> (r: Vec<u32>)
    ensures
        r@ == nodes@,
{
    let mut out: Vec<u32> = Vec::new();
    let mut i: usize = 0;
    while i < nodes.len()
        invariant
            i <= nodes.len(),
            out@ == nodes@.take(i as int),
        decreases nodes.len() - i,
    {
        out.push(nodes[i]);
        assert(out@ =~= nodes@.take(i + 1));
        i = i + 1;
    }
    assert(nodes@.take(nodes@.len() as int) =~= nodes@);
    out
}

/// Lists every node that a root is above, parents before their children.
fn walk(node_count: usize, branches: &Branches, roots: &Vec<u32>, sources: Ghost<Seq<u32>>, targets: Ghost<Seq<u32>>) -> (r: Vec<u32>)
    requires
        node_count <= u32::MAX,
        branching(node_count as nat, sources@, targets@),
        branches.of(node_count as nat, sources@, targets@),
        roots@ == roots_below(targets@, node_count as nat),
    ensures
        walked(node_count as nat, sources@, targets@, r@, Seq::<u32>::empty()),
{
    let mut order: Vec<u32> = Vec::new();
    let mut stack = copy_nodes(roots);
    proof {
        lemma_walk_starts(node_count as nat, sources@, targets@);
        assert(order@ =~= Seq::<u32>::empty());
    }
    while stack.len() > 0
        invariant
            node_count <= u32::MAX,
            branching(node_count as nat, sources@, targets@),
            branches.of(node_count as nat, sources@, targets@),
            walked(node_count as nat, sources@, targets@, order@, stack@),
            order@.len() <= node_count,
        decreases node_count - order@.len(),
    {
        let ghost before = stack@;
        let ghost listed = order@;
        proof {
            lemma_walk(node_count as nat, sources@, targets@, order@, stack@);
            lemma_fill(
                order@.push(stack@.last()),
                node_count as nat,
            );
            assert(before[before.len() - 1] < node_count);
        }
        let node: u32 = stack.pop().unwrap();
        order.push(node);
        let children = &branches.children[node as usize];
        assert(children@ == layout_components::lists(branches.children@)[node as int]);
        let mut k: usize = 0;
        assert(stack@ =~= before.drop_last() + children@.take(0));
        while k < children.len()
            invariant
                k <= children.len(),
                stack@ == before.drop_last() + children@.take(k as int),
            decreases children.len() - k,
        {
            stack.push(children[k]);
            assert(stack@ =~= before.drop_last() + children@.take(k + 1));
            k = k + 1;
        }
        assert(children@.take(children@.len() as int) =~= children@);
    }
    assert(stack@ =~= Seq::<u32>::empty());
    order
}

/// Adds up, for every node, its own value and the totals of its children.
fn accumulate(order: &Vec<u32>, branches: &Branches, base: Vec<usize>, sources: Ghost<Seq<u32>>, targets: Ghost<Seq<u32>>) -> (r: Vec<usize>)
    requires
        full_order(order@.len(), sources@, targets@, order@),
        branches.of(order@.len(), sources@, targets@),
        base@.len() == order@.len(),
        forall|x: int| 0 <= x < base@.len() ==> #[trigger] base@[x] <= 1,
    ensures
        accumulated(sources@, targets@, order@, numbers(base@), numbers(r@), 0),
{
    let ghost start = numbers(base@);
    let mut totals = base;
    let mut at: usize = order.len();
    proof {
        assert(order@.skip(at as int) =~= Seq::<u32>::empty());
        assert(order@.take(at as int) =~= order@);
        assert forall|x: u32| x < order@.len() implies #[trigger] start[x as int] == start[x as int]
            + partial(children_in(sources@, targets@, x), start, Seq::<u32>::empty()) by {
            lemma_partial_none(children_in(sources@, targets@, x), start);
        }
        lemma_partial_none(roots_below(targets@, order@.len()), start);
        assert forall|i: int| 0 <= i < order@.len() implies start[(#[trigger] order@[i]) as int]
            <= 1 by {
            assert(order@[i] < order@.len());
            assert(base@[order@[i] as int] <= 1);
        }
        lemma_total_bounded(order@, start);
    }
    while at > 0
        invariant
            at <= order@.len(),
            full_order(order@.len(), sources@, targets@, order@),
            branches.of(order@.len(), sources@, targets@),
            start.len() == order@.len(),
            total_of(order@, start) <= order@.len(),
            accumulated(sources@, targets@, order@, start, numbers(totals@), at as int),
        decreases at,
    {
        let node: u32 = order[at - 1];
        assert(node < order@.len());
        assert(branches.parents@[node as int] == parent_in(sources@, targets@, node));
        proof {
            lemma_accumulate(
                order@.len(),
                sources@,
                targets@,
                order@,
                start,
                numbers(totals@),
                at as int,
            );
        }
        if let Some(parent) = branches.parents[node as usize] {
            let ghost before = numbers(totals@);
            let length: usize = order.len();
            let sum: usize = totals[parent as usize] + totals[node as usize];
            totals.set(parent as usize, sum);
            assert(numbers(totals@) =~= before.update(
                parent as int,
                before[parent as int] + before[node as int],
            ));
        }
        at = at - 1;
    }
    totals
}

/// Whether depths count the parents above each node.
pub open spec fn depths_of(
    node_count: nat,
    sources: Seq<u32>,
    targets: Seq<u32>,
    depths: Seq<u32>,
) -> bool {
    &&& depths.len() == node_count
    &&& forall|x: u32|
        x < node_count ==> #[trigger] depths[x as int] == match parent_in(sources, targets, x) {
            None => 0,
            Some(parent) => depths[parent as int] + 1,
        }
}

/// Counts the parents above every node.
fn measure_depths(
    order: &Vec<u32>,
    branches: &Branches,
    sources: Ghost<Seq<u32>>,
    targets: Ghost<Seq<u32>>,
) -> (r: Vec<u32>)
    requires
        full_order(order@.len(), sources@, targets@, order@),
        branches.of(order@.len(), sources@, targets@),
    ensures
        depths_of(order@.len(), sources@, targets@, r@),
        forall|x: int| 0 <= x < r@.len() ==> (#[trigger] r@[x]) < order@.len(),
{
    let count: usize = order.len();
    let mut depths: Vec<u32> = Vec::new();
    let mut x: usize = 0;
    while x < count
        invariant
            x <= count,
            depths@.len() == x,
            forall|k: int| 0 <= k < x ==> #[trigger] depths@[k] == 0,
        decreases count - x,
    {
        depths.push(0);
        x = x + 1;
    }
    let mut i: usize = 0;
    while i < count
        invariant
            i <= count,
            count == order@.len(),
            depths@.len() == count,
            full_order(order@.len(), sources@, targets@, order@),
            branches.of(order@.len(), sources@, targets@),
            forall|k: int| 0 <= k < i ==> depths@[(#[trigger] order@[k]) as int] <= k,
            forall|k: int|
                0 <= k < i ==> depths@[(#[trigger] order@[k]) as int] == match parent_in(
                    sources@,
                    targets@,
                    order@[k],
                ) {
                    None => 0,
                    Some(parent) => depths@[parent as int] + 1,
                },
        decreases count - i,
    {
        let node: u32 = order[i];
        let ghost before = depths@;
        assert(node < count);
        assert(branches.parents@[node as int] == parent_in(sources@, targets@, node));
        match branches.parents[node as usize] {
            None => {
                depths.set(node as usize, 0);
            },
            Some(parent) => {
                proof {
                    assert(order@.take(i as int).contains(parent));
                    let p = choose|p: int|
                        0 <= p < order@.take(i as int).len() && order@.take(i as int)[p] == parent;
                    assert(order@[p] == parent);
                    assert(depths@[parent as int] <= p);
                    assert(parent < count);
                }
                let depth: u32 = depths[parent as usize] + 1;
                depths.set(node as usize, depth);
            },
        }
        proof {
            assert forall|k: int| 0 <= k < i + 1 implies depths@[(#[trigger] order@[k]) as int] <= k
                && depths@[order@[k] as int] == match parent_in(sources@, targets@, order@[k]) {
                None => 0,
                Some(parent) => depths@[parent as int] + 1,
            } by {
                match parent_in(sources@, targets@, order@[k]) {
                    None => {},
                    Some(parent) => {
                        let earlier = order@.take(k);
                        assert(earlier.contains(parent));
                        let p = choose|p: int| 0 <= p < earlier.len() && earlier[p] == parent;
                        assert(order@[p] == parent);
                        assert(parent != node) by {
                            assert(p < i);
                        }
                        assert(depths@[parent as int] == before[parent as int]);
                    },
                }
                if k < i {
                    assert(order@[k] != node);
                    assert(depths@[order@[k] as int] == before[order@[k] as int]);
                }
            }
        }
        i = i + 1;
    }
    proof {
        lemma_fill(order@, count as nat);
        assert forall|x: u32| x < count implies #[trigger] depths@[x as int] == match parent_in(
            sources@,
            targets@,
            x,
        ) {
            None => 0,
            Some(parent) => depths@[parent as int] + 1,
        } && depths@[x as int] < count by {
            assert(order@.contains(x));
            let k = choose|k: int| 0 <= k < order@.len() && order@[k] == x;
            assert(depths@[order@[k] as int] <= k);
        }
        assert forall|x: int| 0 <= x < depths@.len() implies (#[trigger] depths@[x]) < count by {
            assert(depths@[(x as u32) as int] < count);
        }
    }
    depths
}

/// A forest: where each node leads, where it starts, and for each node how
/// many leaves and how many nodes are at or below it, and how many are above
/// it.
#[derive(Debug)]
pub struct ForestTopology {
    pub children: Vec<Vec<u32>>,
    pub roots: Vec<u32>,
    pub weights: Vec<u64>,
    pub subtree_sizes: Vec<usize>,
    pub depths: Vec<u32>,
}

impl ForestTopology {
    pub open spec fn kids(self) -> Seq<Seq<u32>> {
        layout_components::lists(self.children@)
    }

    pub open spec fn leaf_counts(self) -> Seq<nat> {
        self.weights@.map_values(|x: u64| x as nat)
    }

    pub open spec fn sizes(self) -> Seq<nat> {
        numbers(self.subtree_sizes@)
    }

    /// Children are nodes, a node counts itself and what its children count,
    /// and a leaf counts once.
    pub open spec fn wf(self) -> bool {
        let count = self.children@.len();
        &&& count <= u32::MAX
        &&& self.weights@.len() == count
        &&& self.subtree_sizes@.len() == count
        &&& self.depths@.len() == count
        &&& forall|i: int| 0 <= i < self.roots@.len() ==> (#[trigger] self.roots@[i]) < count
        &&& forall|x: int, k: int|
            0 <= x < count && 0 <= k < self.kids()[x].len() ==> (#[trigger] self.kids()[x][k])
                < count
        &&& forall|x: int|
            0 <= x < count ==> #[trigger] self.sizes()[x] == 1 + total_of(
                self.kids()[x],
                self.sizes(),
            )
        &&& forall|x: int|
            0 <= x < count ==> #[trigger] self.leaf_counts()[x] == if self.kids()[x].len() == 0 {
                1
            } else {
                total_of(self.kids()[x], self.leaf_counts())
            }
        &&& forall|x: int| 0 <= x < count ==> #[trigger] self.leaf_counts()[x] >= 1
        &&& total_of(self.roots@, self.sizes()) == count
        &&& total_of(self.roots@, self.leaf_counts()) <= count
    }

    /// Whether this is the forest of the relationships.
    pub open spec fn topology_of(
        self,
        node_count: nat,
        sources: Seq<u32>,
        targets: Seq<u32>,
    ) -> bool {
        &&& self.wf()
        &&& self.children@.len() == node_count
        &&& self.roots@ == roots_below(targets, node_count)
        &&& forall|x: u32|
            x < node_count ==> #[trigger] self.kids()[x as int] == children_in(sources, targets, x)
        &&& depths_of(node_count, sources, targets, self.depths@)
    }

    /// The ring that a node is drawn on: a root that is alone in the middle,
    /// and every other node one ring beyond its depth.
    pub open spec fn ring_of(self, node: int) -> int {
        if self.roots@.len() == 1 && self.depths@[node] == 0 {
            0
        } else {
            self.depths@[node] + 1
        }
    }

    /// The ring that a node is drawn on.
    pub fn ring(&self, node: usize) -> (r: u64)
        requires
            node < self.depths@.len(),
        ensures
            r == self.ring_of(node as int),
    {
        if self.roots.len() == 1 && self.depths[node] == 0 {
            0
        } else {
            self.depths[node] as u64 + 1
        }
    }
}

proof fn lemma_ones(nodes: Seq<u32>, values: Seq<nat>)
    requires
        forall|i: int| 0 <= i < nodes.len() ==> values[(#[trigger] nodes[i]) as int] == 1,
    ensures
        total_of(nodes, values) == nodes.len(),
    decreases nodes.len(),
{
    if nodes.len() > 0 {
        let rest = nodes.drop_last();
        assert(values[nodes[nodes.len() - 1] as int] == 1);
        assert forall|i: int| 0 <= i < rest.len() implies values[(#[trigger] rest[i]) as int]
            == 1 by {
            assert(rest[i] == nodes[i]);
        }
        lemma_ones(rest, values);
    }
}

/// What totals over all nodes satisfy.
proof fn lemma_totals(
    node_count: nat,
    sources: Seq<u32>,
    targets: Seq<u32>,
    order: Seq<u32>,
    base: Seq<nat>,
    totals: Seq<nat>,
)
    requires
        full_order(node_count, sources, targets, order),
        accumulated(sources, targets, order, base, totals, 0),
    ensures
        forall|x: u32|
            x < node_count ==> #[trigger] totals[x as int] == base[x as int] + total_of(
                children_in(sources, targets, x),
                totals,
            ),
        total_of(roots_below(targets, node_count), totals) == total_of(order, base),
        (forall|x: u32|
            x < node_count ==> base[x as int] > 0 || (#[trigger] children_in(
                sources,
                targets,
                x,
            )).len() > 0) ==> forall|x: u32| x < node_count ==> #[trigger] totals[x as int] > 0,
{
    assert(order.skip(0) =~= order);
    lemma_fill(order, node_count);
    assert forall|x: u32| x < node_count implies #[trigger] totals[x as int] == base[x as int]
        + total_of(children_in(sources, targets, x), totals) by {
        let children = children_in(sources, targets, x);
        assert forall|i: int| 0 <= i < children.len() implies order.contains(
            #[trigger] children[i],
        ) by {
            assert(children.contains(children[i]));
            lemma_children(sources, targets, x, children[i]);
            lemma_parent_exists(sources, targets, children[i]);
            let e = choose|e: int| 0 <= e < targets.len() && targets[e] == children[i];
            assert(sources[e] < node_count && targets[e] < node_count);
        }
        lemma_partial_all(children, totals, order);
    }
    let roots = roots_below(targets, node_count);
    lemma_roots(targets, node_count, 0);
    lemma_partial_all(roots, totals, order);
    assert(order.take(0) =~= Seq::<u32>::empty());
    if forall|x: u32|
        x < node_count ==> base[x as int] > 0 || (#[trigger] children_in(
            sources,
            targets,
            x,
        )).len() > 0 {
        assert forall|x: u32| x < node_count implies #[trigger] totals[x as int] > 0 by {
            assert(order.contains(x));
            let k = choose|k: int| 0 <= k < order.len() && order[k] == x;
            assert(totals[order[k] as int] > 0);
        }
    }
}

/// A node without a parent is a root.
pub proof fn lemma_root_is_listed(
    sources: Seq<u32>,
    targets: Seq<u32>,
    node_count: nat,
    node: u32,
)
    requires
        branching(node_count, sources, targets),
        node_count <= u32::MAX,
        node < node_count,
        parent_in(sources, targets, node) is None,
    ensures
        roots_below(targets, node_count).contains(node),
{
    lemma_parent_exists(sources, targets, node);
    lemma_roots(targets, node_count, node);
}

/// A node is among the children of its parent.
pub proof fn lemma_child_is_listed(
    sources: Seq<u32>,
    targets: Seq<u32>,
    node_count: nat,
    parent: u32,
    node: u32,
)
    requires
        branching(node_count, sources, targets),
        parent_in(sources, targets, node) == Some(parent),
    ensures
        parent < node_count,
        children_in(sources, targets, parent).contains(node),
{
    lemma_parent_is_source(node_count, sources, targets, node);
    lemma_children(sources, targets, parent, node);
}

/// The children of the only root, or else the roots.
pub open spec fn top_branches(node_count: nat, sources: Seq<u32>, targets: Seq<u32>) -> Seq<u32> {
    let roots = roots_below(targets, node_count);
    if roots.len() == 1 {
        children_in(sources, targets, roots[0])
    } else {
        roots
    }
}

pub proof fn lemma_top_branches(
    topology: ForestTopology,
    node_count: nat,
    sources: Seq<u32>,
    targets: Seq<u32>,
)
    requires
        topology.topology_of(node_count, sources, targets),
    ensures
        topology.tops() == top_branches(node_count, sources, targets),
{
    if topology.roots@.len() == 1 {
        assert(topology.roots@[0] < node_count);
        assert(topology.kids()[topology.roots@[0] as int] == children_in(
            sources,
            targets,
            topology.roots@[0],
        ));
    }
}

/// The forest of the relationships, if they form one.
pub fn directed_forest_topology(node_count: usize, edges: &SceneEdges) -> (r: Option<
    ForestTopology,
>)
    requires
        edges.wf(),
        node_count <= u32::MAX,
    ensures
        r is Some <==> forest(node_count as nat, edges.sources@, edges.targets@),
        r matches Some(topology) ==> topology.topology_of(
            node_count as nat,
            edges.sources@,
            edges.targets@,
        ),
{
    if node_count == 0 || edges.ids.len() >= node_count {
        return None;
    }
    let ghost sources = edges.sources@;
    let ghost targets = edges.targets@;
    let branches = match gather(node_count, &edges.sources, &edges.targets) {
        Some(branches) => branches,
        None => {
            return None;
        },
    };
    let roots = find_roots(node_count, &branches, Ghost(sources), Ghost(targets));
    let order = walk(node_count, &branches, &roots, Ghost(sources), Ghost(targets));
    proof {
        lemma_fill(order@, node_count as nat);
    }
    if order.len() != node_count {
        proof {
            if forest(node_count as nat, sources, targets) {
                assert forall|node: u32| node < node_count implies order@.contains(node) by {
                    assert(reaches_root(sources, targets, node));
                    let steps = choose|steps: nat| climbs(sources, targets, node, steps);
                    lemma_climb_is_listed(
                        node_count as nat,
                        sources,
                        targets,
                        order@,
                        node,
                        steps,
                    );
                }
            }
        }
        return None;
    }
    proof {
        assert forall|node: u32| node < node_count implies #[trigger] reaches_root(
            sources,
            targets,
            node,
        ) by {
            assert(order@.contains(node));
            let k = choose|k: int| 0 <= k < order@.len() && order@[k] == node;
            lemma_listed_climbs(sources, targets, order@, k);
        }
    }
    let mut ones: Vec<usize> = Vec::new();
    let mut leaves: Vec<usize> = Vec::new();
    let mut x: usize = 0;
    while x < node_count
        invariant
            x <= node_count,
            node_count <= u32::MAX,
            branches.of(node_count as nat, sources, targets),
            ones@.len() == x,
            leaves@.len() == x,
            forall|k: int| 0 <= k < x ==> #[trigger] ones@[k] == 1,
            forall|k: int|
                0 <= k < x ==> #[trigger] leaves@[k] == if children_in(
                    sources,
                    targets,
                    k as u32,
                ).len() == 0 {
                    1usize
                } else {
                    0usize
                },
        decreases node_count - x,
    {
        ones.push(1);
        assert(branches.children@[x as int]@ == layout_components::lists(branches.children@)[(
        x as u32) as int]);
        if branches.children[x].len() == 0 {
            leaves.push(1);
        } else {
            leaves.push(0);
        }
        x = x + 1;
    }
    let ghost one_values = numbers(ones@);
    let ghost leaf_values = numbers(leaves@);
    let subtree_sizes = accumulate(&order, &branches, ones, Ghost(sources), Ghost(targets));
    let leaf_totals = accumulate(&order, &branches, leaves, Ghost(sources), Ghost(targets));
    let mut weights: Vec<u64> = Vec::new();
    let mut y: usize = 0;
    while y < leaf_totals.len()
        invariant
            y <= leaf_totals.len(),
            weights@.len() == y,
            forall|k: int| 0 <= k < y ==> #[trigger] weights@[k] == leaf_totals@[k],
        decreases leaf_totals.len() - y,
    {
        weights.push(leaf_totals[y] as u64);
        y = y + 1;
    }
    let depths = measure_depths(&order, &branches, Ghost(sources), Ghost(targets));
    let topology = ForestTopology {
        children: branches.children,
        roots,
        weights,
        subtree_sizes,
        depths,
    };
    proof {
        let n = node_count as nat;
        assert(topology.leaf_counts() =~= numbers(leaf_totals@));
        lemma_totals(n, sources, targets, order@, one_values, topology.sizes());
        lemma_totals(n, sources, targets, order@, leaf_values, topology.leaf_counts());
        lemma_ones(order@, one_values);
        assert forall|i: int| 0 <= i < order@.len() implies leaf_values[(#[trigger] order@[i]) as int]
            <= 1 by {
            assert(leaves@[order@[i] as int] <= 1);
        }
        lemma_total_bounded(order@, leaf_values);
        lemma_roots(targets, n, 0);
        assert forall|x: int, k: int|
            0 <= x < n && 0 <= k < topology.kids()[x].len() implies (
        #[trigger] topology.kids()[x][k]) < n by {
            let children = children_in(sources, targets, x as u32);
            assert(topology.kids()[(x as u32) as int] == children);
            assert(children.contains(children[k]));
            lemma_children(sources, targets, x as u32, children[k]);
            lemma_parent_exists(sources, targets, children[k]);
            let e = choose|e: int| 0 <= e < targets.len() && targets[e] == children[k];
            assert(sources[e] < n && targets[e] < n);
        }
        assert forall|x: u32| x < n implies leaf_values[x as int] > 0 || (#[trigger] children_in(
            sources,
            targets,
            x,
        )).len() > 0 by {
            assert(leaves@[x as int] == if children_in(sources, targets, x).len() == 0 {
                1usize
            } else {
                0usize
            });
        }
        assert forall|x: int| 0 <= x < n implies #[trigger] topology.sizes()[x] == 1 + total_of(
            topology.kids()[x],
            topology.sizes(),
        ) by {
            assert(topology.kids()[(x as u32) as int] == children_in(sources, targets, x as u32));
            assert(ones@[x] == 1);
            assert(topology.sizes()[(x as u32) as int] == one_values[x] + total_of(
                children_in(sources, targets, x as u32),
                topology.sizes(),
            ));
        }
        assert forall|x: int| 0 <= x < n implies #[trigger] topology.leaf_counts()[x] == (
        if topology.kids()[x].len() == 0 {
            1
        } else {
            total_of(topology.kids()[x], topology.leaf_counts())
        }) by {
            assert(topology.kids()[(x as u32) as int] == children_in(sources, targets, x as u32));
            assert(leaves@[x] <= 1);
            assert(topology.leaf_counts()[(x as u32) as int] == leaf_values[x] + total_of(
                children_in(sources, targets, x as u32),
                topology.leaf_counts(),
            ));
        }
        assert forall|x: int| 0 <= x < n implies #[trigger] topology.leaf_counts()[x] >= 1 by {
            assert(topology.leaf_counts()[(x as u32) as int] > 0);
        }
    }
    Some(topology)
}

/// Depth is preserved: roots have none above them, and a child is one ring
/// beyond its parent, or beyond the first ring where that is the only root.
pub proof fn law_children_are_one_ring_out(
    topology: ForestTopology,
    node_count: nat,
    sources: Seq<u32>,
    targets: Seq<u32>,
    parent: u32,
    k: int,
)
    requires
        topology.topology_of(node_count, sources, targets),
        branching(node_count, sources, targets),
        parent < node_count,
        0 <= k < topology.kids()[parent as int].len(),
    ensures
        ({
            let child = topology.kids()[parent as int][k] as int;
            &&& topology.depths@[child] == topology.depths@[parent as int] + 1
            &&& topology.ring_of(child) == topology.depths@[parent as int] + 2
        }),
        forall|i: int|
            0 <= i < topology.roots@.len() ==> topology.depths@[(
            #[trigger] topology.roots@[i]) as int] == 0,
{
    let child = topology.kids()[parent as int][k];
    assert(topology.kids()[parent as int] == children_in(sources, targets, parent));
    assert(children_in(sources, targets, parent).contains(child));
    lemma_children(sources, targets, parent, child);
    assert(child < node_count);
    assert(topology.depths@[child as int] == topology.depths@[parent as int] + 1);
    assert forall|i: int| 0 <= i < topology.roots@.len() implies topology.depths@[(
    #[trigger] topology.roots@[i]) as int] == 0 by {
        let root = topology.roots@[i];
        assert(topology.roots@.contains(root));
        lemma_roots(targets, node_count, root);
        lemma_parent_exists(sources, targets, root);
        assert(topology.depths@[root as int] == 0);
    }
}

} // verus!
