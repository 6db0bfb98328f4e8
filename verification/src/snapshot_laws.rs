//! What a snapshot shows of its database.

use vstd::arithmetic::div_mod::*;
use vstd::prelude::*;

use crate::graph::{EdgeRecord, GraphData, NodeRecord, Property, ValueView};
use crate::scene;
use crate::scene::{SceneSnapshot, SnapshotOptions};
use crate::snapshot;
use crate::snapshot::{with_endpoints, with_nodes};

verus! {

/// A limit, held at one: a snapshot has room for one of each at least.
pub open spec fn room(limit: usize) -> nat {
    if limit == 0 {
        1
    } else {
        limit as nat
    }
}

/// Whether shown properties are the stored ones, in order: the same values
/// under the spelled keys.
pub open spec fn shows_properties(
    g: GraphData,
    shown: Seq<(Seq<char>, ValueView)>,
    stored: Seq<Property>,
) -> bool {
    &&& shown.len() == stored.len()
    &&& forall|p: int|
        0 <= p < stored.len() ==> (#[trigger] shown[p]).1 == stored[p].value@ && (stored[p].key
            < g.symbols@.len() ==> shown[p].0 == g.symbols@[stored[p].key as int]@)
}

/// Every row of a snapshot shows a stored node: its id, its label, its
/// vectors and its properties. Rows come in the order of the ids.
pub proof fn law_rows_show_stored_nodes(g: GraphData, options: SnapshotOptions, s: SceneSnapshot, i: int)
    requires
        g.wf(),
        g.is_snapshot(options, s),
        0 <= i < s.nodes.ids@.len(),
    ensures
        exists|k: int|
            0 <= k < g.nodes@.len() && {
                let node = #[trigger] g.nodes@[k];
                &&& s.nodes.ids@[i] == node.id
                &&& node.label < g.symbols@.len() ==> s.nodes.labels@[i]@
                    == g.symbols@[node.label as int]@
                &&& s.nodes.vector_counts@[i] == node.vector_count
                &&& shows_properties(
                    g,
                    scene::properties_view(s.nodes.properties@[i]@),
                    node.properties@,
                )
            },
        forall|j: int| 0 <= j < i ==> (#[trigger] s.nodes.ids@[j]) < s.nodes.ids@[i],
{
    let sel = g.selected(options);
    let rows = g.kept_nodes(sel, g.nodes@.len());
    g.lemma_kept_nodes(sel, g.nodes@.len());
    assert(g.node_row(s.nodes, i, rows[i]));
    let node = g.nodes@[rows[i]];
    assert(s.nodes.ids@[i] == node.id);
}

/// Every relationship of a snapshot is a stored one, with its label, and joins
/// the rows of the nodes that it is stored to lead from and to.
pub proof fn law_rows_show_stored_relationships(
    g: GraphData,
    options: SnapshotOptions,
    s: SceneSnapshot,
    e: int,
)
    requires
        g.wf(),
        g.is_snapshot(options, s),
        0 <= e < s.edges.ids@.len(),
    ensures
        exists|k: int|
            0 <= k < g.edges@.len() && {
                let edge = #[trigger] g.edges@[k];
                &&& s.edges.ids@[e] == edge.id
                &&& s.nodes.ids@[s.edges.sources@[e] as int] == edge.source
                &&& s.nodes.ids@[s.edges.targets@[e] as int] == edge.target
                &&& edge.label < g.symbols@.len() ==> s.edges.labels@[e]@
                    == g.symbols@[edge.label as int]@
                &&& s.edges.vector_counts@[e] == edge.vector_count
                &&& shows_properties(
                    g,
                    scene::properties_view(s.edges.properties@[e]@),
                    edge.properties@,
                )
            },
{
    let sel = g.selected(options);
    let limit = snapshot::positive(options.max_edges as nat);
    let kept = g.kept_edges(sel, limit, g.edges@.len());
    g.lemma_kept_edges(sel, limit, g.edges@.len());
    assert(g.edge_row(s.nodes.ids@, s.edges, e, kept[e]));
    let edge = g.edges@[kept[e]];
    assert(s.edges.ids@[e] == edge.id);
}

proof fn lemma_kept_or_full(g: GraphData, sel: Set<u64>, limit: nat, upto: nat)
    requires
        upto <= g.edges@.len(),
    ensures
        g.kept_edges(sel, limit, upto).len() < limit ==> forall|k: int|
            0 <= k < upto && sel.contains((#[trigger] g.edges@[k]).source) && sel.contains(
                g.edges@[k].target,
            ) ==> g.kept_edges(sel, limit, upto).contains(k),
    decreases upto,
{
    if upto > 0 {
        lemma_kept_or_full(g, sel, limit, (upto - 1) as nat);
        let before = g.kept_edges(sel, limit, (upto - 1) as nat);
        let now = g.kept_edges(sel, limit, upto);
        if now.len() < limit {
            assert forall|k: int|
                0 <= k < upto && sel.contains((#[trigger] g.edges@[k]).source) && sel.contains(
                    g.edges@[k].target,
                ) implies now.contains(k) by {
                if k == upto - 1 {
                    assert(now.last() == k);
                } else {
                    let i = choose|i: int| 0 <= i < before.len() && before[i] == k;
                    assert(now[i] == k);
                }
            }
        }
    }
}

proof fn lemma_shown_is_selected(
    g: GraphData,
    options: SnapshotOptions,
    s: SceneSnapshot,
    id: u64,
)
    requires
        g.wf(),
        g.is_snapshot(options, s),
    ensures
        s.nodes.ids@.contains(id) <==> g.selected(options).contains(id),
{
    let sel = g.selected(options);
    let rows = g.kept_nodes(sel, g.nodes@.len());
    g.lemma_kept_nodes(sel, g.nodes@.len());
    g.lemma_selection_stored(options);
    if s.nodes.ids@.contains(id) {
        let r = choose|r: int| 0 <= r < s.nodes.ids@.len() && s.nodes.ids@[r] == id;
        assert(g.node_row(s.nodes, r, rows[r]));
    }
    if sel.contains(id) {
        assert(g.node_ids().contains(id));
        let k = choose|k: int| 0 <= k < g.nodes@.len() && (#[trigger] g.nodes@[k]).id == id;
        assert(rows.contains(k));
        let r = choose|r: int| 0 <= r < rows.len() && rows[r] == k;
        assert(g.node_row(s.nodes, r, rows[r]));
        assert(s.nodes.ids@[r] == id);
    }
}

/// While there is room for relationships, every stored one between shown nodes
/// is shown.
pub proof fn law_relationships_between_shown_nodes_are_shown(
    g: GraphData,
    options: SnapshotOptions,
    s: SceneSnapshot,
    k: int,
)
    requires
        g.wf(),
        g.is_snapshot(options, s),
        s.edges.ids@.len() < room(options.max_edges),
        0 <= k < g.edges@.len(),
        s.nodes.ids@.contains(g.edges@[k].source),
        s.nodes.ids@.contains(g.edges@[k].target),
    ensures
        s.edges.ids@.contains(g.edges@[k].id),
{
    let sel = g.selected(options);
    let limit = snapshot::positive(options.max_edges as nat);
    let kept = g.kept_edges(sel, limit, g.edges@.len());
    g.lemma_kept_edges(sel, limit, g.edges@.len());
    lemma_shown_is_selected(g, options, s, g.edges@[k].source);
    lemma_shown_is_selected(g, options, s, g.edges@[k].target);
    lemma_kept_or_full(g, sel, limit, g.edges@.len());
    assert(kept.contains(k));
    let e = choose|e: int| 0 <= e < kept.len() && kept[e] == k;
    assert(g.edge_row(s.nodes.ids@, s.edges, e, kept[e]));
    assert(s.edges.ids@[e] == g.edges@[k].id);
}

/// A snapshot says of itself that it is a sample where, and only where, it
/// shows fewer nodes or relationships than the database counts. It bears the
/// name of the file and the revision of the database.
pub proof fn law_samples_say_so(g: GraphData, options: SnapshotOptions, s: SceneSnapshot)
    requires
        g.is_snapshot(options, s),
    ensures
        s.sampled <==> s.nodes.ids@.len() < g.stats.nodes || s.edges.ids@.len() < g.stats.edges,
        s.revision == g.stats.transactions,
        g.file_name matches Some(name) ==> s.database_name@ == name@,
        s.source_stats == g.stats,
{
}

proof fn lemma_incidence(sources: Seq<u32>, targets: Seq<u32>, node: int, upto: nat)
    requires
        upto <= sources.len(),
        sources.len() == targets.len(),
    ensures
        snapshot::incidence(sources, targets, node, upto) == sources.take(upto as int).filter(
            |x: u32| x == node,
        ).len() + targets.take(upto as int).filter(|x: u32| x == node).len(),
    decreases upto,
{
    reveal(Seq::filter);
    if upto > 0 {
        lemma_incidence(sources, targets, node, (upto - 1) as nat);
        assert(sources.take(upto as int).drop_last() =~= sources.take(upto - 1));
        assert(targets.take(upto as int).drop_last() =~= targets.take(upto - 1));
    }
}

/// The degree of a node is how often it is the end of a shown relationship.
pub proof fn law_degrees_count_the_ends(
    g: GraphData,
    options: SnapshotOptions,
    s: SceneSnapshot,
    i: int,
)
    requires
        g.is_snapshot(options, s),
        0 <= i < s.nodes.ids@.len(),
        2 * s.edges.ids@.len() <= u32::MAX,
    ensures
        s.nodes.degrees@[i] == s.edges.sources@.filter(|x: u32| x == i).len()
            + s.edges.targets@.filter(|x: u32| x == i).len(),
{
    let n = s.edges.sources@.len();
    lemma_incidence(s.edges.sources@, s.edges.targets@, i, n);
    assert(s.edges.sources@.take(n as int) =~= s.edges.sources@);
    assert(s.edges.targets@.take(n as int) =~= s.edges.targets@);
    s.edges.sources@.lemma_filter_len(|x: u32| x == i);
    s.edges.targets@.lemma_filter_len(|x: u32| x == i);
}

proof fn lemma_endpoints_keep(
    stored: Set<u64>,
    selected: Set<u64>,
    edges: Seq<EdgeRecord>,
    at: int,
    stride: int,
    limit: nat,
)
    ensures
        selected.subset_of(with_endpoints(stored, selected, edges, at, stride, limit)),
    decreases
            (if at < edges.len() {
                edges.len() - at
            } else {
                0
            }),
{
    if at < 0 || at >= edges.len() || stride <= 0 {
    } else {
        let next = selected.insert(edges[at].source).insert(edges[at].target);
        lemma_endpoints_keep(stored, selected, edges, at + stride, stride, limit);
        lemma_endpoints_keep(stored, next, edges, at + stride, stride, limit);
    }
}

proof fn lemma_nodes_keep(
    selected: Set<u64>,
    nodes: Seq<NodeRecord>,
    at: int,
    stride: int,
    limit: nat,
)
    ensures
        selected.subset_of(with_nodes(selected, nodes, at, stride, limit)),
        0 <= at < nodes.len() && stride > 0 ==> with_nodes(
            selected,
            nodes,
            at,
            stride,
            limit,
        ).contains(nodes[at].id),
    decreases
            (if at < nodes.len() {
                nodes.len() - at
            } else {
                0
            }),
{
    if at < 0 || at >= nodes.len() || stride <= 0 {
    } else {
        lemma_nodes_keep(selected.insert(nodes[at].id), nodes, at + stride, stride, limit);
    }
}

/// A snapshot of a database that has nodes shows one at least.
pub proof fn law_snapshot_is_never_empty(g: GraphData, options: SnapshotOptions, s: SceneSnapshot)
    requires
        g.wf(),
        g.is_snapshot(options, s),
        g.nodes@.len() > 0,
    ensures
        s.nodes.ids@.len() > 0,
{
    let node_limit = snapshot::positive(options.max_nodes as nat);
    let sel = g.selected(options);
    assert(g.has_node(g.nodes@[0].id));
    if g.nodes@.len() <= node_limit {
        assert(sel.contains(g.nodes@[0].id));
        lemma_shown_is_selected(g, options, s, g.nodes@[0].id);
    } else {
        let stride = snapshot::positive(
            snapshot::div_ceil(g.edges@.len(), snapshot::positive(options.max_edges as nat)),
        );
        let connected = with_endpoints(
            g.node_ids(),
            Set::empty(),
            g.edges@,
            0,
            stride as int,
            node_limit,
        );
        if connected.len() < node_limit {
            let fill = snapshot::positive(
                snapshot::div_ceil(g.nodes@.len(), (node_limit - connected.len()) as nat),
            );
            lemma_nodes_keep(connected, g.nodes@, 0, fill as int, node_limit);
            lemma_shown_is_selected(g, options, s, g.nodes@[0].id);
        } else {
            let id = connected.choose();
            assert(connected.contains(id));
            lemma_shown_is_selected(g, options, s, id);
        }
    }
}

proof fn lemma_nodes_reached(
    selected: Set<u64>,
    nodes: Seq<NodeRecord>,
    at: int,
    stride: int,
    limit: nat,
    turns: nat,
    i: nat,
)
    requires
        selected.finite(),
        selected.len() + turns <= limit,
        stride > 0,
        0 <= at,
        at + turns * stride >= nodes.len(),
        at + i * stride < nodes.len(),
    ensures
        with_nodes(selected, nodes, at, stride, limit).contains(nodes[at + i * stride].id),
    decreases turns,
{
    assert(i * stride >= 0) by (nonlinear_arith)
        requires
            stride > 0,
            i >= 0,
    ;
    assert(turns > i) by (nonlinear_arith)
        requires
            turns * stride > i * stride,
            stride > 0,
    ;
    lemma_nodes_keep(selected, nodes, at, stride, limit);
    if i == 0 {
        assert(i * stride == 0) by (nonlinear_arith)
            requires
                i == 0,
        ;
    } else {
        let next = selected.insert(nodes[at].id);
        let left = (turns - 1) as nat;
        assert(turns * stride == left * stride + stride) by (nonlinear_arith)
            requires
                turns == left + 1,
        ;
        assert(i * stride == (i - 1) * stride + stride) by (nonlinear_arith);
        lemma_nodes_reached(next, nodes, at + stride, stride, limit, left, (i - 1) as nat);
    }
}

proof fn lemma_only_multiples(
    selected: Set<u64>,
    nodes: Seq<NodeRecord>,
    at: int,
    stride: int,
    limit: nat,
    id: u64,
)
    requires
        stride > 0,
        0 <= at,
        at % stride == 0,
        with_nodes(selected, nodes, at, stride, limit).contains(id),
    ensures
        selected.contains(id) || exists|k: int|
            0 <= k < nodes.len() && k % stride == 0 && (#[trigger] nodes[k]).id == id,
    decreases
            (if at < nodes.len() {
                nodes.len() - at
            } else {
                0
            }),
{
    if at < nodes.len() {
        let next = selected.insert(nodes[at].id);
        if next.len() != limit {
            lemma_mod_add_multiples_vanish(at, stride);
            assert((at + stride) % stride == 0);
            lemma_only_multiples(next, nodes, at + stride, stride, limit, id);
        }
        if id == nodes[at].id {
            assert(nodes[at].id == id);
        }
    }
}

proof fn lemma_rows_are_multiples(g: GraphData, sel: Set<u64>, stride: int, upto: nat)
    requires
        stride > 0,
        upto <= g.nodes@.len(),
        forall|k: int|
            0 <= k < g.nodes@.len() ==> (sel.contains((#[trigger] g.nodes@[k]).id) <==> k % stride
                == 0),
    ensures
        forall|i: int|
            0 <= i < g.kept_nodes(sel, upto).len() ==> (#[trigger] g.kept_nodes(sel, upto)[i]) == i
                * stride,
        (g.kept_nodes(sel, upto).len() - 1) * stride < upto,
        g.kept_nodes(sel, upto).len() * stride >= upto,
    decreases upto,
{
    let now = g.kept_nodes(sel, upto);
    if upto > 0 {
        let k = upto - 1;
        lemma_rows_are_multiples(g, sel, stride, k as nat);
        let before = g.kept_nodes(sel, k as nat);
        let m = before.len() as int;
        assert(sel.contains(g.nodes@[k].id) <==> k % stride == 0);
        lemma_fundamental_div_mod(k, stride);
        if k % stride == 0 {
            let q = k / stride;
            assert(q == m) by (nonlinear_arith)
                requires
                    k == stride * q,
                    (m - 1) * stride < k,
                    m * stride >= k,
                    stride > 0,
            ;
            assert(m * stride == k) by (nonlinear_arith)
                requires
                    k == stride * q,
                    q == m,
            ;
            assert((m + 1) * stride == k + stride) by (nonlinear_arith)
                requires
                    m * stride == k,
            ;
            assert(now.len() == m + 1);
        } else {
            if m * stride == k {
                lemma_mod_multiples_basic(m, stride);
            }
        }
    } else {
        assert(now.len() == 0);
        assert((now.len() - 1) * stride < 0) by (nonlinear_arith)
            requires
                now.len() == 0,
                stride > 0,
        ;
        assert(now.len() * stride == 0) by (nonlinear_arith)
            requires
                now.len() == 0,
        ;
    }
}

proof fn lemma_stride_is_quotient(n: nat, limit: nat, stride: nat)
    requires
        limit > 0,
        n > 0,
        stride * limit >= n,
        (stride - 1) * limit < n,
    ensures
        snapshot::positive(snapshot::div_ceil(n, limit)) == stride,
{
    let q = n / limit;
    let r = n % limit;
    lemma_fundamental_div_mod(n as int, limit as int);
    assert(if r == 0 {
        stride == q
    } else {
        stride == q + 1
    }) by (nonlinear_arith)
        requires
            n == limit * q + r,
            0 <= r < limit,
            stride * limit >= n,
            (stride - 1) * limit < n,
    ;
    if r == 0 {
        assert(q > 0) by (nonlinear_arith)
            requires
                n == limit * q,
                n > 0,
        ;
    }
}

/// A database without relationships and with more nodes than there is room
/// for is shown by every `stride`-th node, `stride` being the least with which
/// they fit.
pub proof fn law_unrelated_nodes_are_shown_at_a_stride(
    g: GraphData,
    options: SnapshotOptions,
    s: SceneSnapshot,
    stride: nat,
    i: nat,
)
    requires
        g.wf(),
        g.is_snapshot(options, s),
        g.edges@.len() == 0,
        g.nodes@.len() > room(options.max_nodes),
        stride * room(options.max_nodes) >= g.nodes@.len(),
        (stride - 1) * room(options.max_nodes) < g.nodes@.len(),
        i * stride < g.nodes@.len(),
    ensures
        i < s.nodes.ids@.len(),
        s.nodes.ids@[i as int] == g.nodes@[(i * stride) as int].id,
        s.nodes.ids@.len() * stride >= g.nodes@.len(),
        (s.nodes.ids@.len() - 1) * stride < g.nodes@.len(),
{
    let limit = room(options.max_nodes);
    let n = g.nodes@.len();
    let sel = g.selected(options);
    let none = Set::<u64>::empty();
    let step = stride as int;
    assert(stride > 0) by (nonlinear_arith)
        requires
            stride * limit >= n,
            n > 0,
    ;
    lemma_stride_is_quotient(n, limit, stride);
    assert(sel == with_nodes(none, g.nodes@, 0, step, limit));
    assert forall|k: int| 0 <= k < n implies (sel.contains((#[trigger] g.nodes@[k]).id) <==> k % step
        == 0) by {
        if k % step == 0 {
            let q = (k / step) as nat;
            lemma_fundamental_div_mod(k, step);
            assert(q * step == k) by (nonlinear_arith)
                requires
                    k == step * (k / step),
                    q == k / step,
            ;
            assert(limit * step >= n) by (nonlinear_arith)
                requires
                    stride * limit >= n,
                    step == stride,
            ;
            lemma_nodes_reached(none, g.nodes@, 0, step, limit, limit, q);
        }
        if sel.contains(g.nodes@[k].id) {
            lemma_small_mod(0, stride);
            lemma_only_multiples(none, g.nodes@, 0, step, limit, g.nodes@[k].id);
            let m = choose|m: int|
                0 <= m < n && m % step == 0 && (#[trigger] g.nodes@[m]).id == g.nodes@[k].id;
            assert(m == k);
        }
    }
    lemma_rows_are_multiples(g, sel, step, n);
    let rows = g.kept_nodes(sel, n);
    assert(i < rows.len()) by (nonlinear_arith)
        requires
            rows.len() * step >= n,
            i * stride < n,
            step == stride,
            stride > 0,
    ;
    assert(rows[i as int] == i * step);
    assert(g.node_row(s.nodes, i as int, rows[i as int]));
}

/// Where the sampled relationships leave room for nodes, the room is filled at
/// a stable stride: `ends` being what the relationships take, every
/// `stride`-th node is shown, for the least stride with which they fit.
pub proof fn law_free_room_is_filled_at_a_stride(
    g: GraphData,
    options: SnapshotOptions,
    s: SceneSnapshot,
    edge_stride: nat,
    stride: nat,
    i: nat,
)
    requires
        g.wf(),
        g.is_snapshot(options, s),
        g.nodes@.len() > room(options.max_nodes),
        g.edges@.len() > 0,
        edge_stride * room(options.max_edges) >= g.edges@.len(),
        (edge_stride - 1) * room(options.max_edges) < g.edges@.len(),
        ({
            let ends = with_endpoints(
                g.node_ids(),
                Set::empty(),
                g.edges@,
                0,
                edge_stride as int,
                room(options.max_nodes),
            ).len();
            let free = room(options.max_nodes) - ends;
            &&& free > 0
            &&& stride * free >= g.nodes@.len()
            &&& (stride - 1) * free < g.nodes@.len()
        }),
        i * stride < g.nodes@.len(),
    ensures
        s.nodes.ids@.contains(g.nodes@[(i * stride) as int].id),
{
    let limit = room(options.max_nodes);
    lemma_stride_is_quotient(g.edges@.len(), room(options.max_edges), edge_stride);
    let connected = with_endpoints(
        g.node_ids(),
        Set::empty(),
        g.edges@,
        0,
        edge_stride as int,
        limit,
    );
    snapshot::lemma_endpoints_bounded(
        g.node_ids(),
        Set::empty(),
        g.edges@,
        0,
        edge_stride as int,
        limit,
    );
    let free = (limit - connected.len()) as nat;
    let n = g.nodes@.len();
    lemma_stride_is_quotient(n, free, stride);
    let step = stride as int;
    assert(stride > 0) by (nonlinear_arith)
        requires
            stride * free >= n,
            n > 0,
    ;
    assert(free * step >= n) by (nonlinear_arith)
        requires
            stride * free >= n,
            step == stride,
    ;
    lemma_nodes_reached(connected, g.nodes@, 0, step, limit, free, i);
    assert((i * step) == i * stride);
    lemma_shown_is_selected(g, options, s, g.nodes@[(i * stride) as int].id);
}

proof fn lemma_all_ends(
    stored: Set<u64>,
    selected: Set<u64>,
    edges: Seq<EdgeRecord>,
    at: int,
    limit: nat,
    k: int,
)
    requires
        selected.finite(),
        0 <= at <= k < edges.len(),
        selected.len() + 2 * (edges.len() - at) <= limit,
        stored.contains(edges[k].source),
        stored.contains(edges[k].target),
    ensures
        with_endpoints(stored, selected, edges, at, 1, limit).contains(edges[k].source),
        with_endpoints(stored, selected, edges, at, 1, limit).contains(edges[k].target),
    decreases edges.len() - at,
{
    let next = selected.insert(edges[at].source).insert(edges[at].target);
    if k == at {
        lemma_endpoints_keep(stored, next, edges, at + 1, 1, limit);
    } else {
        lemma_all_ends(stored, selected, edges, at + 1, limit, k);
        lemma_all_ends(stored, next, edges, at + 1, limit, k);
    }
}

/// Where the ends of all relationships fit, every relationship between stored
/// nodes is shown, however many other nodes there are.
pub proof fn law_few_relationships_are_all_shown(
    g: GraphData,
    options: SnapshotOptions,
    s: SceneSnapshot,
    k: int,
)
    requires
        g.wf(),
        g.is_snapshot(options, s),
        2 * g.edges@.len() <= room(options.max_nodes),
        g.edges@.len() < room(options.max_edges),
        0 <= k < g.edges@.len(),
        g.has_node(g.edges@[k].source),
        g.has_node(g.edges@[k].target),
    ensures
        s.edges.ids@.contains(g.edges@[k].id),
{
    let limit = room(options.max_nodes);
    let sel = g.selected(options);
    if g.nodes@.len() > limit {
        assert(1 * room(options.max_edges) >= g.edges@.len());
        lemma_stride_is_quotient(g.edges@.len(), room(options.max_edges), 1);
        lemma_all_ends(g.node_ids(), Set::empty(), g.edges@, 0, limit, k);
        let connected = with_endpoints(g.node_ids(), Set::empty(), g.edges@, 0, 1, limit);
        if connected.len() < limit {
            let fill = snapshot::positive(
                snapshot::div_ceil(g.nodes@.len(), (limit - connected.len()) as nat),
            );
            lemma_nodes_keep(connected, g.nodes@, 0, fill as int, limit);
        }
    }
    assert(sel.contains(g.edges@[k].source) && sel.contains(g.edges@[k].target));
    lemma_shown_is_selected(g, options, s, g.edges@[k].source);
    lemma_shown_is_selected(g, options, s, g.edges@[k].target);
    g.lemma_kept_edges(sel, snapshot::positive(options.max_edges as nat), g.edges@.len());
    law_relationships_between_shown_nodes_are_shown(g, options, s, k);
}

/// Where there is room for two nodes, the first relationship between stored
/// nodes is shown with both its ends.
pub proof fn law_first_relationship_is_shown(g: GraphData, options: SnapshotOptions, s: SceneSnapshot)
    requires
        g.wf(),
        g.is_snapshot(options, s),
        options.max_nodes >= 2,
        g.edges@.len() > 0,
        g.has_node(g.edges@[0].source),
        g.has_node(g.edges@[0].target),
    ensures
        s.nodes.ids@.contains(g.edges@[0].source),
        s.nodes.ids@.contains(g.edges@[0].target),
        s.edges.ids@.len() > 0,
        s.edges.ids@[0] == g.edges@[0].id,
{
    let limit = room(options.max_nodes);
    let sel = g.selected(options);
    let none = Set::<u64>::empty();
    let edge = g.edges@[0];
    let next = none.insert(edge.source).insert(edge.target);
    if g.nodes@.len() > limit {
        let stride = snapshot::positive(
            snapshot::div_ceil(g.edges@.len(), snapshot::positive(options.max_edges as nat)),
        ) as int;
        lemma_endpoints_keep(g.node_ids(), next, g.edges@, stride, stride, limit);
        let connected = with_endpoints(g.node_ids(), none, g.edges@, 0, stride, limit);
        assert(connected.contains(edge.source) && connected.contains(edge.target));
        if connected.len() < limit {
            let fill = snapshot::positive(
                snapshot::div_ceil(g.nodes@.len(), (limit - connected.len()) as nat),
            );
            lemma_nodes_keep(connected, g.nodes@, 0, fill as int, limit);
        }
    }
    assert(sel.contains(edge.source) && sel.contains(edge.target));
    lemma_shown_is_selected(g, options, s, edge.source);
    lemma_shown_is_selected(g, options, s, edge.target);
    let most = snapshot::positive(options.max_edges as nat);
    lemma_first_kept(g, sel, most, g.edges@.len());
    let kept = g.kept_edges(sel, most, g.edges@.len());
    assert(g.edge_row(s.nodes.ids@, s.edges, 0, kept[0]));
}

proof fn lemma_first_kept(g: GraphData, sel: Set<u64>, limit: nat, upto: nat)
    requires
        0 < upto <= g.edges@.len(),
        limit > 0,
        sel.contains(g.edges@[0].source),
        sel.contains(g.edges@[0].target),
    ensures
        g.kept_edges(sel, limit, upto).len() > 0,
        g.kept_edges(sel, limit, upto)[0] == 0,
    decreases upto,
{
    if upto > 1 {
        lemma_first_kept(g, sel, limit, (upto - 1) as nat);
    } else {
        assert(g.kept_edges(sel, limit, 0) =~= Seq::<int>::empty());
    }
}

/// A snapshot stays within the room that its options give it.
pub proof fn law_snapshot_stays_within_its_room(
    g: GraphData,
    options: SnapshotOptions,
    s: SceneSnapshot,
)
    requires
        g.wf(),
        g.is_snapshot(options, s),
    ensures
        s.nodes.ids@.len() <= room(options.max_nodes),
        s.edges.ids@.len() <= room(options.max_edges),
{
    snapshot::law_snapshot_is_bounded(g, options, s);
}

} // verus!
