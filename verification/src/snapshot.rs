//! Sampling a database into a bounded snapshot.

use std::collections::HashSet;
use vstd::prelude::*;
use vstd::string::*;

use crate::graph::{EdgeRecord, GraphData, NodeRecord, Property, ValueView};
use crate::scene;
use crate::scene::{
    search_ids, Rect, SceneEdges, SceneNodes, SceneProperty, SceneSnapshot, SnapshotOptions, Vec2,
};

verus! {

broadcast use vstd::std_specs::hash::group_hash_axioms;

impl GraphData {
    /// Ids strictly ascend, and node positions fit the snapshot's endpoint
    /// columns.
    pub open spec fn wf(self) -> bool {
        &&& forall|i: int, j: int|
            0 <= i < j < self.nodes@.len() ==> (#[trigger] self.nodes@[i]).id < (
            #[trigger] self.nodes@[j]).id
        &&& forall|i: int, j: int|
            0 <= i < j < self.edges@.len() ==> (#[trigger] self.edges@[i]).id < (
            #[trigger] self.edges@[j]).id
        &&& self.nodes@.len() <= u32::MAX
    }

    /// Whether a node with the id is stored.
    pub open spec fn has_node(self, id: u64) -> bool {
        exists|i: int| 0 <= i < self.nodes@.len() && (#[trigger] self.nodes@[i]).id == id
    }

    /// Whether a relationship joins stored nodes.
    pub open spec fn joined(self, edge: EdgeRecord) -> bool {
        self.has_node(edge.source) && self.has_node(edge.target)
    }

    /// The ids of the stored nodes.
    pub open spec fn node_ids(self) -> Set<u64> {
        Set::new(|id: u64| self.has_node(id))
    }
}

pub open spec fn positive(n: nat) -> nat {
    if n == 0 {
        1
    } else {
        n
    }
}

/// The quotient rounded up.
pub open spec fn div_ceil(n: nat, d: nat) -> nat
    recommends
        d > 0,
{
    if n % d == 0 {
        n / d
    } else {
        n / d + 1
    }
}

/// Every `stride`-th relationship from `at` on contributes both endpoints
/// where they are stored and fit, until the limit is met.
pub open spec fn with_endpoints(
    stored: Set<u64>,
    selected: Set<u64>,
    edges: Seq<EdgeRecord>,
    at: int,
    stride: int,
    limit: nat,
) -> Set<u64>
    decreases
            (if at < edges.len() {
                edges.len() - at
            } else {
                0
            }),
{
    if at < 0 || at >= edges.len() || stride <= 0 {
        selected
    } else {
        let needed: nat = (if selected.contains(edges[at].source) {
            0nat
        } else {
            1
        }) + (if selected.contains(edges[at].target) {
            0nat
        } else {
            1
        });
        let next = if stored.contains(edges[at].source) && stored.contains(edges[at].target)
            && selected.len() + needed <= limit {
            selected.insert(edges[at].source).insert(edges[at].target)
        } else {
            selected
        };
        if next.len() == limit {
            next
        } else {
            with_endpoints(stored, next, edges, at + stride, stride, limit)
        }
    }
}

/// Every `stride`-th node from `at` on is added until the limit is met.
pub open spec fn with_nodes(
    selected: Set<u64>,
    nodes: Seq<NodeRecord>,
    at: int,
    stride: int,
    limit: nat,
) -> Set<u64>
    decreases
            (if at < nodes.len() {
                nodes.len() - at
            } else {
                0
            }),
{
    if at < 0 || at >= nodes.len() || stride <= 0 {
        selected
    } else {
        let next = selected.insert(nodes[at].id);
        if next.len() == limit {
            next
        } else {
            with_nodes(next, nodes, at + stride, stride, limit)
        }
    }
}

impl GraphData {
    /// The nodes that a snapshot keeps: all of them where they fit, else a
    /// connected sample of relationship endpoints at a stable stride, filled
    /// up with nodes at a stable stride.
    pub open spec fn selected(self, options: SnapshotOptions) -> Set<u64> {
        let node_limit = positive(options.max_nodes as nat);
        let edge_limit = positive(options.max_edges as nat);
        if self.nodes@.len() <= node_limit {
            self.node_ids()
        } else {
            let stride = positive(div_ceil(self.edges@.len(), edge_limit));
            let connected = with_endpoints(
                self.node_ids(),
                Set::empty(),
                self.edges@,
                0,
                stride as int,
                node_limit,
            );
            if connected.len() < node_limit {
                let fill = positive(
                    div_ceil(self.nodes@.len(), (node_limit - connected.len()) as nat),
                );
                with_nodes(connected, self.nodes@, 0, fill as int, node_limit)
            } else {
                connected
            }
        }
    }

    /// The positions below `upto` of the stored nodes whose ids are selected.
    pub open spec fn kept_nodes(self, selected: Set<u64>, upto: nat) -> Seq<int>
        decreases upto,
    {
        if upto == 0 {
            Seq::empty()
        } else {
            let before = self.kept_nodes(selected, (upto - 1) as nat);
            if selected.contains(self.nodes@[upto - 1].id) {
                before.push(upto - 1)
            } else {
                before
            }
        }
    }

    /// The positions below `upto` of the first `limit` relationships between
    /// selected nodes.
    pub open spec fn kept_edges(self, selected: Set<u64>, limit: nat, upto: nat) -> Seq<int>
        decreases upto,
    {
        if upto == 0 {
            Seq::empty()
        } else {
            let before = self.kept_edges(selected, limit, (upto - 1) as nat);
            let edge = self.edges@[upto - 1];
            if before.len() < limit && selected.contains(edge.source) && selected.contains(
                edge.target,
            ) {
                before.push(upto - 1)
            } else {
                before
            }
        }
    }

    /// Stored properties with their keys spelled out.
    pub open spec fn spelled(self, properties: Seq<Property>) -> Seq<(Seq<char>, ValueView)> {
        properties.map_values(
            |p: Property| (self.symbol_or(p.key, "Unknown"@), p.value@),
        )
    }

    /// Spells out the keys of stored properties.
    pub fn owned_properties(&self, properties: &Vec<Property>) -> (r: Vec<SceneProperty>)
        ensures
            scene::properties_view(r@) == self.spelled(properties@),
    {
        let mut out: Vec<SceneProperty> = Vec::new();
        let mut i: usize = 0;
        while i < properties.len()
            invariant
                i <= properties.len(),
                scene::properties_view(out@) == self.spelled(properties@).take(i as int),
            decreases properties.len() - i,
        {
            let ghost before = scene::properties_view(out@);
            let property = SceneProperty {
                key: self.symbol(properties[i].key, "Unknown"),
                value: properties[i].value.copied(),
            };
            let ghost view = property@;
            out.push(property);
            proof {
                assert(scene::properties_view(out@) =~= before.push(view));
                assert(self.spelled(properties@).take(i + 1) =~= self.spelled(properties@).take(
                    i as int,
                ).push(view));
            }
            i = i + 1;
        }
        assert(self.spelled(properties@).take(properties@.len() as int) =~= self.spelled(
            properties@,
        ));
        out
    }
}

/// How many of the first `upto` relationships start or end at a node, those
/// that do both counted twice.
pub open spec fn incidence(sources: Seq<u32>, targets: Seq<u32>, node: int, upto: nat) -> nat
    decreases upto,
{
    if upto == 0 {
        0
    } else {
        incidence(sources, targets, node, (upto - 1) as nat) + (if sources[upto - 1] == node {
            1nat
        } else {
            0
        }) + (if targets[upto - 1] == node {
            1nat
        } else {
            0
        })
    }
}

/// A count held at the largest 32-bit number.
pub open spec fn held(n: nat) -> u32 {
    if n <= u32::MAX {
        n as u32
    } else {
        u32::MAX
    }
}

/// Whether degrees count the endpoints of the relationships.
pub open spec fn degrees_match(degrees: Seq<u32>, sources: Seq<u32>, targets: Seq<u32>) -> bool {
    forall|i: int|
        0 <= i < degrees.len() ==> #[trigger] degrees[i] == held(
            incidence(sources, targets, i, sources.len()),
        )
}

/// Counts the relationships of every node.
pub fn count_degrees(node_count: usize, sources: &Vec<u32>, targets: &Vec<u32>) -> (r: Vec<u32>)
    requires
        sources@.len() == targets@.len(),
        forall|e: int| 0 <= e < sources@.len() ==> (#[trigger] sources@[e]) < node_count,
        forall|e: int| 0 <= e < targets@.len() ==> (#[trigger] targets@[e]) < node_count,
    ensures
        r@.len() == node_count,
        degrees_match(r@, sources@, targets@),
{
    let mut degrees: Vec<u32> = Vec::new();
    let mut i: usize = 0;
    while i < node_count
        invariant
            i <= node_count,
            degrees@.len() == i,
            forall|j: int| 0 <= j < i ==> #[trigger] degrees@[j] == 0,
        decreases node_count - i,
    {
        degrees.push(0);
        i = i + 1;
    }
    let mut e: usize = 0;
    while e < sources.len()
        invariant
            e <= sources@.len() == targets@.len(),
            degrees@.len() == node_count,
            forall|e: int| 0 <= e < sources@.len() ==> (#[trigger] sources@[e]) < node_count,
            forall|e: int| 0 <= e < targets@.len() ==> (#[trigger] targets@[e]) < node_count,
            forall|j: int|
                0 <= j < node_count ==> #[trigger] degrees@[j] == held(
                    incidence(sources@, targets@, j, e as nat),
                ),
        decreases sources.len() - e,
    {
        let source: usize = sources[e] as usize;
        let target: usize = targets[e] as usize;
        let ghost before = degrees@;
        let up: u32 = degrees[source].saturating_add(1);
        degrees.set(source, up);
        let up: u32 = degrees[target].saturating_add(1);
        degrees.set(target, up);
        proof {
            assert forall|j: int| 0 <= j < node_count implies #[trigger] degrees@[j] == held(
                incidence(sources@, targets@, j, (e + 1) as nat),
            ) by {
                assert(before[j] == held(incidence(sources@, targets@, j, e as nat)));
            }
        }
        e = e + 1;
    }
    degrees
}

/// The square from (-1, -1) to (1, 1).
pub open spec fn unit_square() -> Rect {
    Rect {
        min: Vec2 { x: 0xbf80_0000, y: 0xbf80_0000 },
        max: Vec2 { x: 0x3f80_0000, y: 0x3f80_0000 },
    }
}

impl GraphData {
    /// Whether row `i` of the columns shows the stored node at `k`.
    pub open spec fn node_row(self, columns: SceneNodes, i: int, k: int) -> bool {
        let node = self.nodes@[k];
        &&& columns.ids@[i] == node.id
        &&& columns.labels@[i]@ == self.symbol_or(node.label, "Unknown"@)
        &&& columns.vector_counts@[i] == node.vector_count
        &&& scene::properties_view(columns.properties@[i]@) == self.spelled(node.properties@)
        &&& columns.positions@[i] == (Vec2 { x: 0, y: 0 })
    }

    /// Whether row `i` of the columns shows the stored relationship at `k`,
    /// its endpoints being positions among `ids`.
    pub open spec fn edge_row(self, ids: Seq<u64>, columns: SceneEdges, i: int, k: int) -> bool {
        let edge = self.edges@[k];
        &&& columns.ids@[i] == edge.id
        &&& ids[columns.sources@[i] as int] == edge.source
        &&& ids[columns.targets@[i] as int] == edge.target
        &&& columns.labels@[i]@ == self.symbol_or(edge.label, "Unknown"@)
        &&& columns.vector_counts@[i] == edge.vector_count
        &&& scene::properties_view(columns.properties@[i]@) == self.spelled(edge.properties@)
    }

    /// What a snapshot of this database holds.
    pub open spec fn is_snapshot(self, options: SnapshotOptions, s: SceneSnapshot) -> bool {
        let selected = self.selected(options);
        let rows = self.kept_nodes(selected, self.nodes@.len());
        let kept = self.kept_edges(
            selected,
            positive(options.max_edges as nat),
            self.edges@.len(),
        );
        &&& s.wf()
        &&& s.revision == self.stats.transactions
        &&& s.database_name@ == match self.file_name {
            Some(name) => name@,
            None => "Untitled.vg"@,
        }
        &&& s.source_stats == self.stats
        &&& s.bounds == unit_square()
        &&& s.sampled == (rows.len() < self.stats.nodes || kept.len() < self.stats.edges)
        &&& s.nodes.ids@.len() == rows.len()
        &&& s.edges.ids@.len() == kept.len()
        &&& forall|i: int|
            0 <= i < rows.len() ==> #[trigger] self.node_row(s.nodes, i, rows[i])
        &&& forall|e: int|
            0 <= e < kept.len() ==> #[trigger] self.edge_row(s.nodes.ids@, s.edges, e, kept[e])
        &&& degrees_match(s.nodes.degrees@, s.edges.sources@, s.edges.targets@)
    }
}

fn rounded_up(n: usize, d: usize) -> (r: usize)
    requires
        d > 0,
    ensures
        r == positive(div_ceil(n as nat, d as nat)),
        r <= n || r == 1,
{
    let whole: usize = n / d;
    proof {
        assert(n == d * (n / d) + n % d) by (nonlinear_arith)
            requires
                d > 0,
        ;
        assert(n % d > 0 ==> n / d < n) by (nonlinear_arith)
            requires
                d > 0,
                n == d * (n / d) + n % d,
        ;
        assert(n / d <= n) by (nonlinear_arith)
            requires
                d > 0,
        ;
    }
    let up: usize = if n % d == 0 {
        whole
    } else {
        whole + 1
    };
    if up == 0 {
        1
    } else {
        up
    }
}

impl GraphData {
    fn select_all(&self) -> (r: HashSet<u64>)
        ensures
            r@ == self.node_ids(),
    {
        let mut selected: HashSet<u64> = HashSet::new();
        let mut i: usize = 0;
        while i < self.nodes.len()
            invariant
                i <= self.nodes.len(),
                forall|id: u64|
                    #[trigger] selected@.contains(id) <==> exists|k: int|
                        0 <= k < i && (#[trigger] self.nodes@[k]).id == id,
            decreases self.nodes.len() - i,
        {
            let ghost before = selected@;
            selected.insert(self.nodes[i].id);
            proof {
                assert forall|id: u64| #[trigger] selected@.contains(id) <==> exists|k: int|
                    0 <= k < i + 1 && (#[trigger] self.nodes@[k]).id == id by {
                    if id == self.nodes@[i as int].id {
                        assert(self.nodes@[i as int].id == id);
                    } else if before.contains(id) {
                        let k = choose|k: int| 0 <= k < i && (#[trigger] self.nodes@[k]).id == id;
                        assert(self.nodes@[k].id == id);
                    }
                }
            }
            i = i + 1;
        }
        proof {
            assert forall|id: u64| selected@.contains(id) == self.node_ids().contains(id) by {}
            assert(selected@ =~= self.node_ids());
        }
        selected
    }

    /// The endpoints that every `stride`-th relationship contributes.
    spec fn endpoints(self, stride: int, limit: nat) -> Set<u64> {
        with_endpoints(self.node_ids(), Set::empty(), self.edges@, 0, stride, limit)
    }

    fn select_endpoints(&self, stride: usize, limit: usize) -> (r: HashSet<u64>)
        requires
            stride > 0,
            limit > 0,
        ensures
            r@ == self.endpoints(stride as int, limit as nat),
            r@.finite(),
            r@.len() <= limit,
    {
        let stored = self.select_all();
        let mut selected: HashSet<u64> = HashSet::new();
        let mut at: usize = 0;
        let mut stop = self.edges.len() == 0;
        while !stop
            invariant
                stored@ == self.node_ids(),
                stride > 0,
                limit > 0,
                selected@.finite(),
                selected@.len() <= limit,
                !stop ==> at < self.edges.len() && selected@.len() < limit,
                !stop ==> self.endpoints(stride as int, limit as nat)
                    == with_endpoints(
                    self.node_ids(),
                    selected@,
                    self.edges@,
                    at as int,
                    stride as int,
                    limit as nat,
                ),
                stop ==> self.endpoints(stride as int, limit as nat)
                    == selected@,
            decreases self.edges.len() - at, !stop as int,
        {
            let edge = &self.edges[at];
            let ghost before = selected@;
            let has_source = selected.contains(&edge.source);
            let has_target = selected.contains(&edge.target);
            let room: usize = limit - selected.len();
            let needed: usize = (if has_source {
                0usize
            } else {
                1
            }) + (if has_target {
                0usize
            } else {
                1
            });
            if stored.contains(&edge.source) && stored.contains(&edge.target) && needed <= room {
                selected.insert(edge.source);
                selected.insert(edge.target);
            }
            proof {
                reveal_with_fuel(with_endpoints, 2);
            }
            if selected.len() == limit || stride >= self.edges.len() - at {
                stop = true;
            } else {
                at = at + stride;
            }
        }
        selected
    }

    fn select_fill(&self, selected: HashSet<u64>, stride: usize, limit: usize) -> (r: HashSet<u64>)
        requires
            stride > 0,
            selected@.finite(),
            selected@.len() < limit,
        ensures
            r@ == with_nodes(selected@, self.nodes@, 0, stride as int, limit as nat),
            r@.finite(),
            r@.len() <= limit,
    {
        let ghost start = selected@;
        let mut selected = selected;
        let mut at: usize = 0;
        let mut stop = self.nodes.len() == 0;
        while !stop
            invariant
                stride > 0,
                selected@.finite(),
                selected@.len() <= limit,
                !stop ==> at < self.nodes.len() && selected@.len() < limit,
                !stop ==> with_nodes(start, self.nodes@, 0, stride as int, limit as nat)
                    == with_nodes(
                    selected@,
                    self.nodes@,
                    at as int,
                    stride as int,
                    limit as nat,
                ),
                stop ==> with_nodes(start, self.nodes@, 0, stride as int, limit as nat)
                    == selected@,
            decreases self.nodes.len() - at, !stop as int,
        {
            selected.insert(self.nodes[at].id);
            proof {
                reveal_with_fuel(with_nodes, 2);
            }
            if selected.len() == limit || stride >= self.nodes.len() - at {
                stop = true;
            } else {
                at = at + stride;
            }
        }
        selected
    }

    fn select_ids(&self, options: SnapshotOptions) -> (r: HashSet<u64>)
        ensures
            r@ == self.selected(options),
    {
        let node_limit: usize = if options.max_nodes == 0 {
            1
        } else {
            options.max_nodes
        };
        let edge_limit: usize = if options.max_edges == 0 {
            1
        } else {
            options.max_edges
        };
        if self.nodes.len() <= node_limit {
            return self.select_all();
        }
        let stride: usize = rounded_up(self.edges.len(), edge_limit);
        let connected = self.select_endpoints(stride, node_limit);
        if connected.len() < node_limit {
            let remaining: usize = node_limit - connected.len();
            let fill: usize = rounded_up(self.nodes.len(), remaining);
            self.select_fill(connected, fill, node_limit)
        } else {
            connected
        }
    }
}

impl GraphData {
    proof fn lemma_selected_stored(
        self,
        selected: Set<u64>,
        at: int,
        stride: int,
        limit: nat,
    )
        requires
            selected.subset_of(self.node_ids()),
        ensures
            with_endpoints(
                self.node_ids(),
                selected,
                self.edges@,
                at,
                stride,
                limit,
            ).subset_of(self.node_ids()),
        decreases
                (if at < self.edges@.len() {
                    self.edges@.len() - at
                } else {
                    0
                }),
    {
        if at < 0 || at >= self.edges@.len() || stride <= 0 {
        } else {
            let edge = self.edges@[at];
            if self.joined(edge) {
                let next = selected.insert(edge.source).insert(edge.target);
                self.lemma_selected_stored(next, at + stride, stride, limit);
            }
            self.lemma_selected_stored(selected, at + stride, stride, limit);
        }
    }

    proof fn lemma_filled_stored(
        self,
        selected: Set<u64>,
        at: int,
        stride: int,
        limit: nat,
    )
        requires
            selected.subset_of(self.node_ids()),
        ensures
            with_nodes(selected, self.nodes@, at, stride, limit).subset_of(self.node_ids()),
        decreases
                (if at < self.nodes@.len() {
                    self.nodes@.len() - at
                } else {
                    0
                }),
    {
        if at < 0 || at >= self.nodes@.len() || stride <= 0 {
        } else {
            assert(self.has_node(self.nodes@[at].id));
            self.lemma_filled_stored(
                selected.insert(self.nodes@[at].id),
                at + stride,
                stride,
                limit,
            );
        }
    }

    pub(crate) proof fn lemma_kept_nodes(self, selected: Set<u64>, upto: nat)
        requires
            upto <= self.nodes@.len(),
        ensures
            self.kept_nodes(selected, upto).len() <= upto,
            forall|i: int|
                0 <= i < self.kept_nodes(selected, upto).len() ==> 0 <= (#[trigger] self.kept_nodes(
                    selected,
                    upto,
                )[i]) < upto,
            forall|i: int, j: int|
                0 <= i < j < self.kept_nodes(selected, upto).len() ==> (#[trigger] self.kept_nodes(
                    selected,
                    upto,
                )[i]) < (#[trigger] self.kept_nodes(selected, upto)[j]),
            forall|k: int|
                0 <= k < upto && selected.contains((#[trigger] self.nodes@[k]).id)
                    ==> self.kept_nodes(selected, upto).contains(k),
            forall|i: int|
                0 <= i < self.kept_nodes(selected, upto).len() ==> selected.contains(
                    self.nodes@[#[trigger] self.kept_nodes(selected, upto)[i]].id,
                ),
        decreases upto,
    {
        if upto > 0 {
            self.lemma_kept_nodes(selected, (upto - 1) as nat);
            let before = self.kept_nodes(selected, (upto - 1) as nat);
            let now = self.kept_nodes(selected, upto);
            assert forall|k: int| 0 <= k < upto && selected.contains(
                (#[trigger] self.nodes@[k]).id,
            ) implies now.contains(k) by {
                if k == upto - 1 {
                    assert(now.last() == k);
                } else {
                    assert(before.contains(k));
                    let i = choose|i: int| 0 <= i < before.len() && before[i] == k;
                    assert(now[i] == k);
                }
            }
        }
    }

    pub(crate) proof fn lemma_kept_edges(self, selected: Set<u64>, limit: nat, upto: nat)
        requires
            upto <= self.edges@.len(),
        ensures
            self.kept_edges(selected, limit, upto).len() <= upto,
            self.kept_edges(selected, limit, upto).len() <= limit,
            forall|i: int|
                0 <= i < self.kept_edges(selected, limit, upto).len() ==> {
                    let k = #[trigger] self.kept_edges(selected, limit, upto)[i];
                    &&& 0 <= k < upto
                    &&& selected.contains(self.edges@[k].source)
                    &&& selected.contains(self.edges@[k].target)
                },
            forall|i: int, j: int|
                0 <= i < j < self.kept_edges(selected, limit, upto).len() ==> (
                #[trigger] self.kept_edges(selected, limit, upto)[i]) < (#[trigger] self.kept_edges(
                    selected,
                    limit,
                    upto,
                )[j]),
        decreases upto,
    {
        if upto > 0 {
            self.lemma_kept_edges(selected, limit, (upto - 1) as nat);
        }
    }

    fn sample_nodes(&self, selected: &HashSet<u64>) -> (r: SceneNodes)
        ensures
            ({
                let rows = self.kept_nodes(selected@, self.nodes@.len());
                &&& r.ids@.len() == rows.len()
                &&& r.labels@.len() == rows.len()
                &&& r.positions@.len() == rows.len()
                &&& r.vector_counts@.len() == rows.len()
                &&& r.properties@.len() == rows.len()
                &&& forall|i: int|
                    0 <= i < rows.len() ==> #[trigger] self.node_row(r, i, rows[i])
            }),
    {
        let mut out = SceneNodes {
            ids: Vec::new(),
            labels: Vec::new(),
            positions: Vec::new(),
            degrees: Vec::new(),
            vector_counts: Vec::new(),
            properties: Vec::new(),
        };
        let mut i: usize = 0;
        while i < self.nodes.len()
            invariant
                i <= self.nodes.len(),
                ({
                    let rows = self.kept_nodes(selected@, i as nat);
                    &&& out.ids@.len() == rows.len()
                    &&& out.labels@.len() == rows.len()
                    &&& out.positions@.len() == rows.len()
                    &&& out.vector_counts@.len() == rows.len()
                    &&& out.properties@.len() == rows.len()
                    &&& forall|k: int|
                        0 <= k < rows.len() ==> #[trigger] self.node_row(out, k, rows[k])
                }),
            decreases self.nodes.len() - i,
        {
            let ghost before = out;
            let ghost rows = self.kept_nodes(selected@, i as nat);
            let node = &self.nodes[i];
            if selected.contains(&node.id) {
                let label = self.symbol(node.label, "Unknown");
                let spelled = self.owned_properties(&node.properties);
                out.ids.push(node.id);
                out.labels.push(label);
                out.positions.push(Vec2::zero());
                out.vector_counts.push(node.vector_count);
                out.properties.push(spelled);
                proof {
                    let now = self.kept_nodes(selected@, (i + 1) as nat);
                    assert forall|k: int| 0 <= k < now.len() implies #[trigger] self.node_row(
                        out,
                        k,
                        now[k],
                    ) by {
                        if k < rows.len() {
                            assert(self.node_row(before, k, rows[k]));
                        }
                    }
                }
            }
            i = i + 1;
        }
        out
    }

    fn sample_edges(&self, ids: &Vec<u64>, limit: usize, Ghost(sel): Ghost<Set<u64>>) -> (r:
        SceneEdges)
        requires
            scene::ascending(ids@),
            ids@.len() <= u32::MAX,
            forall|id: u64| sel.contains(id) <==> ids@.contains(id),
        ensures
            r.wf(),
            forall|k: int| 0 <= k < r.ids@.len() ==> (#[trigger] r.sources@[k]) < ids@.len(),
            forall|k: int| 0 <= k < r.ids@.len() ==> (#[trigger] r.targets@[k]) < ids@.len(),
            ({
                let kept = self.kept_edges(sel, limit as nat, self.edges@.len());
                &&& r.ids@.len() == kept.len()
                &&& forall|i: int|
                    0 <= i < kept.len() ==> #[trigger] self.edge_row(ids@, r, i, kept[i])
            }),
    {
        let mut out = SceneEdges {
            ids: Vec::new(),
            sources: Vec::new(),
            targets: Vec::new(),
            labels: Vec::new(),
            vector_counts: Vec::new(),
            properties: Vec::new(),
        };
        let mut e: usize = 0;
        while e < self.edges.len()
            invariant
                e <= self.edges.len(),
                scene::ascending(ids@),
                ids@.len() <= u32::MAX,
                forall|id: u64| sel.contains(id) <==> ids@.contains(id),
                out.wf(),
                forall|k: int|
                    0 <= k < out.ids@.len() ==> (#[trigger] out.sources@[k]) < ids@.len(),
                forall|k: int|
                    0 <= k < out.ids@.len() ==> (#[trigger] out.targets@[k]) < ids@.len(),
                ({
                    let kept = self.kept_edges(sel, limit as nat, e as nat);
                    &&& out.ids@.len() == kept.len()
                    &&& forall|i: int|
                        0 <= i < kept.len() ==> #[trigger] self.edge_row(ids@, out, i, kept[i])
                }),
            decreases self.edges.len() - e,
        {
            let ghost before = out;
            let ghost kept = self.kept_edges(sel, limit as nat, e as nat);
            let edge = &self.edges[e];
            if out.ids.len() < limit {
                let source = search_ids(ids, edge.source);
                let target = search_ids(ids, edge.target);
                match (source, target) {
                    (Some(s), Some(t)) => {
                        let label = self.symbol(edge.label, "Unknown");
                        let spelled = self.owned_properties(&edge.properties);
                        out.ids.push(edge.id);
                        out.sources.push(s as u32);
                        out.targets.push(t as u32);
                        out.labels.push(label);
                        out.vector_counts.push(edge.vector_count);
                        out.properties.push(spelled);
                        proof {
                            let now = self.kept_edges(sel, limit as nat, (e + 1) as nat);
                            assert(now == kept.push(e as int));
                            assert forall|i: int| 0 <= i < now.len() implies #[trigger]
                                self.edge_row(ids@, out, i, now[i]) by {
                                if i < kept.len() {
                                    assert(self.edge_row(ids@, before, i, kept[i]));
                                }
                            }
                        }
                    },
                    _ => {},
                }
            }
            e = e + 1;
        }
        out
    }

    pub(crate) proof fn lemma_selection_stored(self, options: SnapshotOptions)
        requires
            self.wf(),
        ensures
            self.selected(options).subset_of(self.node_ids()),
    {
        let node_limit = positive(options.max_nodes as nat);
        if self.nodes@.len() > node_limit {
            let stride = positive(div_ceil(self.edges@.len(), positive(options.max_edges as nat)));
            self.lemma_selected_stored(Set::empty(), 0, stride as int, node_limit);
            let connected = with_endpoints(
                self.node_ids(),
                Set::empty(),
                self.edges@,
                0,
                stride as int,
                node_limit,
            );
            let fill = positive(div_ceil(self.nodes@.len(), (node_limit - connected.len()) as nat));
            self.lemma_filled_stored(connected, 0, fill as int, node_limit);
        }
    }

    /// Samples the stored nodes and the relationships between them.
    pub fn snapshot(&self, options: SnapshotOptions) -> (r: SceneSnapshot)
        requires
            self.wf(),
        ensures
            self.is_snapshot(options, r),
    {
        let edge_limit: usize = if options.max_edges == 0 {
            1
        } else {
            options.max_edges
        };
        let selected = self.select_ids(options);
        let ghost sel = self.selected(options);
        let ghost rows = self.kept_nodes(sel, self.nodes@.len());
        let sampled_nodes = self.sample_nodes(&selected);
        let ids = sampled_nodes.ids;
        proof {
            self.lemma_kept_nodes(sel, self.nodes@.len());
            self.lemma_selection_stored(options);
            assert forall|a: int| 0 <= a < rows.len() implies ids@[a] == self.nodes@[(
            #[trigger] rows[a])].id by {
                assert(self.node_row(sampled_nodes, a, rows[a]));
            }
            assert(scene::ascending(ids@)) by {
                assert forall|a: int, b: int| 0 <= a < b < ids@.len() implies ids@[a]
                    < ids@[b] by {
                    assert(rows[a] < rows[b]);
                }
            }
            assert forall|id: u64| sel.contains(id) <==> ids@.contains(id) by {
                if sel.contains(id) {
                    assert(self.has_node(id));
                    let k = choose|k: int|
                        0 <= k < self.nodes@.len() && (#[trigger] self.nodes@[k]).id == id;
                    assert(rows.contains(k));
                    let r = choose|r: int| 0 <= r < rows.len() && rows[r] == k;
                    assert(ids@[r] == id);
                }
                if ids@.contains(id) {
                    let r = choose|r: int| 0 <= r < ids@.len() && ids@[r] == id;
                    assert(sel.contains(self.nodes@[rows[r]].id));
                }
            }
        }
        let edges = self.sample_edges(&ids, edge_limit, Ghost(sel));
        let ghost kept = self.kept_edges(sel, edge_limit as nat, self.edges@.len());
        proof {
            self.lemma_kept_edges(sel, edge_limit as nat, self.edges@.len());
            assert(scene::ascending(edges.ids@)) by {
                assert forall|a: int, b: int| 0 <= a < b < edges.ids@.len() implies edges.ids@[a]
                    < edges.ids@[b] by {
                    assert(kept[a] < kept[b]);
                    assert(self.edge_row(ids@, edges, a, kept[a]));
                    assert(self.edge_row(ids@, edges, b, kept[b]));
                }
            }
        }
        let degrees = count_degrees(ids.len(), &edges.sources, &edges.targets);
        let database_name = match &self.file_name {
            Some(name) => name.clone(),
            None => "Untitled.vg".to_owned(),
        };
        let sampled = ids.len() < self.stats.nodes || edges.ids.len() < self.stats.edges;
        let nodes = SceneNodes {
            ids,
            labels: sampled_nodes.labels,
            positions: sampled_nodes.positions,
            degrees,
            vector_counts: sampled_nodes.vector_counts,
            properties: sampled_nodes.properties,
        };
        proof {
            assert forall|i: int| 0 <= i < rows.len() implies #[trigger] self.node_row(
                nodes,
                i,
                rows[i],
            ) by {
                assert(self.node_row(sampled_nodes, i, rows[i]));
            }
        }
        SceneSnapshot {
            revision: self.stats.transactions,
            database_name,
            source_stats: self.stats,
            nodes,
            edges,
            bounds: Rect::default(),
            sampled,
        }
    }
}

impl SceneSnapshot {
    /// A bounded snapshot of a database.
    pub fn from_database(database: &GraphData, options: SnapshotOptions) -> (r: SceneSnapshot)
        requires
            database.wf(),
        ensures
            database.is_snapshot(options, r),
    {
        database.snapshot(options)
    }
}

pub(crate) proof fn lemma_endpoints_bounded(
    stored: Set<u64>,
    selected: Set<u64>,
    edges: Seq<EdgeRecord>,
    at: int,
    stride: int,
    limit: nat,
)
    requires
        selected.finite(),
        selected.len() <= limit,
    ensures
        with_endpoints(stored, selected, edges, at, stride, limit).finite(),
        with_endpoints(stored, selected, edges, at, stride, limit).len() <= limit,
    decreases
            (if at < edges.len() {
                edges.len() - at
            } else {
                0
            }),
{
    if at < 0 || at >= edges.len() || stride <= 0 {
    } else {
        let next = selected.insert(edges[at].source).insert(edges[at].target);
        lemma_endpoints_bounded(stored, selected, edges, at + stride, stride, limit);
        if next.len() <= limit {
            lemma_endpoints_bounded(stored, next, edges, at + stride, stride, limit);
        }
    }
}

pub(crate) proof fn lemma_nodes_bounded(
    selected: Set<u64>,
    nodes: Seq<NodeRecord>,
    at: int,
    stride: int,
    limit: nat,
)
    requires
        selected.finite(),
        selected.len() < limit,
    ensures
        with_nodes(selected, nodes, at, stride, limit).finite(),
        with_nodes(selected, nodes, at, stride, limit).len() <= limit,
    decreases
            (if at < nodes.len() {
                nodes.len() - at
            } else {
                0
            }),
{
    if at < 0 || at >= nodes.len() || stride <= 0 {
    } else {
        let next = selected.insert(nodes[at].id);
        if next.len() != limit {
            lemma_nodes_bounded(next, nodes, at + stride, stride, limit);
        }
    }
}

/// A snapshot holds at most as many nodes and relationships as its options
/// allow, and at least room for one of each.
pub proof fn law_snapshot_is_bounded(g: GraphData, options: SnapshotOptions, s: SceneSnapshot)
    requires
        g.wf(),
        g.is_snapshot(options, s),
    ensures
        s.nodes.ids@.len() <= positive(options.max_nodes as nat),
        s.edges.ids@.len() <= positive(options.max_edges as nat),
{
    let sel = g.selected(options);
    let node_limit = positive(options.max_nodes as nat);
    let rows = g.kept_nodes(sel, g.nodes@.len());
    g.lemma_kept_nodes(sel, g.nodes@.len());
    g.lemma_kept_edges(sel, positive(options.max_edges as nat), g.edges@.len());
    if g.nodes@.len() > node_limit {
        let stride = positive(div_ceil(g.edges@.len(), positive(options.max_edges as nat)));
        lemma_endpoints_bounded(
            g.node_ids(),
            Set::empty(),
            g.edges@,
            0,
            stride as int,
            node_limit,
        );
        let connected = with_endpoints(
            g.node_ids(),
            Set::empty(),
            g.edges@,
            0,
            stride as int,
            node_limit,
        );
        if connected.len() < node_limit {
            let fill = positive(div_ceil(g.nodes@.len(), (node_limit - connected.len()) as nat));
            lemma_nodes_bounded(connected, g.nodes@, 0, fill as int, node_limit);
        }
        assert(s.nodes.ids@.no_duplicates());
        s.nodes.ids@.unique_seq_to_set();
        assert forall|id: u64| s.nodes.ids@.to_set().contains(id) implies sel.contains(id) by {
            let r = choose|r: int| 0 <= r < s.nodes.ids@.len() && s.nodes.ids@[r] == id;
            assert(g.node_row(s.nodes, r, rows[r]));
            assert(sel.contains(g.nodes@[rows[r]].id));
        }
        vstd::set_lib::lemma_len_subset(s.nodes.ids@.to_set(), sel);
    }
}

/// A database within both limits is kept whole, in order: every node, and
/// every relationship that joins stored nodes.
pub proof fn law_small_database_is_kept_whole(
    g: GraphData,
    options: SnapshotOptions,
    s: SceneSnapshot,
)
    requires
        g.wf(),
        g.is_snapshot(options, s),
        g.nodes@.len() <= positive(options.max_nodes as nat),
        g.edges@.len() <= positive(options.max_edges as nat),
    ensures
        s.nodes.ids@ == g.nodes@.map_values(|n: NodeRecord| n.id),
        s.edges.ids@ == g.edges@.filter(|e: EdgeRecord| g.joined(e)).map_values(
            |e: EdgeRecord| e.id,
        ),
        (forall|e: int| 0 <= e < g.edges@.len() ==> g.joined(#[trigger] g.edges@[e]))
            ==> s.edges.ids@ == g.edges@.map_values(|e: EdgeRecord| e.id),
        s.sampled == (g.nodes@.len() < g.stats.nodes || s.edges.ids@.len() < g.stats.edges),
{
    let sel = g.selected(options);
    let limit = positive(options.max_edges as nat);
    assert forall|i: int| 0 <= i < g.nodes@.len() implies sel.contains(
        (#[trigger] g.nodes@[i]).id,
    ) by {
        assert(g.has_node(g.nodes@[i].id));
    }
    lemma_all_nodes_kept(g, sel, g.nodes@.len());
    lemma_all_edges_kept(g, sel, limit, g.edges@.len());
    let rows = g.kept_nodes(sel, g.nodes@.len());
    let kept = g.kept_edges(sel, limit, g.edges@.len());
    assert forall|i: int| 0 <= i < rows.len() implies s.nodes.ids@[i] == g.nodes@[i].id by {
        assert(g.node_row(s.nodes, i, rows[i]));
    }
    let joins = |e: EdgeRecord| g.joined(e);
    let whole = g.edges@.filter(joins);
    assert(g.edges@.take(g.edges@.len() as int) =~= g.edges@);
    assert forall|i: int| 0 <= i < kept.len() implies s.edges.ids@[i] == whole[i].id by {
        assert(g.edge_row(s.nodes.ids@, s.edges, i, kept[i]));
    }
    assert(s.nodes.ids@ =~= g.nodes@.map_values(|n: NodeRecord| n.id));
    assert(s.edges.ids@ =~= whole.map_values(|e: EdgeRecord| e.id));
    if forall|e: int| 0 <= e < g.edges@.len() ==> g.joined(#[trigger] g.edges@[e]) {
        lemma_filter_all(g.edges@, joins);
    }
}

proof fn lemma_filter_all<T>(items: Seq<T>, keep: spec_fn(T) -> bool)
    requires
        forall|i: int| 0 <= i < items.len() ==> keep(#[trigger] items[i]),
    ensures
        items.filter(keep) == items,
    decreases items.len(),
{
    reveal(Seq::filter);
    if items.len() > 0 {
        let rest = items.drop_last();
        assert forall|i: int| 0 <= i < rest.len() implies keep(#[trigger] rest[i]) by {
            assert(rest[i] == items[i]);
        }
        lemma_filter_all(rest, keep);
        assert(keep(items[items.len() - 1]));
        assert(rest.push(items.last()) =~= items);
    }
}

proof fn lemma_all_nodes_kept(g: GraphData, sel: Set<u64>, upto: nat)
    requires
        upto <= g.nodes@.len(),
        forall|i: int| 0 <= i < g.nodes@.len() ==> sel.contains((#[trigger] g.nodes@[i]).id),
    ensures
        g.kept_nodes(sel, upto).len() == upto,
        forall|i: int| 0 <= i < upto ==> #[trigger] g.kept_nodes(sel, upto)[i] == i,
    decreases upto,
{
    if upto > 0 {
        lemma_all_nodes_kept(g, sel, (upto - 1) as nat);
    }
}

proof fn lemma_all_edges_kept(g: GraphData, sel: Set<u64>, limit: nat, upto: nat)
    requires
        sel == g.node_ids(),
        upto <= g.edges@.len() <= limit,
    ensures
        ({
            let kept = g.kept_edges(sel, limit, upto);
            let whole = g.edges@.take(upto as int).filter(|e: EdgeRecord| g.joined(e));
            &&& kept.len() == whole.len() <= upto
            &&& forall|i: int|
                0 <= i < kept.len() ==> 0 <= (#[trigger] kept[i]) < upto && whole[i]
                    == g.edges@[kept[i]]
        }),
    decreases upto,
{
    reveal(Seq::filter);
    let joins = |e: EdgeRecord| g.joined(e);
    if upto > 0 {
        lemma_all_edges_kept(g, sel, limit, (upto - 1) as nat);
        assert(g.edges@.take(upto as int).drop_last() =~= g.edges@.take(upto - 1));
        assert(g.edges@.take(upto as int).last() == g.edges@[upto - 1]);
    }
}

} // verus!
