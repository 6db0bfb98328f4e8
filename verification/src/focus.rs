//! Bounded, branch-balanced contexts around a selected element.
//!
//! Expansion goes layer by layer. Each frontier node offers its unseen
//! neighbours in buckets, one bucket per relationship label, and the buckets
//! take turns: every turn moves at most one neighbour into the next layer.

use vstd::prelude::*;
use vstd::relations::*;
use vstd::seq_lib::*;
use vstd::string::*;

use crate::order;
use crate::order::{sort_ranked, text_is_leq, Ranked};
use crate::scene::{SceneFocus, SceneSelection, SceneSnapshot};
use crate::text::same_text;

verus! {

/// A neighbour on offer: the relationship's label, the neighbour's degree and
/// id, the relationship and the neighbour.
pub type OfferView = (Seq<char>, u32, u64, usize, usize);

/// A neighbour on offer.
#[derive(Debug)]
pub struct Offer {
    pub label: String,
    pub degree: u32,
    pub id: u64,
    pub edge: usize,
    pub neighbor: usize,
}

impl View for Offer {
    type V = OfferView;

    open spec fn view(&self) -> OfferView {
        (self.label@, self.degree, self.id, self.edge, self.neighbor)
    }
}

impl Ranked for Offer {
    /// By label, then degree, then id, then relationship.
    open spec fn leq(a: OfferView, b: OfferView) -> bool {
        if a.0 != b.0 {
            order::text_leq(a.0, b.0)
        } else if a.1 != b.1 {
            a.1 < b.1
        } else if a.2 != b.2 {
            a.2 < b.2
        } else if a.3 != b.3 {
            a.3 < b.3
        } else {
            a.4 <= b.4
        }
    }

    proof fn order_is_total() {
        let leq = |a: OfferView, b: OfferView| Self::leq(a, b);
        assert forall|a: OfferView, b: OfferView| #[trigger] leq(a, b) && #[trigger] leq(
            b,
            a,
        ) implies a == b by {
            if a.0 != b.0 {
                order::lemma_text_leq_antisymmetric(a.0, b.0);
            }
        }
        assert forall|a: OfferView, b: OfferView, c: OfferView| #[trigger] leq(a, b)
            && #[trigger] leq(b, c) implies leq(a, c) by {
            if a.0 != b.0 && b.0 != c.0 {
                order::lemma_text_leq_transitive(a.0, b.0, c.0);
                if a.0 == c.0 {
                    order::lemma_text_leq_antisymmetric(a.0, b.0);
                }
            }
        }
        assert forall|a: OfferView, b: OfferView| #[trigger] leq(a, b) || #[trigger] leq(b, a) by {
            order::lemma_text_leq_total(a.0, b.0);
        }
    }

    fn is_leq(&self, other: &Offer) -> (r: bool) {
        if !same_text(self.label.as_str(), other.label.as_str()) {
            text_is_leq(self.label.as_str(), other.label.as_str())
        } else if self.degree != other.degree {
            self.degree < other.degree
        } else if self.id != other.id {
            self.id < other.id
        } else if self.edge != other.edge {
            self.edge < other.edge
        } else {
            self.neighbor <= other.neighbor
        }
    }
}

impl SceneSnapshot {
    /// Whether a relationship joins two different nodes of the snapshot.
    pub open spec fn joins(self, e: int) -> bool {
        &&& (self.edges.sources@[e] as int) < self.nodes.ids@.len()
        &&& (self.edges.targets@[e] as int) < self.nodes.ids@.len()
        &&& self.edges.sources@[e] != self.edges.targets@[e]
    }

    pub open spec fn offer(self, e: int, neighbor: u32) -> OfferView {
        (
            self.edges.labels@[e]@,
            self.nodes.degrees@[neighbor as int],
            self.nodes.ids@[neighbor as int],
            e as usize,
            neighbor as usize,
        )
    }

    /// What the first `upto` relationships offer to the node `f`.
    pub open spec fn offers(self, f: usize, upto: nat) -> Seq<OfferView>
        decreases upto,
    {
        if upto == 0 {
            Seq::empty()
        } else {
            let e = upto - 1;
            let before = self.offers(f, e as nat);
            if !self.joins(e) {
                before
            } else if self.edges.sources@[e] as usize == f {
                before.push(self.offer(e, self.edges.targets@[e]))
            } else if self.edges.targets@[e] as usize == f {
                before.push(self.offer(e, self.edges.sources@[e]))
            } else {
                before
            }
        }
    }
}

/// Whether no later frontier slot holds the same node.
pub open spec fn last_slot(frontier: Seq<usize>, i: int) -> bool {
    forall|j: int| i < j < frontier.len() ==> frontier[j] != frontier[i]
}

/// A frontier node and what one label offers to it.
pub type BucketView = (usize, Seq<OfferView>);

/// Neighbouring offers of one label put together, for the parent `parent`.
pub open spec fn runs(parent: usize, offers: Seq<OfferView>) -> Seq<BucketView>
    decreases offers.len(),
{
    if offers.len() == 0 {
        Seq::empty()
    } else {
        let before = runs(parent, offers.drop_last());
        let offer = offers.last();
        if before.len() > 0 && before.last().1.last().0 == offer.0 {
            before.drop_last().push((parent, before.last().1.push(offer)))
        } else {
            before.push((parent, seq![offer]))
        }
    }
}

impl SceneSnapshot {
    /// The buckets of one frontier slot: labels ascend, and within a label
    /// the offers ascend by degree, id and relationship.
    pub open spec fn slot_buckets(self, frontier: Seq<usize>, i: int) -> Seq<BucketView> {
        if last_slot(frontier, i) {
            runs(
                frontier[i],
                order::ranked_sort::<Offer>(self.offers(frontier[i], self.edges.ids@.len())),
            )
        } else {
            Seq::empty()
        }
    }

    /// The buckets of the first `upto` frontier slots, in slot order.
    pub open spec fn buckets(self, frontier: Seq<usize>, upto: nat) -> Seq<BucketView>
        decreases upto,
    {
        if upto == 0 {
            Seq::empty()
        } else {
            self.buckets(frontier, (upto - 1) as nat) + self.slot_buckets(frontier, upto - 1)
        }
    }
}

/// How far the expansion of one layer has come.
pub struct LayerState {
    pub node_seen: Seq<bool>,
    pub edge_seen: Seq<bool>,
    /// How much of each bucket has been looked at.
    pub cursors: Seq<usize>,
    pub layer: Seq<usize>,
    pub parents: Seq<(usize, usize)>,
    pub edge_count: nat,
}

/// The first offer from `from` on whose neighbour is unseen.
pub open spec fn next_unseen(offers: Seq<OfferView>, from: nat, node_seen: Seq<bool>) -> nat
    decreases offers.len() - from,
{
    if from >= offers.len() {
        offers.len()
    } else if !node_seen[offers[from as int].4 as int] {
        from
    } else {
        next_unseen(offers, from + 1, node_seen)
    }
}

/// One bucket's turn: its first unseen neighbour joins the layer.
pub open spec fn turn(st: LayerState, buckets: Seq<BucketView>, b: int) -> LayerState {
    let (parent, offers) = buckets[b];
    let k = next_unseen(offers, st.cursors[b] as nat, st.node_seen);
    if k >= offers.len() {
        LayerState { cursors: st.cursors.update(b, k as usize), ..st }
    } else {
        let offer = offers[k as int];
        LayerState {
            node_seen: st.node_seen.update(offer.4 as int, true),
            edge_seen: st.edge_seen.update(offer.3 as int, true),
            cursors: st.cursors.update(b, (k + 1) as usize),
            layer: st.layer.push(offer.4),
            parents: st.parents.push((offer.4, parent)),
            edge_count: st.edge_count + 1,
        }
    }
}

/// Whether the layer or the relationship budget is used up.
pub open spec fn full(st: LayerState, layer_budget: nat, edge_budget: nat) -> bool {
    st.layer.len() == layer_budget || st.edge_count == edge_budget
}

/// The turns of the buckets from `b` on, until a budget is used up.
pub open spec fn sweep(
    st: LayerState,
    buckets: Seq<BucketView>,
    b: int,
    layer_budget: nat,
    edge_budget: nat,
) -> LayerState
    decreases buckets.len() - b,
{
    if b < 0 || b >= buckets.len() {
        st
    } else {
        let next = turn(st, buckets, b);
        if full(next, layer_budget, edge_budget) {
            next
        } else {
            sweep(next, buckets, b + 1, layer_budget, edge_budget)
        }
    }
}

/// Sweeps until a budget is used up or no bucket has an unseen neighbour.
pub open spec fn rounds(
    st: LayerState,
    buckets: Seq<BucketView>,
    layer_budget: nat,
    edge_budget: nat,
) -> LayerState
    decreases
            (if st.layer.len() < layer_budget {
                layer_budget - st.layer.len()
            } else {
                0
            }),
{
    if st.layer.len() < layer_budget && st.edge_count < edge_budget {
        let next = sweep(st, buckets, 0, layer_budget, edge_budget);
        if next.layer.len() > st.layer.len() {
            rounds(next, buckets, layer_budget, edge_budget)
        } else {
            next
        }
    } else {
        st
    }
}

/// How many nodes a layer may take: all that is left for the last layer, and
/// a share that leaves room for the later ones before it.
pub open spec fn layer_share(remaining_nodes: nat, remaining_layers: nat) -> nat {
    if remaining_layers == 1 {
        remaining_nodes
    } else {
        let share = remaining_nodes / (remaining_layers + 1);
        if share == 0 {
            1
        } else {
            share
        }
    }
}

/// How far a context has grown.
pub struct FocusState {
    pub node_seen: Seq<bool>,
    pub edge_seen: Seq<bool>,
    pub layers: Seq<Seq<usize>>,
    pub parents: Seq<(usize, usize)>,
    pub node_count: nat,
    pub edge_count: nat,
}

impl SceneSnapshot {
    /// One more layer around the last one.
    pub open spec fn next_layer(
        self,
        st: FocusState,
        remaining_layers: nat,
        node_budget: nat,
        edge_budget: nat,
    ) -> LayerState {
        let frontier = st.layers.last();
        let buckets = self.buckets(frontier, frontier.len());
        rounds(
            LayerState {
                node_seen: st.node_seen,
                edge_seen: st.edge_seen,
                cursors: Seq::new(buckets.len(), |b: int| 0usize),
                layer: Seq::empty(),
                parents: st.parents,
                edge_count: st.edge_count,
            },
            buckets,
            layer_share((node_budget - st.node_count) as nat, remaining_layers),
            edge_budget,
        )
    }

    /// Up to `remaining_layers` more layers, while both budgets last and
    /// layers stay non-empty.
    pub open spec fn grown(
        self,
        st: FocusState,
        remaining_layers: nat,
        node_budget: nat,
        edge_budget: nat,
    ) -> FocusState
        decreases remaining_layers,
    {
        if remaining_layers == 0 || st.node_count >= node_budget || st.edge_count >= edge_budget {
            st
        } else {
            let next = self.next_layer(st, remaining_layers, node_budget, edge_budget);
            let after = FocusState {
                node_seen: next.node_seen,
                edge_seen: next.edge_seen,
                layers: st.layers,
                parents: next.parents,
                node_count: st.node_count + next.layer.len(),
                edge_count: next.edge_count,
            };
            if next.layer.len() == 0 {
                after
            } else {
                self.grown(
                    FocusState { layers: st.layers.push(next.layer), ..after },
                    (remaining_layers - 1) as nat,
                    node_budget,
                    edge_budget,
                )
            }
        }
    }

    /// The relationships from `e` on that join seen nodes are added in order
    /// while the budget lasts.
    pub open spec fn cross_linked(
        self,
        edge_seen: Seq<bool>,
        node_seen: Seq<bool>,
        e: int,
        edge_count: nat,
        edge_budget: nat,
    ) -> Seq<bool>
        decreases edge_seen.len() - e,
    {
        if e < 0 || e >= edge_seen.len() || edge_count >= edge_budget {
            edge_seen
        } else if !edge_seen[e] && self.links_seen(node_seen, e) {
            self.cross_linked(
                edge_seen.update(e, true),
                node_seen,
                e + 1,
                edge_count + 1,
                edge_budget,
            )
        } else {
            self.cross_linked(edge_seen, node_seen, e + 1, edge_count, edge_budget)
        }
    }

    pub open spec fn links_seen(self, node_seen: Seq<bool>, e: int) -> bool {
        let s = self.edges.sources@[e] as int;
        let t = self.edges.targets@[e] as int;
        s < node_seen.len() && t < node_seen.len() && node_seen[s] && node_seen[t]
    }

    /// The roots of a selection: the node, or both endpoints; none where the
    /// selection or an endpoint is outside the snapshot.
    pub open spec fn focus_roots(self, selection: SceneSelection) -> Option<Seq<usize>> {
        let n = self.nodes.ids@.len();
        match selection {
            SceneSelection::Node(index) => if index < n {
                Some(seq![index])
            } else {
                None
            },
            SceneSelection::Edge(index) => {
                if index < self.edges.ids@.len() {
                    let s = self.edges.sources@[index as int] as usize;
                    let t = self.edges.targets@[index as int] as usize;
                    if s < n && t < n {
                        Some(seq![s, t])
                    } else {
                        None
                    }
                } else {
                    None
                }
            },
        }
    }

    /// The context before any layer has been added.
    pub open spec fn focus_start(self, selection: SceneSelection, roots: Seq<usize>) -> FocusState {
        let none_seen = Seq::new(self.nodes.ids@.len(), |i: int| false);
        let node_seen = if roots.len() == 1 {
            none_seen.update(roots[0] as int, true)
        } else {
            none_seen.update(roots[0] as int, true).update(roots[1] as int, true)
        };
        let no_edge = Seq::new(self.edges.ids@.len(), |i: int| false);
        FocusState {
            node_seen,
            edge_seen: match selection {
                SceneSelection::Node(_) => no_edge,
                SceneSelection::Edge(index) => no_edge.update(index as int, true),
            },
            layers: seq![roots],
            parents: Seq::empty(),
            node_count: roots.len(),
            edge_count: match selection {
                SceneSelection::Node(_) => 0,
                SceneSelection::Edge(_) => 1,
            },
        }
    }

    /// The context when no further layer is added, before cross-links.
    pub open spec fn focus_grown(
        self,
        selection: SceneSelection,
        roots: Seq<usize>,
        max_depth: nat,
        node_budget: nat,
        edge_budget: nat,
    ) -> FocusState {
        self.grown(
            self.focus_start(selection, roots),
            max_depth,
            at_least(node_budget, roots.len()),
            at_least(edge_budget, self.focus_start(selection, roots).edge_count),
        )
    }
}

pub open spec fn at_least(a: nat, b: nat) -> nat {
    if a >= b {
        a
    } else {
        b
    }
}

/// The positions below `upto` that are marked.
pub open spec fn marked(flags: Seq<bool>, upto: nat) -> Seq<usize>
    decreases upto,
{
    if upto == 0 {
        Seq::empty()
    } else {
        let before = marked(flags, (upto - 1) as nat);
        if flags[upto - 1] {
            before.push((upto - 1) as usize)
        } else {
            before
        }
    }
}

/// The layers one after another.
pub open spec fn flat(layers: Seq<Seq<usize>>) -> Seq<usize>
    decreases layers.len(),
{
    if layers.len() == 0 {
        Seq::empty()
    } else {
        flat(layers.drop_last()) + layers.last()
    }
}

/// The contents of a list of layers.
pub open spec fn layer_views(layers: Seq<Vec<usize>>) -> Seq<Seq<usize>> {
    layers.map_values(|layer: Vec<usize>| layer@)
}

/// The contents of a context.
pub struct FocusView {
    pub roots: Seq<usize>,
    pub nodes: Seq<usize>,
    pub edges: Seq<usize>,
    pub layers: Seq<Seq<usize>>,
    pub parents: Seq<(usize, usize)>,
}

impl View for SceneFocus {
    type V = FocusView;

    open spec fn view(&self) -> FocusView {
        FocusView {
            roots: self.roots@,
            nodes: self.nodes@,
            edges: self.edges@,
            layers: layer_views(self.layers@),
            parents: self.parents@,
        }
    }
}

impl SceneSnapshot {
    /// The bounded context of a selection.
    pub open spec fn focus(
        self,
        selection: SceneSelection,
        max_depth: nat,
        node_budget: nat,
        edge_budget: nat,
    ) -> Option<FocusView> {
        match self.focus_roots(selection) {
            None => None,
            Some(roots) => {
                let st = self.focus_grown(selection, roots, max_depth, node_budget, edge_budget);
                let limit = at_least(edge_budget, self.focus_start(selection, roots).edge_count);
                let edges = self.cross_linked(
                    st.edge_seen,
                    st.node_seen,
                    0,
                    st.edge_count,
                    limit,
                );
                Some(
                    FocusView {
                        roots,
                        nodes: flat(st.layers),
                        edges: marked(edges, edges.len()),
                        layers: st.layers,
                        parents: st.parents,
                    },
                )
            },
        }
    }
}

impl SceneSnapshot {
    /// The columns that a context reads agree in length.
    pub open spec fn focusable(self) -> bool {
        &&& self.edges.sources@.len() == self.edges.ids@.len()
        &&& self.edges.targets@.len() == self.edges.ids@.len()
        &&& self.edges.labels@.len() == self.edges.ids@.len()
        &&& self.nodes.degrees@.len() == self.nodes.ids@.len()
    }
}

/// Whether offers name nodes below `n` and relationships below `m`.
pub open spec fn in_range(offers: Seq<OfferView>, n: nat, m: nat) -> bool {
    forall|i: int| 0 <= i < offers.len() ==> (#[trigger] offers[i]).4 < n && offers[i].3 < m
}

/// Whether the offers of all buckets are in range, and no bucket is empty.
pub open spec fn buckets_in_range(buckets: Seq<BucketView>, n: nat, m: nat) -> bool {
    forall|b: int|
        0 <= b < buckets.len() ==> (#[trigger] buckets[b]).1.len() > 0 && in_range(
            buckets[b].1,
            n,
            m,
        )
}

impl SceneSnapshot {
    proof fn lemma_offers_in_range(self, f: usize, upto: nat)
        requires
            self.focusable(),
            upto <= self.edges.ids@.len() <= usize::MAX,
        ensures
            in_range(self.offers(f, upto), self.nodes.ids@.len(), upto),
        decreases upto,
    {
        if upto > 0 {
            self.lemma_offers_in_range(f, (upto - 1) as nat);
        }
    }

    proof fn lemma_slot_buckets_in_range(self, frontier: Seq<usize>, i: int)
        requires
            self.focusable(),
            self.edges.ids@.len() <= usize::MAX,
        ensures
            buckets_in_range(
                self.slot_buckets(frontier, i),
                self.nodes.ids@.len(),
                self.edges.ids@.len(),
            ),
    {
        let n = self.nodes.ids@.len();
        let m = self.edges.ids@.len();
        let offers = self.offers(frontier[i], m);
        let sorted = order::ranked_sort::<Offer>(offers);
        self.lemma_offers_in_range(frontier[i], m);
        order::lemma_ranked_sort::<Offer>(offers);
        assert forall|k: int| 0 <= k < sorted.len() implies (#[trigger] sorted[k]).4 < n
            && sorted[k].3 < m by {
            assert(sorted.contains(sorted[k]));
            assert(offers.contains(sorted[k]));
        }
        lemma_runs_in_range(frontier[i], sorted, n, m);
    }
}

proof fn lemma_runs_in_range(parent: usize, offers: Seq<OfferView>, n: nat, m: nat)
    requires
        in_range(offers, n, m),
    ensures
        buckets_in_range(runs(parent, offers), n, m),
    decreases offers.len(),
{
    if offers.len() > 0 {
        lemma_runs_in_range(parent, offers.drop_last(), n, m);
    }
}

/// One frontier node's offers under one label.
#[derive(Debug)]
struct Bucket {
    parent: usize,
    offers: Vec<Offer>,
}

impl View for Bucket {
    type V = BucketView;

    closed spec fn view(&self) -> BucketView {
        (self.parent, order::ranked_views(self.offers@))
    }
}

/// Puts sorted offers in buckets, one per label.
fn group_offers(parent: usize, offers: &Vec<Offer>) -> (r: Vec<Bucket>)
    ensures
        order::ranked_views(r@) == runs(parent, order::ranked_views(offers@)),
{
    let ghost all = order::ranked_views(offers@);
    let mut out: Vec<Bucket> = Vec::new();
    let mut i: usize = 0;
    proof {
        assert(order::ranked_views(out@) =~= runs(parent, all.take(0)));
    }
    while i < offers.len()
        invariant
            i <= offers.len(),
            all == order::ranked_views(offers@),
            order::ranked_views(out@) == runs(parent, all.take(i as int)),
            forall|b: int| 0 <= b < out@.len() ==> (#[trigger] out@[b]).offers@.len() > 0,
        decreases offers.len() - i,
    {
        let offer = Offer {
            label: offers[i].label.clone(),
            degree: offers[i].degree,
            id: offers[i].id,
            edge: offers[i].edge,
            neighbor: offers[i].neighbor,
        };
        let ghost before = order::ranked_views(out@);
        let ghost view = offer@;
        proof {
            assert(view == offers@[i as int]@);
            assert(all.take(i + 1).drop_last() =~= all.take(i as int));
            assert(all.take(i + 1).last() == view);
        }
        let mut extends = false;
        if out.len() > 0 {
            let last = &out[out.len() - 1];
            proof {
                assert(before.last() == last@);
                assert(last@.1.last() == last.offers@.last()@);
            }
            extends = same_text(
                last.offers[last.offers.len() - 1].label.as_str(),
                offer.label.as_str(),
            );
        }
        if extends {
            let mut last = out.pop().unwrap();
            let ghost old_offers = order::ranked_views(last.offers@);
            proof {
                assert(before.last() == last@);
                assert(last.parent == parent) by {
                    lemma_runs_parent(parent, all.take(i as int), before.len() - 1);
                }
            }
            last.offers.push(offer);
            proof {
                assert(order::ranked_views(last.offers@) =~= old_offers.push(view));
            }
            let ghost grown = last@;
            out.push(last);
            proof {
                assert(order::ranked_views(out@) =~= before.drop_last().push(grown));
            }
        } else {
            let mut offers_of: Vec<Offer> = Vec::new();
            offers_of.push(offer);
            let bucket = Bucket { parent, offers: offers_of };
            let ghost added = bucket@;
            proof {
                assert(order::ranked_views(bucket.offers@) =~= seq![view]);
            }
            out.push(bucket);
            proof {
                assert(order::ranked_views(out@) =~= before.push(added));
            }
        }
        i = i + 1;
    }
    assert(all.take(all.len() as int) =~= all);
    out
}

proof fn lemma_runs_parent(parent: usize, offers: Seq<OfferView>, b: int)
    requires
        0 <= b < runs(parent, offers).len(),
    ensures
        runs(parent, offers)[b].0 == parent,
    decreases offers.len(),
{
    if offers.len() > 0 {
        let before = runs(parent, offers.drop_last());
        if b < before.len() {
            lemma_runs_parent(parent, offers.drop_last(), b);
        }
    }
}

impl SceneSnapshot {
    /// Everything that the relationships offer to a node.
    fn gather_offers(&self, f: usize) -> (r: Vec<Offer>)
        requires
            self.focusable(),
        ensures
            order::ranked_views(r@) == self.offers(f, self.edges.ids@.len()),
    {
        let mut out: Vec<Offer> = Vec::new();
        let mut e: usize = 0;
        proof {
            assert(order::ranked_views(out@) =~= self.offers(f, 0));
        }
        while e < self.edges.ids.len()
            invariant
                self.focusable(),
                e <= self.edges.ids.len(),
                order::ranked_views(out@) == self.offers(f, e as nat),
            decreases self.edges.ids.len() - e,
        {
            let source: usize = self.edges.sources[e] as usize;
            let target: usize = self.edges.targets[e] as usize;
            let count: usize = self.nodes.ids.len();
            if source < count && target < count && source != target && (source == f || target
                == f) {
                let neighbor: usize = if source == f { target } else { source };
                let ghost before = order::ranked_views(out@);
                let offer = Offer {
                    label: self.edges.labels[e].clone(),
                    degree: self.nodes.degrees[neighbor],
                    id: self.nodes.ids[neighbor],
                    edge: e,
                    neighbor,
                };
                let ghost view = offer@;
                out.push(offer);
                proof {
                    assert(order::ranked_views(out@) =~= before.push(view));
                }
            }
            e = e + 1;
        }
        out
    }

    /// The buckets of a frontier.
    fn collect_buckets(&self, frontier: &Vec<usize>) -> (r: Vec<Bucket>)
        requires
            self.focusable(),
        ensures
            order::ranked_views(r@) == self.buckets(frontier@, frontier@.len()),
            buckets_in_range(
                order::ranked_views(r@),
                self.nodes.ids@.len(),
                self.edges.ids@.len(),
            ),
    {
        let mut out: Vec<Bucket> = Vec::new();
        let mut i: usize = 0;
        proof {
            assert(order::ranked_views(out@) =~= self.buckets(frontier@, 0));
        }
        while i < frontier.len()
            invariant
                self.focusable(),
                i <= frontier.len(),
                order::ranked_views(out@) == self.buckets(frontier@, i as nat),
                buckets_in_range(
                    order::ranked_views(out@),
                    self.nodes.ids@.len(),
                    self.edges.ids@.len(),
                ),
            decreases frontier.len() - i,
        {
            let mut last = true;
            let mut j: usize = i + 1;
            let edge_total: usize = self.edges.ids.len();
            while j < frontier.len()
                invariant
                    i < j <= frontier.len(),
                    last == (forall|k: int| i < k < j ==> frontier@[k] != frontier@[i as int]),
                decreases frontier.len() - j,
            {
                if frontier[j] == frontier[i] {
                    last = false;
                }
                j = j + 1;
            }
            proof {
                assert(last == last_slot(frontier@, i as int));
                assert(edge_total == self.edges.ids@.len());
                self.lemma_slot_buckets_in_range(frontier@, i as int);
            }
            let ghost before = order::ranked_views(out@);
            if last {
                let offers = sort_ranked(self.gather_offers(frontier[i]));
                let mut grouped = group_offers(frontier[i], &offers);
                let ghost added = order::ranked_views(grouped@);
                out.append(&mut grouped);
                proof {
                    assert(order::ranked_views(out@) =~= before + added);
                }
            } else {
                proof {
                    assert(before + self.slot_buckets(frontier@, i as int) =~= before);
                }
            }
            i = i + 1;
        }
        out
    }
}

/// Takes turns among the buckets until a budget is used up or nothing is left.
#[verifier::rlimit(40)]
fn expand_layer(
    buckets: &Vec<Bucket>,
    node_seen: &mut Vec<bool>,
    edge_seen: &mut Vec<bool>,
    parents: &mut Vec<(usize, usize)>,
    edge_count: usize,
    layer_budget: usize,
    edge_budget: usize,
) -> (r: (Vec<usize>, usize))
    requires
        buckets_in_range(
            order::ranked_views(buckets@),
            old(node_seen)@.len(),
            old(edge_seen)@.len(),
        ),
        edge_count <= edge_budget,
    ensures
        ({
            let views = order::ranked_views(buckets@);
            let end = rounds(
                LayerState {
                    node_seen: old(node_seen)@,
                    edge_seen: old(edge_seen)@,
                    cursors: Seq::new(views.len(), |b: int| 0usize),
                    layer: Seq::empty(),
                    parents: old(parents)@,
                    edge_count: edge_count as nat,
                },
                views,
                layer_budget as nat,
                edge_budget as nat,
            );
            &&& final(node_seen)@ == end.node_seen
            &&& final(edge_seen)@ == end.edge_seen
            &&& final(parents)@ == end.parents
            &&& r.0@ == end.layer
            &&& r.1 == end.edge_count
        }),
        final(node_seen)@.len() == old(node_seen)@.len(),
        final(edge_seen)@.len() == old(edge_seen)@.len(),
        r.0@.len() <= layer_budget,
        r.1 <= edge_budget,
        forall|i: int| 0 <= i < r.0@.len() ==> (#[trigger] r.0@[i]) < old(node_seen)@.len(),
{
    let ghost views = order::ranked_views(buckets@);
    let ghost n = node_seen@.len();
    let ghost m = edge_seen@.len();
    let ghost lb = layer_budget as nat;
    let ghost eb = edge_budget as nat;
    let mut cursors: Vec<usize> = Vec::new();
    let mut c: usize = 0;
    while c < buckets.len()
        invariant
            c <= buckets.len(),
            cursors@.len() == c,
            forall|i: int| 0 <= i < c ==> cursors@[i] == 0,
        decreases buckets.len() - c,
    {
        cursors.push(0);
        c = c + 1;
    }
    let mut layer: Vec<usize> = Vec::new();
    let mut count: usize = edge_count;
    let mut going = true;
    let ghost start = LayerState {
        node_seen: node_seen@,
        edge_seen: edge_seen@,
        cursors: Seq::new(views.len(), |b: int| 0usize),
        layer: Seq::empty(),
        parents: parents@,
        edge_count: edge_count as nat,
    };
    let ghost mut cur = start;
    proof {
        assert(cursors@ =~= start.cursors);
        assert(layer@ =~= start.layer);
    }
    while going && layer.len() < layer_budget && count < edge_budget
        invariant
            views == order::ranked_views(buckets@),
            buckets_in_range(views, n, m),
            n == node_seen@.len(),
            m == edge_seen@.len(),
            lb == layer_budget,
            eb == edge_budget,
            cur.node_seen == node_seen@,
            cur.edge_seen == edge_seen@,
            cur.cursors == cursors@,
            cur.layer == layer@,
            cur.parents == parents@,
            cur.edge_count == count,
            cursors@.len() == views.len(),
            layer@.len() <= lb,
            count <= eb,
            going ==> rounds(start, views, lb, eb) == rounds(cur, views, lb, eb),
            !going ==> rounds(start, views, lb, eb) == cur,
            forall|i: int| 0 <= i < layer@.len() ==> (#[trigger] layer@[i]) < n,
        decreases layer_budget - layer.len(), going as int,
    {
        let ghost round_start = cur;
        let before: usize = layer.len();
        let mut b: usize = 0;
        let mut stop = false;
        while b < buckets.len() && !stop
            invariant
                views == order::ranked_views(buckets@),
                buckets_in_range(views, n, m),
                n == node_seen@.len(),
                m == edge_seen@.len(),
                lb == layer_budget,
                eb == edge_budget,
                cur.node_seen == node_seen@,
                cur.edge_seen == edge_seen@,
                cur.cursors == cursors@,
                cur.layer == layer@,
                cur.parents == parents@,
                cur.edge_count == count,
                cursors@.len() == views.len(),
                b <= buckets.len(),
                before <= layer@.len() <= lb,
                count <= eb,
                !stop ==> layer@.len() < lb && count < eb,
                !stop ==> sweep(round_start, views, 0, lb, eb) == sweep(cur, views, b as int, lb, eb),
                stop ==> sweep(round_start, views, 0, lb, eb) == cur,
                forall|i: int| 0 <= i < layer@.len() ==> (#[trigger] layer@[i]) < n,
            decreases buckets.len() - b,
        {
            let bucket = &buckets[b];
            let ghost offers = views[b as int].1;
            proof {
                assert(views[b as int] == bucket@);
                assert(in_range(offers, n, m));
            }
            let mut k: usize = cursors[b];
            while k < bucket.offers.len() && node_seen[bucket.offers[k].neighbor]
                invariant
                    offers == order::ranked_views(bucket.offers@),
                    in_range(offers, n, m),
                    n == node_seen@.len(),
                    next_unseen(offers, cursors@[b as int] as nat, node_seen@) == next_unseen(
                        offers,
                        k as nat,
                        node_seen@,
                    ),
                    b < cursors@.len(),
                decreases bucket.offers.len() - k,
            {
                proof {
                    assert(offers[k as int] == bucket.offers@[k as int]@);
                }
                k = k + 1;
                proof {
                    if k < offers.len() {
                        assert(offers[k as int] == bucket.offers@[k as int]@);
                        assert(offers[k as int].4 < n);
                    }
                }
            }
            let ghost prior = cur;
            proof {
                if k < offers.len() {
                    assert(offers[k as int] == bucket.offers@[k as int]@);
                }
            }
            if k < bucket.offers.len() {
                let offer = &bucket.offers[k];
                node_seen.set(offer.neighbor, true);
                edge_seen.set(offer.edge, true);
                cursors.set(b, k + 1);
                layer.push(offer.neighbor);
                parents.push((offer.neighbor, bucket.parent));
                count = count + 1;
            } else {
                cursors.set(b, bucket.offers.len());
            }
            proof {
                cur = turn(prior, views, b as int);
                assert(cur.node_seen =~= node_seen@);
                assert(cur.edge_seen =~= edge_seen@);
                assert(cur.cursors =~= cursors@);
                assert(cur.layer =~= layer@);
                assert(cur.parents =~= parents@);
            }
            stop = layer.len() == layer_budget || count == edge_budget;
            b = b + 1;
        }
        proof {
            assert(sweep(round_start, views, 0, lb, eb) == cur);
        }
        if layer.len() == before {
            going = false;
        }
    }
    (layer, count)
}

fn no_flags(count: usize) -> (r: Vec<bool>)
    ensures
        r@ == Seq::new(count as nat, |i: int| false),
{
    let mut out: Vec<bool> = Vec::new();
    let mut i: usize = 0;
    while i < count
        invariant
            i <= count,
            out@.len() == i,
            forall|j: int| 0 <= j < i ==> !out@[j],
        decreases count - i,
    {
        out.push(false);
        i = i + 1;
    }
    assert(out@ =~= Seq::new(count as nat, |i: int| false));
    out
}

pub(crate) fn copy_indices(items: &Vec<usize>) -> (r: Vec<usize>)
    ensures
        r@ == items@,
{
    let mut out: Vec<usize> = Vec::new();
    let mut i: usize = 0;
    while i < items.len()
        invariant
            i <= items.len(),
            out@ == items@.take(i as int),
        decreases items.len() - i,
    {
        out.push(items[i]);
        assert(items@.take(i + 1) =~= items@.take(i as int).push(items@[i as int]));
        i = i + 1;
    }
    assert(items@.take(items@.len() as int) =~= items@);
    out
}

fn flatten_layers(layers: &Vec<Vec<usize>>) -> (r: Vec<usize>)
    ensures
        r@ == flat(layer_views(layers@)),
{
    let mut out: Vec<usize> = Vec::new();
    let mut i: usize = 0;
    let ghost views = layer_views(layers@);
    while i < layers.len()
        invariant
            i <= layers.len(),
            views == layer_views(layers@),
            out@ == flat(views.take(i as int)),
        decreases layers.len() - i,
    {
        let mut copy = copy_indices(&layers[i]);
        let ghost before = out@;
        out.append(&mut copy);
        proof {
            assert(views.take(i + 1).drop_last() =~= views.take(i as int));
            assert(views.take(i + 1).last() == layers@[i as int]@);
        }
        i = i + 1;
    }
    assert(views.take(views.len() as int) =~= views);
    out
}

fn marked_positions(flags: &Vec<bool>) -> (r: Vec<usize>)
    ensures
        r@ == marked(flags@, flags@.len()),
{
    let mut out: Vec<usize> = Vec::new();
    let mut i: usize = 0;
    while i < flags.len()
        invariant
            i <= flags.len(),
            out@ == marked(flags@, i as nat),
        decreases flags.len() - i,
    {
        if flags[i] {
            out.push(i);
        }
        i = i + 1;
    }
    out
}

/// The contents of an optional context.
pub open spec fn focus_view(focus: Option<SceneFocus>) -> Option<FocusView> {
    match focus {
        Some(f) => Some(f@),
        None => None,
    }
}

impl SceneSnapshot {
    /// Builds a deterministic, type-diverse, branch-balanced context without
    /// allowing hubs to consume an unbounded scene. Earlier layers reserve
    /// capacity for later context, and expansion rotates across both frontier
    /// nodes and relationship labels before taking another edge of one type.
    #[verifier::rlimit(40)]
    pub fn focus_neighborhood_layers(
        &self,
        selection: SceneSelection,
        max_depth: usize,
        node_budget: usize,
        edge_budget: usize,
    ) -> (r: Option<SceneFocus>)
        requires
            self.focusable(),
            max_depth < usize::MAX,
        ensures
            focus_view(r) == self.focus(
                selection,
                max_depth as nat,
                node_budget as nat,
                edge_budget as nat,
            ),
    {
        let node_total: usize = self.nodes.ids.len();
        let edge_total: usize = self.edges.ids.len();
        let mut node_seen = no_flags(node_total);
        let mut edge_seen = no_flags(edge_total);
        let mut roots: Vec<usize> = Vec::new();
        let mut edge_count: usize = 0;
        match selection {
            SceneSelection::Node(index) => {
                if index >= node_total {
                    return None;
                }
                node_seen.set(index, true);
                roots.push(index);
            },
            SceneSelection::Edge(index) => {
                if index >= edge_total {
                    return None;
                }
                let source: usize = self.edges.sources[index] as usize;
                let target: usize = self.edges.targets[index] as usize;
                if source >= node_total || target >= node_total {
                    return None;
                }
                node_seen.set(source, true);
                node_seen.set(target, true);
                edge_seen.set(index, true);
                edge_count = 1;
                roots.push(source);
                roots.push(target);
            },
        }
        let node_limit: usize = if node_budget >= roots.len() { node_budget } else { roots.len() };
        let edge_limit: usize = if edge_budget >= edge_count { edge_budget } else { edge_count };
        let ghost nb = node_limit as nat;
        let ghost eb = edge_limit as nat;
        let ghost start = self.focus_start(selection, roots@);
        proof {
            match selection {
                SceneSelection::Node(index) => {
                    assert(roots@ =~= seq![index]);
                },
                SceneSelection::Edge(index) => {
                    assert(roots@ =~= seq![
                        self.edges.sources@[index as int] as usize,
                        self.edges.targets@[index as int] as usize,
                    ]);
                },
            }
            assert(self.focus_roots(selection) == Some(roots@));
            assert(node_seen@ =~= start.node_seen);
            assert(edge_seen@ =~= start.edge_seen);
        }
        let mut layers: Vec<Vec<usize>> = Vec::new();
        let first = copy_indices(&roots);
        layers.push(first);
        let mut parents: Vec<(usize, usize)> = Vec::new();
        let mut node_count: usize = roots.len();
        let mut left: usize = max_depth;
        let mut going = true;
        let ghost mut cur = start;
        proof {
            assert(layer_views(layers@) =~= start.layers);
            assert(parents@ =~= start.parents);
        }
        while going && left > 0 && node_count < node_limit && edge_count < edge_limit
            invariant
                self.focusable(),
                node_total == self.nodes.ids@.len(),
                edge_total == self.edges.ids@.len(),
                max_depth < usize::MAX,
                left <= max_depth,
                nb == node_limit,
                eb == edge_limit,
                cur.node_seen == node_seen@,
                cur.edge_seen == edge_seen@,
                cur.layers == layer_views(layers@),
                cur.parents == parents@,
                cur.node_count == node_count,
                cur.edge_count == edge_count,
                node_seen@.len() == node_total,
                edge_seen@.len() == edge_total,
                layers@.len() > 0,
                node_count <= node_limit,
                edge_count <= edge_limit,
                going ==> self.grown(start, max_depth as nat, nb, eb) == self.grown(
                    cur,
                    left as nat,
                    nb,
                    eb,
                ),
                !going ==> self.grown(start, max_depth as nat, nb, eb) == cur,
            decreases left, going as int,
        {
            let frontier = &layers[layers.len() - 1];
            proof {
                assert(cur.layers.last() == frontier@);
            }
            let buckets = self.collect_buckets(frontier);
            let remaining: usize = node_limit - node_count;
            let share: usize = if left == 1 {
                remaining
            } else {
                let even: usize = remaining / (left + 1);
                if even == 0 { 1 } else { even }
            };
            proof {
                assert(remaining as int / (left + 1) <= remaining) by (nonlinear_arith)
                    requires
                        remaining >= 0,
                        left + 1 >= 1,
                ;
            }
            let ghost next = self.next_layer(cur, left as nat, nb, eb);
            let (layer, count) = expand_layer(
                &buckets,
                &mut node_seen,
                &mut edge_seen,
                &mut parents,
                edge_count,
                share,
                edge_limit,
            );
            proof {
                assert(share == layer_share((nb - cur.node_count) as nat, left as nat));
                assert(layer@ == next.layer);
            }
            let ghost prior = cur;
            edge_count = count;
            node_count = node_count + layer.len();
            if layer.len() == 0 {
                going = false;
                proof {
                    cur = FocusState {
                        node_seen: next.node_seen,
                        edge_seen: next.edge_seen,
                        layers: prior.layers,
                        parents: next.parents,
                        node_count: prior.node_count + next.layer.len(),
                        edge_count: next.edge_count,
                    };
                }
            } else {
                let ghost before = layer_views(layers@);
                let ghost added = layer@;
                layers.push(layer);
                proof {
                    assert(layer_views(layers@) =~= before.push(added));
                    cur = FocusState {
                        node_seen: next.node_seen,
                        edge_seen: next.edge_seen,
                        layers: prior.layers.push(next.layer),
                        parents: next.parents,
                        node_count: prior.node_count + next.layer.len(),
                        edge_count: next.edge_count,
                    };
                }
                left = left - 1;
            }
        }
        proof {
            assert(self.grown(start, max_depth as nat, nb, eb) == cur);
        }
        let ghost grown_edges = edge_seen@;
        let mut e: usize = 0;
        let mut total: usize = edge_count;
        while e < edge_total && total < edge_limit
            invariant
                self.focusable(),
                node_total == self.nodes.ids@.len(),
                edge_total == self.edges.ids@.len(),
                node_seen@.len() == node_total,
                edge_seen@.len() == edge_total,
                e <= edge_total,
                total <= edge_limit,
                eb == edge_limit,
                self.cross_linked(grown_edges, node_seen@, 0, edge_count as nat, eb)
                    == self.cross_linked(edge_seen@, node_seen@, e as int, total as nat, eb),
            decreases edge_total - e,
        {
            if !edge_seen[e] {
                let source: usize = self.edges.sources[e] as usize;
                let target: usize = self.edges.targets[e] as usize;
                if source < node_total && target < node_total && node_seen[source]
                    && node_seen[target] {
                    edge_seen.set(e, true);
                    total = total + 1;
                }
            }
            e = e + 1;
        }
        let nodes = flatten_layers(&layers);
        let edges = marked_positions(&edge_seen);
        Some(SceneFocus { roots, nodes, edges, layers, parents })
    }

    /// Returns a deterministic, bounded one-hop context for a selected graph
    /// element. The selected edge is always retained even at the edge budget.
    pub fn focus_neighborhood(&self, selection: SceneSelection, edge_budget: usize) -> (r: Option<
        SceneFocus,
    >)
        requires
            self.focusable(),
        ensures
            focus_view(r) == self.focus(
                selection,
                1,
                if edge_budget + 2 <= usize::MAX {
                    (edge_budget + 2) as nat
                } else {
                    usize::MAX as nat
                },
                edge_budget as nat,
            ),
    {
        let node_budget: usize = edge_budget.saturating_add(2);
        self.focus_neighborhood_layers(selection, 1, node_budget, edge_budget)
    }
}

} // verus!
