//! What every bounded context keeps.

use vstd::prelude::*;
use vstd::relations::*;
use vstd::seq_lib::*;

use crate::focus;
use crate::focus::{BucketView, FocusState, LayerState, Offer, OfferView};
use crate::order;
use crate::order::Ranked;
use crate::scene::{SceneSelection, SceneSnapshot};

verus! {

/// Whether a relationship joins the two nodes, in either direction.
pub open spec fn ties(s: SceneSnapshot, e: int, a: usize, b: usize) -> bool {
    &&& 0 <= e < s.edges.ids@.len()
    &&& (s.edges.sources@[e] == a && s.edges.targets@[e] == b) || (s.edges.sources@[e] == b
        && s.edges.targets@[e] == a)
}

/// Whether some marked relationship joins the two nodes.
pub open spec fn tied(s: SceneSnapshot, flags: Seq<bool>, a: usize, b: usize) -> bool {
    exists|e: int| 0 <= e < flags.len() && flags[e] && #[trigger] ties(s, e, a, b)
}

/// Whether one of the listed relationships joins the two nodes.
pub open spec fn joined_by(s: SceneSnapshot, edges: Seq<usize>, a: usize, b: usize) -> bool {
    exists|k: int| 0 <= k < edges.len() && #[trigger] ties(s, edges[k] as int, a, b)
}

/// Whether a node was discovered from one of the nodes `before`.
pub open spec fn discovered(
    parents: Seq<(usize, usize)>,
    node: usize,
    before: Seq<usize>,
) -> bool {
    exists|i: int|
        0 <= i < parents.len() && (#[trigger] parents[i]).0 == node && before.contains(
            parents[i].1,
        )
}

/// Whether both ends of a relationship are among the nodes.
pub open spec fn within(s: SceneSnapshot, nodes: Seq<usize>, e: int) -> bool {
    nodes.contains(s.edges.sources@[e] as usize) && nodes.contains(s.edges.targets@[e] as usize)
}

spec fn offers_tie(s: SceneSnapshot, parent: usize, offers: Seq<OfferView>) -> bool {
    forall|i: int|
        0 <= i < offers.len() ==> ties(s, (#[trigger] offers[i]).3 as int, offers[i].4, parent)
            && offers[i].4 < s.nodes.ids@.len()
}

spec fn buckets_tie(s: SceneSnapshot, frontier: Seq<usize>, buckets: Seq<BucketView>) -> bool {
    forall|b: int|
        0 <= b < buckets.len() ==> frontier.contains((#[trigger] buckets[b]).0) && offers_tie(
            s,
            buckets[b].0,
            buckets[b].1,
        )
}

proof fn lemma_offers_tie(s: SceneSnapshot, f: usize, upto: nat)
    requires
        s.focusable(),
        upto <= s.edges.ids@.len() <= usize::MAX,
    ensures
        offers_tie(s, f, s.offers(f, upto)),
    decreases upto,
{
    if upto > 0 {
        lemma_offers_tie(s, f, (upto - 1) as nat);
    }
}

proof fn lemma_runs_tie(s: SceneSnapshot, frontier: Seq<usize>, parent: usize, offers: Seq<OfferView>)
    requires
        offers_tie(s, parent, offers),
        frontier.contains(parent),
    ensures
        buckets_tie(s, frontier, focus::runs(parent, offers)),
        forall|b: int|
            0 <= b < focus::runs(parent, offers).len() ==> (#[trigger] focus::runs(
                parent,
                offers,
            )[b]).0 == parent,
    decreases offers.len(),
{
    if offers.len() > 0 {
        lemma_runs_tie(s, frontier, parent, offers.drop_last());
        let before = focus::runs(parent, offers.drop_last());
        let now = focus::runs(parent, offers);
        assert(ties(s, offers.last().3 as int, offers.last().4, parent));
        assert forall|b: int| 0 <= b < now.len() implies offers_tie(
            s,
            (#[trigger] now[b]).0,
            now[b].1,
        ) by {
            if b < before.len() {
                assert(offers_tie(s, before[b].0, before[b].1));
            }
        }
    }
}

proof fn lemma_buckets_tie(s: SceneSnapshot, frontier: Seq<usize>, upto: nat)
    requires
        s.focusable(),
        upto <= frontier.len(),
        s.edges.ids@.len() <= usize::MAX,
    ensures
        buckets_tie(s, frontier, s.buckets(frontier, upto)),
    decreases upto,
{
    if upto > 0 {
        lemma_buckets_tie(s, frontier, (upto - 1) as nat);
        let i = upto - 1;
        if focus::last_slot(frontier, i) {
            let m = s.edges.ids@.len();
            let offers = s.offers(frontier[i], m);
            let sorted = order::ranked_sort::<Offer>(offers);
            lemma_offers_tie(s, frontier[i], m);
            order::lemma_ranked_sort::<Offer>(offers);
            assert forall|k: int| 0 <= k < sorted.len() implies ties(
                s,
                (#[trigger] sorted[k]).3 as int,
                sorted[k].4,
                frontier[i],
            ) && sorted[k].4 < s.nodes.ids@.len() by {
                assert(sorted.contains(sorted[k]));
                assert(offers.contains(sorted[k]));
            }
            lemma_runs_tie(s, frontier, frontier[i], sorted);
        }
    }
}

proof fn lemma_marked_update(flags: Seq<bool>, e: int, upto: nat)
    requires
        0 <= e < flags.len(),
        upto <= flags.len(),
    ensures
        focus::marked(flags.update(e, true), upto).len() == focus::marked(flags, upto).len() + (
        if e < upto && !flags[e] {
            1int
        } else {
            0
        }),
        e >= upto ==> focus::marked(flags.update(e, true), upto) == focus::marked(flags, upto),
    decreases upto,
{
    if upto > 0 {
        lemma_marked_update(flags, e, (upto - 1) as nat);
    }
}

proof fn lemma_marked_contains(flags: Seq<bool>, e: int, upto: nat)
    requires
        0 <= e < upto <= flags.len() <= usize::MAX,
        flags[e],
    ensures
        focus::marked(flags, upto).contains(e as usize),
    decreases upto,
{
    let before = focus::marked(flags, (upto - 1) as nat);
    let now = focus::marked(flags, upto);
    if e == upto - 1 {
        assert(now.last() == e as usize);
    } else {
        lemma_marked_contains(flags, e, (upto - 1) as nat);
        let k = choose|k: int| 0 <= k < before.len() && before[k] == e as usize;
        assert(now[k] == e as usize);
    }
}

proof fn lemma_marked_member(flags: Seq<bool>, upto: nat, k: int)
    requires
        upto <= flags.len() <= usize::MAX,
        0 <= k < focus::marked(flags, upto).len(),
    ensures
        focus::marked(flags, upto)[k] < upto,
        flags[focus::marked(flags, upto)[k] as int],
    decreases upto,
{
    let before = focus::marked(flags, (upto - 1) as nat);
    if k < before.len() {
        lemma_marked_member(flags, (upto - 1) as nat, k);
    }
}

/// What a layer under way keeps, relative to the context `base` before it.
spec fn layer_ok(s: SceneSnapshot, frontier: Seq<usize>, base: FocusState, t: LayerState) -> bool {
    let p = base.parents.len();
    &&& t.node_seen.len() == s.nodes.ids@.len() == base.node_seen.len()
    &&& t.edge_seen.len() == s.edges.ids@.len() == base.edge_seen.len()
    &&& t.parents.len() == p + t.layer.len()
    &&& t.edge_count == base.edge_count + t.layer.len()
    &&& focus::marked(t.edge_seen, t.edge_seen.len()).len() == t.edge_count
    &&& forall|i: int| 0 <= i < p ==> #[trigger] t.parents[i] == base.parents[i]
    &&& forall|i: int|
        0 <= i < base.node_seen.len() && base.node_seen[i] ==> #[trigger] t.node_seen[i]
    &&& forall|i: int|
        0 <= i < base.edge_seen.len() && base.edge_seen[i] ==> #[trigger] t.edge_seen[i]
    &&& forall|i: int|
        0 <= i < t.edge_seen.len() && #[trigger] t.edge_seen[i] ==> s.links_seen(t.node_seen, i)
    &&& forall|i: int|
        0 <= i < t.node_seen.len() && #[trigger] t.node_seen[i] ==> base.node_seen[i]
            || t.layer.contains(i as usize)
    &&& forall|i: int|
        0 <= i < frontier.len() ==> (#[trigger] frontier[i]) < t.node_seen.len()
            && t.node_seen[frontier[i] as int]
    &&& forall|i: int|
        0 <= i < t.layer.len() ==> {
            let node = #[trigger] t.layer[i];
            let entry = t.parents[p + i];
            &&& node < s.nodes.ids@.len()
            &&& !base.node_seen[node as int]
            &&& t.node_seen[node as int]
            &&& entry.0 == node
            &&& frontier.contains(entry.1)
            &&& tied(s, t.edge_seen, entry.0, entry.1)
        }
    &&& t.layer.no_duplicates()
}

proof fn lemma_next_unseen(offers: Seq<OfferView>, from: nat, seen: Seq<bool>)
    ensures
        ({
            let k = focus::next_unseen(offers, from, seen);
            &&& k <= offers.len()
            &&& k < offers.len() ==> from <= k && !seen[offers[k as int].4 as int]
            &&& forall|j: int| from <= j < k ==> seen[(#[trigger] offers[j]).4 as int]
        }),
    decreases offers.len() - from,
{
    if from < offers.len() && seen[offers[from as int].4 as int] {
        lemma_next_unseen(offers, from + 1, seen);
    }
}

/// Whether nothing from `from` on is unseen.
pub open spec fn spent(offers: Seq<OfferView>, from: int, seen: Seq<bool>) -> bool {
    forall|k: int| from <= k < offers.len() ==> seen[(#[trigger] offers[k]).4 as int]
}

/// Whether the bucket `b` gave the node `node` on the way from `st` to `end`:
/// an unseen neighbour, the last that the bucket has looked at.
pub open spec fn gave(
    st: LayerState,
    end: LayerState,
    buckets: Seq<BucketView>,
    b: int,
    node: usize,
) -> bool {
    let k = end.cursors[b] - 1;
    &&& st.cursors[b] <= k < buckets[b].1.len()
    &&& buckets[b].1[k].4 == node
    &&& !st.node_seen[node as int]
    &&& end.node_seen[node as int]
}

/// Whether the buckets can take turns: each has been looked at up to some
/// point, and what it offers are nodes.
pub open spec fn turnable(st: LayerState, buckets: Seq<BucketView>) -> bool {
    &&& st.cursors.len() == buckets.len()
    &&& forall|b: int| 0 <= b < buckets.len() ==> (#[trigger] buckets[b]).1.len() <= usize::MAX
    &&& forall|b: int, k: int|
        0 <= b < buckets.len() && 0 <= k < buckets[b].1.len() ==> (#[trigger] buckets[b].1[k]).4
            < st.node_seen.len()
}

/// Whether the buckets `givers`, each once and in the order of the buckets,
/// gave what the layer gained on the way from `st` to `end`.
pub open spec fn one_each(
    st: LayerState,
    end: LayerState,
    buckets: Seq<BucketView>,
    givers: Seq<int>,
) -> bool {
    let had = st.layer.len();
    &&& end.layer.len() == had + givers.len()
    &&& forall|i: int| 0 <= i < had ==> #[trigger] end.layer[i] == st.layer[i]
    &&& forall|i: int, j: int|
        0 <= i < j < givers.len() ==> (#[trigger] givers[i]) < (#[trigger] givers[j])
    &&& forall|i: int|
        0 <= i < givers.len() ==> 0 <= (#[trigger] givers[i]) < buckets.len() && gave(
            st,
            end,
            buckets,
            givers[i],
            end.layer[had + i],
        )
}

proof fn lemma_sweep_gives(
    st: LayerState,
    buckets: Seq<BucketView>,
    b: int,
    lb: nat,
    eb: nat,
) -> (givers: Seq<int>)
    requires
        0 <= b <= buckets.len(),
        turnable(st, buckets),
    ensures
        ({
            let end = focus::sweep(st, buckets, b, lb, eb);
            &&& turnable(end, buckets)
            &&& one_each(st, end, buckets, givers)
            &&& forall|i: int| 0 <= i < givers.len() ==> b <= #[trigger] givers[i]
            &&& end.node_seen.len() == st.node_seen.len()
            &&& forall|x: int|
                0 <= x < st.node_seen.len() && st.node_seen[x] ==> #[trigger] end.node_seen[x]
            &&& forall|c: int| 0 <= c < b ==> #[trigger] end.cursors[c] == st.cursors[c]
            &&& !focus::full(end, lb, eb) ==> forall|c: int|
                b <= c < buckets.len() && !givers.contains(c) ==> spent(
                    (#[trigger] buckets[c]).1,
                    st.cursors[c] as int,
                    end.node_seen,
                )
        }),
    decreases buckets.len() - b,
{
    if b == buckets.len() {
        Seq::empty()
    } else {
        let end = focus::sweep(st, buckets, b, lb, eb);
        let offers = buckets[b].1;
        let k = focus::next_unseen(offers, st.cursors[b] as nat, st.node_seen);
        let u = focus::turn(st, buckets, b);
        lemma_next_unseen(offers, st.cursors[b] as nat, st.node_seen);
        let first: Seq<int> = if k < offers.len() {
            seq![b]
        } else {
            Seq::empty()
        };
        if focus::full(u, lb, eb) {
            first
        } else {
            let rest = lemma_sweep_gives(u, buckets, b + 1, lb, eb);
            let givers = first + rest;
            let had = st.layer.len();
            assert forall|i: int| 0 <= i < givers.len() implies 0 <= (#[trigger] givers[i])
                < buckets.len() && gave(st, end, buckets, givers[i], end.layer[had + i]) by {
                if i < first.len() {
                    assert(end.cursors[b] == u.cursors[b]);
                    assert(end.layer[had + i] == u.layer[had + i]);
                } else {
                    let c = rest[i - first.len()];
                    assert(givers[i] == c);
                    assert(gave(u, end, buckets, c, end.layer[u.layer.len() + (i - first.len())]));
                    assert(u.cursors[c] == st.cursors[c]);
                }
            }
            if !focus::full(end, lb, eb) {
                assert forall|c: int| b <= c < buckets.len() && !givers.contains(c) implies spent(
                    (#[trigger] buckets[c]).1,
                    st.cursors[c] as int,
                    end.node_seen,
                ) by {
                    if c == b {
                        if k < offers.len() {
                            assert(givers[0] == b);
                        }
                    } else {
                        if rest.contains(c) {
                            let i = choose|i: int| 0 <= i < rest.len() && rest[i] == c;
                            assert(givers[first.len() + i] == c);
                        }
                        assert(u.cursors[c] == st.cursors[c]);
                    }
                }
            }
            givers
        }
    }
}

/// In one sweep the buckets give in turn, each at most one neighbour, which
/// was unseen. Unless a budget ends the sweep, a bucket that gave nothing has
/// no unseen neighbour left.
pub proof fn law_sweep_leaves_no_bucket_out(
    st: LayerState,
    buckets: Seq<BucketView>,
    layer_budget: nat,
    edge_budget: nat,
) -> (givers: Seq<int>)
    requires
        turnable(st, buckets),
    ensures
        ({
            let end = focus::sweep(st, buckets, 0, layer_budget, edge_budget);
            &&& one_each(st, end, buckets, givers)
            &&& !focus::full(end, layer_budget, edge_budget) ==> forall|b: int|
                0 <= b < buckets.len() && !givers.contains(b) ==> spent(
                    (#[trigger] buckets[b]).1,
                    st.cursors[b] as int,
                    end.node_seen,
                )
        }),
{
    lemma_sweep_gives(st, buckets, 0, layer_budget, edge_budget)
}

/// Whether everything that the buckets have been looked at for is seen.
pub open spec fn looked_at(st: LayerState, buckets: Seq<BucketView>) -> bool {
    forall|b: int, k: int|
        0 <= b < buckets.len() && 0 <= k < buckets[b].1.len() && k < st.cursors[b]
            ==> st.node_seen[(#[trigger] buckets[b].1[k]).4 as int]
}

proof fn lemma_sweep_looks_at(st: LayerState, buckets: Seq<BucketView>, b: int, lb: nat, eb: nat)
    requires
        0 <= b <= buckets.len(),
        turnable(st, buckets),
        looked_at(st, buckets),
    ensures
        looked_at(focus::sweep(st, buckets, b, lb, eb), buckets),
    decreases buckets.len() - b,
{
    if b < buckets.len() {
        let u = focus::turn(st, buckets, b);
        lemma_next_unseen(buckets[b].1, st.cursors[b] as nat, st.node_seen);
        assert(looked_at(u, buckets));
        if !focus::full(u, lb, eb) {
            lemma_sweep_looks_at(u, buckets, b + 1, lb, eb);
        }
    }
}

/// Sweeps go on until a budget is used up or nothing on offer is unseen.
pub proof fn law_rounds_leave_nothing_unseen(
    st: LayerState,
    buckets: Seq<BucketView>,
    layer_budget: nat,
    edge_budget: nat,
)
    requires
        turnable(st, buckets),
        looked_at(st, buckets),
        st.layer.len() <= layer_budget,
        st.edge_count <= edge_budget,
    ensures
        ({
            let end = focus::rounds(st, buckets, layer_budget, edge_budget);
            !focus::full(end, layer_budget, edge_budget) ==> forall|b: int|
                0 <= b < buckets.len() ==> spent((#[trigger] buckets[b]).1, 0, end.node_seen)
        }),
    decreases
            (if st.layer.len() < layer_budget {
                layer_budget - st.layer.len()
            } else {
                0
            }),
{
    if st.layer.len() < layer_budget && st.edge_count < edge_budget {
        let next = focus::sweep(st, buckets, 0, layer_budget, edge_budget);
        let givers = lemma_sweep_gives(st, buckets, 0, layer_budget, edge_budget);
        lemma_sweep_looks_at(st, buckets, 0, layer_budget, edge_budget);
        lemma_sweep_len(st, buckets, 0, layer_budget, edge_budget);
        if next.layer.len() > st.layer.len() {
            law_rounds_leave_nothing_unseen(next, buckets, layer_budget, edge_budget);
        } else if !focus::full(next, layer_budget, edge_budget) {
            assert forall|b: int| 0 <= b < buckets.len() implies spent(
                (#[trigger] buckets[b]).1,
                0,
                next.node_seen,
            ) by {
                assert(!givers.contains(b));
                assert forall|k: int| 0 <= k < buckets[b].1.len() implies next.node_seen[(
                #[trigger] buckets[b].1[k]).4 as int] by {
                    if k < st.cursors[b] {
                        assert(st.node_seen[buckets[b].1[k].4 as int]);
                    }
                }
            }
        }
    }
}

proof fn lemma_turn(
    s: SceneSnapshot,
    frontier: Seq<usize>,
    base: FocusState,
    t: LayerState,
    buckets: Seq<BucketView>,
    b: int,
)
    requires
        s.nodes.ids@.len() <= usize::MAX,
        buckets_tie(s, frontier, buckets),
        layer_ok(s, frontier, base, t),
        0 <= b < buckets.len(),
    ensures
        layer_ok(s, frontier, base, focus::turn(t, buckets, b)),
        focus::turn(t, buckets, b).layer.len() <= t.layer.len() + 1,
        focus::turn(t, buckets, b).layer.len() >= t.layer.len(),
{
    let (parent, offers) = buckets[b];
    let k = focus::next_unseen(offers, t.cursors[b] as nat, t.node_seen);
    let u = focus::turn(t, buckets, b);
    lemma_next_unseen(offers, t.cursors[b] as nat, t.node_seen);
    if k < offers.len() {
        let offer = offers[k as int];
        assert(ties(s, offer.3 as int, offer.4, parent));
        let e = offer.3 as int;
        assert(!t.edge_seen[e]) by {
            if t.edge_seen[e] {
                assert(s.links_seen(t.node_seen, e));
            }
        }
        lemma_marked_update(t.edge_seen, e, t.edge_seen.len());
        assert forall|i: int| 0 <= i < u.edge_seen.len() && #[trigger] u.edge_seen[i] implies
            s.links_seen(u.node_seen, i) by {
            if i == e {
                let f = choose|f: int| 0 <= f < frontier.len() && frontier[f] == parent;
                assert(t.node_seen[frontier[f] as int]);
            } else {
                assert(t.edge_seen[i]);
                assert(s.links_seen(t.node_seen, i));
            }
        }
        assert forall|i: int| 0 <= i < u.node_seen.len() && #[trigger] u.node_seen[i] implies
            base.node_seen[i] || u.layer.contains(i as usize) by {
            if i == offer.4 {
                assert(u.layer.last() == i as usize);
            } else if !base.node_seen[i] {
                assert(t.node_seen[i]);
                let l = choose|l: int| 0 <= l < t.layer.len() && t.layer[l] == i as usize;
                assert(u.layer[l] == i as usize);
            }
        }
        let p = base.parents.len();
        assert forall|i: int| 0 <= i < u.layer.len() implies ({
            let node = #[trigger] u.layer[i];
            let entry = u.parents[p + i];
            &&& node < s.nodes.ids@.len()
            &&& !base.node_seen[node as int]
            &&& u.node_seen[node as int]
            &&& entry.0 == node
            &&& frontier.contains(entry.1)
            &&& tied(s, u.edge_seen, entry.0, entry.1)
        }) by {
            if i < t.layer.len() {
                assert(u.layer[i] == t.layer[i]);
                assert(u.parents[p + i] == t.parents[p + i]);
                let entry = t.parents[p + i];
                let e = choose|e: int|
                    0 <= e < t.edge_seen.len() && t.edge_seen[e] && #[trigger] ties(
                        s,
                        e,
                        entry.0,
                        entry.1,
                    );
                assert(u.edge_seen[e] && ties(s, e, entry.0, entry.1));
            } else {
                assert(u.edge_seen[offer.3 as int] && ties(s, offer.3 as int, offer.4, parent));
            }
        }
        assert(u.layer.no_duplicates()) by {
            assert forall|i: int, j: int| 0 <= i < j < u.layer.len() implies u.layer[i]
                != u.layer[j] by {
                assert(u.layer[i] == t.layer[i]);
                assert(t.node_seen[t.layer[i] as int]);
                if j < t.layer.len() {
                    assert(u.layer[j] == t.layer[j]);
                }
            }
        }
    }
}

proof fn lemma_sweep(
    s: SceneSnapshot,
    frontier: Seq<usize>,
    base: FocusState,
    t: LayerState,
    buckets: Seq<BucketView>,
    b: int,
    lb: nat,
    eb: nat,
)
    requires
        s.nodes.ids@.len() <= usize::MAX,
        buckets_tie(s, frontier, buckets),
        layer_ok(s, frontier, base, t),
        t.layer.len() < lb,
        t.edge_count < eb,
    ensures
        layer_ok(s, frontier, base, focus::sweep(t, buckets, b, lb, eb)),
        focus::sweep(t, buckets, b, lb, eb).layer.len() <= lb,
        focus::sweep(t, buckets, b, lb, eb).edge_count <= eb,
    decreases buckets.len() - b,
{
    if 0 <= b < buckets.len() {
        lemma_turn(s, frontier, base, t, buckets, b);
        let u = focus::turn(t, buckets, b);
        if !focus::full(u, lb, eb) {
            lemma_sweep(s, frontier, base, u, buckets, b + 1, lb, eb);
        }
    }
}

proof fn lemma_rounds(
    s: SceneSnapshot,
    frontier: Seq<usize>,
    base: FocusState,
    t: LayerState,
    buckets: Seq<BucketView>,
    lb: nat,
    eb: nat,
)
    requires
        s.nodes.ids@.len() <= usize::MAX,
        buckets_tie(s, frontier, buckets),
        layer_ok(s, frontier, base, t),
        t.layer.len() <= lb,
        t.edge_count <= eb,
    ensures
        layer_ok(s, frontier, base, focus::rounds(t, buckets, lb, eb)),
        focus::rounds(t, buckets, lb, eb).layer.len() <= lb,
        focus::rounds(t, buckets, lb, eb).edge_count <= eb,
    decreases
            (if t.layer.len() < lb {
                lb - t.layer.len()
            } else {
                0
            }),
{
    if t.layer.len() < lb && t.edge_count < eb {
        lemma_sweep(s, frontier, base, t, buckets, 0, lb, eb);
        let u = focus::sweep(t, buckets, 0, lb, eb);
        if u.layer.len() > t.layer.len() {
            lemma_rounds(s, frontier, base, u, buckets, lb, eb);
        }
    }
}

/// What a growing context keeps.
spec fn focus_ok(s: SceneSnapshot, roots: Seq<usize>, st: FocusState, nb: nat, eb: nat) -> bool {
    let nodes = focus::flat(st.layers);
    &&& st.node_seen.len() == s.nodes.ids@.len()
    &&& st.edge_seen.len() == s.edges.ids@.len()
    &&& st.layers.len() > 0
    &&& st.layers[0] == roots
    &&& nodes.len() == st.node_count
    &&& st.node_count <= nb
    &&& st.edge_count <= eb
    &&& focus::marked(st.edge_seen, st.edge_seen.len()).len() == st.edge_count
    &&& forall|i: int|
        0 <= i < st.edge_seen.len() && #[trigger] st.edge_seen[i] ==> s.links_seen(st.node_seen, i)
    &&& forall|i: int|
        0 <= i < nodes.len() ==> (#[trigger] nodes[i]) < s.nodes.ids@.len()
            && st.node_seen[nodes[i] as int]
    &&& forall|i: int|
        0 <= i < st.node_seen.len() && #[trigger] st.node_seen[i] ==> nodes.contains(i as usize)
    &&& nodes.len() == roots.len() + st.parents.len()
    &&& forall|k: int|
        roots.len() <= k < nodes.len() ==> st.parents[k - roots.len()].0 == #[trigger] nodes[k]
    &&& forall|d: int, k: int|
        0 < d < st.layers.len() && 0 <= k < st.layers[d].len() ==> discovered(
            st.parents,
            #[trigger] st.layers[d][k],
            st.layers[d - 1],
        )
    &&& roots.no_duplicates() ==> nodes.no_duplicates()
    &&& forall|i: int|
        0 <= i < st.parents.len() ==> {
            let entry = #[trigger] st.parents[i];
            &&& nodes.contains(entry.0)
            &&& nodes.contains(entry.1)
            &&& tied(s, st.edge_seen, entry.0, entry.1)
        }
}

proof fn lemma_share_fits(remaining: nat, layers: nat)
    requires
        remaining > 0,
        layers > 0,
    ensures
        focus::layer_share(remaining, layers) <= remaining,
{
    assert(remaining / (layers + 1) <= remaining) by (nonlinear_arith)
        requires
            layers + 1 >= 1,
            remaining >= 0,
    ;
}

proof fn lemma_flat_contains_last(layers: Seq<Seq<usize>>, x: usize)
    requires
        layers.len() > 0,
        layers.last().contains(x),
    ensures
        focus::flat(layers).contains(x),
{
    let k = choose|k: int| 0 <= k < layers.last().len() && layers.last()[k] == x;
    let before = focus::flat(layers.drop_last());
    assert(focus::flat(layers)[before.len() + k] == x);
}

proof fn lemma_grown(
    s: SceneSnapshot,
    roots: Seq<usize>,
    st: FocusState,
    left: nat,
    nb: nat,
    eb: nat,
)
    requires
        s.focusable(),
        s.nodes.ids@.len() <= usize::MAX,
        s.edges.ids@.len() <= usize::MAX,
        focus_ok(s, roots, st, nb, eb),
    ensures
        focus_ok(s, roots, s.grown(st, left, nb, eb), nb, eb),
        forall|e: int|
            0 <= e < st.edge_seen.len() && st.edge_seen[e] ==> #[trigger] s.grown(
                st,
                left,
                nb,
                eb,
            ).edge_seen[e],
    decreases left,
{
    if left > 0 && st.node_count < nb && st.edge_count < eb {
        let frontier = st.layers.last();
        let buckets = s.buckets(frontier, frontier.len());
        lemma_buckets_tie(s, frontier, frontier.len());
        let share = focus::layer_share((nb - st.node_count) as nat, left);
        lemma_share_fits((nb - st.node_count) as nat, left);
        let start = LayerState {
            node_seen: st.node_seen,
            edge_seen: st.edge_seen,
            cursors: Seq::new(buckets.len(), |b: int| 0usize),
            layer: Seq::empty(),
            parents: st.parents,
            edge_count: st.edge_count,
        };
        let nodes = focus::flat(st.layers);
        assert forall|i: int| 0 <= i < frontier.len() implies (#[trigger] frontier[i])
            < st.node_seen.len() && st.node_seen[frontier[i] as int] by {
            assert(frontier.contains(frontier[i]));
            lemma_flat_contains_last(st.layers, frontier[i]);
            let a = choose|a: int| 0 <= a < nodes.len() && nodes[a] == frontier[i];
            assert(st.node_seen[nodes[a] as int]);
        }
        lemma_rounds(s, frontier, st, start, buckets, share, eb);
        let next = s.next_layer(st, left, nb, eb);
        assert(next == focus::rounds(start, buckets, share, eb));
        let after = FocusState {
            node_seen: next.node_seen,
            edge_seen: next.edge_seen,
            layers: st.layers,
            parents: next.parents,
            node_count: st.node_count + next.layer.len(),
            edge_count: next.edge_count,
        };
        let p = st.parents.len();
        assert forall|i: int| 0 <= i < p implies tied(
            s,
            next.edge_seen,
            (#[trigger] next.parents[i]).0,
            next.parents[i].1,
        ) by {
            let entry = st.parents[i];
            assert(next.parents[i] == entry);
            let e = choose|e: int|
                0 <= e < st.edge_seen.len() && st.edge_seen[e] && #[trigger] ties(
                    s,
                    e,
                    entry.0,
                    entry.1,
                );
            assert(next.edge_seen[e] && ties(s, e, entry.0, entry.1));
        }
        if next.layer.len() == 0 {
            assert(after.parents =~= st.parents);
        } else {
            let grown = FocusState { layers: st.layers.push(next.layer), ..after };
            let all = focus::flat(grown.layers);
            assert(grown.layers.drop_last() =~= st.layers);
            assert(all == nodes + next.layer);
            assert forall|i: int| 0 <= i < all.len() implies (#[trigger] all[i])
                < s.nodes.ids@.len() && grown.node_seen[all[i] as int] by {
                if i < nodes.len() {
                    assert(all[i] == nodes[i]);
                } else {
                    assert(all[i] == next.layer[i - nodes.len()]);
                }
            }
            if roots.no_duplicates() {
                assert forall|i: int, j: int| 0 <= i < j < all.len() implies all[i] != all[j] by {
                    if j < nodes.len() {
                        assert(all[i] == nodes[i] && all[j] == nodes[j]);
                    } else if i < nodes.len() {
                        assert(all[i] == nodes[i]);
                        assert(st.node_seen[nodes[i] as int]);
                        assert(all[j] == next.layer[j - nodes.len()]);
                    } else {
                        assert(all[i] == next.layer[i - nodes.len()]);
                        assert(all[j] == next.layer[j - nodes.len()]);
                    }
                }
            }
            assert forall|i: int| 0 <= i < grown.parents.len() implies ({
                let entry = #[trigger] grown.parents[i];
                &&& all.contains(entry.0)
                &&& all.contains(entry.1)
                &&& tied(s, grown.edge_seen, entry.0, entry.1)
            }) by {
                let entry = grown.parents[i];
                if i < p {
                    assert(entry == st.parents[i]);
                    let a = choose|a: int| 0 <= a < nodes.len() && nodes[a] == entry.0;
                    let b = choose|b: int| 0 <= b < nodes.len() && nodes[b] == entry.1;
                    assert(all[a] == entry.0 && all[b] == entry.1);
                } else {
                    let node = next.layer[i - p];
                    assert(entry == next.parents[p + (i - p)]);
                    assert(all[nodes.len() + (i - p)] == node);
                    lemma_flat_contains_last(st.layers, entry.1);
                    let b = choose|b: int| 0 <= b < nodes.len() && nodes[b] == entry.1;
                    assert(all[b] == entry.1);
                }
            }
            assert(grown.layers[0] == roots);
            assert forall|i: int|
                0 <= i < grown.node_seen.len() && #[trigger] grown.node_seen[i] implies all.contains(
                i as usize,
            ) by {
                if st.node_seen[i] {
                    let a = choose|a: int| 0 <= a < nodes.len() && nodes[a] == i as usize;
                    assert(all[a] == i as usize);
                } else {
                    let l = choose|l: int| 0 <= l < next.layer.len() && next.layer[l] == i as usize;
                    assert(all[nodes.len() + l] == i as usize);
                }
            }
            assert forall|k: int| roots.len() <= k < all.len() implies grown.parents[k
                - roots.len()].0 == #[trigger] all[k] by {
                if k < nodes.len() {
                    assert(all[k] == nodes[k]);
                    assert(next.parents[k - roots.len()] == st.parents[k - roots.len()]);
                } else {
                    assert(all[k] == next.layer[k - nodes.len()]);
                    assert(next.parents[p + (k - nodes.len())].0 == next.layer[k - nodes.len()]);
                }
            }
            assert forall|d: int, k: int|
                0 < d < grown.layers.len() && 0 <= k < grown.layers[d].len() implies discovered(
                grown.parents,
                #[trigger] grown.layers[d][k],
                grown.layers[d - 1],
            ) by {
                let node = grown.layers[d][k];
                if d < st.layers.len() {
                    assert(discovered(st.parents, st.layers[d][k], st.layers[d - 1]));
                    let i = choose|i: int|
                        0 <= i < st.parents.len() && (#[trigger] st.parents[i]).0 == node
                            && st.layers[d - 1].contains(st.parents[i].1);
                    assert(grown.parents[i] == st.parents[i]);
                } else {
                    assert(next.layer[k] == node);
                    assert(grown.parents[p + k].0 == node);
                    assert(grown.layers[d - 1] == frontier);
                }
            }
            lemma_grown(s, roots, grown, (left - 1) as nat, nb, eb);
        }
    }
}

proof fn lemma_cross_linked(
    s: SceneSnapshot,
    edge_seen: Seq<bool>,
    node_seen: Seq<bool>,
    e: int,
    count: nat,
    limit: nat,
)
    requires
        0 <= e,
        focus::marked(edge_seen, edge_seen.len()).len() == count,
        count <= limit,
    ensures
        ({
            let end = s.cross_linked(edge_seen, node_seen, e, count, limit);
            &&& end.len() == edge_seen.len()
            &&& focus::marked(end, end.len()).len() <= limit
            &&& forall|i: int| 0 <= i < end.len() && edge_seen[i] ==> #[trigger] end[i]
            &&& forall|i: int|
                0 <= i < end.len() && #[trigger] end[i] ==> edge_seen[i] || s.links_seen(
                    node_seen,
                    i,
                )
            &&& focus::marked(end, end.len()).len() < limit ==> forall|i: int|
                e <= i < end.len() && s.links_seen(node_seen, i) ==> #[trigger] end[i]
        }),
    decreases edge_seen.len() - e,
{
    if e >= edge_seen.len() || count >= limit {
    } else if !edge_seen[e] && s.links_seen(node_seen, e) {
        lemma_marked_update(edge_seen, e, edge_seen.len());
        lemma_cross_linked(s, edge_seen.update(e, true), node_seen, e + 1, count + 1, limit);
    } else {
        lemma_cross_linked(s, edge_seen, node_seen, e + 1, count, limit);
    }
}

/// How many relationships a context may keep: its budget, raised to what the
/// selection itself takes.
pub open spec fn relationship_limit(selection: SceneSelection, edge_budget: nat) -> nat {
    focus::at_least(
        edge_budget,
        if selection is Edge {
            1
        } else {
            0
        },
    )
}

/// A context starts at its roots and stays within both budgets, each raised
/// to what the selection itself takes. A node occurs once, unless the
/// selection is a relationship from a node to itself. Every node but the roots
/// was discovered, in the order of the nodes, from a node of the layer before
/// its own, by a relationship that the context keeps. What the context keeps
/// joins its nodes, and while the relationship budget is not used up it keeps
/// every relationship that does. A selected relationship is always kept.
pub proof fn law_focus_is_bounded_and_connected(
    s: SceneSnapshot,
    selection: SceneSelection,
    max_depth: nat,
    node_budget: nat,
    edge_budget: nat,
)
    requires
        s.focusable(),
        s.nodes.ids@.len() <= usize::MAX,
        s.edges.ids@.len() <= usize::MAX,
    ensures
        match s.focus(selection, max_depth, node_budget, edge_budget) {
            None => s.focus_roots(selection) is None,
            Some(f) => {
                &&& s.focus_roots(selection) == Some(f.roots)
                &&& f.layers.len() > 0
                &&& f.layers[0] == f.roots
                &&& f.nodes == focus::flat(f.layers)
                &&& f.nodes.len() <= focus::at_least(node_budget, f.roots.len())
                &&& f.edges.len() <= relationship_limit(selection, edge_budget)
                &&& f.roots.no_duplicates() ==> f.nodes.no_duplicates()
                &&& forall|i: int|
                    0 <= i < f.parents.len() ==> {
                        let entry = #[trigger] f.parents[i];
                        &&& f.nodes.contains(entry.0)
                        &&& f.nodes.contains(entry.1)
                        &&& joined_by(s, f.edges, entry.0, entry.1)
                    }
                &&& f.nodes.len() == f.roots.len() + f.parents.len()
                &&& forall|k: int|
                    f.roots.len() <= k < f.nodes.len() ==> f.parents[k - f.roots.len()].0
                        == #[trigger] f.nodes[k]
                &&& forall|d: int, k: int|
                    0 < d < f.layers.len() && 0 <= k < f.layers[d].len() ==> discovered(
                        f.parents,
                        #[trigger] f.layers[d][k],
                        f.layers[d - 1],
                    )
                &&& forall|k: int|
                    0 <= k < f.edges.len() ==> (#[trigger] f.edges[k]) < s.edges.ids@.len()
                        && within(s, f.nodes, f.edges[k] as int)
                &&& f.edges.len() < relationship_limit(selection, edge_budget) ==> forall|e: int|
                    0 <= e < s.edges.ids@.len() && #[trigger] within(s, f.nodes, e)
                        ==> f.edges.contains(e as usize)
                &&& selection matches SceneSelection::Edge(index) ==> f.edges.contains(index)
            },
        },
{
    match s.focus_roots(selection) {
        None => {},
        Some(roots) => {
            let start = s.focus_start(selection, roots);
            let nb = focus::at_least(node_budget, roots.len());
            let eb = focus::at_least(edge_budget, start.edge_count);
            assert(focus::flat(start.layers) =~= roots) by {
                assert(start.layers.drop_last() =~= Seq::<Seq<usize>>::empty());
                assert(focus::flat(start.layers.drop_last()) =~= Seq::<usize>::empty());
                assert(start.layers.last() == roots);
            }
            lemma_none_marked(s.edges.ids@.len(), s.edges.ids@.len());
            let no_edge = Seq::new(s.edges.ids@.len(), |i: int| false);
            match selection {
                SceneSelection::Edge(index) => {
                    lemma_marked_update(no_edge, index as int, no_edge.len());
                },
                SceneSelection::Node(_) => {},
            }
            assert forall|i: int| 0 <= i < roots.len() implies (#[trigger] roots[i])
                < s.nodes.ids@.len() && start.node_seen[roots[i] as int] by {}
            assert(focus_ok(s, roots, start, nb, eb));
            lemma_grown(s, roots, start, max_depth, nb, eb);
            let st = s.focus_grown(selection, roots, max_depth, node_budget, edge_budget);
            lemma_cross_linked(s, st.edge_seen, st.node_seen, 0, st.edge_count, eb);
            let end = s.cross_linked(st.edge_seen, st.node_seen, 0, st.edge_count, eb);
            let edges = focus::marked(end, end.len());
            assert forall|i: int| 0 <= i < st.parents.len() implies joined_by(
                s,
                edges,
                (#[trigger] st.parents[i]).0,
                st.parents[i].1,
            ) by {
                let entry = st.parents[i];
                let e = choose|e: int|
                    0 <= e < st.edge_seen.len() && st.edge_seen[e] && #[trigger] ties(
                        s,
                        e,
                        entry.0,
                        entry.1,
                    );
                assert(end[e]);
                lemma_marked_contains(end, e, end.len());
                let k = choose|k: int| 0 <= k < edges.len() && edges[k] == e as usize;
                assert(ties(s, edges[k] as int, entry.0, entry.1));
            }
            let nodes = focus::flat(st.layers);
            assert forall|k: int| 0 <= k < edges.len() implies (#[trigger] edges[k])
                < s.edges.ids@.len() && within(s, nodes, edges[k] as int) by {
                lemma_marked_member(end, end.len(), k);
                let e = edges[k] as int;
                assert(end[e]);
                assert(s.links_seen(st.node_seen, e));
                assert(st.node_seen[s.edges.sources@[e] as int]);
                assert(st.node_seen[s.edges.targets@[e] as int]);
            }
            if edges.len() < eb {
                assert forall|e: int|
                    0 <= e < s.edges.ids@.len() && #[trigger] within(s, nodes, e) implies
                    edges.contains(e as usize) by {
                    let from = s.edges.sources@[e] as usize;
                    let to = s.edges.targets@[e] as usize;
                    let a = choose|a: int| 0 <= a < nodes.len() && nodes[a] == from;
                    let b = choose|b: int| 0 <= b < nodes.len() && nodes[b] == to;
                    assert(st.node_seen[nodes[a] as int] && st.node_seen[nodes[b] as int]);
                    assert(s.links_seen(st.node_seen, e));
                    assert(end[e]);
                    lemma_marked_contains(end, e, end.len());
                }
            }
            match selection {
                SceneSelection::Edge(index) => {
                    assert(start.edge_seen[index as int]);
                    assert(end[index as int]);
                    lemma_marked_contains(end, index as int, end.len());
                },
                SceneSelection::Node(_) => {},
            }
        },
    }
}

proof fn lemma_none_marked(n: nat, upto: nat)
    requires
        upto <= n,
    ensures
        focus::marked(Seq::new(n, |i: int| false), upto).len() == 0,
    decreases upto,
{
    if upto > 0 {
        lemma_none_marked(n, (upto - 1) as nat);
    }
}

/// While later layers are to come, a layer takes at most its share of what is
/// left, so that room remains for the later ones.
pub proof fn law_layers_reserve_capacity(
    s: SceneSnapshot,
    st: FocusState,
    left: nat,
    node_budget: nat,
    edge_budget: nat,
)
    requires
        st.node_count < node_budget,
        left > 1,
    ensures
        s.next_layer(st, left, node_budget, edge_budget).layer.len() <= focus::at_least(
            1,
            ((node_budget - st.node_count) as nat) / (left + 1),
        ),
{
    let frontier = st.layers.last();
    let buckets = s.buckets(frontier, frontier.len());
    let share = focus::layer_share((node_budget - st.node_count) as nat, left);
    let start = LayerState {
        node_seen: st.node_seen,
        edge_seen: st.edge_seen,
        cursors: Seq::new(buckets.len(), |b: int| 0usize),
        layer: Seq::empty(),
        parents: st.parents,
        edge_count: st.edge_count,
    };
    lemma_rounds_len(start, buckets, share, edge_budget);
}

proof fn lemma_sweep_len(t: LayerState, buckets: Seq<BucketView>, b: int, lb: nat, eb: nat)
    requires
        t.layer.len() < lb,
    ensures
        focus::sweep(t, buckets, b, lb, eb).layer.len() <= lb,
        t.edge_count < eb ==> focus::sweep(t, buckets, b, lb, eb).edge_count <= eb,
    decreases buckets.len() - b,
{
    if 0 <= b < buckets.len() {
        let u = focus::turn(t, buckets, b);
        if !focus::full(u, lb, eb) {
            lemma_sweep_len(u, buckets, b + 1, lb, eb);
        }
    }
}

proof fn lemma_rounds_len(t: LayerState, buckets: Seq<BucketView>, lb: nat, eb: nat)
    requires
        t.layer.len() <= lb,
    ensures
        focus::rounds(t, buckets, lb, eb).layer.len() <= lb,
    decreases
            (if t.layer.len() < lb {
                lb - t.layer.len()
            } else {
                0
            }),
{
    if t.layer.len() < lb && t.edge_count < eb {
        lemma_sweep_len(t, buckets, 0, lb, eb);
        let u = focus::sweep(t, buckets, 0, lb, eb);
        if u.layer.len() > t.layer.len() {
            lemma_rounds_len(u, buckets, lb, eb);
        }
    }
}

/// Whether some bucket holds the offer.
spec fn held(buckets: Seq<BucketView>, offer: OfferView) -> bool {
    exists|b: int, k: int|
        0 <= b < buckets.len() && 0 <= k < buckets[b].1.len() && #[trigger] buckets[b].1[k] == offer
}

proof fn lemma_offers_hold(s: SceneSnapshot, e: int, upto: nat)
    requires
        0 <= e < upto,
        s.joins(e),
    ensures
        s.offers(s.edges.sources@[e] as usize, upto).contains(s.offer(e, s.edges.targets@[e])),
        s.offers(s.edges.targets@[e] as usize, upto).contains(s.offer(e, s.edges.sources@[e])),
    decreases upto,
{
    let from = s.edges.sources@[e] as usize;
    let to = s.edges.targets@[e] as usize;
    if e == upto - 1 {
        assert(s.offers(from, upto).last() == s.offer(e, s.edges.targets@[e]));
        assert(s.offers(to, upto).last() == s.offer(e, s.edges.sources@[e]));
    } else {
        let before = (upto - 1) as nat;
        lemma_offers_hold(s, e, before);
        let a = s.offers(from, before).index_of(s.offer(e, s.edges.targets@[e]));
        assert(s.offers(from, upto)[a] == s.offer(e, s.edges.targets@[e]));
        let b = s.offers(to, before).index_of(s.offer(e, s.edges.sources@[e]));
        assert(s.offers(to, upto)[b] == s.offer(e, s.edges.sources@[e]));
    }
}

proof fn lemma_offers_len(s: SceneSnapshot, f: usize, upto: nat)
    ensures
        s.offers(f, upto).len() <= upto,
    decreases upto,
{
    if upto > 0 {
        lemma_offers_len(s, f, (upto - 1) as nat);
    }
}

proof fn lemma_runs_hold(parent: usize, offers: Seq<OfferView>)
    ensures
        forall|i: int|
            0 <= i < offers.len() ==> held(focus::runs(parent, offers), #[trigger] offers[i]),
        forall|b: int|
            0 <= b < focus::runs(parent, offers).len() ==> (#[trigger] focus::runs(
                parent,
                offers,
            )[b]).1.len() <= offers.len(),
    decreases offers.len(),
{
    if offers.len() > 0 {
        let rest = offers.drop_last();
        lemma_runs_hold(parent, rest);
        let before = focus::runs(parent, rest);
        let now = focus::runs(parent, offers);
        assert forall|i: int| 0 <= i < offers.len() implies held(now, #[trigger] offers[i]) by {
            if i < rest.len() {
                assert(held(before, rest[i]));
                let (b, k) = choose|b: int, k: int|
                    0 <= b < before.len() && 0 <= k < before[b].1.len()
                        && #[trigger] before[b].1[k] == rest[i];
                assert(now[b].1[k] == offers[i]);
            } else {
                let b = now.len() - 1;
                let k = now[b].1.len() - 1;
                assert(now[b].1[k] == offers[i]);
            }
        }
    }
}

proof fn lemma_buckets_hold(s: SceneSnapshot, frontier: Seq<usize>, upto: nat)
    requires
        upto <= frontier.len(),
        s.edges.ids@.len() <= usize::MAX,
    ensures
        forall|i: int, offer: OfferView|
            0 <= i < upto && focus::last_slot(frontier, i) && #[trigger] s.offers(
                frontier[i],
                s.edges.ids@.len(),
            ).contains(offer) ==> held(s.buckets(frontier, upto), offer),
        forall|b: int|
            0 <= b < s.buckets(frontier, upto).len() ==> (#[trigger] s.buckets(
                frontier,
                upto,
            )[b]).1.len() <= usize::MAX,
    decreases upto,
{
    if upto > 0 {
        let m = s.edges.ids@.len();
        let last = upto - 1;
        let before = s.buckets(frontier, last as nat);
        let slot = s.slot_buckets(frontier, last);
        let now = s.buckets(frontier, upto);
        lemma_buckets_hold(s, frontier, last as nat);
        let offers = s.offers(frontier[last], m);
        let sorted = order::ranked_sort::<Offer>(offers);
        order::lemma_ranked_sort::<Offer>(offers);
        lemma_offers_len(s, frontier[last], m);
        lemma_runs_hold(frontier[last], sorted);
        assert forall|i: int, offer: OfferView|
            0 <= i < upto && focus::last_slot(frontier, i) && #[trigger] s.offers(
                frontier[i],
                m,
            ).contains(offer) implies held(now, offer) by {
            if i < last {
                assert(held(before, offer));
                let (b, k) = choose|b: int, k: int|
                    0 <= b < before.len() && 0 <= k < before[b].1.len()
                        && #[trigger] before[b].1[k] == offer;
                assert(now[b].1[k] == offer);
            } else {
                assert(sorted.contains(offer));
                let a = choose|a: int| 0 <= a < sorted.len() && sorted[a] == offer;
                assert(held(slot, sorted[a]));
                let (b, k) = choose|b: int, k: int|
                    0 <= b < slot.len() && 0 <= k < slot[b].1.len() && #[trigger] slot[b].1[k]
                        == offer;
                assert(now[before.len() + b].1[k] == offer);
            }
        }
        assert forall|b: int| 0 <= b < now.len() implies (#[trigger] now[b]).1.len()
            <= usize::MAX by {
            if b < before.len() {
                assert(now[b] == before[b]);
            } else {
                assert(now[b] == slot[b - before.len()]);
            }
        }
    }
}

proof fn lemma_last_slot(frontier: Seq<usize>, i: int) -> (j: int)
    requires
        0 <= i < frontier.len(),
    ensures
        0 <= j < frontier.len(),
        frontier[j] == frontier[i],
        focus::last_slot(frontier, j),
    decreases frontier.len() - i,
{
    if focus::last_slot(frontier, i) {
        i
    } else {
        let later = choose|later: int| i < later < frontier.len() && frontier[later] == frontier[i];
        lemma_last_slot(frontier, later)
    }
}

/// A layer that no budget ends leaves no neighbour of the layer before it
/// unseen.
pub proof fn law_layer_takes_every_neighbor(
    s: SceneSnapshot,
    st: FocusState,
    left: nat,
    node_budget: nat,
    edge_budget: nat,
)
    requires
        s.focusable(),
        s.edges.ids@.len() <= usize::MAX,
        st.node_seen.len() == s.nodes.ids@.len(),
        st.edge_count <= edge_budget,
    ensures
        ({
            let frontier = st.layers.last();
            let next = s.next_layer(st, left, node_budget, edge_budget);
            let share = focus::layer_share((node_budget - st.node_count) as nat, left);
            next.layer.len() < share && next.edge_count < edge_budget ==> forall|e: int|
                0 <= e < s.edges.ids@.len() && #[trigger] s.joins(e) ==> {
                    let from = s.edges.sources@[e] as usize;
                    let to = s.edges.targets@[e] as usize;
                    &&& frontier.contains(from) ==> next.node_seen[to as int]
                    &&& frontier.contains(to) ==> next.node_seen[from as int]
                }
        }),
{
    let frontier = st.layers.last();
    let m = s.edges.ids@.len();
    let buckets = s.buckets(frontier, frontier.len());
    let next = s.next_layer(st, left, node_budget, edge_budget);
    let share = focus::layer_share((node_budget - st.node_count) as nat, left);
    let start = LayerState {
        node_seen: st.node_seen,
        edge_seen: st.edge_seen,
        cursors: Seq::new(buckets.len(), |b: int| 0usize),
        layer: Seq::empty(),
        parents: st.parents,
        edge_count: st.edge_count,
    };
    lemma_buckets_tie(s, frontier, frontier.len());
    lemma_buckets_hold(s, frontier, frontier.len());
    assert(turnable(start, buckets)) by {
        assert forall|b: int, k: int|
            0 <= b < buckets.len() && 0 <= k < buckets[b].1.len() implies (
        #[trigger] buckets[b].1[k]).4 < start.node_seen.len() by {
            assert(offers_tie(s, buckets[b].0, buckets[b].1));
        }
    }
    law_rounds_leave_nothing_unseen(start, buckets, share, edge_budget);
    assert(next == focus::rounds(start, buckets, share, edge_budget));
    if next.layer.len() < share && next.edge_count < edge_budget {
        assert forall|e: int| 0 <= e < m && #[trigger] s.joins(e) implies ({
            let from = s.edges.sources@[e] as usize;
            let to = s.edges.targets@[e] as usize;
            &&& frontier.contains(from) ==> next.node_seen[to as int]
            &&& frontier.contains(to) ==> next.node_seen[from as int]
        }) by {
            let from = s.edges.sources@[e];
            let to = s.edges.targets@[e];
            lemma_offers_hold(s, e, m);
            if frontier.contains(from as usize) {
                lemma_neighbor_seen(s, frontier, next.node_seen, from as usize, s.offer(e, to));
            }
            if frontier.contains(to as usize) {
                lemma_neighbor_seen(s, frontier, next.node_seen, to as usize, s.offer(e, from));
            }
        }
    }
}

proof fn lemma_neighbor_seen(
    s: SceneSnapshot,
    frontier: Seq<usize>,
    seen: Seq<bool>,
    node: usize,
    offer: OfferView,
)
    requires
        frontier.contains(node),
        s.edges.ids@.len() <= usize::MAX,
        s.offers(node, s.edges.ids@.len()).contains(offer),
        forall|b: int|
            0 <= b < s.buckets(frontier, frontier.len()).len() ==> spent(
                (#[trigger] s.buckets(frontier, frontier.len())[b]).1,
                0,
                seen,
            ),
    ensures
        seen[offer.4 as int],
{
    let buckets = s.buckets(frontier, frontier.len());
    let i = choose|i: int| 0 <= i < frontier.len() && frontier[i] == node;
    let j = lemma_last_slot(frontier, i);
    lemma_buckets_hold(s, frontier, frontier.len());
    assert(s.offers(frontier[j], s.edges.ids@.len()).contains(offer));
    assert(held(buckets, offer));
    let (b, k) = choose|b: int, k: int|
        0 <= b < buckets.len() && 0 <= k < buckets[b].1.len() && #[trigger] buckets[b].1[k]
            == offer;
    assert(spent(buckets[b].1, 0, seen));
    assert(seen[buckets[b].1[k].4 as int]);
}

/// Whether a bucket offers something, and all of it by one label.
pub open spec fn one_label(bucket: BucketView) -> bool {
    &&& bucket.1.len() > 0
    &&& forall|k: int|
        0 <= k < bucket.1.len() ==> (#[trigger] bucket.1[k]).0 == bucket.1[0].0
}

proof fn lemma_runs_apart(parent: usize, offers: Seq<OfferView>)
    requires
        sorted_by(offers, order::ranking::<Offer>()),
    ensures
        ({
            let runs = focus::runs(parent, offers);
            &&& runs.len() == 0 ==> offers.len() == 0
            &&& offers.len() > 0 ==> runs.last().1[0].0 == offers.last().0
            &&& forall|b: int|
                0 <= b < runs.len() ==> (#[trigger] runs[b]).0 == parent && one_label(runs[b])
                    && offers.contains(runs[b].1[0])
            &&& forall|b: int, c: int|
                0 <= b < c < runs.len() ==> (#[trigger] runs[b]).1[0].0 != (
                #[trigger] runs[c]).1[0].0
        }),
    decreases offers.len(),
{
    if offers.len() > 0 {
        let rest = offers.drop_last();
        let offer = offers.last();
        let last = offers.len() - 1;
        lemma_runs_apart(parent, rest);
        let before = focus::runs(parent, rest);
        let runs = focus::runs(parent, offers);
        assert(offers[last] == offer);
        assert forall|b: int| 0 <= b < runs.len() implies (#[trigger] runs[b]).0 == parent
            && one_label(runs[b]) && offers.contains(runs[b].1[0]) by {
            if b < before.len() {
                assert(one_label(before[b]));
                assert(rest.contains(before[b].1[0]));
                let i = choose|i: int| 0 <= i < rest.len() && rest[i] == before[b].1[0];
                assert(offers[i] == runs[b].1[0]);
            }
        }
        if before.len() > 0 {
            assert(one_label(before.last()));
            assert(before.last().1.last().0 == before.last().1[0].0);
        }
        assert forall|b: int, c: int| 0 <= b < c < runs.len() implies (
        #[trigger] runs[b]).1[0].0 != (#[trigger] runs[c]).1[0].0 by {
            assert(runs[b].1[0] == before[b].1[0]);
            if c < before.len() {
                assert(runs[c].1[0] == before[c].1[0]);
            } else if b < before.len() - 1 && before[b].1[0].0 == offer.0 {
                let i = choose|i: int| 0 <= i < rest.len() && rest[i] == before[b].1[0];
                let end = rest.last();
                assert(before[b].1[0].0 != before.last().1[0].0);
                assert(i < rest.len() - 1);
                assert(order::ranking::<Offer>()(offers[i], offers[last - 1]));
                assert(order::ranking::<Offer>()(offers[last - 1], offers[last]));
                order::lemma_text_leq_antisymmetric(end.0, offer.0);
            }
        }
    }
}

proof fn lemma_buckets_apart(s: SceneSnapshot, frontier: Seq<usize>, upto: nat)
    requires
        upto <= frontier.len(),
    ensures
        ({
            let buckets = s.buckets(frontier, upto);
            &&& forall|b: int|
                0 <= b < buckets.len() ==> one_label(#[trigger] buckets[b]) && exists|i: int|
                    0 <= i < upto && #[trigger] frontier[i] == buckets[b].0 && focus::last_slot(
                        frontier,
                        i,
                    )
            &&& forall|b: int, c: int|
                0 <= b < c < buckets.len() ==> (#[trigger] buckets[b]).0 != (
                #[trigger] buckets[c]).0 || buckets[b].1[0].0 != buckets[c].1[0].0
        }),
    decreases upto,
{
    if upto > 0 {
        let last = upto - 1;
        lemma_buckets_apart(s, frontier, last as nat);
        let before = s.buckets(frontier, last as nat);
        let buckets = s.buckets(frontier, upto);
        let slot = s.slot_buckets(frontier, last);
        let offers = s.offers(frontier[last], s.edges.ids@.len());
        order::lemma_ranked_sort::<Offer>(offers);
        lemma_runs_apart(frontier[last], order::ranked_sort::<Offer>(offers));
        assert forall|b: int| 0 <= b < buckets.len() implies one_label(#[trigger] buckets[b])
            && exists|i: int|
            0 <= i < upto && #[trigger] frontier[i] == buckets[b].0 && focus::last_slot(
                frontier,
                i,
            ) by {
            if b < before.len() {
                assert(buckets[b] == before[b]);
                assert(one_label(before[b]));
                let i = choose|i: int|
                    0 <= i < last && #[trigger] frontier[i] == before[b].0 && focus::last_slot(
                        frontier,
                        i,
                    );
                assert(frontier[i] == buckets[b].0);
            } else {
                assert(buckets[b] == slot[b - before.len()]);
                assert(frontier[last] == buckets[b].0);
            }
        }
        assert forall|b: int, c: int| 0 <= b < c < buckets.len() implies (
        #[trigger] buckets[b]).0 != (#[trigger] buckets[c]).0 || buckets[b].1[0].0
            != buckets[c].1[0].0 by {
            if c < before.len() {
                assert(buckets[b] == before[b] && buckets[c] == before[c]);
            } else if b < before.len() {
                assert(buckets[b] == before[b]);
                assert(buckets[c] == slot[c - before.len()]);
                assert(one_label(before[b]));
                let i = choose|i: int|
                    0 <= i < last && #[trigger] frontier[i] == before[b].0 && focus::last_slot(
                        frontier,
                        i,
                    );
                assert(frontier[last] != frontier[i]);
            } else {
                assert(buckets[b] == slot[b - before.len()]);
                assert(buckets[c] == slot[c - before.len()]);
            }
        }
    }
}

/// What a bucket offers, it offers to one node of the layer and by one label,
/// and no two buckets share both.
pub proof fn law_buckets_tell_nodes_and_labels_apart(s: SceneSnapshot, frontier: Seq<usize>)
    ensures
        ({
            let buckets = s.buckets(frontier, frontier.len());
            &&& forall|b: int|
                0 <= b < buckets.len() ==> one_label(#[trigger] buckets[b]) && frontier.contains(
                    buckets[b].0,
                )
            &&& forall|b: int, c: int|
                0 <= b < c < buckets.len() ==> (#[trigger] buckets[b]).0 != (
                #[trigger] buckets[c]).0 || buckets[b].1[0].0 != buckets[c].1[0].0
        }),
{
    let buckets = s.buckets(frontier, frontier.len());
    lemma_buckets_apart(s, frontier, frontier.len());
    assert forall|b: int| 0 <= b < buckets.len() implies frontier.contains(
        (#[trigger] buckets[b]).0,
    ) by {
        assert(one_label(buckets[b]));
    }
}

/// A context grows from what is selected: from a node, or from both ends of a
/// relationship, its source first. What is not in the scene has no context.
pub proof fn law_contexts_grow_from_the_selection(s: SceneSnapshot, index: usize)
    requires
        s.wf(),
    ensures
        index < s.nodes.ids@.len() ==> s.focus_roots(SceneSelection::Node(index)) is Some
            && s.focus_roots(SceneSelection::Node(index))->0.len() == 1 && s.focus_roots(
            SceneSelection::Node(index),
        )->0[0] == index,
        index >= s.nodes.ids@.len() ==> s.focus_roots(SceneSelection::Node(index)) is None,
        index < s.edges.ids@.len() ==> s.focus_roots(SceneSelection::Edge(index)) is Some
            && s.focus_roots(SceneSelection::Edge(index))->0.len() == 2 && s.focus_roots(
            SceneSelection::Edge(index),
        )->0[0] == s.edges.sources@[index as int] && s.focus_roots(
            SceneSelection::Edge(index),
        )->0[1] == s.edges.targets@[index as int],
        index >= s.edges.ids@.len() ==> s.focus_roots(SceneSelection::Edge(index)) is None,
{
}

proof fn lemma_runs_ranked(parent: usize, offers: Seq<OfferView>)
    requires
        forall|i: int, j: int| 0 <= i < j < offers.len() ==> Offer::leq(offers[i], offers[j]),
    ensures
        forall|b: int, j: int|
            0 <= b < focus::runs(parent, offers).len() && 0 <= j < focus::runs(
                parent,
                offers,
            )[b].1.len() ==> offers.contains(#[trigger] focus::runs(parent, offers)[b].1[j]),
        forall|b: int, j: int, k: int|
            0 <= b < focus::runs(parent, offers).len() && 0 <= j < k < focus::runs(
                parent,
                offers,
            )[b].1.len() ==> Offer::leq(
                #[trigger] focus::runs(parent, offers)[b].1[j],
                #[trigger] focus::runs(parent, offers)[b].1[k],
            ),
    decreases offers.len(),
{
    if offers.len() > 0 {
        let rest = offers.drop_last();
        let offer = offers.last();
        let before = focus::runs(parent, rest);
        let runs = focus::runs(parent, offers);
        lemma_runs_ranked(parent, rest);
        assert forall|x: OfferView| #[trigger] rest.contains(x) implies offers.contains(x)
            && Offer::leq(x, offer) by {
            let i = choose|i: int| 0 <= i < rest.len() && rest[i] == x;
            assert(offers[i] == x);
            assert(offers[offers.len() - 1] == offer);
        }
        assert(offers.contains(offer)) by {
            assert(offers[offers.len() - 1] == offer);
        }
        assert forall|b: int, j: int|
            0 <= b < runs.len() && 0 <= j < runs[b].1.len() implies offers.contains(
            #[trigger] runs[b].1[j],
        ) by {
            if b < before.len() && j < before[b].1.len() {
                assert(runs[b].1[j] == before[b].1[j]);
                assert(rest.contains(before[b].1[j]));
            } else {
                assert(runs[b].1[j] == offer);
            }
        }
        assert forall|b: int, j: int, k: int|
            0 <= b < runs.len() && 0 <= j < k < runs[b].1.len() implies Offer::leq(
            #[trigger] runs[b].1[j],
            #[trigger] runs[b].1[k],
        ) by {
            if b < before.len() {
                assert(j < before[b].1.len());
                assert(runs[b].1[j] == before[b].1[j]);
                assert(rest.contains(before[b].1[j]));
                if k < before[b].1.len() {
                    assert(runs[b].1[k] == before[b].1[k]);
                } else {
                    assert(runs[b].1[k] == offer);
                }
            }
        }
    }
}

/// In a turn, a node offers its quieter neighbours before its busier ones, and
/// equally busy ones by identifier.
pub proof fn law_quieter_neighbors_come_first(
    s: SceneSnapshot,
    frontier: Seq<usize>,
    upto: nat,
    b: int,
    j: int,
    k: int,
)
    requires
        upto <= frontier.len(),
        0 <= b < s.buckets(frontier, upto).len(),
        0 <= j < k < s.buckets(frontier, upto)[b].1.len(),
        s.buckets(frontier, upto)[b].1[j].0 == s.buckets(frontier, upto)[b].1[k].0,
    ensures
        ({
            let first = s.buckets(frontier, upto)[b].1[j];
            let second = s.buckets(frontier, upto)[b].1[k];
            first.1 <= second.1 && (first.1 == second.1 ==> first.2 <= second.2)
        }),
    decreases upto,
{
    let last = upto - 1;
    let before = s.buckets(frontier, last as nat);
    let slot = s.slot_buckets(frontier, last);
    if b < before.len() {
        assert(s.buckets(frontier, upto)[b] == before[b]);
        law_quieter_neighbors_come_first(s, frontier, last as nat, b, j, k);
    } else {
        let offers = s.offers(frontier[last], s.edges.ids@.len());
        let sorted = order::ranked_sort::<Offer>(offers);
        order::lemma_ranked_sort::<Offer>(offers);
        assert forall|i: int, m: int| 0 <= i < m < sorted.len() implies Offer::leq(
            sorted[i],
            sorted[m],
        ) by {
            assert(order::ranking::<Offer>()(sorted[i], sorted[m]));
        }
        lemma_runs_ranked(frontier[last], sorted);
        assert(s.buckets(frontier, upto)[b] == slot[b - before.len()]);
        assert(slot[b - before.len()] == focus::runs(frontier[last], sorted)[b - before.len()]);
        assert(Offer::leq(
            focus::runs(frontier[last], sorted)[b - before.len()].1[j],
            focus::runs(frontier[last], sorted)[b - before.len()].1[k],
        ));
    }
}

proof fn lemma_depth(s: SceneSnapshot, st: FocusState, left: nat, nodes: nat, edges: nat)
    ensures
        s.grown(st, left, nodes, edges).layers.len() <= st.layers.len() + left,
    decreases left,
{
    if !(left == 0 || st.node_count >= nodes || st.edge_count >= edges) {
        let next = s.next_layer(st, left, nodes, edges);
        let after = FocusState {
            node_seen: next.node_seen,
            edge_seen: next.edge_seen,
            layers: st.layers.push(next.layer),
            parents: next.parents,
            node_count: st.node_count + next.layer.len(),
            edge_count: next.edge_count,
        };
        lemma_depth(s, after, (left - 1) as nat, nodes, edges);
    }
}

/// A context reaches no farther than it may.
pub proof fn law_contexts_stay_within_their_depth(
    s: SceneSnapshot,
    selection: SceneSelection,
    max_depth: nat,
    nodes: nat,
    edges: nat,
)
    ensures
        s.focus(selection, max_depth, nodes, edges) matches Some(f) ==> f.layers.len() <= max_depth
            + 1,
{
    if let Some(roots) = s.focus_roots(selection) {
        let start = s.focus_start(selection, roots);
        lemma_depth(
            s,
            start,
            max_depth,
            focus::at_least(nodes, roots.len()),
            focus::at_least(edges, start.edge_count),
        );
    }
}

/// The last layer of a context may take all that is left; a layer before it
/// takes one part of what is left, with one part for each layer still to come
/// and one to spare, and never less than one node.
pub proof fn law_layers_share_what_is_left(left: nat, layers: nat)
    requires
        layers > 0,
    ensures
        focus::layer_share(left, 1) == left,
        layers > 1 && left > layers ==> focus::layer_share(left, layers) * (layers + 1) <= left
            < (focus::layer_share(left, layers) + 1) * (layers + 1),
        layers > 1 && left <= layers ==> focus::layer_share(left, layers) == 1,
{
    let parts = (layers + 1) as int;
    let share = left as int / parts;
    assert(share * parts <= left < (share + 1) * parts) by (nonlinear_arith)
        requires
            parts > 0,
            left >= 0,
            share == left as int / parts,
    ;
    if left <= layers {
        assert(share == 0) by (nonlinear_arith)
            requires
                0 <= left < parts,
                share * parts <= left < (share + 1) * parts,
        ;
    } else {
        assert(share > 0) by (nonlinear_arith)
            requires
                left >= parts,
                parts > 0,
                left < (share + 1) * parts,
        ;
    }
}

} // verus!
