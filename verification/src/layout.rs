//! How a scene is arranged: which arrangement is drawn, and the orders and
//! groups that it goes by.

use vstd::prelude::*;
use vstd::relations::*;
use vstd::string::*;

use crate::labels;
use crate::layout_clusters::ClusterPlan;
use crate::layout_forest;
use crate::layout_forest::{directed_forest_topology, ForestTopology};
use crate::order;
use crate::order::{sort_ranked, text_is_leq, Ranked};
use crate::scene::{LayoutKind, SceneSnapshot};
use crate::single;
use crate::text;
use crate::text::same_text;

verus! {

/// The strengths of an arrangement, by the bits of their single-precision
/// values.
#[derive(Clone, Copy, Debug, PartialEq, Eq, Structural)]
pub struct LayoutOptions {
    pub iterations: usize,
    pub edge_length: u32,
    pub attraction: u32,
    pub repulsion: u32,
    pub gravity: u32,
}

impl Default for LayoutOptions {
    /// 72 iterations, edges of length 42, attraction 0.018, repulsion 1600
    /// and gravity 0.0025.
    fn default() -> (r: LayoutOptions)
        ensures
            r == (LayoutOptions {
                iterations: 72,
                edge_length: 0x4228_0000,
                attraction: 0x3c93_74bc,
                repulsion: 0x44c8_0000,
                gravity: 0x3b23_d70a,
            }),
    {
        LayoutOptions {
            iterations: 72,
            edge_length: 0x4228_0000,
            attraction: 0x3c93_74bc,
            repulsion: 0x44c8_0000,
            gravity: 0x3b23_d70a,
        }
    }
}

/// How many nodes the radial arrangement of a forest is drawn for.
pub const AUTO_RADIAL_NODE_LIMIT: usize = 2_000;

/// From how many nodes on forces are sampled.
pub const SAMPLED_NODE_THRESHOLD: usize = 256;

/// The smaller of two numbers.
pub open spec fn least(a: nat, b: nat) -> nat {
    if a < b {
        a
    } else {
        b
    }
}

/// How often the near forces of `count` nodes are applied.
pub open spec fn near_rounds(iterations: nat, count: nat) -> nat {
    if count <= 2_000 {
        iterations
    } else if count <= 12_000 {
        least(iterations, 32)
    } else {
        least(iterations, 12)
    }
}

/// How often the near forces of `count` nodes are applied.
pub fn spatial_iterations(iterations: usize, count: usize) -> (r: usize)
    ensures
        r == near_rounds(iterations as nat, count as nat),
{
    let limit: usize = if count <= 2_000 {
        iterations
    } else if count <= 12_000 {
        32
    } else {
        12
    };
    if iterations < limit {
        iterations
    } else {
        limit
    }
}

/// How often sampled forces are applied: once at least, 50 times at most.
pub fn sampled_epochs(iterations: usize) -> (r: usize)
    ensures
        r == if iterations < 1 {
            1
        } else {
            least(iterations as nat, 50)
        },
{
    if iterations < 1 {
        1
    } else if iterations > 50 {
        50
    } else {
        iterations
    }
}

/// How often a component is refined: a quarter of the iterations, within 8
/// and 15.
pub fn component_passes(iterations: usize) -> (r: usize)
    ensures
        r == if iterations / 4 < 8 {
            8
        } else {
            least((iterations / 4) as nat, 15)
        },
{
    let passes: usize = iterations / 4;
    if passes < 8 {
        8
    } else if passes > 15 {
        15
    } else {
        passes
    }
}

/// Which forces are applied.
#[derive(Clone, Copy, Debug, PartialEq, Eq, Structural)]
pub enum ForcePlan {
    /// Those of near nodes, so often.
    Near(usize),
    /// Those of sampled nodes, so often.
    Sampled(usize),
}

/// Which forces are applied to `count` nodes.
pub open spec fn forces_for(count: nat, edge_count: nat, iterations: nat) -> ForcePlan {
    if count >= SAMPLED_NODE_THRESHOLD && edge_count > 0 {
        ForcePlan::Sampled(
            if iterations < 1 {
                1
            } else {
                least(iterations, 50) as usize
            },
        )
    } else {
        ForcePlan::Near(near_rounds(iterations, count) as usize)
    }
}

/// Decides which forces are applied to `count` nodes.
pub fn plan_forces(count: usize, edge_count: usize, iterations: usize) -> (r: ForcePlan)
    ensures
        r == forces_for(count as nat, edge_count as nat, iterations as nat),
{
    if count >= SAMPLED_NODE_THRESHOLD && edge_count > 0 {
        ForcePlan::Sampled(sampled_epochs(iterations))
    } else {
        ForcePlan::Near(spatial_iterations(iterations, count))
    }
}

/// What a node is ordered by on rings.
#[derive(Debug)]
pub struct RingKey {
    pub degree: u32,
    pub label: String,
    pub id: u64,
    pub index: usize,
}

impl View for RingKey {
    type V = (u32, Seq<char>, u64, usize);

    open spec fn view(&self) -> (u32, Seq<char>, u64, usize) {
        (self.degree, self.label@, self.id, self.index)
    }
}

impl Ranked for RingKey {
    /// Many relationships first, then labels in order, then ids.
    open spec fn leq(a: (u32, Seq<char>, u64, usize), b: (u32, Seq<char>, u64, usize)) -> bool {
        if a.0 != b.0 {
            a.0 > b.0
        } else if a.1 != b.1 {
            order::text_leq(a.1, b.1)
        } else if a.2 != b.2 {
            a.2 < b.2
        } else {
            a.3 <= b.3
        }
    }

    proof fn order_is_total() {
        let leq = |a: (u32, Seq<char>, u64, usize), b: (u32, Seq<char>, u64, usize)|
            Self::leq(a, b);
        assert forall|a: (u32, Seq<char>, u64, usize), b: (u32, Seq<char>, u64, usize)| #[trigger]
            leq(a, b) && #[trigger] leq(b, a) implies a == b by {
            if a.0 == b.0 && a.1 != b.1 {
                order::lemma_text_leq_antisymmetric(a.1, b.1);
            }
        }
        assert forall|
            a: (u32, Seq<char>, u64, usize),
            b: (u32, Seq<char>, u64, usize),
            c: (u32, Seq<char>, u64, usize),
        | #[trigger] leq(a, b) && #[trigger] leq(b, c) implies leq(a, c) by {
            if a.0 == b.0 && b.0 == c.0 && a.1 != b.1 && b.1 != c.1 {
                order::lemma_text_leq_transitive(a.1, b.1, c.1);
                if a.1 == c.1 {
                    order::lemma_text_leq_antisymmetric(a.1, b.1);
                }
            }
        }
        assert forall|a: (u32, Seq<char>, u64, usize), b: (u32, Seq<char>, u64, usize)| #[trigger]
            leq(a, b) || #[trigger] leq(b, a) by {
            order::lemma_text_leq_total(a.1, b.1);
        }
    }

    fn is_leq(&self, other: &RingKey) -> (r: bool) {
        if self.degree != other.degree {
            self.degree > other.degree
        } else if !same_text(self.label.as_str(), other.label.as_str()) {
            text_is_leq(self.label.as_str(), other.label.as_str())
        } else if self.id != other.id {
            self.id < other.id
        } else {
            self.index <= other.index
        }
    }
}

/// What the nodes are ordered by on rings, in that order.
pub open spec fn ring_keys(ids: Seq<u64>, names: Seq<Seq<char>>, degrees: Seq<u32>) -> Seq<
    (u32, Seq<char>, u64, usize),
> {
    order::ranked_sort::<RingKey>(
        Seq::new(ids.len(), |i: int| (degrees[i], names[i], ids[i], i as usize)),
    )
}

/// The order in which nodes are put on rings.
pub open spec fn ring_order(ids: Seq<u64>, names: Seq<Seq<char>>, degrees: Seq<u32>) -> Seq<usize> {
    ring_keys(ids, names, degrees).map_values(|key: (u32, Seq<char>, u64, usize)| key.3)
}

/// Orders nodes for rings.
pub fn order_rings(ids: &Vec<u64>, names: &Vec<String>, degrees: &Vec<u32>) -> (r: Vec<usize>)
    requires
        names@.len() == ids@.len(),
        degrees@.len() == ids@.len(),
    ensures
        r@ == ring_order(ids@, text::views(names@), degrees@),
{
    let ghost wanted = Seq::new(
        ids@.len(),
        |i: int| (degrees@[i], text::views(names@)[i], ids@[i], i as usize),
    );
    let mut keys: Vec<RingKey> = Vec::new();
    let mut i: usize = 0;
    while i < ids.len()
        invariant
            i <= ids.len(),
            names@.len() == ids@.len(),
            degrees@.len() == ids@.len(),
            wanted.len() == ids@.len(),
            forall|k: int|
                0 <= k < wanted.len() ==> #[trigger] wanted[k] == (
                    degrees@[k],
                    names@[k]@,
                    ids@[k],
                    k as usize,
                ),
            order::ranked_views(keys@) == wanted.take(i as int),
        decreases ids.len() - i,
    {
        let ghost before = keys@;
        let key = RingKey { degree: degrees[i], label: names[i].clone(), id: ids[i], index: i };
        let ghost view = key@;
        keys.push(key);
        proof {
            assert(order::ranked_views(keys@) =~= order::ranked_views(before).push(view));
            assert(wanted[i as int] == view);
            assert(wanted.take(i + 1) =~= wanted.take(i as int).push(wanted[i as int]));
        }
        i = i + 1;
    }
    assert(wanted.take(wanted.len() as int) =~= wanted);
    let sorted = sort_ranked(keys);
    let mut out: Vec<usize> = Vec::new();
    let mut k: usize = 0;
    while k < sorted.len()
        invariant
            k <= sorted.len(),
            out@.len() == k,
            forall|j: int| 0 <= j < k ==> #[trigger] out@[j] == order::ranked_views(sorted@)[j].3,
        decreases sorted.len() - k,
    {
        out.push(sorted[k].index);
        k = k + 1;
    }
    assert(out@ =~= ring_order(ids@, text::views(names@), degrees@));
    out
}

/// Every node is on a ring exactly once.
pub proof fn law_rings_hold_every_node_once(
    ids: Seq<u64>,
    names: Seq<Seq<char>>,
    degrees: Seq<u32>,
)
    requires
        ids.len() <= usize::MAX,
    ensures
        ring_order(ids, names, degrees).len() == ids.len(),
        ring_order(ids, names, degrees).no_duplicates(),
        forall|i: usize| i < ids.len() ==> #[trigger] ring_order(ids, names, degrees).contains(i),
{
    broadcast use vstd::seq_lib::group_to_multiset_ensures;

    let wanted = Seq::new(ids.len(), |i: int| (degrees[i], names[i], ids[i], i as usize));
    let sorted = ring_keys(ids, names, degrees);
    let out = ring_order(ids, names, degrees);
    order::lemma_ranked_sort::<RingKey>(wanted);
    assert(wanted.no_duplicates()) by {
        assert forall|a: int, b: int|
            0 <= a < wanted.len() && 0 <= b < wanted.len() && a != b implies wanted[a]
            != wanted[b] by {
            assert(wanted[a].3 == a as usize);
            assert(wanted[b].3 == b as usize);
        }
    }
    wanted.lemma_multiset_has_no_duplicates();
    sorted.lemma_multiset_has_no_duplicates_conv();
    assert forall|a: int, b: int|
        0 <= a < out.len() && 0 <= b < out.len() && a != b implies out[a] != out[b] by {
        assert(sorted.contains(sorted[a]));
        assert(sorted.contains(sorted[b]));
        assert(wanted.contains(sorted[a]));
        assert(wanted.contains(sorted[b]));
        let m = choose|m: int| 0 <= m < wanted.len() && wanted[m] == sorted[a];
        let n = choose|n: int| 0 <= n < wanted.len() && wanted[n] == sorted[b];
        assert(wanted[m].3 == m as usize);
        assert(wanted[n].3 == n as usize);
        assert(sorted[a] != sorted[b]);
    }
    assert forall|i: usize| i < ids.len() implies #[trigger] out.contains(i) by {
        assert(wanted.contains(wanted[i as int]));
        assert(sorted.contains(wanted[i as int]));
        let k = choose|k: int| 0 <= k < sorted.len() && sorted[k] == wanted[i as int];
        assert(out[k] == i);
    }
}

/// Whether groups number the labels by first occurrence and each node by how
/// many with its label come before it.
pub open spec fn grouped(names: Seq<Seq<char>>, groups: Seq<(usize, usize)>) -> bool {
    &&& groups.len() == names.len()
    &&& forall|i: int|
        0 <= i < groups.len() ==> (#[trigger] groups[i]).0 < labels::distinct(names).len()
            && labels::distinct(names)[groups[i].0 as int] == names[i] && groups[i].1
            == labels::occurrences(names.take(i), names[i])
}

/// Groups nodes by label: the group and the place in it of each node, and the
/// number of groups.
pub fn group_by_label(names: &Vec<String>) -> (r: (Vec<(usize, usize)>, usize))
    ensures
        grouped(text::views(names@), r.0@),
        r.1 == labels::distinct(text::views(names@)).len(),
{
    let ghost all = text::views(names@);
    let mut known: Vec<String> = Vec::new();
    let mut sizes: Vec<usize> = Vec::new();
    let mut groups: Vec<(usize, usize)> = Vec::new();
    let mut i: usize = 0;
    assert(text::views(known@) =~= labels::distinct(all.take(0)));
    while i < names.len()
        invariant
            i <= names.len(),
            all == text::views(names@),
            groups@.len() == i,
            sizes@.len() == known@.len(),
            text::views(known@) == labels::distinct(all.take(i as int)),
            forall|k: int|
                0 <= k < sizes@.len() ==> #[trigger] sizes@[k] == labels::occurrences(
                    all.take(i as int),
                    text::views(known@)[k],
                ),
            forall|j: int|
                0 <= j < i ==> (#[trigger] groups@[j]).0 < known@.len() && text::views(
                    known@,
                )[groups@[j].0 as int] == all[j] && groups@[j].1 == labels::occurrences(
                    all.take(j),
                    all[j],
                ),
        decreases names.len() - i,
    {
        let ghost prior = all.take(i as int);
        let ghost now = all.take(i + 1);
        let ghost label = names@[i as int]@;
        let ghost before = text::views(known@);
        let ghost counts = sizes@;
        proof {
            assert(now.drop_last() =~= prior);
            assert(now.last() == label);
        }
        let mut k: usize = 0;
        while k < known.len() && !same_text(known[k].as_str(), names[i].as_str())
            invariant
                i < names.len(),
                label == names@[i as int]@,
                k <= known.len(),
                before == text::views(known@),
                forall|j: int| 0 <= j < k ==> (#[trigger] before[j]) != label,
            decreases known.len() - k,
        {
            assert(before[k as int] == known@[k as int]@);
            k = k + 1;
        }
        proof {
            labels::lemma_occurrences_bound(prior, label);
            if k < known@.len() {
                assert(before[k as int] == label);
            }
        }
        if k < known.len() {
            let local: usize = sizes[k];
            let length: usize = names.len();
            groups.push((k, local));
            assert(local == labels::occurrences(prior, label));
            sizes.set(k, local + 1);
            proof {
                assert(before.contains(label));
                assert(labels::distinct(now) == before);
            }
        } else {
            groups.push((k, 0));
            known.push(names[i].clone());
            sizes.push(1);
            proof {
                assert(text::views(known@) =~= before.push(label));
                assert(!before.contains(label));
                assert(labels::distinct(now) == before.push(label));
                assert(labels::occurrences(prior, label) == 0);
            }
        }
        proof {
            let after = text::views(known@);
            labels::lemma_distinct_positions(prior);
            assert forall|m: int| 0 <= m < sizes@.len() implies #[trigger] sizes@[m]
                == labels::occurrences(now, after[m]) by {
                if m < before.len() {
                    assert(after[m] == before[m]);
                    assert(counts[m] == labels::occurrences(prior, before[m]));
                    if m != k && before[m] == label {
                        if k < before.len() {
                            assert(before[m] != before[k as int]);
                        } else {
                            assert(before.contains(label));
                        }
                    }
                }
            }
            assert forall|j: int| 0 <= j < i + 1 implies (#[trigger] groups@[j]).0 < known@.len()
                && after[groups@[j].0 as int] == all[j] && groups@[j].1 == labels::occurrences(
                all.take(j),
                all[j],
            ) by {
                if j < i {
                    assert(before[groups@[j].0 as int] == after[groups@[j].0 as int]);
                }
            }
        }
        i = i + 1;
    }
    assert(all.take(all.len() as int) =~= all);
    let count: usize = known.len();
    (groups, count)
}

/// How a scene is arranged.
pub enum ArrangementPlan {
    /// There are no nodes.
    Nothing,
    /// A forest, its depths on rings.
    Radial(ForestTopology),
    /// A forest, its top-level branches apart; forces follow.
    Clusters { topology: ForestTopology, plan: ClusterPlan },
    /// Nodes on rings, in this order.
    Rings(Vec<usize>),
    /// Components by resistance; `by_label` asks for a start by label.
    Structure { by_label: bool },
    /// Forces; `by_label` asks for a start by label, `pinned` keeps pinned
    /// nodes, and `recenter` moves the middle to the origin.
    Forces { by_label: bool, pinned: bool, recenter: bool },
}

/// Whether a flag is set.
pub open spec fn any_set(flags: Seq<bool>) -> bool {
    flags.contains(true)
}

fn is_any_set(flags: &Vec<bool>) -> (r: bool)
    ensures
        r == any_set(flags@),
{
    let mut i: usize = 0;
    while i < flags.len()
        invariant
            i <= flags.len(),
            forall|k: int| 0 <= k < i ==> !#[trigger] flags@[k],
        decreases flags.len() - i,
    {
        if flags[i] {
            assert(flags@[i as int] == true);
            return true;
        }
        i = i + 1;
    }
    false
}

/// Whether a forest is drawn by its depths: it is small enough.
pub open spec fn radial(snapshot: SceneSnapshot, kind: LayoutKind) -> bool {
    &&& kind == LayoutKind::Auto
    &&& snapshot.nodes.ids@.len() <= AUTO_RADIAL_NODE_LIMIT
    &&& layout_forest::forest(
        snapshot.nodes.ids@.len(),
        snapshot.edges.sources@,
        snapshot.edges.targets@,
    )
}

/// Whether the plan arranges the scene.
pub open spec fn arranges(
    snapshot: SceneSnapshot,
    kind: LayoutKind,
    start: Option<usize>,
    pins: Option<Seq<bool>>,
    plan: ArrangementPlan,
) -> bool {
    let count = snapshot.nodes.ids@.len();
    let sources = snapshot.edges.sources@;
    let targets = snapshot.edges.targets@;
    let by_label = start != Some(count as usize);
    match plan {
        ArrangementPlan::Nothing => count == 0,
        ArrangementPlan::Radial(topology) => {
            &&& count > 0
            &&& radial(snapshot, kind)
            &&& topology.topology_of(count, sources, targets)
        },
        ArrangementPlan::Clusters { topology, plan } => {
            &&& kind == LayoutKind::Auto
            &&& count > AUTO_RADIAL_NODE_LIMIT
            &&& layout_forest::forest(count, sources, targets)
            &&& topology.topology_of(count, sources, targets)
            &&& 2 <= topology.tops().len() <= 64
            &&& topology.clusters(snapshot.nodes.ids@, plan)
        },
        ArrangementPlan::Rings(order) => {
            &&& count > 0
            &&& kind == LayoutKind::Orbit
            &&& order@ == ring_order(
                snapshot.nodes.ids@,
                text::views(snapshot.nodes.labels@),
                snapshot.nodes.degrees@,
            )
        },
        ArrangementPlan::Structure { by_label: asked } => {
            &&& count > 0
            &&& kind == LayoutKind::Structure
            &&& asked == by_label
        },
        ArrangementPlan::Forces { by_label: asked, pinned, recenter } => {
            &&& count > 0
            &&& kind == LayoutKind::Auto || kind == LayoutKind::Force
            &&& !radial(snapshot, kind)
            &&& kind == LayoutKind::Auto && count > AUTO_RADIAL_NODE_LIMIT
                && layout_forest::forest(count, sources, targets) ==> !(2
                <= layout_forest::top_branches(count, sources, targets).len() <= 64)
            &&& asked == by_label
            &&& pinned == (pins matches Some(flags) && flags.len() == count)
            &&& recenter == !(pins matches Some(flags) && any_set(flags))
        },
    }
}

/// Decides how a scene is arranged. `start` is how many starting positions
/// there are.
pub fn plan_arrangement(
    snapshot: &SceneSnapshot,
    kind: LayoutKind,
    start: Option<usize>,
    pins: Option<&Vec<bool>>,
) -> (r: ArrangementPlan)
    requires
        snapshot.wf(),
    ensures
        arranges(
            *snapshot,
            kind,
            start,
            match pins {
                Some(flags) => Some(flags@),
                None => None,
            },
            r,
        ),
{
    let count: usize = snapshot.nodes.ids.len();
    if count == 0 {
        return ArrangementPlan::Nothing;
    }
    let by_label = match start {
        Some(length) => length != count,
        None => true,
    };
    match kind {
        LayoutKind::Auto => {
            match directed_forest_topology(count, &snapshot.edges) {
                Some(topology) => {
                    if count <= AUTO_RADIAL_NODE_LIMIT {
                        return ArrangementPlan::Radial(topology);
                    }
                    let clusters = topology.plan_clusters(&snapshot.nodes.ids);
                    proof {
                        layout_forest::lemma_top_branches(
                            topology,
                            count as nat,
                            snapshot.edges.sources@,
                            snapshot.edges.targets@,
                        );
                    }
                    if let Some(plan) = clusters {
                        return ArrangementPlan::Clusters { topology, plan };
                    }
                },
                None => {},
            }
        },
        LayoutKind::Orbit => {
            return ArrangementPlan::Rings(
                order_rings(
                    &snapshot.nodes.ids,
                    &snapshot.nodes.labels,
                    &snapshot.nodes.degrees,
                ),
            );
        },
        LayoutKind::Structure => {
            return ArrangementPlan::Structure { by_label };
        },
        LayoutKind::Force => {},
    }
    let (pinned, recenter) = match pins {
        Some(flags) => (flags.len() == count, !is_any_set(flags)),
        None => (false, true),
    };
    ArrangementPlan::Forces { by_label, pinned, recenter }
}

/// The parent that a list gives a node: the last one that is in the scene.
pub open spec fn focus_parent(parents: Seq<(usize, usize)>, count: nat, node: int) -> Option<usize>
    decreases parents.len(),
{
    if parents.len() == 0 {
        None
    } else if parents.last().0 == node && parents.last().1 < count {
        Some(parents.last().1)
    } else {
        focus_parent(parents.drop_last(), count, node)
    }
}

/// Tells for each node of a focus where it was discovered from.
pub fn focus_parents(count: usize, parents: &Vec<(usize, usize)>) -> (r: Vec<Option<usize>>)
    ensures
        r@ == Seq::new(count as nat, |i: int| focus_parent(parents@, count as nat, i)),
{
    let mut out: Vec<Option<usize>> = Vec::new();
    let mut i: usize = 0;
    while i < count
        invariant
            i <= count,
            out@.len() == i,
            forall|k: int| 0 <= k < i ==> #[trigger] out@[k] is None,
        decreases count - i,
    {
        out.push(None);
        i = i + 1;
    }
    let mut k: usize = 0;
    assert(parents@.take(0) =~= Seq::<(usize, usize)>::empty());
    while k < parents.len()
        invariant
            k <= parents.len(),
            out@.len() == count,
            forall|n: int|
                0 <= n < count ==> #[trigger] out@[n] == focus_parent(
                    parents@.take(k as int),
                    count as nat,
                    n,
                ),
        decreases parents.len() - k,
    {
        let (child, parent) = parents[k];
        assert(parents@.take(k + 1).drop_last() =~= parents@.take(k as int));
        if child < count && parent < count {
            out.set(child, Some(parent));
        }
        k = k + 1;
    }
    proof {
        assert(parents@.take(parents@.len() as int) =~= parents@);
        assert(out@ =~= Seq::new(count as nat, |n: int| focus_parent(parents@, count as nat, n)));
    }
    out
}

/// What a node of a layer is ordered by.
#[derive(Clone, Copy, Debug)]
pub struct LayerKey {
    /// The angle of the parent.
    pub angle: u32,
    pub parent: usize,
    pub node: usize,
}

impl View for LayerKey {
    type V = (u32, usize, usize);

    open spec fn view(&self) -> (u32, usize, usize) {
        (self.angle, self.parent, self.node)
    }
}

impl Ranked for LayerKey {
    /// By the angle of the parent, then by parent, then by node.
    open spec fn leq(a: (u32, usize, usize), b: (u32, usize, usize)) -> bool {
        let first = single::total_place(a.0);
        let second = single::total_place(b.0);
        first < second || (first == second && (a.1 < b.1 || (a.1 == b.1 && a.2 <= b.2)))
    }

    proof fn order_is_total() {
    }

    fn is_leq(&self, other: &LayerKey) -> (r: bool) {
        let first: i64 = single::place_of(self.angle);
        let second: i64 = single::place_of(other.angle);
        first < second || (first == second && (self.parent < other.parent || (self.parent
            == other.parent && self.node <= other.node)))
    }
}

/// The bits of not-a-number.
pub const NOT_A_NUMBER: u32 = 0x7fc0_0000;

/// What a node of a layer is ordered by.
pub open spec fn layer_key(
    parents: Seq<Option<usize>>,
    angles: Seq<u32>,
    node: usize,
) -> (u32, usize, usize) {
    match parents[node as int] {
        Some(parent) => (
            if parent < angles.len() {
                angles[parent as int]
            } else {
                NOT_A_NUMBER
            },
            parent,
            node,
        ),
        None => (NOT_A_NUMBER, usize::MAX, node),
    }
}

/// What the nodes of a layer are ordered by, in that order.
pub open spec fn layer_keys(
    layer: Seq<usize>,
    parents: Seq<Option<usize>>,
    angles: Seq<u32>,
) -> Seq<(u32, usize, usize)> {
    order::ranked_sort::<LayerKey>(
        layer.map_values(|node: usize| layer_key(parents, angles, node)),
    )
}

/// The nodes of a layer in the order in which they are drawn.
pub open spec fn layer_order(
    layer: Seq<usize>,
    parents: Seq<Option<usize>>,
    angles: Seq<u32>,
) -> Seq<usize> {
    layer_keys(layer, parents, angles).map_values(|key: (u32, usize, usize)| key.2)
}

/// Orders a layer so that nodes stand near their parents.
pub fn order_layer(
    layer: &Vec<usize>,
    parents: &Vec<Option<usize>>,
    angles: &Vec<u32>,
) -> (r: Vec<usize>)
    requires
        forall|i: int| 0 <= i < layer@.len() ==> (#[trigger] layer@[i]) < parents@.len(),
    ensures
        r@ == layer_order(layer@, parents@, angles@),
{
    let ghost wanted = layer@.map_values(|node: usize| layer_key(parents@, angles@, node));
    let mut keys: Vec<LayerKey> = Vec::new();
    let mut i: usize = 0;
    while i < layer.len()
        invariant
            i <= layer.len(),
            forall|k: int| 0 <= k < layer@.len() ==> (#[trigger] layer@[k]) < parents@.len(),
            wanted == layer@.map_values(|node: usize| layer_key(parents@, angles@, node)),
            order::ranked_views(keys@) == wanted.take(i as int),
        decreases layer.len() - i,
    {
        let node: usize = layer[i];
        let ghost before = keys@;
        let key = match parents[node] {
            Some(parent) => LayerKey {
                angle: if parent < angles.len() {
                    angles[parent]
                } else {
                    NOT_A_NUMBER
                },
                parent,
                node,
            },
            None => LayerKey { angle: NOT_A_NUMBER, parent: usize::MAX, node },
        };
        keys.push(key);
        proof {
            assert(order::ranked_views(keys@) =~= order::ranked_views(before).push(key@));
            assert(wanted[i as int] == key@);
            assert(wanted.take(i + 1) =~= wanted.take(i as int).push(wanted[i as int]));
        }
        i = i + 1;
    }
    assert(wanted.take(wanted.len() as int) =~= wanted);
    let sorted = sort_ranked(keys);
    let mut out: Vec<usize> = Vec::new();
    let mut k: usize = 0;
    while k < sorted.len()
        invariant
            k <= sorted.len(),
            out@.len() == k,
            forall|j: int| 0 <= j < k ==> #[trigger] out@[j] == order::ranked_views(sorted@)[j].2,
        decreases sorted.len() - k,
    {
        out.push(sorted[k].node);
        k = k + 1;
    }
    assert(out@ =~= layer_keys(layer@, parents@, angles@).map_values(
        |key: (u32, usize, usize)| key.2,
    ));
    out
}

} // verus!
