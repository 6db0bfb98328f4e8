//! Where the nodes of a path are drawn: at their place in the scene, or
//! between or beyond the nearest nodes of the path that have one.

use vstd::prelude::*;

use crate::evidence::EvidenceNode;
use crate::layout_random;
use crate::scene;
use crate::scene::SceneSnapshot;

verus! {

/// Where a node of a path is drawn. Places count along the path.
#[derive(Clone, Copy, Debug, PartialEq, Eq, Structural)]
pub enum PathAnchor {
    /// Where the scene has it.
    Visible(usize),
    /// Between the nodes at two places.
    Between { left: usize, right: usize },
    /// Beyond the node at `left`, in the direction from the one at
    /// `earlier`.
    After { left: usize, earlier: Option<usize> },
    /// Before the node at `right`, in the direction from the one at `later`.
    Before { right: usize, later: Option<usize> },
    /// No node of the path is in the scene.
    Nowhere,
}

/// For each node of a path its position in the scene.
pub open spec fn seen(ids: Seq<u64>, nodes: Seq<EvidenceNode>) -> Seq<Option<usize>> {
    nodes.map_values(|n: EvidenceNode| scene::position_of(ids, n.id))
}

/// The last place before `place` with a node in the scene.
pub open spec fn last_seen(places: Seq<Option<usize>>, place: int) -> Option<usize>
    decreases place,
{
    if place <= 0 {
        None
    } else if places[place - 1] is Some {
        Some((place - 1) as usize)
    } else {
        last_seen(places, place - 1)
    }
}

/// The first place from `place` on with a node in the scene.
pub open spec fn next_seen(places: Seq<Option<usize>>, place: int) -> Option<usize>
    decreases places.len() - place,
{
    if place >= places.len() {
        None
    } else if places[place] is Some {
        Some(place as usize)
    } else {
        next_seen(places, place + 1)
    }
}

/// Where the node at a place is drawn.
pub open spec fn anchor_at(places: Seq<Option<usize>>, place: int) -> PathAnchor {
    match places[place] {
        Some(index) => PathAnchor::Visible(index),
        None => match (last_seen(places, place), next_seen(places, place + 1)) {
            (Some(left), Some(right)) => PathAnchor::Between { left, right },
            (Some(left), None) => PathAnchor::After {
                left,
                earlier: last_seen(places, left as int),
            },
            (None, Some(right)) => PathAnchor::Before {
                right,
                later: next_seen(places, right + 1),
            },
            (None, None) => PathAnchor::Nowhere,
        },
    }
}

fn find_last(places: &Vec<Option<usize>>, place: usize) -> (r: Option<usize>)
    requires
        place <= places@.len(),
    ensures
        r == last_seen(places@, place as int),
{
    let mut at: usize = place;
    while at > 0
        invariant
            at <= place <= places@.len(),
            last_seen(places@, place as int) == last_seen(places@, at as int),
        decreases at,
    {
        if places[at - 1].is_some() {
            return Some(at - 1);
        }
        at = at - 1;
    }
    None
}

fn find_next(places: &Vec<Option<usize>>, place: usize) -> (r: Option<usize>)
    requires
        place <= places@.len(),
    ensures
        r == next_seen(places@, place as int),
{
    let mut at: usize = place;
    while at < places.len()
        invariant
            place <= at <= places@.len(),
            next_seen(places@, place as int) == next_seen(places@, at as int),
        decreases places@.len() - at,
    {
        if places[at].is_some() {
            return Some(at);
        }
        at = at + 1;
    }
    None
}

proof fn lemma_seen_places(places: Seq<Option<usize>>, place: int)
    requires
        0 <= place <= places.len() <= usize::MAX,
    ensures
        last_seen(places, place) matches Some(left) ==> left < place && places[left as int] is Some
            && forall|k: int| left < k < place ==> (#[trigger] places[k]) is None,
        next_seen(places, place) matches Some(right) ==> place <= right < places.len()
            && places[right as int] is Some && forall|k: int|
            place <= k < right ==> (#[trigger] places[k]) is None,
        last_seen(places, place) is None ==> forall|k: int|
            0 <= k < place ==> (#[trigger] places[k]) is None,
        next_seen(places, place) is None ==> forall|k: int|
            place <= k < places.len() ==> (#[trigger] places[k]) is None,
{
    lemma_last_seen(places, place);
    lemma_next_seen(places, place);
}

proof fn lemma_last_seen(places: Seq<Option<usize>>, place: int)
    requires
        0 <= place <= places.len() <= usize::MAX,
    ensures
        last_seen(places, place) matches Some(left) ==> left < place && places[left as int] is Some
            && forall|k: int| left < k < place ==> (#[trigger] places[k]) is None,
        last_seen(places, place) is None ==> forall|k: int|
            0 <= k < place ==> (#[trigger] places[k]) is None,
    decreases place,
{
    if place > 0 && places[place - 1] is None {
        lemma_last_seen(places, place - 1);
    }
}

proof fn lemma_next_seen(places: Seq<Option<usize>>, place: int)
    requires
        0 <= place <= places.len() <= usize::MAX,
    ensures
        next_seen(places, place) matches Some(right) ==> place <= right < places.len()
            && places[right as int] is Some && forall|k: int|
            place <= k < right ==> (#[trigger] places[k]) is None,
        next_seen(places, place) is None ==> forall|k: int|
            place <= k < places.len() ==> (#[trigger] places[k]) is None,
    decreases places.len() - place,
{
    if place < places.len() && places[place] is None {
        lemma_next_seen(places, place + 1);
    }
}

/// A node that is not in the scene is drawn by the nearest nodes of the path
/// that are, and only on a path without any of them nowhere.
pub proof fn law_anchors_are_nearest(places: Seq<Option<usize>>, place: int)
    requires
        0 <= place < places.len() <= usize::MAX,
        places[place] is None,
    ensures
        match anchor_at(places, place) {
            PathAnchor::Visible(_) => false,
            PathAnchor::Between { left, right } => {
                &&& left < place < right < places.len()
                &&& places[left as int] is Some && places[right as int] is Some
                &&& forall|k: int| left < k < right ==> (#[trigger] places[k]) is None
            },
            PathAnchor::After { left, .. } => {
                &&& left < place
                &&& places[left as int] is Some
                &&& forall|k: int| left < k < places.len() ==> (#[trigger] places[k]) is None
            },
            PathAnchor::Before { right, .. } => {
                &&& place < right < places.len()
                &&& places[right as int] is Some
                &&& forall|k: int| 0 <= k < right ==> (#[trigger] places[k]) is None
            },
            PathAnchor::Nowhere => forall|k: int|
                0 <= k < places.len() ==> (#[trigger] places[k]) is None,
        },
{
    lemma_seen_places(places, place);
    lemma_seen_places(places, place + 1);
}

/// Finds where the nodes of a path are drawn.
pub fn path_anchors(snapshot: &SceneSnapshot, nodes: &Vec<EvidenceNode>) -> (r: Vec<PathAnchor>)
    requires
        snapshot.wf(),
    ensures
        r@ == Seq::new(
            nodes@.len(),
            |i: int| anchor_at(seen(snapshot.nodes.ids@, nodes@), i),
        ),
{
    let count: usize = nodes.len();
    let ghost wanted = seen(snapshot.nodes.ids@, nodes@);
    let mut places: Vec<Option<usize>> = Vec::new();
    let mut i: usize = 0;
    while i < count
        invariant
            i <= count,
            count == nodes@.len(),
            snapshot.wf(),
            wanted == seen(snapshot.nodes.ids@, nodes@),
            places@ == wanted.take(i as int),
        decreases count - i,
    {
        places.push(snapshot.node_index(nodes[i].id));
        assert(places@ =~= wanted.take(i + 1));
        i = i + 1;
    }
    assert(wanted.take(count as int) =~= wanted);
    let mut out: Vec<PathAnchor> = Vec::new();
    let mut k: usize = 0;
    while k < count
        invariant
            k <= count,
            count == nodes@.len(),
            places@ == wanted,
            wanted.len() == count,
            out@ == Seq::new(k as nat, |j: int| anchor_at(wanted, j)),
        decreases count - k,
    {
        let anchor = match places[k] {
            Some(index) => PathAnchor::Visible(index),
            None => {
                proof {
                    lemma_seen_places(wanted, k as int);
                    lemma_seen_places(wanted, k + 1);
                }
                match (find_last(&places, k), find_next(&places, k + 1)) {
                    (Some(left), Some(right)) => PathAnchor::Between { left, right },
                    (Some(left), None) => PathAnchor::After {
                        left,
                        earlier: find_last(&places, left),
                    },
                    (None, Some(right)) => PathAnchor::Before {
                        right,
                        later: find_next(&places, right + 1),
                    },
                    (None, None) => PathAnchor::Nowhere,
                }
            },
        };
        out.push(anchor);
        assert(out@ =~= Seq::new((k + 1) as nat, |j: int| anchor_at(wanted, j)));
        k = k + 1;
    }
    out
}

/// The value that turns the direction in which a path goes on beyond the
/// scene.
pub open spec fn path_turn(nodes: Seq<EvidenceNode>) -> u64 {
    if nodes.len() == 0 {
        0u64 ^ layout_random::turned(0, 29)
    } else {
        nodes[0].id ^ layout_random::turned(nodes.last().id, 29)
    }
}

/// The value that turns the direction in which a path goes on beyond the
/// scene.
pub fn path_seed(nodes: &Vec<EvidenceNode>) -> (r: u64)
    ensures
        r == path_turn(nodes@),
{
    if nodes.len() == 0 {
        0u64 ^ layout_random::turn(0, 29)
    } else {
        nodes[0].id ^ layout_random::turn(nodes[nodes.len() - 1].id, 29)
    }
}

/// A node of a path that is in the scene is drawn where it is in the scene, and
/// any other is not.
pub proof fn law_visible_nodes_keep_their_place(ids: Seq<u64>, nodes: Seq<EvidenceNode>, i: int)
    requires
        0 <= i < nodes.len(),
        ids.len() <= usize::MAX,
    ensures
        match anchor_at(seen(ids, nodes), i) {
            PathAnchor::Visible(row) => row < ids.len() && ids[row as int] == nodes[i].id,
            _ => !ids.contains(nodes[i].id),
        },
{
    assert(seen(ids, nodes)[i] == scene::position_of(ids, nodes[i].id));
    if ids.contains(nodes[i].id) {
        let row = ids.index_of(nodes[i].id);
        assert(ids[row] == nodes[i].id);
    }
}

/// Beyond the last visible node a path goes on as it came: the direction is
/// taken from that node and the visible one nearest before it. Ahead of the
/// first visible node it is the same the other way round.
pub proof fn law_ends_go_on_as_the_path_came(places: Seq<Option<usize>>, place: int)
    requires
        0 <= place < places.len() <= usize::MAX,
    ensures
        match anchor_at(places, place) {
            PathAnchor::After { left, earlier } => match earlier {
                Some(k) => k < left && places[k as int] is Some && forall|j: int|
                    k < j < left ==> (#[trigger] places[j]) is None,
                None => forall|j: int| 0 <= j < left ==> (#[trigger] places[j]) is None,
            },
            PathAnchor::Before { right, later } => match later {
                Some(k) => right < k < places.len() && places[k as int] is Some && forall|j: int|
                    right < j < k ==> (#[trigger] places[j]) is None,
                None => forall|j: int| right < j < places.len() ==> (#[trigger] places[j]) is None,
            },
            _ => true,
        },
{
    match anchor_at(places, place) {
        PathAnchor::After { left, earlier } => {
            lemma_seen_places(places, place);
            lemma_seen_places(places, left as int);
        },
        PathAnchor::Before { right, later } => {
            lemma_seen_places(places, place + 1);
            lemma_seen_places(places, right + 1);
        },
        _ => {},
    }
}

} // verus!
