//! The miniature of the scene: nodes gathered into cells, kept as long as
//! nothing that it shows has changed.

use vstd::prelude::*;

use crate::scene::Rect;
use crate::single;

verus! {

/// A cell of the miniature that holds nodes.
#[derive(Clone, Copy, Debug, PartialEq, Eq, Structural)]
pub struct NavigatorBin {
    pub cell: usize,
    pub count: usize,
    /// The node whose label colors the cell.
    pub label_index: usize,
    pub selected: bool,
    /// The strongest relevance in the cell.
    pub relevance: u32,
}

/// A cell after the first nodes.
pub open spec fn bin_after(
    cells: Seq<usize>,
    relevance: Seq<u32>,
    selected: Option<usize>,
    cell: usize,
) -> Option<NavigatorBin>
    decreases cells.len(),
{
    if cells.len() == 0 {
        None
    } else {
        let before = bin_after(cells.drop_last(), relevance, selected, cell);
        let node = (cells.len() - 1) as usize;
        if cells.last() != cell {
            before
        } else {
            let bin = match before {
                Some(bin) => bin,
                None => NavigatorBin {
                    cell,
                    count: 0,
                    label_index: node,
                    selected: false,
                    relevance: 0,
                },
            };
            let stronger = single::less(bin.relevance, relevance[node as int]);
            Some(
                NavigatorBin {
                    cell,
                    count: (bin.count + 1) as usize,
                    label_index: if stronger {
                        node
                    } else {
                        bin.label_index
                    },
                    selected: bin.selected || selected == Some(node),
                    relevance: if stronger {
                        relevance[node as int]
                    } else {
                        bin.relevance
                    },
                },
            )
        }
    }
}

proof fn lemma_bin_count(
    cells: Seq<usize>,
    relevance: Seq<u32>,
    selected: Option<usize>,
    cell: usize,
)
    requires
        cells.len() <= usize::MAX,
    ensures
        bin_after(cells, relevance, selected, cell) matches Some(bin) ==> bin.count <= cells.len()
            && bin.cell == cell && bin.label_index < cells.len(),
        bin_after(cells, relevance, selected, cell) is Some <==> cells.contains(cell),
    decreases cells.len(),
{
    if cells.len() > 0 {
        let rest = cells.drop_last();
        lemma_bin_count(rest, relevance, selected, cell);
        if rest.contains(cell) {
            let k = choose|k: int| 0 <= k < rest.len() && rest[k] == cell;
            assert(cells[k] == cell);
        }
        if cells.contains(cell) && cells.last() != cell {
            let k = choose|k: int| 0 <= k < cells.len() && cells[k] == cell;
            assert(rest[k] == cell);
        }
        if cells.last() == cell {
            assert(cells[cells.len() - 1] == cell);
        }
    }
}

/// The cells that hold nodes, in order.
pub open spec fn bins_below(
    cells: Seq<usize>,
    relevance: Seq<u32>,
    selected: Option<usize>,
    bound: nat,
) -> Seq<NavigatorBin>
    decreases bound,
{
    if bound == 0 {
        Seq::empty()
    } else {
        let rest = bins_below(cells, relevance, selected, (bound - 1) as nat);
        match bin_after(cells, relevance, selected, (bound - 1) as usize) {
            Some(bin) => rest.push(bin),
            None => rest,
        }
    }
}

/// Gathers nodes into cells. `cells` has the cell of each node and
/// `relevance` its relevance.
pub fn gather_bins(
    cell_count: usize,
    cells: &Vec<usize>,
    relevance: &Vec<u32>,
    selected: Option<usize>,
) -> (r: Vec<NavigatorBin>)
    requires
        relevance@.len() == cells@.len(),
        forall|i: int| 0 <= i < cells@.len() ==> (#[trigger] cells@[i]) < cell_count,
    ensures
        r@ == bins_below(cells@, relevance@, selected, cell_count as nat),
{
    let mut bins: Vec<Option<NavigatorBin>> = Vec::new();
    let mut c: usize = 0;
    while c < cell_count
        invariant
            c <= cell_count,
            bins@.len() == c,
            forall|k: int| 0 <= k < c ==> #[trigger] bins@[k] is None,
        decreases cell_count - c,
    {
        bins.push(None);
        c = c + 1;
    }
    let count: usize = cells.len();
    let mut node: usize = 0;
    assert(cells@.take(0) =~= Seq::<usize>::empty());
    while node < count
        invariant
            node <= count,
            count == cells@.len(),
            relevance@.len() == cells@.len(),
            forall|i: int| 0 <= i < cells@.len() ==> (#[trigger] cells@[i]) < cell_count,
            bins@.len() == cell_count,
            forall|k: int|
                0 <= k < cell_count ==> #[trigger] bins@[k] == bin_after(
                    cells@.take(node as int),
                    relevance@,
                    selected,
                    k as usize,
                ),
        decreases count - node,
    {
        let cell: usize = cells[node];
        let ghost before = bins@;
        assert(cells@[node as int] < cell_count);
        proof {
            lemma_bin_count(cells@.take(node as int), relevance@, selected, cell);
            assert(cells@.take(node + 1).drop_last() =~= cells@.take(node as int));
        }
        let bin = match bins[cell] {
            Some(bin) => bin,
            None => NavigatorBin {
                cell,
                count: 0,
                label_index: node,
                selected: false,
                relevance: 0,
            },
        };
        let stronger = single::is_less(bin.relevance, relevance[node]);
        let here = match selected {
            Some(index) => index == node,
            None => false,
        };
        let next = NavigatorBin {
            cell,
            count: bin.count + 1,
            label_index: if stronger {
                node
            } else {
                bin.label_index
            },
            selected: bin.selected || here,
            relevance: if stronger {
                relevance[node]
            } else {
                bin.relevance
            },
        };
        bins.set(cell, Some(next));
        proof {
            assert forall|k: int| 0 <= k < cell_count implies #[trigger] bins@[k] == bin_after(
                cells@.take(node + 1),
                relevance@,
                selected,
                k as usize,
            ) by {
                assert(before[k] == bin_after(
                    cells@.take(node as int),
                    relevance@,
                    selected,
                    k as usize,
                ));
            }
        }
        node = node + 1;
    }
    assert(cells@.take(cells@.len() as int) =~= cells@);
    let mut out: Vec<NavigatorBin> = Vec::new();
    let mut at: usize = 0;
    while at < cell_count
        invariant
            at <= cell_count,
            bins@.len() == cell_count,
            forall|k: int|
                0 <= k < cell_count ==> #[trigger] bins@[k] == bin_after(
                    cells@,
                    relevance@,
                    selected,
                    k as usize,
                ),
            out@ == bins_below(cells@, relevance@, selected, at as nat),
        decreases cell_count - at,
    {
        if let Some(bin) = bins[at] {
            out.push(bin);
        }
        at = at + 1;
    }
    out
}

/// Every node has a mark: the one of its cell.
pub proof fn law_every_node_is_marked(
    cells: Seq<usize>,
    relevance: Seq<u32>,
    selected: Option<usize>,
    bound: nat,
    node: int,
)
    requires
        0 <= node < cells.len() <= usize::MAX,
        cells[node] < bound <= usize::MAX,
    ensures
        exists|k: int|
            0 <= k < bins_below(cells, relevance, selected, bound).len() && (
            #[trigger] bins_below(cells, relevance, selected, bound)[k]).cell == cells[node],
    decreases bound,
{
    let rest = bins_below(cells, relevance, selected, (bound - 1) as nat);
    let all = bins_below(cells, relevance, selected, bound);
    lemma_bin_count(cells, relevance, selected, cells[node]);
    if cells[node] == bound - 1 {
        assert(all[rest.len() as int].cell == cells[node]);
    } else {
        law_every_node_is_marked(cells, relevance, selected, (bound - 1) as nat, node);
        let k = choose|k: int| 0 <= k < rest.len() && (#[trigger] rest[k]).cell == cells[node];
        assert(all[k] == rest[k]);
    }
}

/// There are never more marks in the miniature than cells.
pub proof fn law_marks_are_bounded(
    cells: Seq<usize>,
    relevance: Seq<u32>,
    selected: Option<usize>,
    bound: nat,
)
    ensures
        bins_below(cells, relevance, selected, bound).len() <= bound,
    decreases bound,
{
    if bound > 0 {
        law_marks_are_bounded(cells, relevance, selected, (bound - 1) as nat);
    }
}

/// What the miniature depends on, apart from what is brought out.
#[derive(Clone, Copy, Debug, PartialEq, Eq, Structural)]
pub struct NavigatorCacheKey {
    /// Which scene is shown.
    pub scene: u64,
    pub position_revision: u64,
    pub selected: Option<usize>,
    /// Where the miniature is drawn.
    pub frame: Rect,
    pub world_bounds: Rect,
}

/// The miniature that was drawn last.
#[derive(Debug)]
pub struct GraphNavigatorCache {
    pub key: Option<NavigatorCacheKey>,
    pub bins: Vec<NavigatorBin>,
}

impl GraphNavigatorCache {
    /// Nothing drawn yet.
    pub fn new() -> (r: GraphNavigatorCache)
        ensures
            r.key is None,
            r.bins@.len() == 0,
    {
        GraphNavigatorCache { key: None, bins: Vec::new() }
    }

    pub fn clear(&mut self)
        ensures
            final(self).key is None,
            final(self).bins@.len() == 0,
    {
        self.key = None;
        self.bins = Vec::new();
    }

    /// Whether the miniature that was drawn last still holds. One that brings
    /// something out is always drawn anew.
    pub fn holds(&self, key: &NavigatorCacheKey, emphasis: bool) -> (r: bool)
        ensures
            r == (!emphasis && self.key == Some(*key)),
    {
        if emphasis {
            return false;
        }
        match self.key {
            Some(known) => known == *key,
            None => false,
        }
    }

    /// Keeps a miniature, unless it brings something out.
    pub fn keep(&mut self, key: NavigatorCacheKey, bins: &Vec<NavigatorBin>, emphasis: bool)
        ensures
            emphasis ==> *final(self) == *old(self),
            !emphasis ==> final(self).key == Some(key) && final(self).bins@ == bins@,
    {
        if emphasis {
            return ;
        }
        let mut copy: Vec<NavigatorBin> = Vec::new();
        let mut i: usize = 0;
        while i < bins.len()
            invariant
                i <= bins.len(),
                copy@ == bins@.take(i as int),
            decreases bins.len() - i,
        {
            copy.push(bins[i]);
            assert(copy@ =~= bins@.take(i + 1));
            i = i + 1;
        }
        assert(bins@.take(bins@.len() as int) =~= bins@);
        self.key = Some(key);
        self.bins = copy;
    }
}

/// A miniature that is kept holds until the scene, a position, the selection
/// or a frame changes: the camera is no part of it.
pub proof fn law_kept_miniature_holds(
    kept: Option<NavigatorCacheKey>,
    key: NavigatorCacheKey,
    other: NavigatorCacheKey,
)
    requires
        kept == Some(key),
    ensures
        kept == Some(other) <==> other.scene == key.scene && other.position_revision
            == key.position_revision && other.selected == key.selected && other.frame == key.frame
            && other.world_bounds == key.world_bounds,
{
}

} // verus!
