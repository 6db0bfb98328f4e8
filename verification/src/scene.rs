//! Bounded snapshots of a graph for presentation.
//!
//! A snapshot keeps nodes and relationships in parallel columns. A position
//! is carried by the IEEE 754 bits of its coordinates.

use vstd::prelude::*;
use vstd::relations::*;
use vstd::string::*;

use crate::graph::{EdgeId, GraphStats, NodeId, Value, ValueView};
use crate::single;

verus! {

/// A point, by the bits of its single-precision coordinates.
#[derive(Clone, Copy, Debug, PartialEq, Eq, Structural)]
pub struct Vec2 {
    pub x: u32,
    pub y: u32,
}

impl Vec2 {
    /// The origin.
    pub fn zero() -> (r: Vec2)
        ensures
            r == (Vec2 { x: 0, y: 0 }),
    {
        Vec2 { x: 0, y: 0 }
    }

    pub open spec fn finite(self) -> bool {
        single::finite(self.x) && single::finite(self.y)
    }

    pub fn is_finite(self) -> (r: bool)
        ensures
            r == self.finite(),
    {
        single::is_finite(self.x) && single::is_finite(self.y)
    }
}

/// An axis-aligned rectangle.
#[derive(Clone, Copy, Debug, PartialEq, Eq, Structural)]
pub struct Rect {
    pub min: Vec2,
    pub max: Vec2,
}

impl Default for Rect {
    /// The square from (-1, -1) to (1, 1).
    fn default() -> (r: Rect)
        ensures
            r == (Rect {
                min: Vec2 { x: 0xbf80_0000, y: 0xbf80_0000 },
                max: Vec2 { x: 0x3f80_0000, y: 0x3f80_0000 },
            }),
    {
        Rect {
            min: Vec2 { x: 0xbf80_0000, y: 0xbf80_0000 },
            max: Vec2 { x: 0x3f80_0000, y: 0x3f80_0000 },
        }
    }
}

/// A property of a scene element, its key spelled out.
#[derive(Debug)]
pub struct SceneProperty {
    pub key: String,
    pub value: Value,
}

impl View for SceneProperty {
    type V = (Seq<char>, ValueView);

    open spec fn view(&self) -> (Seq<char>, ValueView) {
        (self.key@, self.value@)
    }
}

/// The contents of a property list.
pub open spec fn properties_view(properties: Seq<SceneProperty>) -> Seq<(Seq<char>, ValueView)> {
    properties.map_values(|p: SceneProperty| p@)
}

/// Copies a property list.
pub fn copy_properties(properties: &Vec<SceneProperty>) -> (r: Vec<SceneProperty>)
    ensures
        properties_view(r@) == properties_view(properties@),
{
    let mut out: Vec<SceneProperty> = Vec::new();
    let mut i: usize = 0;
    while i < properties.len()
        invariant
            i <= properties.len(),
            properties_view(out@) == properties_view(properties@).take(i as int),
        decreases properties.len() - i,
    {
        let ghost before = out@;
        let copy = SceneProperty {
            key: properties[i].key.clone(),
            value: properties[i].value.copied(),
        };
        let ghost view = copy@;
        out.push(copy);
        proof {
            assert(properties_view(out@) =~= properties_view(before).push(view));
            assert(properties_view(properties@).take(i + 1) =~= properties_view(properties@).take(
                i as int,
            ).push(properties@[i as int]@));
        }
        i = i + 1;
    }
    assert(properties_view(properties@).take(properties@.len() as int) =~= properties_view(
        properties@,
    ));
    out
}

/// The nodes of a snapshot, one column per attribute.
#[derive(Debug)]
pub struct SceneNodes {
    pub ids: Vec<NodeId>,
    pub labels: Vec<String>,
    pub positions: Vec<Vec2>,
    pub degrees: Vec<u32>,
    pub vector_counts: Vec<u32>,
    pub properties: Vec<Vec<SceneProperty>>,
}

impl SceneNodes {
    /// Every column has one entry per node.
    pub open spec fn wf(self) -> bool {
        &&& self.labels@.len() == self.ids@.len()
        &&& self.positions@.len() == self.ids@.len()
        &&& self.degrees@.len() == self.ids@.len()
        &&& self.vector_counts@.len() == self.ids@.len()
        &&& self.properties@.len() == self.ids@.len()
    }
}

/// The relationships of a snapshot, one column per attribute. Endpoints are
/// positions in the node columns.
#[derive(Debug)]
pub struct SceneEdges {
    pub ids: Vec<EdgeId>,
    pub sources: Vec<u32>,
    pub targets: Vec<u32>,
    pub labels: Vec<String>,
    pub vector_counts: Vec<u32>,
    pub properties: Vec<Vec<SceneProperty>>,
}

impl SceneEdges {
    /// Every column has one entry per relationship.
    pub open spec fn wf(self) -> bool {
        &&& self.sources@.len() == self.ids@.len()
        &&& self.targets@.len() == self.ids@.len()
        &&& self.labels@.len() == self.ids@.len()
        &&& self.vector_counts@.len() == self.ids@.len()
        &&& self.properties@.len() == self.ids@.len()
    }
}

/// A bounded, presentation-ready copy of a graph.
#[derive(Debug)]
pub struct SceneSnapshot {
    pub revision: u64,
    pub database_name: String,
    pub source_stats: GraphStats,
    pub nodes: SceneNodes,
    pub edges: SceneEdges,
    pub bounds: Rect,
    /// Whether the source holds elements that the snapshot leaves out.
    pub sampled: bool,
}

/// Whether ids strictly ascend.
pub open spec fn ascending(ids: Seq<u64>) -> bool {
    forall|i: int, j: int| 0 <= i < j < ids.len() ==> ids[i] < ids[j]
}

impl SceneSnapshot {
    /// The columns agree in length.
    pub open spec fn columns_agree(self) -> bool {
        self.nodes.wf() && self.edges.wf()
    }

    /// The columns agree, ids strictly ascend, and endpoints name nodes.
    pub open spec fn wf(self) -> bool {
        &&& self.columns_agree()
        &&& ascending(self.nodes.ids@)
        &&& ascending(self.edges.ids@)
        &&& self.nodes.ids@.len() <= u32::MAX
        &&& forall|e: int|
            0 <= e < self.edges.ids@.len() ==> (#[trigger] self.edges.sources@[e]) < self.nodes.ids@.len()
        &&& forall|e: int|
            0 <= e < self.edges.ids@.len() ==> (#[trigger] self.edges.targets@[e]) < self.nodes.ids@.len()
    }
}

/// A selected element, by its position in the snapshot.
#[derive(Clone, Copy, Debug, PartialEq, Eq, Structural)]
pub enum SceneSelection {
    Node(usize),
    Edge(usize),
}

impl SceneSelection {
    /// The position of the selected node.
    pub fn node(self) -> (r: Option<usize>)
        ensures
            r == (match self {
                SceneSelection::Node(index) => Some(index),
                SceneSelection::Edge(_) => None,
            }),
    {
        match self {
            SceneSelection::Node(index) => Some(index),
            SceneSelection::Edge(_) => None,
        }
    }

    /// The position of the selected relationship.
    pub fn edge(self) -> (r: Option<usize>)
        ensures
            r == (match self {
                SceneSelection::Node(_) => None,
                SceneSelection::Edge(index) => Some(index),
            }),
    {
        match self {
            SceneSelection::Node(_) => None,
            SceneSelection::Edge(index) => Some(index),
        }
    }
}

/// A bounded context around a selection.
#[derive(Clone, Debug)]
pub struct SceneFocus {
    pub roots: Vec<usize>,
    pub nodes: Vec<usize>,
    pub edges: Vec<usize>,
    /// Breadth-first layers, including roots at layer zero.
    pub layers: Vec<Vec<usize>>,
    /// First-discovery parent for each non-root node.
    pub parents: Vec<(usize, usize)>,
}

/// How much of a database a snapshot may hold.
#[derive(Clone, Copy, Debug, PartialEq, Eq, Structural)]
pub struct SnapshotOptions {
    pub max_nodes: usize,
    pub max_edges: usize,
}

impl Default for SnapshotOptions {
    fn default() -> (r: SnapshotOptions)
        ensures
            r == (SnapshotOptions { max_nodes: 50_000, max_edges: 150_000 }),
    {
        SnapshotOptions { max_nodes: 50_000, max_edges: 150_000 }
    }
}

/// An arrangement of the canvas.
#[derive(Clone, Copy, Debug, PartialEq, Eq, Structural)]
pub enum LayoutKind {
    Auto,
    Force,
    Structure,
    Orbit,
}

impl Default for LayoutKind {
    fn default() -> (r: LayoutKind)
        ensures
            r == LayoutKind::Auto,
    {
        LayoutKind::Auto
    }
}

impl LayoutKind {
    pub open spec fn name(self) -> Seq<char> {
        match self {
            LayoutKind::Auto => "Auto"@,
            LayoutKind::Force => "Force"@,
            LayoutKind::Structure => "Structure"@,
            LayoutKind::Orbit => "Orbit"@,
        }
    }

    /// The arrangement's name.
    pub fn label(self) -> (r: &'static str)
        ensures
            r@ == self.name(),
    {
        match self {
            LayoutKind::Auto => "Auto",
            LayoutKind::Force => "Force",
            LayoutKind::Structure => "Structure",
            LayoutKind::Orbit => "Orbit",
        }
    }
}

/// How much detail the canvas draws.
#[derive(Clone, Copy, Debug, PartialEq, Eq, Structural)]
pub enum DetailLevel {
    Overview,
    Communities,
    Elements,
}

/// A view of the canvas: the world point at its centre, and the zoom by the
/// bits of its single-precision value.
#[derive(Clone, Copy, Debug, PartialEq, Eq, Structural)]
pub struct Camera {
    pub center: Vec2,
    pub zoom: u32,
}

/// The detail at a zoom: large scenes stay in overview up to 1.6 and in
/// communities up to 12 or 24, small ones up to 0.45 and 2.8.
pub open spec fn detail_at(zoom: u32, node_count: nat) -> DetailLevel {
    if single::less(zoom, 0x3ee6_6666) || (node_count >= 12_000 && single::less(
        zoom,
        0x3fcc_cccd,
    )) {
        DetailLevel::Overview
    } else if single::less(zoom, 0x4033_3333) || (node_count > 25_000 && single::less(
        zoom,
        0x41c0_0000,
    )) || (node_count > 12_000 && single::less(zoom, 0x4140_0000)) {
        DetailLevel::Communities
    } else {
        DetailLevel::Elements
    }
}

/// The detail that a camera shows of a scene with `node_count` nodes.
pub fn detail_level(camera: Camera, node_count: usize) -> (r: DetailLevel)
    ensures
        r == detail_at(camera.zoom, node_count as nat),
{
    let zoom: u32 = camera.zoom;
    if single::is_less(zoom, 0x3ee6_6666) || (node_count >= 12_000 && single::is_less(
        zoom,
        0x3fcc_cccd,
    )) {
        DetailLevel::Overview
    } else if single::is_less(zoom, 0x4033_3333) || (node_count > 25_000 && single::is_less(
        zoom,
        0x41c0_0000,
    )) || (node_count > 12_000 && single::is_less(zoom, 0x4140_0000)) {
        DetailLevel::Communities
    } else {
        DetailLevel::Elements
    }
}

/// The position of `id` among ids, if it is there.
pub open spec fn position_of(ids: Seq<u64>, id: u64) -> Option<usize> {
    if ids.contains(id) {
        Some(ids.index_of(id) as usize)
    } else {
        None
    }
}

/// Finds an id among strictly ascending ids.
pub fn search_ids(ids: &Vec<u64>, id: u64) -> (r: Option<usize>)
    requires
        ascending(ids@),
    ensures
        r == position_of(ids@, id),
        r matches Some(i) ==> i < ids@.len() && ids@[i as int] == id,
        r is None ==> !ids@.contains(id),
{
    let mut low: usize = 0;
    let mut high: usize = ids.len();
    while low < high
        invariant
            low <= high <= ids.len(),
            ascending(ids@),
            forall|j: int| 0 <= j < low ==> ids@[j] < id,
            forall|j: int| high <= j < ids@.len() ==> ids@[j] > id,
        decreases high - low,
    {
        let middle: usize = low + (high - low) / 2;
        if ids[middle] == id {
            proof {
                assert(ids@.contains(id));
                let k = ids@.index_of(id);
                assert(ids@[k] == id);
            }
            return Some(middle);
        }
        if ids[middle] < id {
            low = middle + 1;
        } else {
            high = middle;
        }
    }
    None
}

impl SceneSnapshot {
    /// The position of a node by its id.
    pub fn node_index(&self, id: NodeId) -> (r: Option<usize>)
        requires
            ascending(self.nodes.ids@),
        ensures
            r == position_of(self.nodes.ids@, id),
            r matches Some(i) ==> i < self.nodes.ids@.len() && self.nodes.ids@[i as int] == id,
            r is None ==> !self.nodes.ids@.contains(id),
    {
        search_ids(&self.nodes.ids, id)
    }

    /// The position of a relationship by its id.
    pub fn edge_index(&self, id: EdgeId) -> (r: Option<usize>)
        requires
            ascending(self.edges.ids@),
        ensures
            r == position_of(self.edges.ids@, id),
            r matches Some(i) ==> i < self.edges.ids@.len() && self.edges.ids@[i as int] == id,
            r is None ==> !self.edges.ids@.contains(id),
    {
        search_ids(&self.edges.ids, id)
    }
}

/// Among strictly ascending ids, looking up the id at a position gives the
/// position back.
pub proof fn law_lookup_inverts_ids(ids: Seq<u64>, i: int)
    requires
        ascending(ids),
        0 <= i < ids.len(),
        ids.len() <= usize::MAX,
    ensures
        position_of(ids, ids[i]) == Some(i as usize),
{
    assert(ids.contains(ids[i]));
    let k = ids.index_of(ids[i]);
    assert(ids[k] == ids[i]);
}

} // verus!
