//! A small scene to show without a database.

use vstd::prelude::*;
use vstd::string::*;

use crate::digits;
use crate::digits::decimal_text;
use crate::graph::{GraphStats, Value, ValueView};
use crate::scene;
use crate::scene::{Rect, SceneEdges, SceneNodes, SceneProperty, SceneSnapshot, Vec2};
use crate::snapshot;
use crate::snapshot::count_degrees;
use crate::text::concat2;

verus! {

/// The label of a node.
pub open spec fn demo_label(node: int) -> Seq<char> {
    if node % 4 == 0 {
        "Document"@
    } else if node % 4 == 1 {
        "Concept"@
    } else if node % 4 == 2 {
        "Claim"@
    } else {
        "Source"@
    }
}

/// How far ahead a relationship leads.
pub open spec fn demo_offset(step: int) -> int {
    if step % 3 == 0 {
        1
    } else if step % 3 == 1 {
        7
    } else {
        19
    }
}

/// The relationships of the first steps: three a node, but a far one only
/// where it leads to a later node.
pub open spec fn demo_edges(steps: nat) -> Seq<(u32, u32, int)>
    decreases steps,
{
    if steps == 0 {
        Seq::empty()
    } else {
        let rest = demo_edges((steps - 1) as nat);
        let source = (steps - 1) / 3;
        let offset = demo_offset(steps - 1);
        let target = (source + offset) % 96;
        if source >= target && offset != 1 {
            rest
        } else {
            rest.push((source as u32, target as u32, offset))
        }
    }
}

/// Whether this is the demo scene before it is arranged.
pub open spec fn is_demo(s: SceneSnapshot) -> bool {
    let edges = demo_edges(288);
    &&& s.wf()
    &&& s.revision == 0
    &&& s.database_name@ == "Demo graph"@
    &&& s.source_stats == (GraphStats {
        nodes: 96,
        edges: edges.len() as usize,
        labels: 6,
        indexed_vectors: 0,
        transactions: 0,
    })
    &&& s.bounds == snapshot::unit_square()
    &&& !s.sampled
    &&& s.nodes.ids@.len() == 96
    &&& forall|i: int| 0 <= i < 96 ==> #[trigger] s.nodes.ids@[i] == i
    &&& forall|i: int| 0 <= i < 96 ==> (#[trigger] s.nodes.labels@[i])@ == demo_label(i)
    &&& forall|i: int| 0 <= i < 96 ==> #[trigger] s.nodes.positions@[i] == (Vec2 { x: 0, y: 0 })
    &&& forall|i: int|
        0 <= i < 96 ==> #[trigger] s.nodes.vector_counts@[i] == if i % 3 == 0 {
            0u32
        } else {
            1u32
        }
    &&& forall|i: int|
        0 <= i < 96 ==> scene::properties_view((#[trigger] s.nodes.properties@[i])@) == seq![
            (
                "title"@,
                ValueView::Text("Context element "@ + digits::decimal(i as nat)),
            ),
        ]
    &&& snapshot::degrees_match(s.nodes.degrees@, s.edges.sources@, s.edges.targets@)
    &&& s.edges.ids@.len() == edges.len()
    &&& forall|e: int|
        0 <= e < edges.len() ==> #[trigger] s.edges.ids@[e] == e && s.edges.sources@[e]
            == edges[e].0 && s.edges.targets@[e] == edges[e].1
    &&& forall|e: int|
        0 <= e < edges.len() ==> (#[trigger] s.edges.labels@[e])@ == if edges[e].2 == 1 {
            "NEXT"@
        } else {
            "SUPPORTS"@
        }
    &&& forall|e: int|
        0 <= e < edges.len() ==> #[trigger] s.edges.vector_counts@[e] == if edges[e].2 == 1 {
            0u32
        } else {
            1u32
        }
    &&& forall|e: int|
        0 <= e < edges.len() ==> (#[trigger] s.edges.properties@[e])@ == Seq::<
            SceneProperty,
        >::empty()
}

proof fn lemma_demo_edges(steps: nat)
    requires
        steps <= 288,
    ensures
        demo_edges(steps).len() <= steps,
        forall|e: int|
            0 <= e < demo_edges(steps).len() ==> (#[trigger] demo_edges(steps)[e]).0 < 96
                && demo_edges(steps)[e].1 < 96,
    decreases steps,
{
    if steps > 0 {
        lemma_demo_edges((steps - 1) as nat);
    }
}

fn demo_node_columns() -> (r: SceneNodes)
    ensures
        r.ids@.len() == 96,
        r.labels@.len() == 96,
        r.positions@.len() == 96,
        r.degrees@.len() == 0,
        r.vector_counts@.len() == 96,
        r.properties@.len() == 96,
        forall|i: int| 0 <= i < 96 ==> #[trigger] r.ids@[i] == i,
        forall|i: int| 0 <= i < 96 ==> (#[trigger] r.labels@[i])@ == demo_label(i),
        forall|i: int| 0 <= i < 96 ==> #[trigger] r.positions@[i] == (Vec2 { x: 0, y: 0 }),
        forall|i: int|
            0 <= i < 96 ==> #[trigger] r.vector_counts@[i] == if i % 3 == 0 {
                0u32
            } else {
                1u32
            },
        forall|i: int|
            0 <= i < 96 ==> scene::properties_view((#[trigger] r.properties@[i])@) == seq![
                (
                    "title"@,
                    ValueView::Text("Context element "@ + digits::decimal(i as nat)),
                ),
            ],
{
    let mut nodes = SceneNodes {
        ids: Vec::new(),
        labels: Vec::new(),
        positions: Vec::new(),
        degrees: Vec::new(),
        vector_counts: Vec::new(),
        properties: Vec::new(),
    };
    let mut i: u64 = 0;
    while i < 96
        invariant
            i <= 96,
            nodes.ids@.len() == i,
            nodes.labels@.len() == i,
            nodes.positions@.len() == i,
            nodes.degrees@.len() == 0,
            nodes.vector_counts@.len() == i,
            nodes.properties@.len() == i,
            forall|k: int| 0 <= k < i ==> #[trigger] nodes.ids@[k] == k,
            forall|k: int| 0 <= k < i ==> (#[trigger] nodes.labels@[k])@ == demo_label(k),
            forall|k: int| 0 <= k < i ==> #[trigger] nodes.positions@[k] == (Vec2 { x: 0, y: 0 }),
            forall|k: int|
                0 <= k < i ==> #[trigger] nodes.vector_counts@[k] == if k % 3 == 0 {
                    0u32
                } else {
                    1u32
                },
            forall|k: int|
                0 <= k < i ==> scene::properties_view((#[trigger] nodes.properties@[k])@) == seq![
                    (
                        "title"@,
                        ValueView::Text("Context element "@ + digits::decimal(k as nat)),
                    ),
                ],
        decreases 96 - i,
    {
        let label = if i % 4 == 0 {
            "Document"
        } else if i % 4 == 1 {
            "Concept"
        } else if i % 4 == 2 {
            "Claim"
        } else {
            "Source"
        };
        nodes.ids.push(i);
        nodes.labels.push(label.to_owned());
        nodes.positions.push(Vec2::zero());
        nodes.vector_counts.push(
            if i % 3 == 0 {
                0
            } else {
                1
            },
        );
        let number = decimal_text(i);
        let property = SceneProperty {
            key: "title".to_owned(),
            value: Value::String(concat2("Context element ", number.as_str())),
        };
        let ghost view = property@;
        let mut properties: Vec<SceneProperty> = Vec::new();
        properties.push(property);
        assert(scene::properties_view(properties@) =~= seq![view]);
        nodes.properties.push(properties);
        i = i + 1;
    }
    nodes
}

fn demo_edge_columns() -> (r: SceneEdges)
    ensures
        r.wf(),
        r.ids@.len() == demo_edges(288).len(),
        forall|e: int|
            0 <= e < r.ids@.len() ==> #[trigger] r.ids@[e] == e && r.sources@[e] == demo_edges(
                288,
            )[e].0 && r.targets@[e] == demo_edges(288)[e].1,
        forall|e: int|
            0 <= e < r.ids@.len() ==> (#[trigger] r.labels@[e])@ == if demo_edges(288)[e].2 == 1 {
                "NEXT"@
            } else {
                "SUPPORTS"@
            },
        forall|e: int|
            0 <= e < r.ids@.len() ==> #[trigger] r.vector_counts@[e] == if demo_edges(288)[e].2
                == 1 {
                0u32
            } else {
                1u32
            },
        forall|e: int|
            0 <= e < r.ids@.len() ==> (#[trigger] r.properties@[e])@ == Seq::<
                SceneProperty,
            >::empty(),
{
    let mut edges = SceneEdges {
        ids: Vec::new(),
        sources: Vec::new(),
        targets: Vec::new(),
        labels: Vec::new(),
        vector_counts: Vec::new(),
        properties: Vec::new(),
    };
    let mut step: u32 = 0;
    while step < 288
        invariant
            step <= 288,
            edges.wf(),
            edges.ids@.len() == demo_edges(step as nat).len(),
            edges.ids@.len() <= step,
            forall|e: int|
                0 <= e < edges.ids@.len() ==> #[trigger] edges.ids@[e] == e && edges.sources@[e]
                    == demo_edges(step as nat)[e].0 && edges.targets@[e] == demo_edges(
                    step as nat,
                )[e].1,
            forall|e: int|
                0 <= e < edges.ids@.len() ==> (#[trigger] edges.labels@[e])@ == if demo_edges(
                    step as nat,
                )[e].2 == 1 {
                    "NEXT"@
                } else {
                    "SUPPORTS"@
                },
            forall|e: int|
                0 <= e < edges.ids@.len() ==> #[trigger] edges.vector_counts@[e] == if demo_edges(
                    step as nat,
                )[e].2 == 1 {
                    0u32
                } else {
                    1u32
                },
            forall|e: int|
                0 <= e < edges.ids@.len() ==> (#[trigger] edges.properties@[e])@ == Seq::<
                    SceneProperty,
                >::empty(),
        decreases 288 - step,
    {
        let source: u32 = step / 3;
        let offset: u32 = if step % 3 == 0 {
            1
        } else if step % 3 == 1 {
            7
        } else {
            19
        };
        let target: u32 = (source + offset) % 96;
        let ghost before = demo_edges(step as nat);
        let ghost after = demo_edges((step + 1) as nat);
        let ghost prior = edges;
        if source < target || offset == 1 {
            assert(after == before.push((source, target, offset as int)));
            let id: usize = edges.ids.len();
            edges.ids.push(id as u64);
            edges.sources.push(source);
            edges.targets.push(target);
            edges.labels.push(
                if offset == 1 {
                    "NEXT".to_owned()
                } else {
                    "SUPPORTS".to_owned()
                },
            );
            edges.vector_counts.push(
                if offset == 1 {
                    0
                } else {
                    1
                },
            );
            edges.properties.push(Vec::new());
            assert forall|e: int| 0 <= e < edges.ids@.len() implies #[trigger] edges.ids@[e] == e
                && edges.sources@[e] == after[e].0 && edges.targets@[e] == after[e].1 by {
                if e < before.len() {
                    assert(prior.ids@[e] == e);
                    assert(after[e] == before[e]);
                }
            }
            assert forall|e: int| 0 <= e < edges.ids@.len() implies (#[trigger] edges.labels@[e])@
                == if after[e].2 == 1 {
                "NEXT"@
            } else {
                "SUPPORTS"@
            } by {
                if e < before.len() {
                    assert(prior.labels@[e]@ == edges.labels@[e]@);
                    assert(after[e] == before[e]);
                }
            }
            assert forall|e: int| 0 <= e < edges.ids@.len() implies #[trigger] edges.vector_counts@[e]
                == if after[e].2 == 1 {
                0u32
            } else {
                1u32
            } by {
                if e < before.len() {
                    assert(prior.vector_counts@[e] == edges.vector_counts@[e]);
                    assert(after[e] == before[e]);
                }
            }
        } else {
            assert(after == before);
        }
        step = step + 1;
        assert(after == demo_edges(step as nat));
    }
    edges
}

impl SceneSnapshot {
    /// The demo scene, before it is arranged.
    pub fn demo() -> (r: SceneSnapshot)
        ensures
            is_demo(r),
    {
        let columns = demo_node_columns();
        let edges = demo_edge_columns();
        proof {
            lemma_demo_edges(288);
            assert forall|e: int| 0 <= e < edges.sources@.len() implies (
            #[trigger] edges.sources@[e]) < 96 by {
                assert(edges.ids@[e] == e);
            }
            assert forall|e: int| 0 <= e < edges.targets@.len() implies (
            #[trigger] edges.targets@[e]) < 96 by {
                assert(edges.ids@[e] == e);
            }
        }
        let degrees = count_degrees(96, &edges.sources, &edges.targets);
        let nodes = SceneNodes {
            ids: columns.ids,
            labels: columns.labels,
            positions: columns.positions,
            degrees,
            vector_counts: columns.vector_counts,
            properties: columns.properties,
        };
        let count: usize = edges.ids.len();
        SceneSnapshot {
            revision: 0,
            database_name: "Demo graph".to_owned(),
            source_stats: GraphStats {
                nodes: 96,
                edges: count,
                labels: 6,
                indexed_vectors: 0,
                transactions: 0,
            },
            nodes,
            edges,
            bounds: Rect::default(),
            sampled: false,
        }
    }
}

} // verus!
