//! What the inspector shows of the selected element.

use vstd::prelude::*;
use vstd::string::*;

use crate::digits;
use crate::digits::decimal_text;
use crate::graph;
use crate::graph::format_value;
use crate::scene::{SceneProperty, SceneSelection, SceneSnapshot};
use crate::studio::{PathState, Studio};
use crate::text;
use crate::text::{concat2, concat4};

verus! {

/// How many properties the inspector lists.
pub const PROPERTY_LIMIT: usize = 24;

/// The listed properties: the first ones, each with its value as it is shown.
pub open spec fn listed_properties(properties: Seq<SceneProperty>) -> Seq<(Seq<char>, Seq<char>)> {
    let limit = if properties.len() < PROPERTY_LIMIT {
        properties.len()
    } else {
        PROPERTY_LIMIT as nat
    };
    Seq::new(limit, |i: int| (properties[i].key@, graph::formatted(properties[i].value@)))
}

/// The contents of rows of two texts.
pub open spec fn pairs_view(rows: Seq<(String, String)>) -> Seq<(Seq<char>, Seq<char>)> {
    rows.map_values(|row: (String, String)| (row.0@, row.1@))
}

fn list_properties(properties: &Vec<SceneProperty>) -> (r: Vec<(String, String)>)
    ensures
        pairs_view(r@) == listed_properties(properties@),
{
    let limit: usize = if properties.len() < PROPERTY_LIMIT {
        properties.len()
    } else {
        PROPERTY_LIMIT
    };
    let ghost wanted = listed_properties(properties@);
    let mut rows: Vec<(String, String)> = Vec::new();
    let mut i: usize = 0;
    assert(pairs_view(rows@) =~= wanted.take(0));
    while i < limit
        invariant
            i <= limit,
            limit <= properties@.len(),
            wanted == listed_properties(properties@),
            wanted.len() == limit,
            pairs_view(rows@) == wanted.take(i as int),
        decreases limit - i,
    {
        let ghost before = rows@;
        let row = (properties[i].key.clone(), format_value(&properties[i].value));
        let ghost view = (row.0@, row.1@);
        rows.push(row);
        proof {
            assert(pairs_view(rows@) =~= pairs_view(before).push(view));
            assert(wanted[i as int] == view);
            assert(wanted.take(i + 1) =~= wanted.take(i as int).push(wanted[i as int]));
        }
        i = i + 1;
    }
    assert(wanted.take(wanted.len() as int) =~= wanted);
    rows
}

/// What is shown of a selected node.
#[derive(Debug)]
pub struct NodeInspector {
    pub element: String,
    pub label: String,
    pub summary: String,
    /// Whether the node is pinned and can be released.
    pub pinned: bool,
    /// The origin that a path is chosen from.
    pub origin: Option<String>,
    pub origin_button: &'static str,
    pub origin_enabled: bool,
    /// The hint that another node is to be chosen.
    pub choose_other: bool,
    /// Whether a path to the node can be traced.
    pub trace: bool,
    /// The hint that there is no database.
    pub no_database: bool,
    pub properties: Vec<(String, String)>,
}

/// What is shown of a selected relationship.
#[derive(Debug)]
pub struct EdgeInspector {
    pub element: String,
    pub label: String,
    pub summary: String,
    pub from: (String, String),
    pub to: (String, String),
    /// What is said when there are no properties.
    pub empty: Option<&'static str>,
    pub properties: Vec<(String, String)>,
}

/// What the inspector shows.
#[derive(Debug)]
pub enum Inspector {
    Node(NodeInspector),
    Edge(EdgeInspector),
    /// Nothing is selected: a title, a hint, and the shortcuts.
    Nothing {
        title: &'static str,
        detail: &'static str,
        shortcuts: Vec<(&'static str, &'static str)>,
    },
}

/// What the button for the origin of a path says.
pub open spec fn origin_label(origin: Option<u64>, node: u64) -> Seq<char> {
    if origin == Some(node) {
        "Path origin"@
    } else if origin is Some {
        "Move path origin here"@
    } else {
        "Set as path origin"@
    }
}

impl Studio {
    /// The origin of the path whose end is chosen.
    pub open spec fn path_origin(self) -> Option<u64> {
        match self.path_state {
            PathState::ChoosingEnd(draft) => Some(draft.start),
            _ => None,
        }
    }

    /// Whether the panel shows a node.
    pub open spec fn node_inspected(
        self,
        snapshot: SceneSnapshot,
        index: int,
        pinned: bool,
        panel: NodeInspector,
    ) -> bool {
        let node = snapshot.nodes.ids@[index];
        let origin = self.path_origin();
        &&& panel.element@ == "node:"@ + digits::decimal(node as nat)
        &&& panel.label@ == snapshot.nodes.labels@[index]@
        &&& panel.summary@ == digits::decimal(snapshot.nodes.degrees@[index] as nat)
            + " relationships · "@ + digits::decimal(snapshot.nodes.vector_counts@[index] as nat)
            + " vectors"@
        &&& panel.pinned == pinned
        &&& text::opt_view(panel.origin) == match origin {
            Some(start) => Some("ORIGIN · node:"@ + digits::decimal(start as nat)),
            None => None,
        }
        &&& panel.origin_button@ == origin_label(origin, node)
        &&& panel.origin_enabled == self.database
        &&& panel.choose_other == (origin == Some(node))
        &&& panel.trace == (origin is Some && origin != Some(node))
        &&& panel.no_database == !self.database
        &&& pairs_view(panel.properties@) == listed_properties(
            snapshot.nodes.properties@[index]@,
        )
    }

    /// Whether the panel shows what is selected; `pinned` tells whether the
    /// selected node is pinned.
    pub open spec fn inspected(self, pinned: bool, panel: Inspector) -> bool {
        match (self.snapshot, self.selection) {
            (Some(snapshot), Some(SceneSelection::Node(index))) => panel matches Inspector::Node(
                shown,
            ) && self.node_inspected(snapshot, index as int, pinned, shown),
            (Some(snapshot), Some(SceneSelection::Edge(index))) => panel matches Inspector::Edge(
                shown,
            ) && edge_inspected(snapshot, index as int, shown),
            _ => panel matches Inspector::Nothing { title, detail, shortcuts } && title@
                == "Nothing selected"@ && detail@
                == "Choose a node or relationship to inspect it."@ && shortcuts_view(shortcuts@)
                == seq![
                ("↵"@, "Open connected context"@),
                ("⌘K"@, "Search the graph"@),
                ("esc"@, "Return to overview"@),
            ],
        }
    }

    fn inspect_node(&self, snapshot: &SceneSnapshot, index: usize, pinned: bool) -> (r:
        NodeInspector)
        requires
            snapshot.wf(),
            index < snapshot.nodes.ids@.len(),
        ensures
            self.node_inspected(*snapshot, index as int, pinned, r),
    {
        let node: u64 = snapshot.nodes.ids[index];
        let origin: Option<u64> = match &self.path_state {
            PathState::ChoosingEnd(draft) => Some(draft.start),
            _ => None,
        };
        let id = decimal_text(node);
        let degree = decimal_text(snapshot.nodes.degrees[index] as u64);
        let vectors = decimal_text(snapshot.nodes.vector_counts[index] as u64);
        let shown: Option<String> = match origin {
            Some(start) => {
                let text = decimal_text(start);
                Some(concat2("ORIGIN · node:", text.as_str()))
            },
            None => None,
        };
        let (here, elsewhere) = match origin {
            Some(start) => (start == node, start != node),
            None => (false, false),
        };
        NodeInspector {
            element: concat2("node:", id.as_str()),
            label: snapshot.nodes.labels[index].clone(),
            summary: concat4(degree.as_str(), " relationships · ", vectors.as_str(), " vectors"),
            pinned,
            origin: shown,
            origin_button: if here {
                "Path origin"
            } else if elsewhere {
                "Move path origin here"
            } else {
                "Set as path origin"
            },
            origin_enabled: self.database,
            choose_other: here,
            trace: elsewhere,
            no_database: !self.database,
            properties: list_properties(&snapshot.nodes.properties[index]),
        }
    }

    /// Decides what the inspector shows.
    pub fn inspector(&self, pinned: bool) -> (r: Inspector)
        requires
            self.wf(),
        ensures
            self.inspected(pinned, r),
    {
        match (&self.snapshot, self.selection) {
            (Some(snapshot), Some(SceneSelection::Node(index))) => Inspector::Node(
                self.inspect_node(snapshot, index, pinned),
            ),
            (Some(snapshot), Some(SceneSelection::Edge(index))) => Inspector::Edge(
                inspect_edge(snapshot, index),
            ),
            _ => {
                let shortcuts: Vec<(&'static str, &'static str)> = vec![
                    ("↵", "Open connected context"),
                    ("⌘K", "Search the graph"),
                    ("esc", "Return to overview"),
                ];
                assert(shortcuts_view(shortcuts@) =~= seq![
                    ("↵"@, "Open connected context"@),
                    ("⌘K"@, "Search the graph"@),
                    ("esc"@, "Return to overview"@),
                ]);
                Inspector::Nothing {
                    title: "Nothing selected",
                    detail: "Choose a node or relationship to inspect it.",
                    shortcuts,
                }
            },
        }
    }
}

/// The contents of shortcuts.
pub open spec fn shortcuts_view(rows: Seq<(&'static str, &'static str)>) -> Seq<
    (Seq<char>, Seq<char>),
> {
    rows.map_values(|row: (&'static str, &'static str)| (row.0@, row.1@))
}

/// An end of a relationship as it is shown.
pub open spec fn end_shown(snapshot: SceneSnapshot, node: int, row: (String, String)) -> bool {
    row.0@ == "node:"@ + digits::decimal(snapshot.nodes.ids@[node] as nat) && row.1@
        == snapshot.nodes.labels@[node]@
}

fn show_end(snapshot: &SceneSnapshot, node: usize) -> (r: (String, String))
    requires
        snapshot.wf(),
        node < snapshot.nodes.ids@.len(),
    ensures
        end_shown(*snapshot, node as int, r),
{
    let id = decimal_text(snapshot.nodes.ids[node]);
    (concat2("node:", id.as_str()), snapshot.nodes.labels[node].clone())
}

/// Whether the panel shows a relationship.
pub open spec fn edge_inspected(snapshot: SceneSnapshot, index: int, panel: EdgeInspector) -> bool {
    let edges = snapshot.edges;
    &&& panel.element@ == "edge:"@ + digits::decimal(edges.ids@[index] as nat)
    &&& panel.label@ == edges.labels@[index]@
    &&& panel.summary@ == digits::decimal(edges.vector_counts@[index] as nat) + (if edges.vector_counts@[index]
        == 1 {
        " vector · directed relationship"@
    } else {
        " vectors · directed relationship"@
    })
    &&& end_shown(snapshot, edges.sources@[index] as int, panel.from)
    &&& end_shown(snapshot, edges.targets@[index] as int, panel.to)
    &&& text::opt_str_view(panel.empty) == if edges.properties@[index]@.len() == 0 {
        Some("No relationship properties"@)
    } else {
        None
    }
    &&& pairs_view(panel.properties@) == listed_properties(edges.properties@[index]@)
}

fn inspect_edge(snapshot: &SceneSnapshot, index: usize) -> (r: EdgeInspector)
    requires
        snapshot.wf(),
        index < snapshot.edges.ids@.len(),
    ensures
        edge_inspected(*snapshot, index as int, r),
{
    let edges = &snapshot.edges;
    let id = decimal_text(edges.ids[index]);
    let vectors = decimal_text(edges.vector_counts[index] as u64);
    let source: usize = edges.sources[index] as usize;
    let target: usize = edges.targets[index] as usize;
    assert(snapshot.edges.sources@[index as int] < snapshot.nodes.ids@.len());
    assert(snapshot.edges.targets@[index as int] < snapshot.nodes.ids@.len());
    let empty: Option<&'static str> = if edges.properties[index].len() == 0 {
        Some("No relationship properties")
    } else {
        None
    };
    EdgeInspector {
        element: concat2("edge:", id.as_str()),
        label: edges.labels[index].clone(),
        summary: concat2(
            vectors.as_str(),
            if edges.vector_counts[index] == 1 {
                " vector · directed relationship"
            } else {
                " vectors · directed relationship"
            },
        ),
        from: show_end(snapshot, source),
        to: show_end(snapshot, target),
        empty,
        properties: list_properties(&edges.properties[index]),
    }
}

/// A path can be traced to a node exactly when another node is its origin.
pub proof fn law_trace_needs_another_origin(
    studio: Studio,
    snapshot: SceneSnapshot,
    index: int,
    pinned: bool,
    panel: NodeInspector,
)
    requires
        studio.node_inspected(snapshot, index, pinned, panel),
    ensures
        panel.trace ==> panel.origin is Some && !panel.choose_other,
        panel.choose_other ==> panel.origin_button@ == "Path origin"@,
{
}

} // verus!
