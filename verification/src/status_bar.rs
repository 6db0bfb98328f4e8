//! The frame around the canvas: what stands in its place while there is no
//! scene, the status line, and the name of the database.

use vstd::prelude::*;
use vstd::string::*;

use crate::digits;
use crate::digits::{format_count, usize_text};
use crate::scene::LayoutKind;
use crate::studio::Studio;
use crate::text;
use crate::text::{concat2, concat3};

verus! {

/// How far opening a database has come, while there is no scene.
#[derive(Debug)]
pub enum Opening {
    Loading { name: String },
    Failed(String),
}

/// What is shown in place of the canvas.
#[derive(Debug)]
pub struct CenteredState {
    pub title: &'static str,
    pub detail: String,
}

/// What is shown in place of the canvas: nothing once there is a scene and a
/// workspace for it.
pub open spec fn placeholder(ready: bool, workspace: bool, opening: Opening) -> Option<
    (Seq<char>, Seq<char>),
> {
    if ready {
        if workspace {
            None
        } else {
            Some(("Preparing workspace"@, "Building interactive scene state."@))
        }
    } else {
        match opening {
            Opening::Loading { name } => Some(
                (
                    "Opening graph"@,
                    "Mapping "@ + name@ + ", building a bounded scene, then laying it out."@,
                ),
            ),
            Opening::Failed(error) => Some(("Could not open graph"@, error@)),
        }
    }
}

/// The contents of what is shown in place of the canvas.
pub open spec fn centered_view(state: Option<CenteredState>) -> Option<(Seq<char>, Seq<char>)> {
    match state {
        Some(state) => Some((state.title@, state.detail@)),
        None => None,
    }
}

/// The name of a layout in small letters.
pub open spec fn layout_word(kind: LayoutKind) -> Seq<char> {
    match kind {
        LayoutKind::Auto => "auto"@,
        LayoutKind::Force => "force"@,
        LayoutKind::Structure => "structure"@,
        LayoutKind::Orbit => "orbit"@,
    }
}

fn lower_layout(kind: LayoutKind) -> (r: &'static str)
    ensures
        r@ == layout_word(kind),
{
    match kind {
        LayoutKind::Auto => "auto",
        LayoutKind::Force => "force",
        LayoutKind::Structure => "structure",
        LayoutKind::Orbit => "orbit",
    }
}

/// The left part of the status line.
pub open spec fn left_segments(
    nodes: nat,
    edges: nat,
    sampled: bool,
    kind: LayoutKind,
    pinned: nat,
    moving: bool,
) -> Seq<Seq<char>> {
    let counts = seq![
        digits::counted(nodes) + " nodes"@,
        digits::counted(edges) + " edges"@,
    ];
    let scope = if sampled {
        counts.push("sampled"@)
    } else {
        counts
    };
    let layout = scope.push(layout_word(kind) + " layout"@);
    let pins = if pinned > 0 {
        layout.push(digits::decimal(pinned) + " pinned"@)
    } else {
        layout
    };
    if moving {
        pins.push("settling"@)
    } else {
        pins
    }
}

fn push_segment(segments: &mut Vec<String>, segment: String)
    ensures
        text::views(final(segments)@) == text::views(old(segments)@).push(segment@),
{
    let ghost before = segments@;
    let ghost view = segment@;
    segments.push(segment);
    assert(text::views(segments@) =~= text::views(before).push(view));
}

impl Studio {
    /// How many nodes and relationships the scene has, and whether it is
    /// sampled.
    pub open spec fn scene_size(self) -> (nat, nat, bool) {
        match self.snapshot {
            Some(s) => (s.nodes.ids@.len(), s.edges.ids@.len(), s.sampled),
            None => (0, 0, false),
        }
    }

    /// The status line: its left part, and its right part with the status
    /// and the time that loading took.
    pub fn status_segments(&self, pinned: usize, moving: bool, load_ms: &Option<String>) -> (r: (
        Vec<String>,
        Vec<String>,
    ))
        ensures
            text::views(r.0@) == left_segments(
                self.scene_size().0,
                self.scene_size().1,
                self.scene_size().2,
                self.layout_kind,
                pinned as nat,
                moving,
            ),
            text::views(r.1@) == match load_ms {
                Some(elapsed) => seq![self.status@, elapsed@ + " ms load+layout"@],
                None => seq![self.status@],
            },
    {
        let (nodes, edges, sampled): (usize, usize, bool) = match &self.snapshot {
            Some(s) => (s.nodes.ids.len(), s.edges.ids.len(), s.sampled),
            None => (0, 0, false),
        };
        let mut left: Vec<String> = Vec::new();
        let node_count = format_count(nodes);
        let edge_count = format_count(edges);
        assert(text::views(left@) =~= Seq::<Seq<char>>::empty());
        push_segment(&mut left, concat2(node_count.as_str(), " nodes"));
        push_segment(&mut left, concat2(edge_count.as_str(), " edges"));
        assert(text::views(left@) =~= seq![
            digits::counted(nodes as nat) + " nodes"@,
            digits::counted(edges as nat) + " edges"@,
        ]);
        if sampled {
            push_segment(&mut left, "sampled".to_owned());
        }
        push_segment(&mut left, concat2(lower_layout(self.layout_kind), " layout"));
        if pinned > 0 {
            let count = usize_text(pinned);
            push_segment(&mut left, concat2(count.as_str(), " pinned"));
        }
        if moving {
            push_segment(&mut left, "settling".to_owned());
        }
        let mut right: Vec<String> = Vec::new();
        assert(text::views(right@) =~= Seq::<Seq<char>>::empty());
        push_segment(&mut right, self.status.clone());
        assert(text::views(right@) =~= seq![self.status@]);
        if let Some(elapsed) = load_ms {
            push_segment(&mut right, concat2(elapsed.as_str(), " ms load+layout"));
            assert(text::views(right@) =~= seq![self.status@, elapsed@ + " ms load+layout"@]);
        }
        (left, right)
    }

    /// What is shown in place of the canvas.
    pub fn canvas_placeholder(&self, workspace: bool, opening: &Opening) -> (r: Option<
        CenteredState,
    >)
        ensures
            centered_view(r) == placeholder(self.snapshot is Some, workspace, *opening),
    {
        match &self.snapshot {
            Some(_) => if workspace {
                None
            } else {
                Some(
                    CenteredState {
                        title: "Preparing workspace",
                        detail: "Building interactive scene state.".to_owned(),
                    },
                )
            },
            None => match opening {
                Opening::Loading { name } => Some(
                    CenteredState {
                        title: "Opening graph",
                        detail: concat3(
                            "Mapping ",
                            name.as_str(),
                            ", building a bounded scene, then laying it out.",
                        ),
                    },
                ),
                Opening::Failed(error) => Some(
                    CenteredState { title: "Could not open graph", detail: error.clone() },
                ),
            },
        }
    }

    /// The name over the canvas.
    pub fn database_title(&self, opening: &Opening) -> (r: String)
        ensures
            r@ == match self.snapshot {
                Some(s) => s.database_name@,
                None => match opening {
                    Opening::Loading { name } => name@,
                    Opening::Failed(_) => "No database"@,
                },
            },
    {
        match &self.snapshot {
            Some(s) => s.database_name.clone(),
            None => match opening {
                Opening::Loading { name } => name.clone(),
                Opening::Failed(_) => "No database".to_owned(),
            },
        }
    }
}

} // verus!
