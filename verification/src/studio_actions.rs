//! What the query field, the pointer and the opening of a database do to the
//! studio.

use vstd::prelude::*;
use vstd::string::*;

use crate::digits;
use crate::digits::decimal_text;
use crate::labels;
use crate::order;
use crate::scene::{LayoutKind, SceneSelection, SceneSnapshot};
use crate::search::SearchMode;
use crate::studio::{
    PathDraft, PathState, Response, SearchState, Studio, StudioTask,
};
use crate::studio;
use crate::studio_command;
use crate::studio_command::{
    parse_studio_command, EvidencePathQuery, FacetLens, FacetView, StudioCommand,
    StudioCommandView,
};
use crate::text;
use crate::text::{concat2, concat3, concat4};

verus! {

/// Whether a label is counted.
pub open spec fn counted(counts: Seq<(String, usize)>, label: Seq<char>) -> bool {
    exists|i: int| 0 <= i < counts.len() && (#[trigger] counts[i]).0@ == label
}

fn is_counted(counts: &Vec<(String, usize)>, label: &str) -> (r: bool)
    ensures
        r == counted(counts@, label@),
{
    let mut i: usize = 0;
    while i < counts.len()
        invariant
            i <= counts.len(),
            forall|j: int| 0 <= j < i ==> (#[trigger] counts@[j]).0@ != label@,
        decreases counts.len() - i,
    {
        if text::same_text(counts[i].0.as_str(), label) {
            assert(counts@[i as int].0@ == label@);
            return true;
        }
        i = i + 1;
    }
    false
}

impl Studio {
    /// Whether the scene has an element for a lens.
    pub open spec fn has_facet(self, facet: FacetView) -> bool {
        match facet {
            FacetView::NodeLabel(label) => counted(self.node_label_counts@, label),
            FacetView::Relationship(label) => counted(self.relationship_counts@, label),
        }
    }

    /// The state once something is only said.
    pub open spec fn said(self, next: Studio, line: Seq<char>, r: Response) -> bool {
        &&& next == (Studio { status: next.status, ..self })
        &&& next.status@ == line
        &&& r.is_nothing()
    }

    /// The state and what is left to do once an origin, a direction and a hop
    /// limit are asked for.
    pub open spec fn path_start_asked(
        self,
        next: Studio,
        start: u64,
        direction: crate::graph::Direction,
        max_hops: usize,
        r: Response,
    ) -> bool {
        match self.place_of(start) {
            None => self.not_in_view(next, start, r),
            Some(index) => exists|a: Studio, b: Studio|
                {
                    &&& #[trigger] self.start_chosen(a, index, r)
                    &&& #[trigger] a.direction_set(b, direction)
                    &&& b.hops_set(next, max_hops)
                },
        }
    }

    /// What a command does to the state, and what is left to do.
    pub open spec fn command_done(
        self,
        next: Studio,
        command: StudioCommandView,
        pinned: bool,
        r: Response,
    ) -> bool {
        match command {
            StudioCommandView::Nothing => next == self && r.is_nothing(),
            StudioCommandView::Explain(line) => self.said(next, line, r),
            StudioCommandView::Fit => next == self && r.task is Fit && (Response {
                task: StudioTask::Nothing,
                ..r
            }).is_nothing(),
            StudioCommandView::Zoom(value) => next == self && (r.task matches StudioTask::Zoom(z)
                && text::opt_view(z) == value) && (Response {
                task: StudioTask::Nothing,
                ..r
            }).is_nothing(),
            StudioCommandView::Clear => {
                &&& next == (Studio { selection: None, status: next.status, ..self })
                &&& next.status@ == if self.selection is Some {
                    "Selection cleared"@
                } else {
                    self.status@
                }
                &&& r.scroll_inspector == (self.selection is Some)
                &&& (Response { scroll_inspector: false, ..r }).is_nothing()
            },
            StudioCommandView::Release => match self.selection {
                Some(SceneSelection::Node(index)) if pinned => {
                    &&& next == (Studio { status: next.status, ..self })
                    &&& next.status@ == "Released node back into the active layout"@
                    &&& r.task matches StudioTask::Release(i) && i == index
                    &&& r.motion
                    &&& (Response { task: StudioTask::Nothing, motion: false, ..r }).is_nothing()
                },
                _ => self.said(next, self.status@, r),
            },
            StudioCommandView::Arrange(kind) => self.arrangement_asked(next, kind, r),
            StudioCommandView::SelectNode(id) => self.node_selected(next, id, r),
            StudioCommandView::CenterNode(id) => self.node_centered(next, id, r),
            StudioCommandView::FocusNode(id) => match self.place_of(id) {
                None => self.not_in_view(next, id, r),
                Some(index) => self.context_shown(next, index, r),
            },
            StudioCommandView::SelectEdge(id) => self.edge_selected(next, id, r),
            StudioCommandView::PathStart { start, direction, max_hops } => self.path_start_asked(
                next,
                start,
                direction,
                max_hops,
                r,
            ),
            StudioCommandView::Path(query) => exists|asked: EvidencePathQuery|
                asked@ == query && #[trigger] self.path_asked(next, asked, r),
            StudioCommandView::Facet(facet) => if self.has_facet(facet) {
                self.facet_activated(next, facet, r)
            } else {
                self.said(
                    next,
                    "No visible "@ + facet.kind() + " named "@ + text::spec_quoted(facet.label()),
                    r,
                )
            },
            StudioCommandView::Search(mode, query) => {
                let set = Studio { search_mode: mode, ..self };
                set.search_asked(next, query, mode) && set.search_response(next, query, mode, r)
            },
            StudioCommandView::SearchText(query) => self.search_asked(
                next,
                query,
                self.search_mode,
            ) && self.search_response(next, query, self.search_mode, r),
        }
    }

    fn say(&mut self, line: &str) -> (r: Response)
        ensures
            old(self).said(*final(self), line@, r),
            old(self).wf() ==> final(self).wf(),
    {
        self.status = line.to_owned();
        Response::nothing()
    }

    fn start_path_at(&mut self, start: u64, direction: crate::graph::Direction, max_hops: usize) -> (r:
        Response)
        requires
            old(self).wf(),
        ensures
            final(self).wf(),
            old(self).path_start_asked(*final(self), start, direction, max_hops, r),
    {
        let place: Option<usize> = match &self.snapshot {
            Some(s) => s.node_index(start),
            None => None,
        };
        match place {
            None => {
                let shown = decimal_text(start);
                self.status = concat3("Node ", shown.as_str(), " is not in this view");
                Response::nothing()
            },
            Some(index) => {
                let ghost first = *self;
                let response = self.choose_path_start(index);
                let ghost a = *self;
                self.set_path_direction(direction);
                let ghost b = *self;
                self.set_path_max_hops(max_hops);
                proof {
                    assert(first.start_chosen(a, index, response));
                    assert(a.direction_set(b, direction));
                    assert(b.hops_set(*self, max_hops));
                }
                response
            },
        }
    }

    fn open_facet(&mut self, facet: FacetLens) -> (r: Response)
        requires
            old(self).wf(),
        ensures
            final(self).wf(),
            if old(self).has_facet(facet@) {
                old(self).facet_activated(*final(self), facet@, r)
            } else {
                old(self).said(
                    *final(self),
                    "No visible "@ + facet@.kind() + " named "@ + text::spec_quoted(
                        facet@.label(),
                    ),
                    r,
                )
            },
    {
        let exists_there = match &facet {
            FacetLens::NodeLabel(label) => is_counted(&self.node_label_counts, label.as_str()),
            FacetLens::Relationship(label) => is_counted(
                &self.relationship_counts,
                label.as_str(),
            ),
        };
        if exists_there {
            self.activate_facet(facet)
        } else {
            let shown = text::quoted(facet.label().as_str());
            self.status = concat4(
                "No visible ",
                facet.kind_label(),
                " named ",
                shown.as_str(),
            );
            Response::nothing()
        }
    }

    /// Does what the query field asks for. `pinned` tells whether the
    /// selected node is.
    pub fn execute_command(&mut self, query: &str, pinned: bool) -> (r: Response)
        requires
            old(self).wf(),
        ensures
            final(self).wf(),
            old(self).command_done(
                *final(self),
                studio_command::command_of(query@),
                pinned,
                r,
            ),
    {
        match parse_studio_command(query) {
            StudioCommand::Nothing => Response::nothing(),
            StudioCommand::Explain(line) => self.say(line),
            StudioCommand::Fit => {
                let mut response = Response::nothing();
                response.task = StudioTask::Fit;
                response
            },
            StudioCommand::Zoom(value) => {
                let mut response = Response::nothing();
                response.task = StudioTask::Zoom(value);
                response
            },
            StudioCommand::Clear => self.clear_selection(),
            StudioCommand::Release => self.release_selected(pinned),
            StudioCommand::Arrange(kind) => self.arrange(kind),
            StudioCommand::SelectNode(id) => self.select_node(id),
            StudioCommand::CenterNode(id) => self.center_node(id),
            StudioCommand::FocusNode(id) => {
                let place: Option<usize> = match &self.snapshot {
                    Some(s) => s.node_index(id),
                    None => None,
                };
                match place {
                    None => {
                        let shown = decimal_text(id);
                        self.status = concat3("Node ", shown.as_str(), " is not in this view");
                        Response::nothing()
                    },
                    Some(index) => self.focus_node_context(index),
                }
            },
            StudioCommand::SelectEdge(id) => self.select_edge(id),
            StudioCommand::PathStart { start, direction, max_hops } => self.start_path_at(
                start,
                direction,
                max_hops,
            ),
            StudioCommand::Path(asked) => {
                let ghost first = *self;
                let response = self.start_evidence_path(asked);
                assert(first.path_asked(*self, asked, response));
                response
            },
            StudioCommand::Facet(facet) => self.open_facet(facet),
            StudioCommand::Search(mode, value) => {
                self.search_mode = mode;
                self.start_search(value, mode)
            },
            StudioCommand::SearchText(value) => {
                let mode = self.search_mode;
                self.start_search(value, mode)
            },
        }
    }

    /// Whether the results for a query are there already.
    pub open spec fn has_results(self, query: Seq<char>) -> bool {
        self.search_state matches SearchState::Ready(report) && report.query@ == query
            && report.mode == self.search_mode
    }

    /// Decides what the enter key does in the query field: the marked result
    /// is shown if the results for the query are there already, else the
    /// query is a command.
    pub fn query_entered(&self, field: &str) -> (r: Result<usize, String>)
        ensures
            match r {
                Ok(index) => self.has_results(text::trimmed(field@)) && index
                    == self.selected_search_result,
                Err(command) => !self.has_results(text::trimmed(field@)) && command@
                    == text::trimmed(field@),
            },
    {
        let query = text::trim_text(field);
        match &self.search_state {
            SearchState::Ready(report) => {
                if text::same_text(report.query.as_str(), query.as_str()) && report.mode
                    == self.search_mode {
                    Ok(self.selected_search_result)
                } else {
                    Err(query)
                }
            },
            _ => Err(query),
        }
    }

    /// Says how a zoom is written.
    pub fn explain_zoom(&mut self)
        ensures
            *final(self) == (Studio { status: final(self).status, ..*old(self) }),
            final(self).status@ == "Expected: zoom <0.08..1024>"@,
    {
        self.status = "Expected: zoom <0.08..1024>".to_owned();
    }

    /// Says which zoom is set, as a rounded percentage.
    pub fn say_zoom(&mut self, percent: &str)
        ensures
            *final(self) == (Studio { status: final(self).status, ..*old(self) }),
            final(self).status@ == "Zoom set to "@ + percent@ + "%"@,
    {
        self.status = concat3("Zoom set to ", percent, "%");
    }

    /// The state and what is left to do once a node is pressed.
    pub open spec fn node_pressed(
        self,
        next: Studio,
        index: usize,
        click_count: usize,
        r: Response,
    ) -> bool {
        if click_count >= 2 {
            self.context_shown(next, index, r)
        } else {
            let chosen = Some(SceneSelection::Node(index));
            &&& next == (Studio {
                selection: chosen,
                status: next.status,
                ..self
            })
            &&& next.status@ == match self.path_state {
                PathState::ChoosingEnd(draft) => studio::draft_text(
                    draft,
                    studio::destination_of(self.snapshot, chosen, draft.start),
                ),
                _ => "Selected node "@ + digits::decimal(
                    self.snapshot->0.nodes.ids@[index as int] as nat,
                ) + " · drag to arrange"@,
            }
            &&& r.scroll_inspector == (self.selection != chosen)
            &&& (Response { scroll_inspector: false, ..r }).is_nothing()
        }
    }

    /// Presses the pointer on a node: twice for its context, once to select
    /// it and perhaps drag it.
    pub fn press_node(&mut self, index: usize, click_count: usize) -> (r: Response)
        requires
            old(self).wf(),
            old(self).snapshot matches Some(s) && index < s.nodes.ids@.len(),
        ensures
            final(self).wf(),
            old(self).node_pressed(*final(self), index, click_count, r),
    {
        if click_count >= 2 {
            return self.focus_node_context(index);
        }
        let mut response = Response::nothing();
        response.scroll_inspector = self.set_selection(Some(SceneSelection::Node(index)));
        let draft: Option<PathDraft> = match &self.path_state {
            PathState::ChoosingEnd(draft) => Some(*draft),
            _ => None,
        };
        match draft {
            Some(d) => {
                self.status = self.path_draft_status(d);
            },
            None => {
                match &self.snapshot {
                    Some(s) => {
                        let shown = decimal_text(s.nodes.ids[index]);
                        self.status = concat3("Selected node ", shown.as_str(), " · drag to arrange");
                    },
                    None => {},
                }
            },
        }
        response
    }

    /// Releases the pointer after a node was moved far enough to pin it.
    pub fn node_dropped(&mut self)
        ensures
            *final(self) == (Studio { status: final(self).status, ..*old(self) }),
            final(self).status@ == "Node pinned · Release returns it to the active layout"@,
    {
        self.status = "Node pinned · Release returns it to the active layout".to_owned();
    }

    /// The state and what is left to do once the canvas is clicked.
    pub open spec fn clicked(
        self,
        next: Studio,
        edge: Option<usize>,
        x: Seq<char>,
        y: Seq<char>,
        r: Response,
    ) -> bool {
        let chosen = match edge {
            Some(e) => Some(SceneSelection::Edge(e)),
            None => None,
        };
        &&& next == (Studio {
            selection: chosen,
            status: next.status,
            ..self
        })
        &&& next.status@ == match edge {
            Some(e) => "Selected relationship "@ + digits::decimal(
                self.snapshot->0.edges.ids@[e as int] as nat,
            ) + " · "@ + self.snapshot->0.edges.labels@[e as int]@,
            None => "No graph element at ("@ + x + ", "@ + y + ")"@,
        }
        &&& r.scroll_inspector == (self.selection != chosen)
        &&& (Response { scroll_inspector: false, ..r }).is_nothing()
    }

    /// Releases the pointer where it was pressed on the canvas: on a
    /// relationship, or on nothing at the given place.
    pub fn canvas_clicked(&mut self, edge: Option<usize>, x: &str, y: &str) -> (r: Response)
        requires
            old(self).wf(),
            edge matches Some(e) ==> (old(self).snapshot matches Some(s) && e
                < s.edges.ids@.len()),
        ensures
            final(self).wf(),
            old(self).clicked(*final(self), edge, x@, y@, r),
    {
        let mut response = Response::nothing();
        match edge {
            Some(e) => {
                response.scroll_inspector = self.set_selection(Some(SceneSelection::Edge(e)));
                match &self.snapshot {
                    Some(s) => {
                        let shown = decimal_text(s.edges.ids[e]);
                        self.status = concat4(
                            "Selected relationship ",
                            shown.as_str(),
                            " · ",
                            s.edges.labels[e].as_str(),
                        );
                    },
                    None => {},
                }
            },
            None => {
                response.scroll_inspector = self.set_selection(None);
                let head = concat4("No graph element at (", x, ", ", y);
                self.status = concat2(head.as_str(), ")");
            },
        }
        response
    }

    /// The state of a studio that has just started, with nothing open yet.
    pub open spec fn fresh(database: bool, status: Seq<char>, next: Studio) -> bool {
        &&& next.snapshot is None
        &&& next.database == database
        &&& next.node_label_counts@.len() == 0
        &&& next.relationship_counts@.len() == 0
        &&& !next.context_focus_active
        &&& next.active_facet is None
        &&& next.selection is None
        &&& next.search_state is Idle
        &&& next.search_mode == SearchMode::Hybrid
        &&& next.search_generation == 0
        &&& next.selected_search_result == 0
        &&& next.path_state is Idle
        &&& next.path_generation == 0
        &&& next.path_endpoints is None
        &&& next.layout_kind == LayoutKind::Auto
        &&& next.layout_generation == 0
        &&& !next.layout_in_progress
        &&& next.status@ == status
    }

    /// Starts the studio: on a database that is still to be opened, or on a
    /// scene without one.
    pub fn start(database: bool) -> (r: Studio)
        ensures
            Self::fresh(
                database,
                if database {
                    "Opening database…"@
                } else {
                    "Demo scene · pass a .vg path to inspect a database"@
                },
                r,
            ),
            r.wf(),
    {
        Studio {
            snapshot: None,
            database,
            node_label_counts: Vec::new(),
            relationship_counts: Vec::new(),
            context_focus_active: false,
            active_facet: None,
            selection: None,
            search_state: SearchState::Idle,
            search_mode: SearchMode::Hybrid,
            search_generation: 0,
            selected_search_result: 0,
            path_state: PathState::Idle,
            path_generation: 0,
            path_endpoints: None,
            layout_kind: LayoutKind::Auto,
            layout_generation: 0,
            layout_in_progress: false,
            status: if database {
                "Opening database…".to_owned()
            } else {
                "Demo scene · pass a .vg path to inspect a database".to_owned()
            },
        }
    }

    /// Says that nothing is brought out any more, unless a search is shown.
    pub fn overview_reached(&mut self)
        ensures
            *final(self) == (Studio { status: final(self).status, ..*old(self) }),
            final(self).status@ == if old(self).search_state is Idle {
                "Overview · full graph restored"@
            } else {
                old(self).status@
            },
    {
        if matches!(self.search_state, SearchState::Idle) {
            self.status = "Overview · full graph restored".to_owned();
        }
    }

    /// Says that the database could not be opened.
    pub fn open_failed(&mut self)
        ensures
            *final(self) == (Studio { status: final(self).status, ..*old(self) }),
            final(self).status@ == "Could not open database"@,
    {
        self.status = "Could not open database".to_owned();
    }

    /// Says that the miniature was clicked.
    pub fn navigator_pressed(&mut self)
        ensures
            *final(self) == (Studio { status: final(self).status, ..*old(self) }),
            final(self).status@ == "Navigator · recentering graph view"@,
    {
        self.status = "Navigator · recentering graph view".to_owned();
    }

    pub fn is_ready(&self) -> (r: bool)
        ensures
            r == self.snapshot is Some,
    {
        self.snapshot.is_some()
    }

    pub fn is_searching(&self) -> (r: bool)
        ensures
            r == self.search_state is Searching,
    {
        matches!(self.search_state, SearchState::Searching { .. })
    }

    pub fn is_finding_path(&self) -> (r: bool)
        ensures
            r == self.path_state is Searching,
    {
        matches!(self.path_state, PathState::Searching { .. })
    }

    pub fn is_arranging(&self) -> (r: bool)
        ensures
            r == self.layout_in_progress,
    {
        self.layout_in_progress
    }

    /// The selected node, if it is pinned; `pins` has the pins of the scene.
    pub fn selected_node_is_pinned(&self, pins: &Vec<bool>) -> (r: bool)
        ensures
            r == (self.selection matches Some(SceneSelection::Node(index)) && index < pins@.len()
                && pins@[index as int]),
    {
        match self.selection {
            Some(SceneSelection::Node(index)) => index < pins.len() && pins[index],
            _ => false,
        }
    }

    /// The state and what is left to do once a path to a node is asked for.
    pub open spec fn trace_asked(self, next: Studio, index: usize, r: Response) -> bool {
        match (self.path_state, self.snapshot) {
            (PathState::ChoosingEnd(draft), Some(s)) if index < s.nodes.ids@.len() => {
                self.path_asked(next, draft.query_to(s.nodes.ids@[index as int]), r)
            },
            _ => next == self && r.is_nothing(),
        }
    }

    /// Traces a path from the chosen origin to a node.
    pub fn trace_path_to_node(&mut self, index: usize) -> (r: Response)
        requires
            old(self).wf(),
        ensures
            final(self).wf(),
            old(self).trace_asked(*final(self), index, r),
    {
        match self.path_query_to_node(index) {
            Some(query) => self.start_evidence_path(query),
            None => Response::nothing(),
        }
    }

    /// The state once a scene is opened.
    pub open spec fn scene_opened(self, next: Studio, snapshot: SceneSnapshot) -> bool {
        &&& next == (Studio {
            snapshot: Some(snapshot),
            node_label_counts: next.node_label_counts,
            relationship_counts: next.relationship_counts,
            context_focus_active: false,
            active_facet: None,
            selection: None,
            layout_in_progress: false,
            layout_kind: LayoutKind::Auto,
            status: next.status,
            ..self
        })
        &&& order::ranked_views(next.node_label_counts@) == labels::label_counts(
            text::views(snapshot.nodes.labels@),
        )
        &&& order::ranked_views(next.relationship_counts@) == labels::label_counts(
            text::views(snapshot.edges.labels@),
        )
        &&& next.status@ == if snapshot.sampled {
            "Ready · deterministic structural sample"@
        } else {
            "Ready · complete graph view"@
        }
    }

    /// Takes the scene of a database that was opened.
    pub fn opened(&mut self, snapshot: SceneSnapshot)
        requires
            old(self).wf(),
            snapshot.wf(),
        ensures
            final(self).wf(),
            old(self).scene_opened(*final(self), snapshot),
    {
        self.context_focus_active = false;
        self.active_facet = None;
        self.selection = None;
        self.layout_in_progress = false;
        self.layout_kind = LayoutKind::Auto;
        self.status = if snapshot.sampled {
            "Ready · deterministic structural sample".to_owned()
        } else {
            "Ready · complete graph view".to_owned()
        };
        self.install_evidence_snapshot(snapshot);
    }
}

/// A result that is out of date changes nothing: once the overview is shown,
/// a search or a path search that was asked for before is no longer taken.
pub proof fn law_overview_outdates_tasks(before: Studio, status: String)
    ensures
        before.overview(status).search_generation != before.search_generation,
        before.overview(status).path_generation != before.path_generation,
        !before.overview(status).presenting(),
{
}

} // verus!
