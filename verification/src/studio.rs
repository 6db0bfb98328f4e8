//! The state of the studio: what is selected, searched, traced and looked at
//! through a lens, and how every action changes it.
//!
//! An action returns what is left to do outside: move the canvas, redraw the
//! lens, or run a task whose result comes back under a generation number.

use vstd::prelude::*;
use vstd::string::*;

use crate::digits;
use crate::digits::{decimal_text, usize_text};
use crate::evidence::{EvidencePathReport, EvidencePathTermination};
use crate::focus::FocusView;
use crate::focus_laws;
use crate::graph::{Direction, ElementRef};
use crate::lens;
use crate::labels;
use crate::lens::{
    blank_lens, context_lens, facet_lens, focus_lens, path_lens, Lens, LensView,
};
use crate::order;
use crate::scene;
use crate::scene::{LayoutKind, SceneSelection, SceneSnapshot};
use crate::search;
use crate::search::{SearchMode, SearchReport};
use crate::studio_command::{EvidencePathQuery, FacetLens, FacetView};
use crate::text;
use crate::text::{concat2, concat3, concat4, concat5, concat6};

verus! {

/// How far a search has come.
#[derive(Debug)]
pub enum SearchState {
    Idle,
    Searching { query: String, mode: SearchMode },
    Ready(SearchReport),
    Failed { query: String, error: String },
}

/// A path of which only the origin is chosen.
#[derive(Clone, Copy, Debug, PartialEq, Eq, Structural)]
pub struct PathDraft {
    pub start: u64,
    pub direction: Direction,
    pub max_hops: usize,
}

impl PathDraft {
    /// The path query that a draft makes once its end is chosen.
    pub open spec fn query_to(self, end: u64) -> EvidencePathQuery {
        EvidencePathQuery {
            start: self.start,
            end,
            direction: self.direction,
            relationship_label: None,
            max_hops: self.max_hops,
        }
    }
}

/// How far a path search has come.
#[derive(Debug)]
pub enum PathState {
    Idle,
    ChoosingEnd(PathDraft),
    Searching { start: u64, end: u64 },
    Ready(EvidencePathReport),
    Failed { start: u64, end: u64, error: String },
}

/// The ends of a path on the canvas.
#[derive(Clone, Copy, Debug, PartialEq, Eq, Structural)]
pub struct PathEndpoints {
    pub start: usize,
    pub end: Option<usize>,
}

/// The state of the studio.
#[derive(Debug)]
pub struct Studio {
    /// The scene, once a database is open.
    pub snapshot: Option<SceneSnapshot>,
    /// Whether a database backs the scene.
    pub database: bool,
    pub node_label_counts: Vec<(String, usize)>,
    pub relationship_counts: Vec<(String, usize)>,
    pub context_focus_active: bool,
    pub active_facet: Option<FacetLens>,
    pub selection: Option<SceneSelection>,
    pub search_state: SearchState,
    pub search_mode: SearchMode,
    pub search_generation: u64,
    pub selected_search_result: usize,
    pub path_state: PathState,
    pub path_generation: u64,
    pub path_endpoints: Option<PathEndpoints>,
    pub layout_kind: LayoutKind,
    pub layout_generation: u64,
    pub layout_in_progress: bool,
    pub status: String,
}

/// A task to run outside.
#[derive(Debug)]
pub enum StudioTask {
    Nothing,
    Search { generation: u64, query: String, mode: SearchMode },
    Path { generation: u64, query: EvidencePathQuery },
    Arrange { generation: u64, kind: LayoutKind },
    /// Frame the whole graph.
    Fit,
    /// Set the zoom that was written.
    Zoom(Option<String>),
    /// Centre the canvas on a node.
    Center(usize),
    /// Release a node into the active layout.
    Release(usize),
    /// Lay a node's context out; the studio's state is set already.
    FrameContext(usize),
    /// Lay the context of a result out.
    FrameResult(SceneSelection),
    /// Frame the path that was found.
    FramePath,
    /// Frame two nodes of a step.
    FrameStep(usize, usize),
}

/// What is left to do outside after an action.
#[derive(Debug)]
pub struct Response {
    /// Return every node to its place in the overview.
    pub restore_layout: bool,
    /// What to bring out from now on, if it changes.
    pub lens: Option<Lens>,
    /// Return the camera to where it was kept, if it was.
    pub return_camera: bool,
    /// Keep the camera, unless one is kept already.
    pub keep_camera: bool,
    /// Start moving.
    pub motion: bool,
    /// Scroll the inspector back to its start.
    pub scroll_inspector: bool,
    pub task: StudioTask,
}

impl Response {
    /// Nothing left to do.
    pub open spec fn is_nothing(self) -> bool {
        &&& !self.restore_layout
        &&& self.lens is None
        &&& !self.return_camera
        &&& !self.keep_camera
        &&& !self.motion
        &&& !self.scroll_inspector
        &&& self.task is Nothing
    }

    /// Nothing left to do.
    pub fn nothing() -> (r: Response)
        ensures
            r.is_nothing(),
    {
        Response {
            restore_layout: false,
            lens: None,
            return_camera: false,
            keep_camera: false,
            motion: false,
            scroll_inspector: false,
            task: StudioTask::Nothing,
        }
    }
}

/// What is brought out, if it changes.
pub open spec fn lens_view(lens: Option<Lens>) -> Option<LensView> {
    match lens {
        Some(l) => Some(l@),
        None => None,
    }
}

/// Whether a selection names an element of the scene.
pub open spec fn selects(snapshot: SceneSnapshot, selection: SceneSelection) -> bool {
    match selection {
        SceneSelection::Node(i) => i < snapshot.nodes.ids@.len(),
        SceneSelection::Edge(e) => e < snapshot.edges.ids@.len(),
    }
}

/// What is brought out of a scene that may not be there: nothing.
pub open spec fn blank_of(snapshot: Option<SceneSnapshot>) -> Option<LensView> {
    match snapshot {
        Some(s) => Some(lens::blank(s)),
        None => None,
    }
}

fn blank_if(snapshot: &Option<SceneSnapshot>) -> (r: Option<Lens>)
    ensures
        lens_view(r) == blank_of(*snapshot),
{
    match snapshot {
        Some(s) => Some(blank_lens(s)),
        None => None,
    }
}

impl Studio {
    /// The scene is well formed, what is selected is in it, and a path whose
    /// origin is chosen has a hop limit from 1 to 64.
    pub open spec fn wf(self) -> bool {
        &&& match self.snapshot {
            Some(s) => {
                &&& s.wf()
                &&& self.selection matches Some(selection) ==> selects(s, selection)
            },
            None => self.selection is None,
        }
        &&& self.path_state matches PathState::ChoosingEnd(draft) ==> 1 <= draft.max_hops <= 64
    }

    /// Whether something other than the overview is shown.
    pub open spec fn presenting(self) -> bool {
        self.context_focus_active || self.active_facet is Some || !(self.search_state is Idle)
            || !(self.path_state is Idle)
    }

    fn is_presenting(&self) -> (r: bool)
        ensures
            r == self.presenting(),
    {
        self.context_focus_active || self.active_facet.is_some() || !matches!(
            self.search_state,
            SearchState::Idle
        ) || !matches!(self.path_state, PathState::Idle)
    }

    /// Selects an element, or nothing. Tells whether that is a change.
    pub fn set_selection(&mut self, selection: Option<SceneSelection>) -> (r: bool)
        ensures
            *final(self) == (Studio { selection, ..*old(self) }),
            r == (old(self).selection != selection),
    {
        let changes = self.selection != selection;
        self.selection = selection;
        changes
    }

    /// Selects nothing.
    pub fn clear_selection(&mut self) -> (r: Response)
        ensures
            *final(self) == (Studio {
                selection: None,
                status: final(self).status,
                ..*old(self)
            }),
            final(self).status@ == if old(self).selection is Some {
                "Selection cleared"@
            } else {
                old(self).status@
            },
            old(self).selection is None ==> *final(self) == *old(self),
            r.scroll_inspector == (old(self).selection is Some),
            (Response { scroll_inspector: false, ..r }).is_nothing(),
    {
        let mut response = Response::nothing();
        if self.selection.is_some() {
            response.scroll_inspector = self.set_selection(None);
            self.status = "Selection cleared".to_owned();
        }
        response
    }

    /// Releases the selected node if it is pinned.
    pub fn release_selected(&mut self, pinned: bool) -> (r: Response)
        ensures
            *final(self) == (Studio { status: final(self).status, ..*old(self) }),
            match old(self).selection {
                Some(SceneSelection::Node(index)) if pinned => {
                    &&& final(self).status@ == "Released node back into the active layout"@
                    &&& r.task matches StudioTask::Release(i) && i == index
                    &&& r.motion
                    &&& (Response { task: StudioTask::Nothing, motion: false, ..r }).is_nothing()
                },
                _ => final(self).status@ == old(self).status@ && r.is_nothing(),
            },
    {
        let mut response = Response::nothing();
        if pinned {
            match self.selection {
                Some(SceneSelection::Node(index)) => {
                    self.status = "Released node back into the active layout".to_owned();
                    response.task = StudioTask::Release(index);
                    response.motion = true;
                },
                _ => {},
            }
        }
        response
    }

    /// The state once the overview is shown.
    pub open spec fn overview(self, status: String) -> Studio {
        Studio {
            search_generation: self.search_generation.wrapping_add(1),
            search_state: SearchState::Idle,
            path_generation: self.path_generation.wrapping_add(1),
            path_state: PathState::Idle,
            path_endpoints: None,
            context_focus_active: false,
            active_facet: None,
            selection: None,
            status,
            ..self
        }
    }

    /// What is left to do once the overview is shown.
    pub open spec fn overview_response(self, r: Response) -> bool {
        &&& r.restore_layout
        &&& lens_view(r.lens) == blank_of(self.snapshot)
        &&& r.return_camera
        &&& !r.keep_camera
        &&& r.motion
        &&& r.scroll_inspector == (self.selection is Some)
        &&& r.task is Nothing
    }

    /// Shows the overview: nothing selected, searched, traced or looked at
    /// through a lens. Tasks that still run are out of date.
    pub fn show_overview(&mut self) -> (r: Response)
        ensures
            *final(self) == old(self).overview(final(self).status),
            final(self).status@ == "Returning to overview…"@,
            old(self).overview_response(r),
    {
        self.search_generation = self.search_generation.wrapping_add(1);
        self.search_state = SearchState::Idle;
        self.path_generation = self.path_generation.wrapping_add(1);
        self.path_state = PathState::Idle;
        self.path_endpoints = None;
        self.context_focus_active = false;
        self.active_facet = None;
        let scrolled = self.set_selection(None);
        self.status = "Returning to overview…".to_owned();
        Response {
            restore_layout: true,
            lens: blank_if(&self.snapshot),
            return_camera: true,
            keep_camera: false,
            motion: true,
            scroll_inspector: scrolled,
            task: StudioTask::Nothing,
        }
    }

    /// The state and what is left to do once the view is left.
    pub open spec fn escaped(self, next: Studio, r: Response) -> bool {
        if self.presenting() {
            &&& next == self.overview(next.status)
            &&& next.status@ == "Returning to overview…"@
            &&& self.overview_response(r)
        } else {
            &&& next == (Studio {
                selection: None,
                status: next.status,
                ..self
            })
            &&& next.status@ == if self.selection is Some {
                "Selection cleared"@
            } else {
                self.status@
            }
            &&& r.scroll_inspector == (self.selection is Some)
            &&& (Response { scroll_inspector: false, ..r }).is_nothing()
        }
    }

    /// Goes one step back: to the overview from anything else, and in the
    /// overview to nothing selected.
    pub fn escape(&mut self) -> (r: Response)
        ensures
            old(self).escaped(*final(self), r),
    {
        if self.is_presenting() {
            self.show_overview()
        } else {
            self.clear_selection()
        }
    }

    /// Whether the lens is the one that is looked through.
    pub open spec fn looks_through(self, facet: FacetView) -> bool {
        self.active_facet matches Some(active) && active@ == facet
    }

    /// What is said of a lens.
    pub open spec fn facet_status(snapshot: SceneSnapshot, facet: FacetView) -> Seq<char> {
        facet.kind() + " lens · "@ + facet.label() + " · "@ + digits::decimal(
            lens::facet_matches(snapshot, facet),
        ) + " matches · Esc clears"@
    }

    /// The state and what is left to do once a lens is asked for.
    pub open spec fn facet_activated(self, next: Studio, facet: FacetView, r: Response) -> bool {
        &&& if self.looks_through(facet) {
            &&& next == self.overview(next.status)
            &&& next.status@ == "Returning to overview…"@
            &&& self.overview_response(r)
        } else {
            match self.snapshot {
                None => {
                    &&& next == (Studio {
                        path_generation: self.path_generation.wrapping_add(1),
                        path_state: PathState::Idle,
                        path_endpoints: None,
                        ..self
                    })
                    &&& r.is_nothing()
                },
                Some(s) => {
                    let back = self.context_focus_active || !(
                    self.path_state is Idle);
                    &&& next == (Studio {
                        path_generation: self.path_generation.wrapping_add(1),
                        path_state: PathState::Idle,
                        path_endpoints: None,
                        context_focus_active: false,
                        active_facet: next.active_facet,
                        status: next.status,
                        ..self
                    })
                    &&& next.looks_through(facet)
                    &&& next.status@ == Self::facet_status(s, facet)
                    &&& r.restore_layout == back
                    &&& r.return_camera == back
                    &&& lens_view(r.lens) == Some(lens::facet_scores(s, facet))
                    &&& r.motion
                    &&& !r.keep_camera
                    &&& !r.scroll_inspector
                    &&& r.task is Nothing
                },
            }
        }
    }

    /// Looks at the scene through a lens, or no longer if it is looked
    /// through already.
    pub fn activate_facet(&mut self, facet: FacetLens) -> (r: Response)
        requires
            old(self).wf(),
        ensures
            final(self).wf(),
            old(self).facet_activated(*final(self), facet@, r),
    {
        let same = match &self.active_facet {
            Some(active) => active.same(&facet),
            None => false,
        };
        if same {
            return self.show_overview();
        }
        let had_path = !matches!(self.path_state, PathState::Idle);
        self.path_generation = self.path_generation.wrapping_add(1);
        self.path_state = PathState::Idle;
        self.path_endpoints = None;
        let mut response = Response::nothing();
        let (brought, matches) = match &self.snapshot {
            None => {
                return response;
            },
            Some(s) => facet_lens(s, &facet),
        };
        if self.context_focus_active || had_path {
            response.restore_layout = true;
            response.return_camera = true;
        }
        response.lens = Some(brought);
        response.motion = true;
        let shown = usize_text(matches);
        let head = concat6(
            facet.kind_label(),
            " lens · ",
            facet.label().as_str(),
            " · ",
            shown.as_str(),
            " matches · Esc clears",
        );
        self.status = head;
        self.context_focus_active = false;
        self.active_facet = Some(facet);
        response
    }
}

impl Studio {
    /// The state once a search is asked for.
    pub open spec fn search_asked(self, next: Studio, query: Seq<char>, mode: SearchMode) -> bool {
        let left = self.context_focus_active || self.active_facet is Some || !(
        self.path_state is Idle);
        &&& next == (Studio {
            context_focus_active: false,
            active_facet: None,
            path_endpoints: if left {
                None
            } else {
                self.path_endpoints
            },
            path_generation: self.path_generation.wrapping_add(1),
            path_state: PathState::Idle,
            search_state: next.search_state,
            search_generation: if self.database {
                self.search_generation.wrapping_add(1)
            } else {
                self.search_generation
            },
            selected_search_result: if self.database {
                0
            } else {
                self.selected_search_result
            },
            status: next.status,
            ..self
        })
        &&& if self.database {
            &&& next.search_state matches SearchState::Searching { query: q, mode: m } && q@
                == query && m == mode
            &&& next.status@ == mode.name() + " search…"@
        } else {
            &&& next.search_state matches SearchState::Failed { query: q, error } && q@ == query
                && error@ == "Open a .vg database to search its complete contents"@
            &&& next.status@ == "Search needs an open database"@
        }
    }

    /// What is left to do once a search is asked for.
    pub open spec fn search_response(
        self,
        next: Studio,
        query: Seq<char>,
        mode: SearchMode,
        r: Response,
    ) -> bool {
        let left = self.context_focus_active || self.active_facet is Some || !(
        self.path_state is Idle);
        &&& r.restore_layout == left
        &&& lens_view(r.lens) == if left {
            blank_of(self.snapshot)
        } else {
            None
        }
        &&& r.return_camera == left
        &&& r.keep_camera == left
        &&& r.motion == left
        &&& !r.scroll_inspector
        &&& if self.database {
            r.task matches StudioTask::Search { generation, query: q, mode: m } && generation
                == next.search_generation && q@ == query && m == mode
        } else {
            r.task is Nothing
        }
    }

    /// Asks for a search. What was shown before gives way to the overview,
    /// and a path search that still runs is out of date.
    pub fn start_search(&mut self, query: String, mode: SearchMode) -> (r: Response)
        ensures
            old(self).search_asked(*final(self), query@, mode),
            old(self).search_response(*final(self), query@, mode, r),
            old(self).wf() ==> final(self).wf(),
    {
        let mut response = Response::nothing();
        if self.context_focus_active || self.active_facet.is_some() || !matches!(
            self.path_state,
            PathState::Idle
        ) {
            response.restore_layout = true;
            response.lens = blank_if(&self.snapshot);
            response.return_camera = true;
            response.keep_camera = true;
            response.motion = true;
            self.context_focus_active = false;
            self.active_facet = None;
            self.path_endpoints = None;
        }
        self.path_generation = self.path_generation.wrapping_add(1);
        self.path_state = PathState::Idle;
        if !self.database {
            self.search_state = SearchState::Failed {
                query,
                error: "Open a .vg database to search its complete contents".to_owned(),
            };
            self.status = "Search needs an open database".to_owned();
            return response;
        }
        self.search_generation = self.search_generation.wrapping_add(1);
        self.selected_search_result = 0;
        self.search_state = SearchState::Searching { query: query.clone(), mode };
        self.status = concat2(mode.label(), " search…");
        response.task = StudioTask::Search { generation: self.search_generation, query, mode };
        response
    }

    /// What is said of a finished search.
    pub open spec fn search_status(report: SearchReport, mode: SearchMode) -> Seq<char> {
        (if report.hits@.len() == 0 {
            "No "@
        } else {
            digits::decimal(report.hits@.len()) + " "@
        }) + text::spec_lowercase(mode.name()) + " matches · "@ + report.elapsed_ms@ + " ms"@
    }

    /// The state once a search has ended, and whether its results are to be shown.
    pub open spec fn search_finished(
        self,
        next: Studio,
        generation: u64,
        query: String,
        mode: SearchMode,
        result: Result<SearchReport, String>,
        r: bool,
    ) -> bool {
        if generation != self.search_generation {
            next == self && !r
        } else {
            match result {
                Ok(report) => {
                    let shown = self.snapshot is Some;
                    &&& next == (Studio {
                        search_state: SearchState::Ready(report),
                        context_focus_active: if shown {
                            false
                        } else {
                            self.context_focus_active
                        },
                        active_facet: if shown {
                            None
                        } else {
                            self.active_facet
                        },
                        status: next.status,
                        ..self
                    })
                    &&& next.status@ == Self::search_status(report, mode)
                    &&& r == shown
                },
                Err(error) => {
                    &&& next == (Studio {
                        search_state: SearchState::Failed { query, error },
                        status: next.status,
                        ..self
                    })
                    &&& next.status@ == "Search failed"@
                    &&& !r
                },
            }
        }
    }

    /// Takes the result of a search, unless it is out of date. Tells whether
    /// its hits are to be presented.
    pub fn finish_search(
        &mut self,
        generation: u64,
        query: String,
        mode: SearchMode,
        result: Result<SearchReport, String>,
    ) -> (r: bool)
        ensures
            old(self).wf() ==> final(self).wf(),
            old(self).search_finished(*final(self), generation, query, mode, result, r),
    {
        if generation != self.search_generation {
            return false;
        }
        match result {
            Ok(report) => {
                let name = text::lowercase(mode.label());
                if report.hits.len() == 0 {
                    self.status = concat5(
                        "No ",
                        name.as_str(),
                        " matches · ",
                        report.elapsed_ms.as_str(),
                        " ms",
                    );
                } else {
                    let count = usize_text(report.hits.len());
                    self.status = concat6(
                        count.as_str(),
                        " ",
                        name.as_str(),
                        " matches · ",
                        report.elapsed_ms.as_str(),
                        " ms",
                    );
                }
                let shown = self.snapshot.is_some();
                if shown {
                    self.context_focus_active = false;
                    self.active_facet = None;
                }
                self.search_state = SearchState::Ready(report);
                shown
            },
            Err(error) => {
                self.status = "Search failed".to_owned();
                self.search_state = SearchState::Failed { query, error };
                false
            },
        }
    }

    /// The state and what is left to do once a search mode is chosen.
    pub open spec fn mode_set(
        self,
        next: Studio,
        mode: SearchMode,
        field: Seq<char>,
        r: Response,
    ) -> bool {
        if self.search_mode == mode {
            next == self && r.is_nothing()
        } else {
            let changed = Studio { search_mode: mode, ..self };
            let query = text::trimmed(field);
            if query.len() == 0 {
                next == changed && r.is_nothing()
            } else {
                changed.search_asked(next, query, mode) && changed.search_response(
                    next,
                    query,
                    mode,
                    r,
                )
            }
        }
    }

    /// Changes the search mode; a query in the field is searched again.
    pub fn set_search_mode(&mut self, mode: SearchMode, field: &str) -> (r: Response)
        ensures
            old(self).wf() ==> final(self).wf(),
            old(self).mode_set(*final(self), mode, field@, r),
    {
        if self.search_mode == mode {
            return Response::nothing();
        }
        self.search_mode = mode;
        let query = text::trim_text(field);
        if query.as_str().is_empty() {
            Response::nothing()
        } else {
            self.start_search(query, mode)
        }
    }

    /// The result that is marked after moving by some results, within those
    /// that there are.
    pub open spec fn moved_result(selected: usize, delta: int, hits: nat) -> int {
        let moved = selected + delta;
        if moved < 0 {
            0
        } else if moved > hits - 1 {
            hits - 1
        } else {
            moved
        }
    }

    /// The state once the mark among the results is moved.
    pub open spec fn mark_moved(self, next: Studio, delta: int) -> bool {
        &&& next == (Studio {
            selected_search_result: next.selected_search_result,
            ..self
        })
        &&& next.selected_search_result == match self.search_state {
            SearchState::Ready(report) if report.hits@.len() > 0 => Self::moved_result(
                self.selected_search_result,
                delta as int,
                report.hits@.len(),
            ),
            _ => self.selected_search_result as int,
        }
    }

    /// Marks a neighbouring result.
    pub fn move_search_selection(&mut self, delta: isize)
        ensures
            old(self).mark_moved(*final(self), delta as int),
    {
        let hits: usize = match &self.search_state {
            SearchState::Ready(report) => report.hits.len(),
            _ => 0,
        };
        if hits == 0 {
            return;
        }
        let now: usize = self.selected_search_result;
        let moved: i128 = now as i128 + delta as i128;
        self.selected_search_result = if moved < 0 {
            0
        } else if moved > (hits - 1) as i128 {
            hits - 1
        } else {
            moved as usize
        };
    }
}

/// Marking a neighbouring result stays within the results.
pub proof fn law_marked_result_exists(selected: usize, delta: int, hits: nat)
    requires
        hits > 0,
    ensures
        0 <= Studio::moved_result(selected, delta, hits) < hits,
{
}

/// How a direction is described.
pub open spec fn direction_text(direction: Direction) -> Seq<char> {
    match direction {
        Direction::Outgoing => "outgoing only"@,
        Direction::Incoming => "incoming only"@,
        Direction::Both => "either direction"@,
    }
}

/// Describes a direction.
pub fn path_direction_label(direction: Direction) -> (r: &'static str)
    ensures
        r@ == direction_text(direction),
{
    match direction {
        Direction::Outgoing => "outgoing only",
        Direction::Incoming => "incoming only",
        Direction::Both => "either direction",
    }
}

/// The id of the node that would end the path of a draft: a selected node
/// other than the origin.
pub open spec fn destination_of(
    snapshot: Option<SceneSnapshot>,
    selection: Option<SceneSelection>,
    start: u64,
) -> Option<(usize, u64)> {
    match (snapshot, selection) {
        (Some(s), Some(SceneSelection::Node(index))) => if index < s.nodes.ids@.len()
            && s.nodes.ids@[index as int] != start {
            Some((index, s.nodes.ids@[index as int]))
        } else {
            None
        },
        _ => None,
    }
}

/// What is said of a path of which only the origin is chosen.
pub open spec fn draft_text(draft: PathDraft, destination: Option<(usize, u64)>) -> Seq<char> {
    let bounds = " · "@ + direction_text(draft.direction) + " · up to "@ + digits::decimal(
        draft.max_hops as nat,
    );
    match destination {
        Some((_, end)) => "Destination ready · node:"@ + digits::decimal(end as nat) + bounds
            + " hops · Enter traces exact path"@,
        None => "Path origin · node:"@ + digits::decimal(draft.start as nat) + bounds
            + " hops · select a destination"@,
    }
}

impl Studio {
    /// The id of the node that would end the path of a draft.
    pub open spec fn destination(self, start: u64) -> Option<(usize, u64)> {
        destination_of(self.snapshot, self.selection, start)
    }

    fn find_destination(&self, start: u64) -> (r: Option<(usize, u64)>)
        ensures
            r == self.destination(start),
    {
        match (&self.snapshot, self.selection) {
            (Some(s), Some(SceneSelection::Node(index))) => {
                if index < s.nodes.ids.len() && s.nodes.ids[index] != start {
                    Some((index, s.nodes.ids[index]))
                } else {
                    None
                }
            },
            _ => None,
        }
    }

    /// The node that would end the path whose origin is chosen, and its id.
    pub open spec fn candidate(self) -> Option<(usize, u64)> {
        match self.path_state {
            PathState::ChoosingEnd(draft) => self.destination(draft.start),
            _ => None,
        }
    }

    /// The node that would end the path whose origin is chosen.
    pub fn path_destination_candidate(&self) -> (r: Option<usize>)
        ensures
            r == match self.candidate() {
                Some((index, _)) => Some(index),
                None => None,
            },
    {
        match &self.path_state {
            PathState::ChoosingEnd(draft) => match self.find_destination(draft.start) {
                Some((index, _)) => Some(index),
                None => None,
            },
            _ => None,
        }
    }

    /// What is said of a draft, given the destination that is ready for the
    /// path whose origin is chosen.
    pub fn path_draft_status(&self, draft: PathDraft) -> (r: String)
        ensures
            r@ == draft_text(draft, self.candidate()),
    {
        let hops = usize_text(draft.max_hops);
        let bounds = concat4(
            " · ",
            path_direction_label(draft.direction),
            " · up to ",
            hops.as_str(),
        );
        let ready = match &self.path_state {
            PathState::ChoosingEnd(chosen) => self.find_destination(chosen.start),
            _ => None,
        };
        match ready {
            Some((_, end)) => {
                let shown = decimal_text(end);
                concat4(
                    "Destination ready · node:",
                    shown.as_str(),
                    bounds.as_str(),
                    " hops · Enter traces exact path",
                )
            },
            None => {
                let shown = decimal_text(draft.start);
                concat4(
                    "Path origin · node:",
                    shown.as_str(),
                    bounds.as_str(),
                    " hops · select a destination",
                )
            },
        }
    }

    /// The direction and the hop limit that a new draft takes over.
    pub open spec fn draft_settings(self) -> (Direction, usize) {
        match self.path_state {
            PathState::ChoosingEnd(draft) => (draft.direction, draft.max_hops),
            _ => (Direction::Both, 6),
        }
    }

    /// The state and what is left to do once an origin is chosen.
    pub open spec fn start_chosen(self, next: Studio, index: usize, r: Response) -> bool {
        &&& match self.snapshot {
            Some(s) if index < s.nodes.ids@.len() => if !self.database {
                &&& next == (Studio { status: next.status, ..self })
                &&& next.status@
                    == "Open a .vg database to trace exact evidence paths"@
                &&& r.is_nothing()
            } else {
                let draft = PathDraft {
                    start: s.nodes.ids@[index as int],
                    direction: self.draft_settings().0,
                    max_hops: self.draft_settings().1,
                };
                &&& next == (Studio {
                    search_generation: self.search_generation.wrapping_add(1),
                    search_state: SearchState::Idle,
                    path_generation: self.path_generation.wrapping_add(1),
                    path_state: PathState::ChoosingEnd(draft),
                    path_endpoints: Some(PathEndpoints { start: index, end: None }),
                    context_focus_active: false,
                    active_facet: None,
                    selection: Some(SceneSelection::Node(index)),
                    status: next.status,
                    ..self
                })
                &&& next.status@ == draft_text(draft, None)
                &&& r.restore_layout
                &&& lens_view(r.lens) == Some(lens::blank(s))
                &&& r.return_camera
                &&& r.keep_camera
                &&& r.motion
                &&& r.scroll_inspector == (self.selection != Some(
                    SceneSelection::Node(index),
                ))
                &&& r.task is Nothing
            },
            _ => next == self && r.is_nothing(),
        }
    }

    /// Chooses a node as the origin of a path.
    pub fn choose_path_start(&mut self, index: usize) -> (r: Response)
        requires
            old(self).wf(),
        ensures
            final(self).wf(),
            old(self).start_chosen(*final(self), index, r),
    {
        let mut response = Response::nothing();
        let start: u64 = match &self.snapshot {
            Some(s) => {
                if index < s.nodes.ids.len() {
                    s.nodes.ids[index]
                } else {
                    return response;
                }
            },
            None => {
                return response;
            },
        };
        if !self.database {
            self.status = "Open a .vg database to trace exact evidence paths".to_owned();
            return response;
        }
        let (direction, max_hops): (Direction, usize) = match &self.path_state {
            PathState::ChoosingEnd(draft) => (draft.direction, draft.max_hops),
            _ => (Direction::Both, 6),
        };
        self.search_generation = self.search_generation.wrapping_add(1);
        self.search_state = SearchState::Idle;
        self.path_generation = self.path_generation.wrapping_add(1);
        response.restore_layout = true;
        response.lens = blank_if(&self.snapshot);
        response.return_camera = true;
        response.keep_camera = true;
        response.motion = true;
        self.context_focus_active = false;
        self.active_facet = None;
        let draft = PathDraft { start, direction, max_hops };
        self.path_state = PathState::ChoosingEnd(draft);
        self.path_endpoints = Some(PathEndpoints { start: index, end: None });
        response.scroll_inspector = self.set_selection(Some(SceneSelection::Node(index)));
        self.status = self.path_draft_status(draft);
        response
    }

    /// The state once a direction is asked for.
    pub open spec fn direction_set(self, next: Studio, direction: Direction) -> bool {
        match self.path_state {
            PathState::ChoosingEnd(draft) if draft.direction != direction => {
                let changed = PathDraft { direction, ..draft };
                &&& next == (Studio {
                    path_state: PathState::ChoosingEnd(changed),
                    status: next.status,
                    ..self
                })
                &&& next.status@ == draft_text(changed, self.destination(draft.start))
            },
            _ => next == self,
        }
    }

    /// Changes the direction of the path whose origin is chosen.
    pub fn set_path_direction(&mut self, direction: Direction)
        ensures
            old(self).direction_set(*final(self), direction),
            old(self).wf() ==> final(self).wf(),
    {
        let draft: PathDraft = match &self.path_state {
            PathState::ChoosingEnd(draft) => *draft,
            _ => {
                return ;
            },
        };
        if draft.direction == direction {
            return ;
        }
        let next = PathDraft { start: draft.start, direction, max_hops: draft.max_hops };
        self.path_state = PathState::ChoosingEnd(next);
        self.status = self.path_draft_status(next);
    }

    /// The state once a hop limit is asked for.
    pub open spec fn hops_set(self, next: Studio, max_hops: usize) -> bool {
        match self.path_state {
            PathState::ChoosingEnd(draft) if draft.max_hops != max_hops && 1 <= max_hops
                <= 64 => {
                let changed = PathDraft { max_hops, ..draft };
                &&& next == (Studio {
                    path_state: PathState::ChoosingEnd(changed),
                    status: next.status,
                    ..self
                })
                &&& next.status@ == draft_text(changed, self.destination(draft.start))
            },
            _ => next == self,
        }
    }

    /// Changes the hop limit of the path whose origin is chosen, within 1 and
    /// 64.
    pub fn set_path_max_hops(&mut self, max_hops: usize)
        ensures
            old(self).hops_set(*final(self), max_hops),
            old(self).wf() ==> final(self).wf(),
    {
        let draft: PathDraft = match &self.path_state {
            PathState::ChoosingEnd(draft) => *draft,
            _ => {
                return ;
            },
        };
        if draft.max_hops == max_hops || max_hops < 1 || max_hops > 64 {
            return ;
        }
        let next = PathDraft { start: draft.start, direction: draft.direction, max_hops };
        self.path_state = PathState::ChoosingEnd(next);
        self.status = self.path_draft_status(next);
    }

    /// The request for the path from the chosen origin to a node.
    pub fn path_query_to_node(&self, index: usize) -> (r: Option<EvidencePathQuery>)
        ensures
            match (self.path_state, self.snapshot) {
                (PathState::ChoosingEnd(draft), Some(s)) if index < s.nodes.ids@.len() => {
                    r == Some(draft.query_to(s.nodes.ids@[index as int]))
                },
                _ => r is None,
            },
    {
        match (&self.path_state, &self.snapshot) {
            (PathState::ChoosingEnd(draft), Some(s)) => {
                if index < s.nodes.ids.len() {
                    Some(
                        EvidencePathQuery {
                            start: draft.start,
                            end: s.nodes.ids[index],
                            direction: draft.direction,
                            relationship_label: None,
                            max_hops: draft.max_hops,
                        },
                    )
                } else {
                    None
                }
            },
            _ => None,
        }
    }

    /// Where the ends of a path are on the canvas; without its start there
    /// are none.
    pub open spec fn endpoints_of(snapshot: Option<SceneSnapshot>, start: u64, end: u64) -> Option<
        PathEndpoints,
    > {
        match snapshot {
            None => None,
            Some(s) => match scene::position_of(s.nodes.ids@, start) {
                None => None,
                Some(i) => Some(
                    PathEndpoints { start: i, end: scene::position_of(s.nodes.ids@, end) },
                ),
            },
        }
    }

    fn find_endpoints(&self, start: u64, end: u64) -> (r: Option<PathEndpoints>)
        requires
            self.wf(),
        ensures
            r == Self::endpoints_of(self.snapshot, start, end),
    {
        match &self.snapshot {
            None => None,
            Some(s) => match s.node_index(start) {
                None => None,
                Some(i) => Some(PathEndpoints { start: i, end: s.node_index(end) }),
            },
        }
    }

    /// The state and what is left to do once an exact path is asked for.
    pub open spec fn path_asked(self, next: Studio, query: EvidencePathQuery, r: Response) -> bool {
        &&& next == (Studio {
            search_generation: self.search_generation.wrapping_add(1),
            search_state: SearchState::Idle,
            path_generation: self.path_generation.wrapping_add(1),
            path_state: next.path_state,
            path_endpoints: Self::endpoints_of(self.snapshot, query.start, query.end),
            context_focus_active: false,
            active_facet: None,
            status: next.status,
            ..self
        })
        &&& r.restore_layout == self.presenting()
        &&& lens_view(r.lens) == if self.presenting() {
            blank_of(self.snapshot)
        } else {
            None
        }
        &&& r.return_camera == self.presenting()
        &&& r.keep_camera
        &&& !r.motion
        &&& !r.scroll_inspector
        &&& if self.database {
            &&& next.path_state == (PathState::Searching {
                start: query.start,
                end: query.end,
            })
            &&& next.status@ == "Tracing exact path · node:"@ + digits::decimal(
                query.start as nat,
            ) + " → node:"@ + digits::decimal(query.end as nat) + "…"@
            &&& r.task matches StudioTask::Path { generation, query: asked } && generation
                == next.path_generation && asked == query
        } else {
            &&& next.path_state matches PathState::Failed { start, end, error }
                && start == query.start && end == query.end && error@
                == "Open a .vg database to trace exact evidence paths"@
            &&& next.status@ == "Path search needs an open database"@
            &&& r.task is Nothing
        }
    }

    /// Asks for an exact path. What was shown before gives way to the
    /// overview, and tasks that still run are out of date.
    pub fn start_evidence_path(&mut self, query: EvidencePathQuery) -> (r: Response)
        requires
            old(self).wf(),
        ensures
            final(self).wf(),
            old(self).path_asked(*final(self), query, r),
    {
        let mut response = Response::nothing();
        let presenting = self.is_presenting();
        self.search_generation = self.search_generation.wrapping_add(1);
        self.search_state = SearchState::Idle;
        self.path_generation = self.path_generation.wrapping_add(1);
        self.path_endpoints = self.find_endpoints(query.start, query.end);
        if presenting {
            response.restore_layout = true;
            response.lens = blank_if(&self.snapshot);
            response.return_camera = true;
        }
        self.context_focus_active = false;
        self.active_facet = None;
        response.keep_camera = true;
        if !self.database {
            self.path_state = PathState::Failed {
                start: query.start,
                end: query.end,
                error: "Open a .vg database to trace exact evidence paths".to_owned(),
            };
            self.status = "Path search needs an open database".to_owned();
            return response;
        }
        self.path_state = PathState::Searching { start: query.start, end: query.end };
        let first = decimal_text(query.start);
        let second = decimal_text(query.end);
        self.status = concat5(
            "Tracing exact path · node:",
            first.as_str(),
            " → node:",
            second.as_str(),
            "…",
        );
        response.task = StudioTask::Path { generation: self.path_generation, query };
        response
    }
}

/// How many hops a report's path has.
pub open spec fn hop_count(report: EvidencePathReport) -> nat {
    match report.path {
        Some(path) => path.steps@.len(),
        None => 0,
    }
}

/// Counts the hops of a report's path.
pub fn count_hops(report: &EvidencePathReport) -> (r: usize)
    ensures
        r == hop_count(*report),
{
    match &report.path {
        Some(path) => path.steps.len(),
        None => 0,
    }
}

/// The ending of a word that counts.
pub open spec fn plural(n: nat) -> Seq<char> {
    if n == 1 {
        ""@
    } else {
        "s"@
    }
}

/// The ending of a word that counts.
pub fn plural_ending(n: usize) -> (r: &'static str)
    ensures
        r@ == plural(n as nat),
{
    if n == 1 {
        ""
    } else {
        "s"
    }
}

/// What is said of a finished path search. Only a search that was complete
/// is called conclusive.
pub open spec fn path_status(report: EvidencePathReport) -> Seq<char> {
    match report.termination {
        EvidencePathTermination::Found => "Exact evidence path · "@ + digits::decimal(
            hop_count(report),
        ) + " hop"@ + plural(hop_count(report)) + " · "@ + (report.elapsed_ms@
            + " ms · Esc restores overview"@),
        EvidencePathTermination::NotFoundWithinHops => "No path within "@ + digits::decimal(
            report.max_hops as nat,
        ) + " hops · conclusive for this bound · "@ + report.elapsed_ms@ + " ms"@,
        EvidencePathTermination::ExpansionLimit => {
            "Path work limit reached · result incomplete · "@ + report.elapsed_ms@ + " ms"@
        },
    }
}

/// Says how a path search ended.
pub fn path_status_text(report: &EvidencePathReport) -> (r: String)
    ensures
        r@ == path_status(*report),
{
    match report.termination {
        EvidencePathTermination::Found => {
            let hops = count_hops(report);
            let shown = usize_text(hops);
            let tail = concat2(report.elapsed_ms.as_str(), " ms · Esc restores overview");
            concat6(
                "Exact evidence path · ",
                shown.as_str(),
                " hop",
                plural_ending(hops),
                " · ",
                tail.as_str(),
            )
        },
        EvidencePathTermination::NotFoundWithinHops => {
            let shown = usize_text(report.max_hops);
            concat5(
                "No path within ",
                shown.as_str(),
                " hops · conclusive for this bound · ",
                report.elapsed_ms.as_str(),
                " ms",
            )
        },
        EvidencePathTermination::ExpansionLimit => concat3(
            "Path work limit reached · result incomplete · ",
            report.elapsed_ms.as_str(),
            " ms",
        ),
    }
}

/// The node of an id as a selection.
pub open spec fn node_selection(snapshot: SceneSnapshot, id: u64) -> Option<SceneSelection> {
    match scene::position_of(snapshot.nodes.ids@, id) {
        Some(i) => Some(SceneSelection::Node(i)),
        None => None,
    }
}

/// The relationship of an id as a selection.
pub open spec fn edge_selection(snapshot: SceneSnapshot, id: u64) -> Option<SceneSelection> {
    match scene::position_of(snapshot.edges.ids@, id) {
        Some(i) => Some(SceneSelection::Edge(i)),
        None => None,
    }
}

impl Studio {
    /// The state with another scene and its counts.
    pub open spec fn installed(self, next: Studio, snapshot: SceneSnapshot) -> bool {
        &&& next == (Studio {
            snapshot: Some(snapshot),
            node_label_counts: next.node_label_counts,
            relationship_counts: next.relationship_counts,
            ..self
        })
        &&& order::ranked_views(next.node_label_counts@) == labels::label_counts(
            text::views(snapshot.nodes.labels@),
        )
        &&& order::ranked_views(next.relationship_counts@) == labels::label_counts(
            text::views(snapshot.edges.labels@),
        )
    }

    /// Puts another scene in place.
    pub fn install_evidence_snapshot(&mut self, snapshot: SceneSnapshot)
        ensures
            old(self).installed(*final(self), snapshot),
    {
        self.node_label_counts = snapshot.label_counts();
        self.relationship_counts = snapshot.relationship_counts();
        self.snapshot = Some(snapshot);
    }

    /// The state once a path search has ended, in the scene that then holds.
    pub open spec fn path_done(self, next: Studio, report: EvidencePathReport, r: Response) -> bool {
        match self.snapshot {
            Some(s) => {
                &&& next == (Studio {
                    path_state: PathState::Ready(report),
                    path_endpoints: Self::endpoints_of(
                        self.snapshot,
                        report.start.id,
                        report.end.id,
                    ),
                    selection: node_selection(s, report.start.id),
                    status: next.status,
                    ..self
                })
                &&& lens_view(r.lens) == Some(lens::path_scores(s, report))
                &&& r.keep_camera
                &&& r.motion
                &&& r.scroll_inspector == (self.selection != node_selection(s, report.start.id))
                &&& r.task is FramePath
                &&& !r.restore_layout
                &&& !r.return_camera
            },
            None => {
                &&& next == (Studio {
                    path_state: PathState::Ready(report),
                    status: next.status,
                    ..self
                })
                &&& r.is_nothing()
            },
        }
    }

    fn present_evidence_path(&mut self, report: &EvidencePathReport) -> (r: Response)
        requires
            old(self).snapshot matches Some(s) ==> s.wf(),
        ensures
            match old(self).snapshot {
                Some(s) => {
                    &&& *final(self) == (Studio {
                        path_endpoints: Self::endpoints_of(
                            old(self).snapshot,
                            report.start.id,
                            report.end.id,
                        ),
                        selection: node_selection(s, report.start.id),
                        ..*old(self)
                    })
                    &&& lens_view(r.lens) == Some(lens::path_scores(s, *report))
                    &&& r.keep_camera
                    &&& r.motion
                    &&& r.scroll_inspector == (old(self).selection != node_selection(
                        s,
                        report.start.id,
                    ))
                    &&& r.task is FramePath
                    &&& !r.restore_layout
                    &&& !r.return_camera
                },
                None => *final(self) == *old(self) && r.is_nothing(),
            },
    {
        let mut response = Response::nothing();
        let chosen: Option<SceneSelection> = match &self.snapshot {
            None => {
                return response;
            },
            Some(s) => {
                response.lens = Some(path_lens(s, report));
                let start = s.node_index(report.start.id);
                self.path_endpoints = match start {
                    Some(i) => Some(PathEndpoints { start: i, end: s.node_index(report.end.id) }),
                    None => None,
                };
                match start {
                    Some(i) => Some(SceneSelection::Node(i)),
                    None => None,
                }
            },
        };
        response.keep_camera = true;
        response.motion = true;
        response.task = StudioTask::FramePath;
        response.scroll_inspector = self.set_selection(chosen);
        response
    }

    /// The state and what is left to do once a path search has ended.
    pub open spec fn path_finished(
        self,
        next: Studio,
        generation: u64,
        start: u64,
        end: u64,
        result: Result<(EvidencePathReport, Option<SceneSnapshot>), String>,
        r: Response,
    ) -> bool {
        if generation != self.path_generation {
            next == self && r.is_nothing()
        } else {
            match result {
                Err(error) => {
                    &&& next == (Studio {
                        path_state: PathState::Failed { start, end, error },
                        status: next.status,
                        ..self
                    })
                    &&& next.status@ == "Path search failed"@
                    &&& r.is_nothing()
                },
                Ok((report, enriched)) => {
                    &&& next.status@ == path_status(report)
                    &&& match enriched {
                        None => self.path_done(next, report, r),
                        Some(s) => exists|middle: Studio|
                            self.installed(middle, s) && #[trigger] middle.path_done(
                                next,
                                report,
                                r,
                            ),
                    }
                },
            }
        }
    }

    /// Takes the result of a path search, unless it is out of date: the scene
    /// that was made to hold the path, if one was, and the report.
    pub fn finish_evidence_path(
        &mut self,
        generation: u64,
        start: u64,
        end: u64,
        result: Result<(EvidencePathReport, Option<SceneSnapshot>), String>,
    ) -> (r: Response)
        requires
            old(self).wf(),
            result matches Ok((_, Some(s))) ==> s.wf(),
        ensures
            final(self).wf(),
            old(self).path_finished(*final(self), generation, start, end, result, r),
    {
        if generation != self.path_generation {
            return Response::nothing();
        }
        match result {
            Err(error) => {
                self.status = "Path search failed".to_owned();
                self.path_state = PathState::Failed { start, end, error };
                Response::nothing()
            },
            Ok((report, enriched)) => {
                let ghost first = *self;
                match enriched {
                    Some(snapshot) => {
                        self.install_evidence_snapshot(snapshot);
                    },
                    None => {},
                }
                let ghost middle = *self;
                let response = self.present_evidence_path(&report);
                self.status = path_status_text(&report);
                self.path_state = PathState::Ready(report);
                assert(middle.path_done(*self, report, response));
                response
            },
        }
    }
}

/// The ends of a step on the canvas, if both are there.
pub open spec fn step_ends(snapshot: SceneSnapshot, from: u64, to: u64) -> Option<(usize, usize)> {
    match (
        scene::position_of(snapshot.nodes.ids@, from),
        scene::position_of(snapshot.nodes.ids@, to),
    ) {
        (Some(a), Some(b)) => Some((a, b)),
        _ => None,
    }
}

impl Studio {
    /// A step of the path that was found.
    pub open spec fn path_step(self, step_index: int) -> Option<(u64, u64, u64)> {
        match self.path_state {
            PathState::Ready(report) => match report.path {
                Some(path) => if 0 <= step_index < path.steps@.len() {
                    Some(
                        (
                            path.steps@[step_index].edge_id,
                            path.steps@[step_index].from,
                            path.steps@[step_index].to,
                        ),
                    )
                } else {
                    None
                },
                None => None,
            },
            _ => None,
        }
    }

    fn find_step(&self, step_index: usize) -> (r: Option<(u64, u64, u64)>)
        ensures
            r == self.path_step(step_index as int),
            r is Some ==> step_index < usize::MAX,
    {
        match &self.path_state {
            PathState::Ready(report) => match &report.path {
                Some(path) => {
                    if step_index < path.steps.len() {
                        let step = &path.steps[step_index];
                        Some((step.edge_id, step.from, step.to))
                    } else {
                        None
                    }
                },
                None => None,
            },
            _ => None,
        }
    }

    /// The state and what is left to do once a step of the path is chosen.
    pub open spec fn step_activated(self, next: Studio, step_index: usize, r: Response) -> bool {
        match (self.path_step(step_index as int), self.snapshot) {
            (Some((edge_id, from, to)), Some(s)) => match scene::position_of(
                s.edges.ids@,
                edge_id,
            ) {
                None => {
                    &&& next == (Studio { status: next.status, ..self })
                    &&& next.status@ == "Relationship "@ + digits::decimal(
                        edge_id as nat,
                    ) + " is outside this sampled scene · path evidence remains exact"@
                    &&& r.is_nothing()
                },
                Some(index) => {
                    &&& next == (Studio {
                        selection: Some(SceneSelection::Edge(index)),
                        status: next.status,
                        ..self
                    })
                    &&& next.status@ == "Evidence step "@ + digits::decimal(
                        (step_index + 1) as nat,
                    ) + " · relationship:"@ + digits::decimal(edge_id as nat)
                    &&& r.motion
                    &&& r.scroll_inspector == (self.selection != Some(
                        SceneSelection::Edge(index),
                    ))
                    &&& match step_ends(s, from, to) {
                        Some((a, b)) => r.task matches StudioTask::FrameStep(x, y) && x == a
                            && y == b,
                        None => r.task is Nothing,
                    }
                    &&& (Response {
                        motion: false,
                        scroll_inspector: false,
                        task: StudioTask::Nothing,
                        ..r
                    }).is_nothing()
                },
            },
            _ => next == self && r.is_nothing(),
        }
    }

    /// Selects the relationship of a step of the path that was found.
    pub fn activate_evidence_step(&mut self, step_index: usize) -> (r: Response)
        requires
            old(self).wf(),
        ensures
            final(self).wf(),
            old(self).step_activated(*final(self), step_index, r),
    {
        let mut response = Response::nothing();
        let (edge_id, from, to): (u64, u64, u64) = match self.find_step(step_index) {
            Some(step) => step,
            None => {
                return response;
            },
        };
        let found: Option<usize> = match &self.snapshot {
            None => {
                return response;
            },
            Some(s) => {
                match (s.node_index(from), s.node_index(to)) {
                    (Some(a), Some(b)) => {
                        response.task = StudioTask::FrameStep(a, b);
                    },
                    _ => {},
                }
                s.edge_index(edge_id)
            },
        };
        let shown = decimal_text(edge_id);
        match found {
            None => {
                response.task = StudioTask::Nothing;
                self.status = concat3(
                    "Relationship ",
                    shown.as_str(),
                    " is outside this sampled scene · path evidence remains exact",
                );
            },
            Some(index) => {
                response.scroll_inspector = self.set_selection(Some(SceneSelection::Edge(index)));
                response.motion = true;
                let number = usize_text(step_index + 1);
                self.status = concat4(
                    "Evidence step ",
                    number.as_str(),
                    " · relationship:",
                    shown.as_str(),
                );
            },
        }
        response
    }

    /// The context that is shown around a node: two hops, at most 112 nodes
    /// and 168 relationships.
    pub open spec fn node_context(snapshot: SceneSnapshot, index: usize) -> Option<FocusView> {
        snapshot.focus(SceneSelection::Node(index), 2, 112, 168)
    }

    /// How many nodes a layer has.
    pub open spec fn layer_len(focus: FocusView, depth: int) -> nat {
        if 0 <= depth < focus.layers.len() {
            focus.layers[depth].len()
        } else {
            0
        }
    }

    /// What is said of a context.
    pub open spec fn context_status(id: u64, focus: FocusView) -> Seq<char> {
        "Context · node "@ + digits::decimal(id as nat) + " · "@ + digits::decimal(
            Self::layer_len(focus, 1),
        ) + " direct · "@ + digits::decimal(Self::layer_len(focus, 2)) + (" two-hop · "@
            + digits::decimal(focus.edges.len()) + " relationships · Esc restores overview"@)
    }

    /// The state and what is left to do once the context of a node is asked for.
    pub open spec fn context_shown(self, next: Studio, index: usize, r: Response) -> bool {
        &&& ({
            let cleared = Studio {
                path_generation: self.path_generation.wrapping_add(1),
                path_state: PathState::Idle,
                path_endpoints: None,
                ..self
            };
            match self.snapshot {
                None => next == cleared && r.is_nothing(),
                Some(s) => match Self::node_context(s, index) {
                    None => next == cleared && r.is_nothing(),
                    Some(focus) => {
                        &&& next == (Studio {
                            context_focus_active: true,
                            active_facet: None,
                            selection: Some(SceneSelection::Node(index)),
                            status: next.status,
                            ..cleared
                        })
                        &&& next.status@ == Self::context_status(
                            s.nodes.ids@[index as int],
                            focus,
                        )
                        &&& lens_view(r.lens) == Some(lens::context_scores(s, focus))
                        &&& r.keep_camera
                        &&& r.motion
                        &&& r.scroll_inspector == (self.selection != Some(
                            SceneSelection::Node(index),
                        ))
                        &&& r.task matches StudioTask::FrameContext(i) && i == index
                        &&& !r.restore_layout
                        &&& !r.return_camera
                    },
                },
            }
        })
    }

    /// Shows the context of a node.
    pub fn focus_node_context(&mut self, index: usize) -> (r: Response)
        requires
            old(self).wf(),
        ensures
            final(self).wf(),
            old(self).context_shown(*final(self), index, r),
    {
        self.path_generation = self.path_generation.wrapping_add(1);
        self.path_state = PathState::Idle;
        self.path_endpoints = None;
        let mut response = Response::nothing();
        match &self.snapshot {
            None => {
                return response;
            },
            Some(s) => match s.focus_neighborhood_layers(SceneSelection::Node(index), 2, 112, 168) {
                None => {
                    return response;
                },
                Some(focus) => {
                    assert(s.focus_roots(SceneSelection::Node(index)) is Some);
                    response.lens = Some(context_lens(s, &focus));
                    let direct: usize = if focus.layers.len() > 1 {
                        assert(focus@.layers[1] == focus.layers@[1]@);
                        focus.layers[1].len()
                    } else {
                        0
                    };
                    let indirect: usize = if focus.layers.len() > 2 {
                        assert(focus@.layers[2] == focus.layers@[2]@);
                        focus.layers[2].len()
                    } else {
                        0
                    };
                    let id = decimal_text(s.nodes.ids[index]);
                    let first = usize_text(direct);
                    let second = usize_text(indirect);
                    let third = usize_text(focus.edges.len());
                    let head = concat6(
                        "Context · node ",
                        id.as_str(),
                        " · ",
                        first.as_str(),
                        " direct · ",
                        second.as_str(),
                    );
                    let tail = concat3(
                        " two-hop · ",
                        third.as_str(),
                        " relationships · Esc restores overview",
                    );
                    self.status = concat2(head.as_str(), tail.as_str());
                },
            },
        }
        response.keep_camera = true;
        response.motion = true;
        response.task = StudioTask::FrameContext(index);
        self.context_focus_active = true;
        self.active_facet = None;
        response.scroll_inspector = self.set_selection(Some(SceneSelection::Node(index)));
        response
    }

    /// The state and what is left to do once the selection is acted on.
    pub open spec fn selection_activated(self, next: Studio, query_focused: bool, r: Response) -> bool {
        &&& query_focused ==> next == self && r.is_nothing()
        &&& !query_focused ==> match self.path_state {
            PathState::ChoosingEnd(draft) => match self.destination(draft.start) {
                None => next == self && r.is_nothing(),
                Some((_, end)) => self.path_asked(
                    next,
                    draft.query_to(end),
                    r,
                ),
            },
            _ => match self.selection {
                Some(SceneSelection::Node(index)) => self.context_shown(
                    next,
                    index,
                    r,
                ),
                _ => next == self && r.is_nothing(),
            },
        }
    }

    /// What the enter key does: nothing while the query field has the focus,
    /// the path to the destination while one is chosen, and else the context
    /// of the selected node.
    pub fn activate_selection(&mut self, query_focused: bool) -> (r: Response)
        requires
            old(self).wf(),
        ensures
            final(self).wf(),
            old(self).selection_activated(*final(self), query_focused, r),
    {
        if query_focused {
            return Response::nothing();
        }
        if matches!(self.path_state, PathState::ChoosingEnd(_)) {
            return match self.path_destination_candidate() {
                Some(index) => match self.path_query_to_node(index) {
                    Some(query) => self.start_evidence_path(query),
                    None => Response::nothing(),
                },
                None => Response::nothing(),
            };
        }
        match self.selection {
            Some(SceneSelection::Node(index)) => self.focus_node_context(index),
            _ => Response::nothing(),
        }
    }

    /// What kind an element is, in small letters.
    pub open spec fn kind_word(element: ElementRef) -> Seq<char> {
        text::spec_lowercase(search::kind_name(element))
    }

    /// How many elements the context of a result has.
    pub open spec fn result_context(snapshot: SceneSnapshot, selection: SceneSelection) -> nat {
        match snapshot.focus(selection, 1, 98, 96) {
            Some(focus) => focus.nodes.len() + focus.edges.len(),
            None => 0,
        }
    }

    /// The state and what is left to do once a search result is chosen.
    pub open spec fn result_activated(
        self,
        next: Studio,
        index: usize,
        percent: Seq<char>,
        r: Response,
    ) -> bool {
        match (self.search_state, self.snapshot) {
            (SearchState::Ready(report), Some(s)) if index < report.hits@.len() => {
                let hit = report.hits@[index as int];
                match search::selection_of(s, hit.element) {
                    None => {
                        &&& next == (Studio {
                            status: next.status,
                            ..self
                        })
                        &&& next.status@ == Self::kind_word(hit.element) + " "@
                            + digits::decimal(search::element_id(hit.element) as nat)
                            + " matches, but is outside this bounded graph view"@
                        &&& r.is_nothing()
                    },
                    Some(selection) => {
                        &&& next == (Studio {
                            selection: Some(selection),
                            selected_search_result: index,
                            status: next.status,
                            ..self
                        })
                        &&& next.status@ == "Focused "@ + Self::kind_word(hit.element)
                            + " "@ + digits::decimal(search::element_id(hit.element) as nat)
                            + " · "@ + hit.label@ + (" · "@ + percent + "% match · "@
                            + digits::decimal(Self::result_context(s, selection))
                            + "-element context"@)
                        &&& match s.focus(selection, 1, 98, 96) {
                            Some(focus) => {
                                &&& lens_view(r.lens) == Some(
                                    lens::focus_scores(s, focus, selection),
                                )
                                &&& r.motion
                                &&& r.task matches StudioTask::FrameResult(x) && x
                                    == selection
                            },
                            None => r.lens is None && !r.motion && r.task is Nothing,
                        }
                        &&& r.scroll_inspector == (self.selection != Some(selection))
                        &&& !r.restore_layout
                        &&& !r.return_camera
                        &&& !r.keep_camera
                    },
                }
            },
            _ => next == self && r.is_nothing(),
        }
    }

    /// Shows a result of the search. `percent` is its score as a rounded
    /// percentage.
    pub fn activate_search_result(&mut self, index: usize, percent: &str) -> (r: Response)
        requires
            old(self).wf(),
        ensures
            final(self).wf(),
            old(self).result_activated(*final(self), index, percent@, r),
    {
        let mut response = Response::nothing();
        let chosen: SceneSelection = match (&self.search_state, &self.snapshot) {
            (SearchState::Ready(report), Some(s)) => {
                if index >= report.hits.len() {
                    return response;
                }
                let hit = &report.hits[index];
                let kind = text::lowercase(hit.kind_label());
                let id = decimal_text(hit.id());
                match hit.scene_selection(s) {
                    None => {
                        self.status = concat4(
                            kind.as_str(),
                            " ",
                            id.as_str(),
                            " matches, but is outside this bounded graph view",
                        );
                        return response;
                    },
                    Some(selection) => {
                        let mut size = usize_text(0);
                        match s.focus_neighborhood(selection, 96) {
                            Some(focus) => {
                                response.lens = Some(focus_lens(s, &focus, selection));
                                response.motion = true;
                                response.task = StudioTask::FrameResult(selection);
                                proof {
                                    let n: usize = s.nodes.ids.len();
                                    let m: usize = s.edges.ids.len();
                                    focus_laws::law_focus_is_bounded_and_connected(
                                        *s,
                                        selection,
                                        1,
                                        98,
                                        96,
                                    );
                                }
                                size = sum_text(focus.nodes.len(), focus.edges.len());
                            },
                            None => {},
                        }
                        let head = concat6(
                            "Focused ",
                            kind.as_str(),
                            " ",
                            id.as_str(),
                            " · ",
                            hit.label.as_str(),
                        );
                        let tail = concat5(
                            " · ",
                            percent,
                            "% match · ",
                            size.as_str(),
                            "-element context",
                        );
                        self.status = concat2(head.as_str(), tail.as_str());
                        selection
                    },
                }
            },
            _ => {
                return response;
            },
        };
        response.scroll_inspector = self.set_selection(Some(chosen));
        self.selected_search_result = index;
        response
    }
}

/// Writes the sum of two sizes.
fn sum_text(a: usize, b: usize) -> (r: String)
    requires
        a + b <= u64::MAX,
    ensures
        r@ == digits::decimal((a + b) as nat),
{
    decimal_text(a as u64 + b as u64)
}

impl Studio {
    /// Selects a node by its id.
    pub fn select_node(&mut self, id: u64) -> (r: Response)
        requires
            old(self).wf(),
        ensures
            final(self).wf(),
            old(self).node_selected(*final(self), id, r),
    {
        let mut response = Response::nothing();
        let found: Option<SceneSelection> = match &self.snapshot {
            None => {
                return response;
            },
            Some(s) => match s.node_index(id) {
                Some(i) => Some(SceneSelection::Node(i)),
                None => None,
            },
        };
        response.scroll_inspector = self.set_selection(found);
        let shown = decimal_text(id);
        self.status = if found.is_some() {
            concat2("Selected node ", shown.as_str())
        } else {
            concat3("Node ", shown.as_str(), " is not in this view")
        };
        response
    }

    /// The state and what is left to do once a node is selected by its id.
    pub open spec fn node_selected(self, next: Studio, id: u64, r: Response) -> bool {
        match self.snapshot {
            None => next == self && r.is_nothing(),
            Some(s) => {
                let found = node_selection(s, id);
                &&& next == (Studio { selection: found, status: next.status, ..self })
                &&& next.status@ == if found is Some {
                    "Selected node "@ + digits::decimal(id as nat)
                } else {
                    "Node "@ + digits::decimal(id as nat) + " is not in this view"@
                }
                &&& r.scroll_inspector == (self.selection != found)
                &&& (Response { scroll_inspector: false, ..r }).is_nothing()
            },
        }
    }

    /// Selects a relationship by its id.
    pub fn select_edge(&mut self, id: u64) -> (r: Response)
        requires
            old(self).wf(),
        ensures
            final(self).wf(),
            old(self).edge_selected(*final(self), id, r),
    {
        let mut response = Response::nothing();
        let found: Option<SceneSelection> = match &self.snapshot {
            None => {
                return response;
            },
            Some(s) => match s.edge_index(id) {
                Some(i) => Some(SceneSelection::Edge(i)),
                None => None,
            },
        };
        response.scroll_inspector = self.set_selection(found);
        let shown = decimal_text(id);
        self.status = if found.is_some() {
            concat2("Selected relationship ", shown.as_str())
        } else {
            concat3("Relationship ", shown.as_str(), " is not in this view")
        };
        response
    }

    /// The state and what is left to do once a relationship is selected by
    /// its id.
    pub open spec fn edge_selected(self, next: Studio, id: u64, r: Response) -> bool {
        match self.snapshot {
            None => next == self && r.is_nothing(),
            Some(s) => {
                let found = edge_selection(s, id);
                &&& next == (Studio { selection: found, status: next.status, ..self })
                &&& next.status@ == if found is Some {
                    "Selected relationship "@ + digits::decimal(id as nat)
                } else {
                    "Relationship "@ + digits::decimal(id as nat) + " is not in this view"@
                }
                &&& r.scroll_inspector == (self.selection != found)
                &&& (Response { scroll_inspector: false, ..r }).is_nothing()
            },
        }
    }

    /// Where a node is in the scene, if there is one.
    pub open spec fn place_of(self, id: u64) -> Option<usize> {
        match self.snapshot {
            Some(s) => scene::position_of(s.nodes.ids@, id),
            None => None,
        }
    }

    fn find_place(&self, id: u64) -> (r: Option<usize>)
        requires
            self.wf(),
        ensures
            r == self.place_of(id),
            r matches Some(i) ==> self.snapshot matches Some(s) && i < s.nodes.ids@.len(),
    {
        match &self.snapshot {
            Some(s) => s.node_index(id),
            None => None,
        }
    }

    /// The state once a node is said not to be in view.
    pub open spec fn not_in_view(self, next: Studio, id: u64, r: Response) -> bool {
        &&& next == (Studio { status: next.status, ..self })
        &&& next.status@ == "Node "@ + digits::decimal(id as nat) + " is not in this view"@
        &&& r.is_nothing()
    }

    fn say_not_in_view(&mut self, id: u64) -> (r: Response)
        ensures
            old(self).not_in_view(*final(self), id, r),
            old(self).wf() ==> final(self).wf(),
    {
        let shown = decimal_text(id);
        self.status = concat3("Node ", shown.as_str(), " is not in this view");
        Response::nothing()
    }

    /// The state and what is left to do once a node is to be centred.
    pub open spec fn node_centered(self, next: Studio, id: u64, r: Response) -> bool {
        match self.place_of(id) {
            None => self.not_in_view(next, id, r),
            Some(index) => {
                &&& next == (Studio {
                    selection: Some(SceneSelection::Node(index)),
                    status: next.status,
                    ..self
                })
                &&& next.status@ == "Centered node "@ + digits::decimal(id as nat)
                &&& r.scroll_inspector == (self.selection != Some(SceneSelection::Node(index)))
                &&& r.task matches StudioTask::Center(i) && i == index
                &&& (Response { scroll_inspector: false, task: StudioTask::Nothing, ..r }).is_nothing()
            },
        }
    }

    /// Centres the canvas on a node.
    pub fn center_node(&mut self, id: u64) -> (r: Response)
        requires
            old(self).wf(),
        ensures
            final(self).wf(),
            old(self).node_centered(*final(self), id, r),
    {
        match self.find_place(id) {
            None => self.say_not_in_view(id),
            Some(index) => {
                let mut response = Response::nothing();
                response.task = StudioTask::Center(index);
                response.scroll_inspector = self.set_selection(Some(SceneSelection::Node(index)));
                let shown = decimal_text(id);
                self.status = concat2("Centered node ", shown.as_str());
                response
            },
        }
    }

    /// The state and what is left to do once an arrangement is asked for.
    pub open spec fn arrangement_asked(self, next: Studio, kind: LayoutKind, r: Response) -> bool {
        match self.snapshot {
            None => next == self && r.is_nothing(),
            Some(_) => {
                &&& next == (Studio {
                    layout_generation: self.layout_generation.wrapping_add(1),
                    layout_in_progress: true,
                    status: next.status,
                    ..self
                })
                &&& next.status@ == "Computing "@ + kind.name() + " arrangement…"@
                &&& r.task matches StudioTask::Arrange { generation, kind: k } && generation
                    == next.layout_generation && k == kind
                &&& (Response { task: StudioTask::Nothing, ..r }).is_nothing()
            },
        }
    }

    /// Asks for an arrangement.
    pub fn arrange(&mut self, kind: LayoutKind) -> (r: Response)
        ensures
            old(self).arrangement_asked(*final(self), kind, r),
            old(self).wf() ==> final(self).wf(),
    {
        let mut response = Response::nothing();
        if self.snapshot.is_none() {
            return response;
        }
        self.layout_generation = self.layout_generation.wrapping_add(1);
        self.layout_in_progress = true;
        self.status = concat3("Computing ", kind.label(), " arrangement…");
        response.task = StudioTask::Arrange { generation: self.layout_generation, kind };
        response
    }

    /// The state once an arrangement has been computed.
    pub open spec fn arrangement_finished(
        self,
        next: Studio,
        generation: u64,
        kind: LayoutKind,
        accepted: bool,
        elapsed_ms: Seq<char>,
    ) -> bool {
        if generation != self.layout_generation {
            next == self
        } else {
            &&& next == (Studio {
                layout_in_progress: false,
                layout_kind: if accepted {
                    kind
                } else {
                    self.layout_kind
                },
                status: next.status,
                ..self
            })
            &&& next.status@ == if accepted {
                kind.name() + " arrangement · "@ + elapsed_ms
                    + " ms · drag any node to pin it"@
            } else {
                "Arrangement result no longer matches this scene"@
            }
        }
    }

    /// Takes the result of an arrangement, unless it is out of date. It was
    /// accepted if it fits the scene.
    pub fn finish_arrange(&mut self, generation: u64, kind: LayoutKind, accepted: bool, elapsed_ms: &str)
        ensures
            old(self).wf() ==> final(self).wf(),
            old(self).arrangement_finished(*final(self), generation, kind, accepted, elapsed_ms@),
    {
        if generation != self.layout_generation {
            return ;
        }
        self.layout_in_progress = false;
        if accepted {
            self.layout_kind = kind;
            self.status = concat4(
                kind.label(),
                " arrangement · ",
                elapsed_ms,
                " ms · drag any node to pin it",
            );
        } else {
            self.status = "Arrangement result no longer matches this scene".to_owned();
        }
    }
}

} // verus!
