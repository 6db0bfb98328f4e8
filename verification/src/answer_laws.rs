//! What the studio makes of answers, clicks and keys.

use vstd::prelude::*;
use vstd::string::*;

use crate::evidence::{EvidencePathReport, EvidencePathTermination};
use crate::graph::ElementRef;
use crate::scene::{LayoutKind, SceneSelection, SceneSnapshot};
use crate::search::{SearchMode, SearchReport};
use crate::search_laws;
use crate::studio;
use crate::studio::{PathState, Response, SearchState, Studio, StudioTask};
use crate::studio_laws;
use crate::text;

verus! {

/// An answer to a question that has been overtaken changes nothing.
pub proof fn law_late_answers_change_nothing(
    s: Studio,
    next: Studio,
    generation: u64,
    query: String,
    mode: SearchMode,
    found: Result<SearchReport, String>,
    shown: bool,
    start: u64,
    end: u64,
    path: Result<(EvidencePathReport, Option<SceneSnapshot>), String>,
    r: Response,
    kind: LayoutKind,
    accepted: bool,
    elapsed_ms: Seq<char>,
)
    ensures
        generation != s.search_generation && s.search_finished(
            next,
            generation,
            query,
            mode,
            found,
            shown,
        ) ==> next == s && !shown,
        generation != s.path_generation && s.path_finished(next, generation, start, end, path, r)
            ==> next == s && r.is_nothing(),
        generation != s.layout_generation && s.arrangement_finished(
            next,
            generation,
            kind,
            accepted,
            elapsed_ms,
        ) ==> next == s,
{
}

/// An awaited search ends with its report, or with the query and the error
/// that it failed by. Results are shown on the scene where there is one, and
/// what it showed before is left.
pub proof fn law_search_answers_are_kept(
    s: Studio,
    next: Studio,
    query: String,
    mode: SearchMode,
    found: Result<SearchReport, String>,
    shown: bool,
)
    requires
        s.search_finished(next, s.search_generation, query, mode, found, shown),
    ensures
        match found {
            Ok(report) => {
                &&& next.search_state == SearchState::Ready(report)
                &&& shown <==> s.snapshot is Some
                &&& shown ==> next.active_facet is None && !next.context_focus_active
            },
            Err(error) => {
                &&& next.search_state == (SearchState::Failed { query, error })
                &&& !shown
                &&& next.active_facet == s.active_facet
            },
        },
        next.snapshot == s.snapshot,
        next.selection == s.selection,
        next.path_state == s.path_state,
        next.search_mode == s.search_mode,
{
}

/// An awaited path search ends with its report, in the scene that holds its
/// evidence where one came with it, or with its ends and its error.
pub proof fn law_path_answers_are_kept(
    s: Studio,
    next: Studio,
    start: u64,
    end: u64,
    path: Result<(EvidencePathReport, Option<SceneSnapshot>), String>,
    r: Response,
)
    requires
        s.path_finished(next, s.path_generation, start, end, path, r),
    ensures
        match path {
            Ok((report, scene)) => {
                &&& next.path_state == PathState::Ready(report)
                &&& scene is Some ==> next.snapshot == scene
                &&& scene is None ==> next.snapshot == s.snapshot
                &&& next.snapshot is Some ==> r.task is FramePath && r.lens is Some
                &&& next.status@ == studio::path_status(report)
            },
            Err(error) => {
                &&& next.path_state == (PathState::Failed { start, end, error })
                &&& next.snapshot == s.snapshot
                &&& next.selection == s.selection
                &&& r.task is Nothing
            },
        },
        next.search_state == s.search_state,
{
    if let Ok((report, Some(scene))) = path {
        let middle = choose|middle: Studio|
            s.installed(middle, scene) && #[trigger] middle.path_done(next, report, r);
        assert(middle.path_done(next, report, r));
    }
}

/// What is said of an ended path search tells a found path from a conclusive
/// miss and from an incomplete search.
pub proof fn law_endings_are_told_apart(a: EvidencePathReport, b: EvidencePathReport)
    requires
        a.termination != b.termination,
    ensures
        studio::path_status(a) != studio::path_status(b),
{
    reveal_strlit("Exact evidence path · ");
    reveal_strlit("No path within ");
    reveal_strlit("Path work limit reached · result incomplete · ");
    let x = studio::path_status(a);
    let y = studio::path_status(b);
    assert(x[0] == match a.termination {
        EvidencePathTermination::Found => 'E',
        EvidencePathTermination::NotFoundWithinHops => 'N',
        EvidencePathTermination::ExpansionLimit => 'P',
    });
    assert(y[0] == match b.termination {
        EvidencePathTermination::Found => 'E',
        EvidencePathTermination::NotFoundWithinHops => 'N',
        EvidencePathTermination::ExpansionLimit => 'P',
    });
}

/// An awaited arrangement becomes the arrangement of the scene where it fits,
/// and is dropped where it does not.
pub proof fn law_fitting_arrangements_are_kept(
    s: Studio,
    next: Studio,
    kind: LayoutKind,
    accepted: bool,
    elapsed_ms: Seq<char>,
)
    requires
        s.arrangement_finished(next, s.layout_generation, kind, accepted, elapsed_ms),
    ensures
        !next.layout_in_progress,
        accepted ==> next.layout_kind == kind,
        !accepted ==> next.layout_kind == s.layout_kind,
        next.snapshot == s.snapshot,
        next.selection == s.selection,
        next.search_state == s.search_state,
        next.path_state == s.path_state,
{
}

/// Choosing another mode searches again in that mode for what the field holds,
/// and for nothing where it is blank; choosing the same mode does nothing.
pub proof fn law_modes_search_again(
    s: Studio,
    next: Studio,
    mode: SearchMode,
    field: Seq<char>,
    r: Response,
)
    requires
        s.mode_set(next, mode, field, r),
    ensures
        next.search_mode == mode,
        s.search_mode == mode ==> next == s && r.task is Nothing,
        s.search_mode != mode && text::trimmed(field).len() == 0 ==> next.search_state
            == s.search_state && r.task is Nothing,
        s.search_mode != mode && text::trimmed(field).len() > 0 && s.database ==> r.task is Search
            && r.task->Search_query@ == text::trimmed(field) && r.task->Search_mode == mode
            && r.task->Search_generation == next.search_generation,
        next.snapshot == s.snapshot,
        next.selection == s.selection,
{
}

/// Leaving a view returns to the overview; where nothing is presented it only
/// clears the selection.
pub proof fn law_escape_leaves_the_view(s: Studio, next: Studio, r: Response)
    requires
        s.escaped(next, r),
    ensures
        !next.presenting(),
        next.selection is None,
        next.snapshot == s.snapshot,
        next.layout_kind == s.layout_kind,
        r.task is Nothing,
        r.restore_layout <==> s.presenting(),
        r.return_camera <==> s.presenting(),
        !s.presenting() ==> next.search_generation == s.search_generation && next.path_generation
            == s.path_generation,
{
}

/// Choosing a search result selects its element and marks the result, where
/// the element is in the scene; otherwise nothing is selected anew.
pub proof fn law_chosen_results_are_selected(
    s: Studio,
    next: Studio,
    index: usize,
    percent: Seq<char>,
    r: Response,
    report: SearchReport,
)
    requires
        s.wf(),
        s.result_activated(next, index, percent, r),
        s.search_state == SearchState::Ready(report),
        index < report.hits@.len(),
        s.snapshot is Some,
        s.snapshot->0.nodes.ids@.len() <= usize::MAX,
        s.snapshot->0.edges.ids@.len() <= usize::MAX,
    ensures
        ({
            let nodes = s.snapshot->0.nodes.ids@;
            let edges = s.snapshot->0.edges.ids@;
            match report.hits@[index as int].element {
                ElementRef::Node(id) => {
                    &&& nodes.contains(id) ==> (next.selection matches Some(SceneSelection::Node(i))
                        && nodes[i as int] == id) && next.selected_search_result == index
                    &&& !nodes.contains(id) ==> next.selection == s.selection && r.task is Nothing
                },
                ElementRef::Edge(id) => {
                    &&& edges.contains(id) ==> (next.selection matches Some(SceneSelection::Edge(e))
                        && edges[e as int] == id) && next.selected_search_result == index
                    &&& !edges.contains(id) ==> next.selection == s.selection && r.task is Nothing
                },
            }
        }),
        next.search_state == s.search_state,
        next.snapshot == s.snapshot,
        r.task matches StudioTask::FrameResult(selection) ==> next.selection == Some(selection),
{
    search_laws::law_hits_select_their_element(
        s.snapshot->0,
        report.hits@[index as int].element,
    );
}

/// Choosing a step of a path selects its relationship and frames the two nodes
/// that it leads between.
pub proof fn law_chosen_steps_are_selected(
    s: Studio,
    next: Studio,
    index: usize,
    r: Response,
    report: EvidencePathReport,
)
    requires
        s.wf(),
        s.step_activated(next, index, r),
        s.path_state == PathState::Ready(report),
        report.path is Some,
        index < report.path->0.steps@.len(),
        s.snapshot is Some,
        s.snapshot->0.nodes.ids@.len() <= usize::MAX,
        s.snapshot->0.edges.ids@.len() <= usize::MAX,
    ensures
        ({
            let nodes = s.snapshot->0.nodes.ids@;
            let edges = s.snapshot->0.edges.ids@;
            let step = report.path->0.steps@[index as int];
            &&& edges.contains(step.edge_id) ==> (next.selection matches Some(
                SceneSelection::Edge(e),
            ) && edges[e as int] == step.edge_id)
            &&& !edges.contains(step.edge_id) ==> next.selection == s.selection && r.task is Nothing
            &&& r.task matches StudioTask::FrameStep(a, b) ==> nodes[a as int] == step.from
                && nodes[b as int] == step.to
            &&& edges.contains(step.edge_id) && nodes.contains(step.from) && nodes.contains(step.to)
                ==> r.task is FrameStep
        }),
        next.path_state == s.path_state,
        next.snapshot == s.snapshot,
{
    let scene = s.snapshot->0;
    let step = report.path->0.steps@[index as int];
    studio_laws::law_steps_are_framed_by_their_ends(scene, step.from, step.to);
    if scene.edges.ids@.contains(step.edge_id) {
        let e = scene.edges.ids@.index_of(step.edge_id);
        assert(scene.edges.ids@[e] == step.edge_id);
    }
}

/// A click selects what it hits: a node, a relationship, or nothing. A path
/// that is being drafted goes on. A second click opens the node's context.
pub proof fn law_clicks_select(
    s: Studio,
    next: Studio,
    index: usize,
    edge: Option<usize>,
    x: Seq<char>,
    y: Seq<char>,
    r: Response,
)
    ensures
        s.node_pressed(next, index, 1, r) ==> next.selection == Some(SceneSelection::Node(index))
            && next.path_state == s.path_state && next.search_state == s.search_state
            && r.task is Nothing,
        s.node_pressed(next, index, 2, r) && r.task is FrameContext ==> next.context_focus_active
            && next.selection == Some(SceneSelection::Node(index)) && r.task
            == StudioTask::FrameContext(index),
        s.clicked(next, edge, x, y, r) ==> next.path_state == s.path_state && next.search_state
            == s.search_state && r.task is Nothing && match edge {
            Some(e) => next.selection == Some(SceneSelection::Edge(e)),
            None => next.selection is None,
        },
{
}

/// Acting on the selection traces the drafted path to it, and opens its
/// context where no path is drafted; while the query field has the focus it
/// does nothing.
pub proof fn law_selection_is_acted_on(s: Studio, next: Studio, focused: bool, r: Response)
    requires
        s.wf(),
        s.selection_activated(next, focused, r),
    ensures
        focused ==> next == s && r.task is Nothing,
        !focused && s.path_state is ChoosingEnd && s.database && r.task is Path ==> {
            let draft = s.path_state->ChoosingEnd_0;
            &&& r.task->Path_query.start == draft.start
            &&& r.task->Path_query.direction == draft.direction
            &&& r.task->Path_query.max_hops == draft.max_hops
            &&& s.selection matches Some(SceneSelection::Node(i)) && r.task->Path_query.end
                == s.snapshot->0.nodes.ids@[i as int]
            &&& r.task->Path_query.end != draft.start
        },
        !focused && s.path_state is ChoosingEnd ==> !(r.task is FrameContext),
        !focused && !(s.path_state is ChoosingEnd) && r.task is FrameContext ==> s.selection
            == Some(SceneSelection::Node(r.task->FrameContext_0)),
{
}

/// A traced path leads from the origin of the draft to the node it is traced
/// to, under the bounds of the draft.
pub proof fn law_traces_lead_to_the_node(s: Studio, next: Studio, index: usize, r: Response)
    requires
        s.trace_asked(next, index, r),
        s.database,
        s.snapshot is Some,
        index < s.snapshot->0.nodes.ids@.len(),
        s.path_state is ChoosingEnd,
    ensures
        ({
            let draft = s.path_state->ChoosingEnd_0;
            &&& r.task is Path
            &&& r.task->Path_query.start == draft.start
            &&& r.task->Path_query.end == s.snapshot->0.nodes.ids@[index as int]
            &&& r.task->Path_query.direction == draft.direction
            &&& r.task->Path_query.max_hops == draft.max_hops
            &&& r.task->Path_query.relationship_label is None
        }),
{
}

/// An opened scene is shown without selection, facet or context, in the
/// arrangement that it comes with.
pub proof fn law_opened_scenes_are_shown(s: Studio, next: Studio, scene: SceneSnapshot)
    requires
        s.scene_opened(next, scene),
    ensures
        next.snapshot == Some(scene),
        next.selection is None,
        next.active_facet is None,
        !next.context_focus_active,
        !next.layout_in_progress,
        next.layout_kind == LayoutKind::Auto,
        next.database == s.database,
        next.search_state == s.search_state,
{
}

} // verus!
