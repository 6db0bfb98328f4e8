//! What the actions of the studio are for.

use vstd::prelude::*;
use vstd::string::*;

use crate::digits;
use crate::evidence::EvidencePathReport;
use crate::focus_laws;
use crate::graph::Direction;
use crate::scene::{LayoutKind, SceneSelection, SceneSnapshot};
use crate::search::SearchMode;
use crate::studio;
use crate::studio::{PathDraft, PathState, Response, SearchState, Studio, StudioTask};
use crate::studio_command;
use crate::studio_command::{EvidencePathQuery, FacetView, StudioCommandView};
use crate::text;
use crate::text::Separator;

verus! {

/// A path that is traced from a draft starts at the draft's origin, ends at
/// the chosen node, and keeps the draft's direction and hop limit.
pub proof fn law_drafts_lead_from_their_origin(draft: PathDraft, end: u64)
    ensures
        draft.query_to(end).start == draft.start,
        draft.query_to(end).end == end,
        draft.query_to(end).direction == draft.direction,
        draft.query_to(end).max_hops == draft.max_hops,
        draft.query_to(end).relationship_label is None,
{
}

/// Asking for a path sends the query, as it is, to the open database, under a
/// number that no earlier answer has, and shows that it is under way; without
/// a database it fails and sends nothing.
pub proof fn law_path_queries_are_sent(s: Studio, next: Studio, query: EvidencePathQuery, r: Response)
    requires
        s.path_asked(next, query, r),
    ensures
        s.database ==> {
            &&& r.task matches StudioTask::Path { generation, query: sent } && sent.start
                == query.start && sent.end == query.end && sent.direction == query.direction
                && sent.max_hops == query.max_hops && sent.relationship_label
                == query.relationship_label && generation == next.path_generation
            &&& next.path_state matches PathState::Searching { start, end } && start == query.start
                && end == query.end
        },
        !s.database ==> r.task is Nothing && next.path_state is Failed,
        next.path_generation != s.path_generation,
        next.snapshot == s.snapshot,
        next.selection == s.selection,
        next.search_state is Idle,
        !next.context_focus_active,
        next.active_facet is None,
{
    assert(s.path_generation.wrapping_add(1) != s.path_generation);
}

/// Asking for a search sends the query in its mode to the open database, under
/// a number that no earlier answer has, and leaves every other view; without a
/// database it fails and sends nothing.
pub proof fn law_searches_are_sent(
    s: Studio,
    next: Studio,
    query: Seq<char>,
    mode: SearchMode,
    r: Response,
)
    requires
        s.search_asked(next, query, mode),
        s.search_response(next, query, mode, r),
    ensures
        s.database ==> {
            &&& r.task matches StudioTask::Search { generation, query: sent, mode: m } && sent@
                == query && m == mode && generation == next.search_generation
            &&& next.search_state matches SearchState::Searching { query: q, mode: m } && q@
                == query && m == mode
            &&& next.search_generation != s.search_generation
            &&& next.selected_search_result == 0
        },
        !s.database ==> r.task is Nothing && next.search_state is Failed,
        next.snapshot == s.snapshot,
        next.selection == s.selection,
        next.path_state is Idle,
        next.path_generation != s.path_generation,
        !next.context_focus_active,
        next.active_facet is None,
{
    assert(s.path_generation.wrapping_add(1) != s.path_generation);
    assert(s.search_generation.wrapping_add(1) != s.search_generation);
}

/// The overview leaves every lens, search and path, selects nothing, and keeps
/// the scene and its arrangement. Nothing is under way that could come back.
pub proof fn law_overview_leaves_everything(s: Studio, status: String, r: Response)
    requires
        s.overview_response(r),
    ensures
        ({
            let next = s.overview(status);
            &&& !next.presenting()
            &&& next.selection is None
            &&& next.path_endpoints is None
            &&& next.snapshot == s.snapshot
            &&& next.database == s.database
            &&& next.layout_kind == s.layout_kind
            &&& next.search_mode == s.search_mode
            &&& next.search_generation != s.search_generation
            &&& next.path_generation != s.path_generation
        }),
        r.restore_layout,
        r.return_camera,
        r.task is Nothing,
        r.lens is Some <==> s.snapshot is Some,
{
    assert(s.path_generation.wrapping_add(1) != s.path_generation);
    assert(s.search_generation.wrapping_add(1) != s.search_generation);
}

/// Choosing a facet looks through it, and choosing it again leaves it.
pub proof fn law_facets_are_left_by_choosing_them_again(
    s: Studio,
    on: Studio,
    off: Studio,
    facet: FacetView,
    r: Response,
    again: Response,
)
    requires
        s.snapshot is Some,
        !s.looks_through(facet),
        s.facet_activated(on, facet, r),
        on.facet_activated(off, facet, again),
    ensures
        on.active_facet is Some,
        on.active_facet->0@ == facet,
        on.snapshot == s.snapshot,
        on.selection == s.selection,
        on.path_state is Idle,
        off.active_facet is None,
        !off.presenting(),
        off.snapshot == s.snapshot,
        off.layout_kind == s.layout_kind,
{
}

/// Choosing the origin of a path makes the chosen node the origin and selects
/// it; the direction and the hop limit are those of the draft before, or both
/// ways and six hops.
pub proof fn law_paths_start_at_the_chosen_node(s: Studio, next: Studio, index: usize, r: Response)
    requires
        s.wf(),
        s.start_chosen(next, index, r),
        s.database,
        s.snapshot is Some,
        index < s.snapshot->0.nodes.ids@.len(),
    ensures
        next.path_state matches PathState::ChoosingEnd(draft) && {
            &&& draft.start == s.snapshot->0.nodes.ids@[index as int]
            &&& s.path_state matches PathState::ChoosingEnd(before) ==> draft.direction
                == before.direction && draft.max_hops == before.max_hops
            &&& !(s.path_state is ChoosingEnd) ==> draft.direction == Direction::Both
                && draft.max_hops == 6
        },
        next.selection == Some(SceneSelection::Node(index)),
        next.path_endpoints matches Some(ends) && ends.start == index && ends.end is None,
        next.snapshot == s.snapshot,
        r.task is Nothing,
{
}

/// Changing the direction or the hop limit of a draft changes that and nothing
/// else of it, and a hop limit stays between 1 and 64.
pub proof fn law_drafts_change_one_thing_at_a_time(
    s: Studio,
    next: Studio,
    draft: PathDraft,
    direction: Direction,
    max_hops: usize,
)
    requires
        s.path_state == PathState::ChoosingEnd(draft),
    ensures
        s.direction_set(next, direction) ==> (next.path_state matches PathState::ChoosingEnd(now)
            && now.start == draft.start && now.direction == direction && now.max_hops
            == draft.max_hops),
        s.hops_set(next, max_hops) ==> (next.path_state matches PathState::ChoosingEnd(now)
            && now.start == draft.start && now.direction == draft.direction && now.max_hops == if 1
            <= max_hops <= 64 {
            max_hops
        } else {
            draft.max_hops
        }),
        s.direction_set(next, direction) || s.hops_set(next, max_hops) ==> next.selection
            == s.selection && next.snapshot == s.snapshot,
{
}

/// The destination of a path is the selected node, and never its origin.
pub proof fn law_destinations_are_selected_nodes(s: Studio, start: u64)
    ensures
        match s.destination(start) {
            Some((index, end)) => {
                &&& s.selection == Some(SceneSelection::Node(index))
                &&& s.snapshot is Some
                &&& index < s.snapshot->0.nodes.ids@.len()
                &&& s.snapshot->0.nodes.ids@[index as int] == end
                &&& end != start
            },
            None => s.snapshot is None || match s.selection {
                Some(SceneSelection::Node(index)) => index >= s.snapshot->0.nodes.ids@.len()
                    || s.snapshot->0.nodes.ids@[index as int] == start,
                _ => true,
            },
        },
{
}

/// The ends of a path are marked where its nodes are: the origin at the row of
/// the start and the destination at the row of the end.
pub proof fn law_path_ends_are_marked_in_place(scene: SceneSnapshot, start: u64, end: u64)
    requires
        scene.nodes.ids@.len() <= usize::MAX,
    ensures
        match Studio::endpoints_of(Some(scene), start, end) {
            Some(ends) => {
                &&& ends.start < scene.nodes.ids@.len()
                &&& scene.nodes.ids@[ends.start as int] == start
                &&& ends.end matches Some(e) ==> e < scene.nodes.ids@.len()
                    && scene.nodes.ids@[e as int] == end
                &&& ends.end is None ==> !scene.nodes.ids@.contains(end)
            },
            None => !scene.nodes.ids@.contains(start),
        },
{
    if scene.nodes.ids@.contains(start) {
        let i = scene.nodes.ids@.index_of(start);
        assert(scene.nodes.ids@[i] == start);
    }
    if scene.nodes.ids@.contains(end) {
        let i = scene.nodes.ids@.index_of(end);
        assert(scene.nodes.ids@[i] == end);
    }
}

/// A path that was found is shown: the report is kept, its origin is selected,
/// and the canvas frames it.
pub proof fn law_found_paths_are_shown(
    s: Studio,
    next: Studio,
    report: EvidencePathReport,
    r: Response,
)
    requires
        s.path_done(next, report, r),
    ensures
        next.path_state == PathState::Ready(report),
        next.snapshot == s.snapshot,
        s.snapshot matches Some(scene) ==> {
            &&& r.task is FramePath
            &&& r.lens is Some
            &&& scene.nodes.ids@.contains(report.start.id) && scene.nodes.ids@.len() <= usize::MAX
                ==> (next.selection matches Some(SceneSelection::Node(i)) && scene.nodes.ids@[i as int]
                == report.start.id)
        },
        s.snapshot is None ==> next.selection == s.selection && r.is_nothing(),
{
    if let Some(scene) = s.snapshot {
        if scene.nodes.ids@.contains(report.start.id) {
            let i = scene.nodes.ids@.index_of(report.start.id);
            assert(scene.nodes.ids@[i] == report.start.id);
        }
    }
}

/// A step of a path is framed by the rows of the nodes that it leads from and
/// to.
pub proof fn law_steps_are_framed_by_their_ends(scene: SceneSnapshot, from: u64, to: u64)
    requires
        scene.nodes.ids@.len() <= usize::MAX,
    ensures
        match studio::step_ends(scene, from, to) {
            Some((a, b)) => scene.nodes.ids@[a as int] == from && scene.nodes.ids@[b as int] == to
                && a < scene.nodes.ids@.len() && b < scene.nodes.ids@.len(),
            None => !scene.nodes.ids@.contains(from) || !scene.nodes.ids@.contains(to),
        },
{
    law_path_ends_are_marked_in_place(scene, from, to);
    law_path_ends_are_marked_in_place(scene, to, from);
}

/// Showing a context selects its centre, frames it, and leaves facets and
/// paths.
pub proof fn law_contexts_are_centred(s: Studio, next: Studio, index: usize, r: Response)
    requires
        s.context_shown(next, index, r),
    ensures
        next.path_state is Idle,
        next.path_endpoints is None,
        next.snapshot == s.snapshot,
        next.path_generation != s.path_generation,
        next.context_focus_active && !s.context_focus_active ==> {
            &&& next.selection == Some(SceneSelection::Node(index))
            &&& next.active_facet is None
            &&& r.task matches StudioTask::FrameContext(i) && i == index
            &&& r.lens is Some
        },
        s.snapshot is Some && index < s.snapshot->0.nodes.ids@.len() ==> next.context_focus_active
            && next.selection == Some(SceneSelection::Node(index)),
{
    assert(s.path_generation.wrapping_add(1) != s.path_generation);
}

/// Selecting by id selects the element of that id, in the column that it is
/// asked for, and nothing where the scene lacks it.
pub proof fn law_elements_are_selected_by_id(s: Studio, next: Studio, id: u64, r: Response)
    requires
        s.snapshot is Some,
        s.snapshot->0.nodes.ids@.len() <= usize::MAX,
        s.snapshot->0.edges.ids@.len() <= usize::MAX,
    ensures
        s.node_selected(next, id, r) ==> match next.selection {
            Some(SceneSelection::Node(i)) => s.snapshot->0.nodes.ids@[i as int] == id && i
                < s.snapshot->0.nodes.ids@.len(),
            Some(SceneSelection::Edge(_)) => false,
            None => !s.snapshot->0.nodes.ids@.contains(id),
        },
        s.edge_selected(next, id, r) ==> match next.selection {
            Some(SceneSelection::Edge(i)) => s.snapshot->0.edges.ids@[i as int] == id && i
                < s.snapshot->0.edges.ids@.len(),
            Some(SceneSelection::Node(_)) => false,
            None => !s.snapshot->0.edges.ids@.contains(id),
        },
        s.node_centered(next, id, r) ==> match r.task {
            StudioTask::Center(i) => i < s.snapshot->0.nodes.ids@.len()
                && s.snapshot->0.nodes.ids@[i as int] == id && next.selection == Some(
                SceneSelection::Node(i),
            ),
            _ => !s.snapshot->0.nodes.ids@.contains(id) && next.selection == s.selection,
        },
        s.node_selected(next, id, r) || s.edge_selected(next, id, r) || s.node_centered(next, id, r)
            ==> next.snapshot == s.snapshot,
{
    let scene = s.snapshot->0;
    if scene.nodes.ids@.contains(id) {
        let i = scene.nodes.ids@.index_of(id);
        assert(scene.nodes.ids@[i] == id);
    }
    if scene.edges.ids@.contains(id) {
        let i = scene.edges.ids@.index_of(id);
        assert(scene.edges.ids@[i] == id);
    }
}

/// Asking for an arrangement asks for that arrangement, under a number that no
/// earlier answer has, and changes nothing else that is shown.
pub proof fn law_arrangements_are_asked_for(s: Studio, next: Studio, kind: LayoutKind, r: Response)
    requires
        s.snapshot is Some,
        s.arrangement_asked(next, kind, r),
    ensures
        r.task matches StudioTask::Arrange { generation, kind: k } && k == kind && generation
            == next.layout_generation,
        next.layout_generation != s.layout_generation,
        next.layout_in_progress,
        next.layout_kind == s.layout_kind,
        next.selection == s.selection,
        next.snapshot == s.snapshot,
{
    assert(s.layout_generation.wrapping_add(1) != s.layout_generation);
}

/// Moving the mark moves it by that many results, and stops at the first and
/// the last.
pub proof fn law_marks_move_by_results(selected: usize, delta: int, hits: nat)
    requires
        hits > 0,
    ensures
        0 <= selected + delta < hits ==> Studio::moved_result(selected, delta, hits) == selected
            + delta,
        selected + delta < 0 ==> Studio::moved_result(selected, delta, hits) == 0,
        selected + delta >= hits ==> Studio::moved_result(selected, delta, hits) == hits - 1,
{
}

/// Which direction a word asks for.
pub open spec fn asks_direction(word: Seq<char>, direction: Direction) -> bool {
    match direction {
        Direction::Both => word == "both"@,
        Direction::Outgoing => word == "out"@ || word == "outgoing"@,
        Direction::Incoming => word == "in"@ || word == "incoming"@,
    }
}

/// The words that start a command.
pub open spec fn is_command_word(word: Seq<char>) -> bool {
    ||| word == "fit"@
    ||| word == "zoom"@
    ||| word == "clear"@
    ||| word == "release"@
    ||| word == "layout"@
    ||| word == "node"@
    ||| word == "center"@
    ||| word == "focus"@
    ||| word == "context"@
    ||| word == "edge"@
    ||| word == "relationship"@
    ||| word == "path-start"@
    ||| word == "path"@
    ||| word == "facet"@
    ||| word == "lens"@
    ||| word == "text"@
    ||| word == "semantic"@
    ||| word == "hybrid"@
    ||| word == "search"@
}

/// Whether the word at that place is the number.
pub open spec fn names(words: Seq<Seq<char>>, i: int, id: u64) -> bool {
    i < words.len() && digits::u64_value(words[i]) == Some(id)
}

/// Whether a path command lacks an end, or has a direction, a hop limit or a
/// word that it cannot have.
pub open spec fn misses_path(words: Seq<Seq<char>>, ends: int, most: int) -> bool {
    ||| words.len() <= ends
    ||| exists|i: int| 1 <= i <= ends && digits::u64_value(#[trigger] words[i]) is None
    ||| words.len() > ends + 1 && forall|d: Direction| !#[trigger] asks_direction(words[ends + 1], d)
    ||| words.len() > most
    ||| words.len() == most && (digits::usize_value(words[most - 1]) is None || digits::usize_value(
        words[most - 1],
    )->0 > 64 || digits::usize_value(words[most - 1])->0 == 0)
}

/// A line of the query field is the command that its first word names, with
/// the arguments that stand behind it in order; any other line searches for
/// itself.
pub proof fn law_lines_mean_what_they_say(query: Seq<char>)
    ensures
        ({
            let words = text::nonempty_pieces(query, Separator::Whitespace);
            match studio_command::command_of(query) {
                StudioCommandView::Nothing => words.len() == 0,
                StudioCommandView::Fit => words.len() > 0 && words[0] == "fit"@,
                StudioCommandView::Zoom(value) => words.len() > 0 && words[0] == "zoom"@ && (
                value is Some <==> words.len() > 1) && (value is Some ==> value->0 == words[1]),
                StudioCommandView::Clear => words.len() > 0 && words[0] == "clear"@,
                StudioCommandView::Release => words.len() > 0 && words[0] == "release"@,
                StudioCommandView::Arrange(kind) => words.len() > 1 && words[0] == "layout"@
                    && words[1] == match kind {
                    LayoutKind::Auto => "auto"@,
                    LayoutKind::Force => "force"@,
                    LayoutKind::Structure => "structure"@,
                    LayoutKind::Orbit => "orbit"@,
                },
                StudioCommandView::SelectNode(id) => words.len() > 0 && words[0] == "node"@
                    && names(words, 1, id),
                StudioCommandView::CenterNode(id) => words.len() > 0 && words[0] == "center"@
                    && names(words, 1, id),
                StudioCommandView::FocusNode(id) => words.len() > 0 && (words[0] == "focus"@
                    || words[0] == "context"@) && names(words, 1, id),
                StudioCommandView::SelectEdge(id) => words.len() > 0 && (words[0] == "edge"@
                    || words[0] == "relationship"@) && names(words, 1, id),
                StudioCommandView::PathStart { start, direction, max_hops } => {
                    &&& words[0] == "path-start"@
                    &&& names(words, 1, start)
                    &&& words.len() > 2 ==> asks_direction(words[2], direction)
                    &&& words.len() == 2 ==> direction == Direction::Both
                    &&& words.len() > 3 ==> digits::usize_value(words[3]) == Some(max_hops)
                    &&& words.len() <= 3 ==> max_hops == 6
                    &&& 2 <= words.len() <= 4
                },
                StudioCommandView::Path(path) => {
                    &&& words[0] == "path"@
                    &&& names(words, 1, path.start)
                    &&& names(words, 2, path.end)
                    &&& words.len() > 3 ==> asks_direction(words[3], path.direction)
                    &&& words.len() == 3 ==> path.direction == Direction::Both
                    &&& path.relationship_label is Some <==> words.len() > 4 && words[4] != "-"@
                    &&& path.relationship_label matches Some(label) ==> label == words[4]
                    &&& words.len() > 5 ==> digits::usize_value(words[5]) == Some(path.max_hops)
                    &&& words.len() <= 5 ==> path.max_hops == 6
                    &&& 3 <= words.len() <= 6
                },
                StudioCommandView::Facet(facet) => {
                    &&& words.len() > 2
                    &&& words[0] == "facet"@ || words[0] == "lens"@
                    &&& match facet {
                        FacetView::NodeLabel(label) => (words[1] == "node"@ || words[1] == "label"@)
                            && label == text::joined(words.skip(2), " "@),
                        FacetView::Relationship(label) => (words[1] == "edge"@ || words[1]
                            == "relationship"@) && label == text::joined(words.skip(2), " "@),
                    }
                },
                StudioCommandView::Search(mode, sought) => {
                    &&& words.len() > 0
                    &&& match mode {
                        SearchMode::Text => words[0] == "text"@,
                        SearchMode::Semantic => words[0] == "semantic"@,
                        SearchMode::Hybrid => words[0] == "hybrid"@ || words[0] == "search"@,
                    }
                    &&& sought == text::joined(words.skip(1), " "@)
                },
                StudioCommandView::SearchText(sought) => words.len() > 0 && !is_command_word(
                    words[0],
                ) && sought == query,
                StudioCommandView::Explain(_) => words.len() > 0 && {
                    ||| words[0] == "layout"@ && (words.len() == 1 || (words[1] != "auto"@
                        && words[1] != "force"@ && words[1] != "structure"@ && words[1]
                        != "orbit"@))
                    ||| (words[0] == "node"@ || words[0] == "center"@ || words[0] == "focus"@
                        || words[0] == "context"@ || words[0] == "edge"@ || words[0]
                        == "relationship"@) && (words.len() == 1 || digits::u64_value(
                        words[1],
                    ) is None)
                    ||| words[0] == "path-start"@ && misses_path(words, 1, 4)
                    ||| words[0] == "path"@ && misses_path(words, 2, 6)
                    ||| (words[0] == "facet"@ || words[0] == "lens"@) && (words.len() <= 2 || (
                    words[1] != "node"@ && words[1] != "label"@ && words[1] != "edge"@ && words[1]
                        != "relationship"@) || text::joined(words.skip(2), " "@).len() == 0)
                },
            }
        }),
{
    let words = text::nonempty_pieces(query, Separator::Whitespace);
    if words.len() == 2 {
        assert(words.skip(2) =~= Seq::<Seq<char>>::empty());
    }
    if words.len() > 3 {
        lemma_direction(words, 3);
    }
    if words.len() > 2 {
        lemma_direction(words, 2);
    }
    if words.len() > 1 && digits::u64_value(words[1]) is None {
        assert(digits::u64_value(words[1]) is None);
    }
    if words.len() > 2 && digits::u64_value(words[2]) is None {
        assert(digits::u64_value(words[2]) is None);
    }
}

proof fn lemma_direction(words: Seq<Seq<char>>, i: int)
    requires
        0 <= i < words.len(),
    ensures
        match studio_command::direction_word(words, i) {
            Some(direction) => asks_direction(words[i], direction),
            None => forall|d: Direction| !#[trigger] asks_direction(words[i], d),
        },
{
}

/// A command does what it names: it selects, centres or opens the element of
/// its id, asks for its arrangement, drafts or traces its path, looks through
/// its facet, or searches for its text in its mode.
pub proof fn law_commands_take_effect(
    s: Studio,
    next: Studio,
    command: StudioCommandView,
    pinned: bool,
    r: Response,
)
    requires
        s.wf(),
        s.command_done(next, command, pinned, r),
        s.snapshot is Some,
        s.snapshot->0.nodes.ids@.len() <= usize::MAX,
        s.snapshot->0.edges.ids@.len() <= usize::MAX,
    ensures
        ({
            let nodes = s.snapshot->0.nodes.ids@;
            let edges = s.snapshot->0.edges.ids@;
            match command {
                StudioCommandView::Nothing => next == s && r.task is Nothing,
                StudioCommandView::Explain(line) => next.status@ == line && next.selection
                    == s.selection && r.task is Nothing,
                StudioCommandView::Fit => next == s && r.task is Fit,
                StudioCommandView::Zoom(value) => next == s && (r.task matches StudioTask::Zoom(z)
                    && (z is Some <==> value is Some) && (z is Some ==> z->0@ == value->0)),
                StudioCommandView::Clear => next.selection is None && r.task is Nothing
                    && next.search_state == s.search_state && next.path_state == s.path_state,
                StudioCommandView::Release => {
                    &&& next.selection == s.selection
                    &&& pinned && s.selection is Some && s.selection->0 is Node ==> r.task
                        == StudioTask::Release(s.selection->0->Node_0)
                    &&& !pinned ==> r.task is Nothing && next.status@ == s.status@
                },
                StudioCommandView::Arrange(kind) => r.task matches StudioTask::Arrange {
                    generation,
                    kind: asked,
                } && asked == kind && generation == next.layout_generation,
                StudioCommandView::SelectNode(id) => {
                    &&& r.task is Nothing
                    &&& nodes.contains(id) ==> next.selection is Some && (
                    next.selection->0 matches SceneSelection::Node(i) && nodes[i as int] == id)
                    &&& !nodes.contains(id) ==> next.selection is None
                },
                StudioCommandView::CenterNode(id) => {
                    &&& nodes.contains(id) ==> (r.task matches StudioTask::Center(i)
                        && nodes[i as int] == id)
                    &&& !nodes.contains(id) ==> r.task is Nothing && next.selection == s.selection
                },
                StudioCommandView::FocusNode(id) => {
                    &&& r.task matches StudioTask::FrameContext(i) ==> nodes[i as int] == id
                        && next.context_focus_active
                    &&& !nodes.contains(id) ==> r.task is Nothing && next.context_focus_active
                        == s.context_focus_active
                    &&& r.task is FrameContext || r.task is Nothing
                },
                StudioCommandView::SelectEdge(id) => {
                    &&& r.task is Nothing
                    &&& edges.contains(id) ==> next.selection is Some && (
                    next.selection->0 matches SceneSelection::Edge(e) && edges[e as int] == id)
                    &&& !edges.contains(id) ==> next.selection is None
                },
                StudioCommandView::PathStart { start, direction, max_hops } => s.database
                    && nodes.contains(start) && 1 <= max_hops <= 64 ==> (
                next.path_state matches PathState::ChoosingEnd(draft) && draft.start == start
                    && draft.direction == direction && draft.max_hops == max_hops),
                StudioCommandView::Path(query) => s.database ==> {
                    &&& next.path_state == (PathState::Searching {
                        start: query.start,
                        end: query.end,
                    })
                    &&& r.task is Path
                    &&& r.task->Path_query@ == query
                    &&& r.task->Path_generation == next.path_generation
                },
                StudioCommandView::Facet(facet) => {
                    let shown = match facet {
                        FacetView::NodeLabel(label) => exists|i: int|
                            0 <= i < s.node_label_counts@.len() && (
                            #[trigger] s.node_label_counts@[i]).0@ == label,
                        FacetView::Relationship(label) => exists|i: int|
                            0 <= i < s.relationship_counts@.len() && (
                            #[trigger] s.relationship_counts@[i]).0@ == label,
                    };
                    &&& shown && !s.looks_through(facet) ==> next.looks_through(facet)
                    &&& shown && s.looks_through(facet) ==> next.active_facet is None
                    &&& !shown ==> next.active_facet == s.active_facet
                },
                StudioCommandView::Search(mode, query) => {
                    &&& next.search_mode == mode
                    &&& s.database ==> (next.search_state matches SearchState::Searching {
                        query: q,
                        mode: m,
                    } && q@ == query && m == mode) && r.task is Search && r.task->Search_query@
                        == query && r.task->Search_mode == mode
                },
                StudioCommandView::SearchText(query) => {
                    &&& next.search_mode == s.search_mode
                    &&& s.database ==> r.task is Search && r.task->Search_query@ == query
                        && r.task->Search_mode == s.search_mode
                },
            }
        }),
{
    let scene = s.snapshot->0;
    match command {
        StudioCommandView::SelectNode(id) => {
            law_elements_are_selected_by_id(s, next, id, r);
        },
        StudioCommandView::CenterNode(id) => {
            law_elements_are_selected_by_id(s, next, id, r);
        },
        StudioCommandView::SelectEdge(id) => {
            law_elements_are_selected_by_id(s, next, id, r);
        },
        StudioCommandView::FocusNode(id) => {
            if scene.nodes.ids@.contains(id) {
                let i = scene.nodes.ids@.index_of(id);
                assert(scene.nodes.ids@[i] == id);
            }
        },
        StudioCommandView::PathStart { start, direction, max_hops } => {
            if scene.nodes.ids@.contains(start) {
                let i = scene.nodes.ids@.index_of(start);
                assert(scene.nodes.ids@[i] == start);
            }
        },
        _ => {},
    }
}

/// The context of a node reaches two hops and keeps within 112 nodes and 168
/// relationships, and it is there exactly where the node is.
pub proof fn law_node_contexts_reach_two_hops(scene: SceneSnapshot, index: usize)
    requires
        scene.wf(),
        scene.focusable(),
        scene.nodes.ids@.len() <= usize::MAX,
        scene.edges.ids@.len() <= usize::MAX,
    ensures
        Studio::node_context(scene, index) == scene.focus(SceneSelection::Node(index), 2, 112, 168),
        Studio::node_context(scene, index) is Some <==> index < scene.nodes.ids@.len(),
        Studio::node_context(scene, index) matches Some(context) ==> {
            &&& context.roots == seq![index]
            &&& context.layers.len() <= 3
            &&& context.nodes.len() <= 112
            &&& context.edges.len() <= 168
        },
{
    let selection = SceneSelection::Node(index);
    focus_laws::law_focus_is_bounded_and_connected(scene, selection, 2, 112, 168);
    focus_laws::law_contexts_stay_within_their_depth(scene, selection, 2, 112, 168);
    focus_laws::law_contexts_grow_from_the_selection(scene, index);
}

} // verus!
