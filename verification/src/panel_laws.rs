//! What the panels around the canvas tell.

use vstd::prelude::*;
use vstd::string::*;

use crate::digits;
use crate::evidence::{
    EvidenceNode, EvidencePathReport, EvidencePathStrategy, EvidencePathTermination, EvidenceStep,
};
use crate::graph::{Direction, ElementRef, ValueView};
use crate::inspector;
use crate::inspector::Inspector;
use crate::panels;
use crate::panels::{FacetSection, LeftPanel};
use crate::path_panel;
use crate::path_panel::{ChoosingPanel, PathBodyView, PathPanel, ReadyPanel};
use crate::scene::{LayoutKind, SceneProperty, SceneSelection, SceneSnapshot};
use crate::search;
use crate::search::{SearchHit, SearchMode};
use crate::search_panel;
use crate::search_panel::{ReadySearch, SearchPanel};
use crate::status_bar;
use crate::studio;
use crate::studio::{PathDraft, PathState, SearchState, Studio};
use crate::toolbar;
use crate::toolbar::{ControlPlace, Toolbar};

verus! {

proof fn lemma_naming(properties: Seq<SceneProperty>, from: int)
    requires
        0 <= from <= properties.len(),
    ensures
        match path_panel::naming_property(properties, from) {
            Some(k) => {
                &&& from <= k < properties.len()
                &&& path_panel::names_element(properties[k].key@)
                &&& forall|j: int|
                    from <= j < k ==> !path_panel::names_element((#[trigger] properties[j]).key@)
            },
            None => forall|j: int|
                from <= j < properties.len() ==> !path_panel::names_element(
                    (#[trigger] properties[j]).key@,
                ),
        },
    decreases properties.len() - from,
{
    if from < properties.len() {
        lemma_naming(properties, from + 1);
    }
}

/// Whether a property gives a name: a title, a name, a headline, a path, a tag
/// or a login.
pub open spec fn names(key: Seq<char>) -> bool {
    ||| key == "title"@
    ||| key == "name"@
    ||| key == "headline"@
    ||| key == "path"@
    ||| key == "tag_name"@
    ||| key == "login"@
}

/// A node is titled by the first of its properties that gives a name, and by
/// its label where there is none or it holds no text.
pub proof fn law_nodes_are_titled_by_their_name(s: SceneSnapshot, index: int, k: int)
    requires
        0 <= k < s.nodes.properties@[index]@.len(),
    ensures
        ({
            let properties = s.nodes.properties@[index]@;
            let first = names(properties[k].key@) && forall|j: int|
                0 <= j < k ==> !names((#[trigger] properties[j]).key@);
            let none = forall|j: int|
                0 <= j < properties.len() ==> !names((#[trigger] properties[j]).key@);
            &&& first && (properties[k].value@ matches ValueView::Text(name) && name.len() > 0)
                ==> properties[k].value@ == ValueView::Text(path_panel::node_title(s, index))
            &&& first && !(properties[k].value@ is Text) ==> path_panel::node_title(s, index)
                == s.nodes.labels@[index]@
            &&& none ==> path_panel::node_title(s, index) == s.nodes.labels@[index]@
        }),
{
    let properties = s.nodes.properties@[index]@;
    lemma_naming(properties, 0);
    assert forall|j: int| 0 <= j < properties.len() implies names((#[trigger] properties[j]).key@)
        == path_panel::names_element(properties[j].key@) by {}
    match path_panel::naming_property(properties, 0) {
        Some(m) => {
            assert(names(properties[m].key@));
            if names(properties[k].key@) && forall|j: int|
                0 <= j < k ==> !names((#[trigger] properties[j]).key@) {
                if m < k {
                    assert(!names(properties[m].key@));
                } else if k < m {
                    assert(!path_panel::names_element(properties[k].key@));
                }
                assert(m == k);
            }
        },
        None => {
            assert(!names(properties[k].key@));
        },
    }
}

/// A step is shown under its number, with the nodes that it leads from and to,
/// whether it follows the stored direction, and its own title; it is marked
/// where its relationship is the selected one.
pub proof fn law_steps_are_shown_as_walked(studio: Studio, steps: Seq<EvidenceStep>, i: int)
    requires
        0 <= i < steps.len(),
    ensures
        ({
            let rows = path_panel::step_rows(studio, steps);
            let row = rows[i];
            &&& rows.len() == steps.len()
            &&& row.title == steps[i].title@
            &&& row.number == digits::padded((i + 1) as nat, 2)
            &&& ("node:"@ + digits::decimal(steps[i].from as nat) + " → node:"@ + digits::decimal(
                steps[i].to as nat,
            )).is_prefix_of(row.route)
            &&& steps[i].forward ==> "stored direction"@.is_suffix_of(row.route)
            &&& !steps[i].forward ==> "reverse traversal"@.is_suffix_of(row.route)
            &&& studio.selection is Some && studio.snapshot is Some
                && studio.snapshot->0.edges.ids@.len() <= usize::MAX ==> (row.selected <==> (
            studio.selection matches Some(SceneSelection::Edge(e))
                && studio.snapshot->0.edges.ids@.contains(steps[i].edge_id)
                && studio.snapshot->0.edges.ids@.index_of(steps[i].edge_id) == e))
        }),
{
    let row = path_panel::step_rows(studio, steps)[i];
    let head = "node:"@ + digits::decimal(steps[i].from as nat) + " → node:"@ + digits::decimal(
        steps[i].to as nat,
    );
    let tail = path_panel::orientation_text(steps[i].forward);
    assert(row.route =~= head + (" · "@ + tail));
    assert(row.route.subrange(0, head.len() as int) =~= head);
    assert(row.route.subrange(row.route.len() - tail.len(), row.route.len() as int) =~= tail);
    if let Some(s) = studio.snapshot {
        if s.edges.ids@.contains(steps[i].edge_id) {
            let e = s.edges.ids@.index_of(steps[i].edge_id);
            assert(s.edges.ids@[e] == steps[i].edge_id);
        }
    }
}

proof fn lemma_nodes_in_view(s: SceneSnapshot, nodes: Seq<EvidenceNode>)
    ensures
        path_panel::nodes_in_view(s, nodes) <= nodes.len(),
        path_panel::nodes_in_view(s, nodes) == nodes.len() <==> forall|i: int|
            0 <= i < nodes.len() ==> s.nodes.ids@.contains((#[trigger] nodes[i]).id),
    decreases nodes.len(),
{
    if nodes.len() > 0 {
        let rest = nodes.drop_last();
        lemma_nodes_in_view(s, rest);
        if forall|i: int| 0 <= i < nodes.len() ==> s.nodes.ids@.contains((#[trigger] nodes[i]).id) {
            assert forall|i: int| 0 <= i < rest.len() implies s.nodes.ids@.contains(
                (#[trigger] rest[i]).id,
            ) by {
                assert(nodes[i] == rest[i]);
            }
            assert(s.nodes.ids@.contains(nodes[nodes.len() - 1].id));
        }
        if path_panel::nodes_in_view(s, nodes) == nodes.len() {
            assert forall|i: int| 0 <= i < nodes.len() implies s.nodes.ids@.contains(
                (#[trigger] nodes[i]).id,
            ) by {
                if i < rest.len() {
                    assert(s.nodes.ids@.contains(rest[i].id));
                }
            }
        }
    }
}

proof fn lemma_steps_in_view(s: SceneSnapshot, steps: Seq<EvidenceStep>)
    ensures
        path_panel::steps_in_view(s, steps) <= steps.len(),
        path_panel::steps_in_view(s, steps) == steps.len() <==> forall|i: int|
            0 <= i < steps.len() ==> s.edges.ids@.contains((#[trigger] steps[i]).edge_id),
    decreases steps.len(),
{
    if steps.len() > 0 {
        let rest = steps.drop_last();
        lemma_steps_in_view(s, rest);
        if forall|i: int|
            0 <= i < steps.len() ==> s.edges.ids@.contains((#[trigger] steps[i]).edge_id) {
            assert forall|i: int| 0 <= i < rest.len() implies s.edges.ids@.contains(
                (#[trigger] rest[i]).edge_id,
            ) by {
                assert(steps[i] == rest[i]);
            }
            assert(s.edges.ids@.contains(steps[steps.len() - 1].edge_id));
        }
        if path_panel::steps_in_view(s, steps) == steps.len() {
            assert forall|i: int| 0 <= i < steps.len() implies s.edges.ids@.contains(
                (#[trigger] steps[i]).edge_id,
            ) by {
                if i < rest.len() {
                    assert(s.edges.ids@.contains(rest[i].edge_id));
                }
            }
        }
    }
}

/// A path is said to be shown in part exactly where the scene lacks one of its
/// nodes or relationships.
pub proof fn law_partial_paths_say_so(s: SceneSnapshot, report: EvidencePathReport)
    requires
        report.path is Some,
    ensures
        path_panel::partial_notice(Some(s), report) is None <==> (forall|i: int|
            0 <= i < report.path->0.nodes@.len() ==> s.nodes.ids@.contains(
                (#[trigger] report.path->0.nodes@[i]).id,
            )) && (forall|i: int|
            0 <= i < report.path->0.steps@.len() ==> s.edges.ids@.contains(
                (#[trigger] report.path->0.steps@[i]).edge_id,
            )),
{
    lemma_nodes_in_view(s, report.path->0.nodes@);
    lemma_steps_in_view(s, report.path->0.steps@);
}

/// An ended path search is shown with its origin first and its destination
/// last, with the work done from each, and with its steps in order. That there
/// is no path is told from a search that was not completed.
pub proof fn law_ended_searches_are_shown(
    studio: Studio,
    report: EvidencePathReport,
    panel: ReadyPanel,
)
    requires
        path_panel::ready_shows(studio, report, panel),
    ensures
        panel.start.role@ == "FROM"@,
        panel.end.role@ == "TO"@,
        ("node:"@ + digits::decimal(report.start.id as nat)).is_prefix_of(panel.start.line@),
        ("node:"@ + digits::decimal(report.end.id as nat)).is_prefix_of(panel.end.line@),
        panel.start.title@ == report.start.title@,
        panel.end.title@ == report.end.title@,
        digits::counted(report.start_expanded_nodes as nat).is_prefix_of(panel.plan.from@),
        digits::counted(report.end_expanded_nodes as nat).is_prefix_of(panel.plan.to@),
        panel.plan.visited@ == digits::counted(report.visited_nodes as nat),
        panel.plan.reads@ == digits::counted(report.examined_relationships as nat),
        panel.outcome@ == match report.termination {
            EvidencePathTermination::Found => "EXACT"@,
            EvidencePathTermination::NotFoundWithinHops => "NO PATH"@,
            EvidencePathTermination::ExpansionLimit => "INCOMPLETE"@,
        },
        report.path matches Some(path) ==> {
            &&& path.steps@.len() == 0 ==> panel.body@ is Identity
            &&& path.steps@.len() > 0 ==> (panel.body@ matches PathBodyView::Steps(rows)
                && rows.len() == path.steps@.len())
        },
        report.path is None ==> (panel.body@ matches PathBodyView::Absent { title, detail, warn }
            && (warn <==> report.termination == EvidencePathTermination::ExpansionLimit)),
        report.relationship_label is Some <==> panel.relationship is Some,
{
    let a = "node:"@ + digits::decimal(report.start.id as nat);
    let b = "node:"@ + digits::decimal(report.end.id as nat);
    assert(panel.start@.line =~= a + (" · "@ + report.start.label@));
    assert(panel.end@.line =~= b + (" · "@ + report.end.label@));
    assert(panel.start.line@.subrange(0, a.len() as int) =~= a);
    assert(panel.end.line@.subrange(0, b.len() as int) =~= b);
    let c = digits::counted(report.start_expanded_nodes as nat);
    let d = digits::counted(report.end_expanded_nodes as nat);
    assert(panel.plan@.from.subrange(0, c.len() as int) =~= c);
    assert(panel.plan@.to.subrange(0, d.len() as int) =~= d);
}

/// While a path is drafted its origin is shown, and the selected node as its
/// destination unless it is the origin itself; the chosen hop limit is marked.
pub proof fn law_drafts_are_shown(studio: Studio, draft: PathDraft, panel: ChoosingPanel)
    requires
        studio.wf(),
        path_panel::choosing_shows(studio, draft, panel),
    ensures
        panel.origin matches Some(card) ==> card.role@ == "FROM"@ && ("node:"@ + digits::decimal(
            draft.start as nat,
        )).is_prefix_of(card.line@),
        panel.destination matches Some((index, card)) ==> {
            &&& studio.selection == Some(SceneSelection::Node(index))
            &&& studio.snapshot->0.nodes.ids@[index as int] != draft.start
            &&& card.role@ == "TO"@
            &&& ("node:"@ + digits::decimal(
                studio.snapshot->0.nodes.ids@[index as int] as nat,
            )).is_prefix_of(card.line@)
        },
        studio.snapshot matches Some(s) && studio.selection matches Some(SceneSelection::Node(i))
            && s.nodes.ids@[i as int] != draft.start ==> panel.destination is Some,
        forall|k: int|
            0 <= k < panel.hops@.len() ==> ((#[trigger] panel.hops@[k]).1 <==> panel.hops@[k].0
                == draft.max_hops),
        panel.direction@ == match draft.direction {
            Direction::Outgoing => "FROM ORIGIN"@,
            Direction::Incoming => "TO ORIGIN"@,
            Direction::Both => "EITHER WAY"@,
        },
{
    if let Some(card) = panel.origin {
        let a = "node:"@ + digits::decimal(draft.start as nat);
        assert(card@.line.subrange(0, a.len() as int) =~= a);
    }
    if let Some((index, card)) = panel.destination {
        let b = "node:"@ + digits::decimal(studio.snapshot->0.nodes.ids@[index as int] as nat);
        assert(card@.line.subrange(0, b.len() as int) =~= b);
    }
}

/// The path panel follows the path: nothing, a draft, a search, a failure or
/// an answer.
pub proof fn law_path_panel_follows_the_path(studio: Studio, panel: PathPanel)
    requires
        studio.path_panel_shows(panel),
    ensures
        panel is Empty <==> studio.path_state is Idle,
        panel is Choosing <==> studio.path_state is ChoosingEnd,
        panel is Searching <==> studio.path_state is Searching,
        panel is Failed <==> studio.path_state is Failed,
        panel is Ready <==> studio.path_state is Ready,
        studio.path_state matches PathState::Searching { start, end } ==> ("node:"@
            + digits::decimal(start as nat)).is_prefix_of(panel->Searching_route@) && (
        digits::decimal(end as nat)).is_suffix_of(panel->Searching_route@),
        studio.path_state matches PathState::Failed { start, end, error } ==> panel->error@
            == error@,
{
    if let PathState::Searching { start, end } = studio.path_state {
        let a = "node:"@ + digits::decimal(start as nat);
        let z = digits::decimal(end as nat);
        let route = panel->Searching_route@;
        assert(route.subrange(0, a.len() as int) =~= a);
        assert(route.subrange(route.len() - z.len(), route.len() as int) =~= z);
    }
}

/// A section of facets lists labels that occur, each with its count, and marks
/// the one that is looked through.
pub proof fn law_facets_are_listed(
    section: FacetSection,
    title: Seq<char>,
    counts: Seq<(Seq<char>, usize)>,
    active: Option<Seq<char>>,
    i: int,
)
    requires
        section.shows(title, counts, active),
        0 <= i < section.rows@.len(),
    ensures
        exists|k: int|
            0 <= k < counts.len() && (#[trigger] counts[k]).0 == section.rows@[i].label@ && (
            !section.rows@[i].active ==> section.rows@[i].mark@ == digits::counted(
                counts[k].1 as nat,
            )),
        section.rows@[i].active <==> active == Some(section.rows@[i].label@),
        counts.len() <= 10 ==> section.rows@.len() == counts.len(),
        section.rows@.len() <= 10,
{
    let shown = panels::shown_counts(counts, active);
    let rows = panels::rows_view(section.rows@);
    assert(rows.len() == shown.len());
    assert(rows[i] == section.rows@[i]@);
    assert(rows[i] == panels::facet_row(shown[i], active));
    if let Some(label) = active {
        panels::law_active_facet_is_shown(counts, label);
    } else {
        panels::law_active_facet_is_shown(counts, ""@);
    }
    let first = panels::first_ten(counts);
    assert(exists|k: int| 0 <= k < counts.len() && counts[k] == shown[i]) by {
        if active is Some && panels::label_place(counts, active->0, 0) is Some
            && panels::label_place(counts, active->0, 0)->0 >= first.len() {
            let at = panels::label_place(counts, active->0, 0)->0;
            if i == 0 {
                assert(counts[at] == shown[i]);
            } else {
                assert(counts[i - 1] == shown[i]);
            }
        } else {
            assert(counts[i] == shown[i]);
        }
    }
    let k = choose|k: int| 0 <= k < counts.len() && counts[k] == shown[i];
    assert(counts[k].0 == section.rows@[i].label@);
}

/// The left panel shows results while there is a search, the path while there
/// is one, and the facets where there is neither: those of the relationships
/// and those of the nodes, each with what is looked through among them.
pub proof fn law_left_panel_follows_the_view(studio: Studio, panel: LeftPanel)
    requires
        studio.left_panel_shows(panel),
    ensures
        panel.search <==> !(studio.search_state is Idle),
        panel.path <==> !(studio.path_state is Idle),
        panel.facets is Some <==> studio.search_state is Idle && studio.path_state is Idle,
        panel.tab is Some <==> studio.presenting(),
        panel.facets matches Some((relationships, nodes)) ==> {
            &&& relationships.rows@.len() <= studio.relationship_counts@.len()
            &&& nodes.rows@.len() <= studio.node_label_counts@.len()
            &&& forall|i: int|
                0 <= i < relationships.rows@.len() ==> ((
                #[trigger] relationships.rows@[i]).active <==> studio.active_facet is Some
                    && studio.active_facet->0 is Relationship
                    && studio.active_facet->0->Relationship_0@ == relationships.rows@[i].label@)
            &&& forall|i: int|
                0 <= i < nodes.rows@.len() ==> ((#[trigger] nodes.rows@[i]).active
                    <==> studio.active_facet is Some && studio.active_facet->0 is NodeLabel
                    && studio.active_facet->0->NodeLabel_0@ == nodes.rows@[i].label@)
        },
{
    if let Some((relationships, nodes)) = panel.facets {
        let r = panels::count_views(studio.relationship_counts@);
        let n = panels::count_views(studio.node_label_counts@);
        lemma_shown(r, studio.active_relationship());
        lemma_shown(n, studio.active_node_label());
        let shown_r = panels::shown_counts(r, studio.active_relationship());
        let shown_n = panels::shown_counts(n, studio.active_node_label());
        assert(panels::rows_view(relationships.rows@).len() == shown_r.len());
        assert(panels::rows_view(nodes.rows@).len() == shown_n.len());
        assert forall|i: int| 0 <= i < relationships.rows@.len() implies ((
        #[trigger] relationships.rows@[i]).active <==> studio.active_facet is Some
            && studio.active_facet->0 is Relationship
            && studio.active_facet->0->Relationship_0@ == relationships.rows@[i].label@) by {
            assert(panels::rows_view(relationships.rows@)[i] == relationships.rows@[i]@);
            assert(panels::rows_view(relationships.rows@)[i] == panels::facet_row(
                shown_r[i],
                studio.active_relationship(),
            ));
        }
        assert forall|i: int| 0 <= i < nodes.rows@.len() implies ((
        #[trigger] nodes.rows@[i]).active <==> studio.active_facet is Some
            && studio.active_facet->0 is NodeLabel && studio.active_facet->0->NodeLabel_0@
            == nodes.rows@[i].label@) by {
            assert(panels::rows_view(nodes.rows@)[i] == nodes.rows@[i]@);
            assert(panels::rows_view(nodes.rows@)[i] == panels::facet_row(
                shown_n[i],
                studio.active_node_label(),
            ));
        }
    }
}

proof fn lemma_place(counts: Seq<(Seq<char>, usize)>, label: Seq<char>, from: int)
    requires
        0 <= from <= counts.len(),
    ensures
        panels::label_place(counts, label, from) matches Some(at) ==> from <= at < counts.len(),
    decreases counts.len() - from,
{
    if from < counts.len() {
        lemma_place(counts, label, from + 1);
    }
}

proof fn lemma_shown(counts: Seq<(Seq<char>, usize)>, active: Option<Seq<char>>)
    ensures
        panels::shown_counts(counts, active).len() <= counts.len(),
{
    if let Some(label) = active {
        lemma_place(counts, label, 0);
    }
}

/// The inspector shows the selected element: a node with its degree and its
/// properties, a relationship with the node that it leads from and the node
/// that it leads to.
pub proof fn law_inspector_shows_the_selection(studio: Studio, pinned: bool, panel: Inspector)
    requires
        studio.wf(),
        studio.inspected(pinned, panel),
    ensures
        panel is Nothing <==> studio.selection is None,
        panel matches Inspector::Node(shown) ==> (
        studio.selection matches Some(SceneSelection::Node(i)) && ({
            let nodes = studio.snapshot->0.nodes;
            &&& shown.element@ == "node:"@ + digits::decimal(nodes.ids@[i as int] as nat)
            &&& shown.label@ == nodes.labels@[i as int]@
            &&& digits::decimal(nodes.degrees@[i as int] as nat).is_prefix_of(shown.summary@)
            &&& shown.pinned == pinned
            &&& nodes.properties@[i as int]@.len() <= 24 ==> shown.properties@.len()
                == nodes.properties@[i as int]@.len()
            &&& shown.properties@.len() <= 24
            &&& shown.trace <==> studio.path_state is ChoosingEnd
                && studio.path_state->ChoosingEnd_0.start != nodes.ids@[i as int]
        })),
        panel matches Inspector::Edge(shown) ==> (
        studio.selection matches Some(SceneSelection::Edge(e)) && ({
            let edges = studio.snapshot->0.edges;
            let nodes = studio.snapshot->0.nodes;
            let from = edges.sources@[e as int] as int;
            let to = edges.targets@[e as int] as int;
            &&& shown.element@ == "edge:"@ + digits::decimal(edges.ids@[e as int] as nat)
            &&& shown.label@ == edges.labels@[e as int]@
            &&& shown.from.0@ == "node:"@ + digits::decimal(nodes.ids@[from] as nat)
            &&& shown.from.1@ == nodes.labels@[from]@
            &&& shown.to.0@ == "node:"@ + digits::decimal(nodes.ids@[to] as nat)
            &&& shown.to.1@ == nodes.labels@[to]@
            &&& shown.empty is Some <==> edges.properties@[e as int]@.len() == 0
        })),
{
    if let Inspector::Node(shown) = panel {
        let i = studio.selection->0->Node_0 as int;
        let nodes = studio.snapshot->0.nodes;
        let d = digits::decimal(nodes.degrees@[i] as nat);
        assert(shown.summary@.subrange(0, d.len() as int) =~= d);
        assert(inspector::pairs_view(shown.properties@).len() == shown.properties@.len());
    }
}

/// A search result is shown as it was found; the marked one, and no other,
/// with its text signal and its vector signal.
pub proof fn law_results_are_shown_as_found(
    hits: Seq<SearchHit>,
    percents: Seq<Seq<char>>,
    marked: usize,
    i: int,
)
    requires
        0 <= i < hits.len(),
    ensures
        ({
            let rows = search_panel::hit_rows(hits, percents, marked);
            &&& rows.len() == hits.len()
            &&& rows[i].element == hits[i].element
            &&& rows[i].label == hits[i].label@
            &&& rows[i].title == hits[i].title@
            &&& rows[i].detail == hits[i].detail@
            &&& rows[i].selected <==> i == marked
            &&& i == marked ==> rows[i].text_signal == hits[i].lexical_score
                && rows[i].vector_signal == hits[i].semantic_score
            &&& percents[i].is_prefix_of(rows[i].relevance)
            &&& hits[i].element is Node ==> "node"@.is_prefix_of(rows[i].spoken)
            &&& hits[i].element is Edge ==> "edge"@.is_prefix_of(rows[i].spoken)
        }),
{
    let row = search_panel::hit_rows(hits, percents, marked)[i];
    assert(row.relevance.subrange(0, percents[i].len() as int) =~= percents[i]);
    let kind = search_panel::kind_word(hits[i].element);
    assert(row.spoken.subrange(0, kind.len() as int) =~= kind);
}

/// The search panel follows the search, and says how many results there are
/// and what went wrong.
pub proof fn law_search_panel_follows_the_search(
    studio: Studio,
    percents: Seq<Seq<char>>,
    panel: SearchPanel,
)
    requires
        studio.search_panel_shows(percents, panel),
    ensures
        panel is Empty <==> studio.search_state is Idle,
        panel is Searching <==> studio.search_state is Searching,
        panel is Failed <==> studio.search_state is Failed,
        panel is Ready <==> studio.search_state is Ready,
        studio.search_state matches SearchState::Failed { query, error } ==> panel->Failed_detail@
            == error@,
        studio.search_state matches SearchState::Ready(report) ==> {
            let shown: ReadySearch = panel->Ready_0;
            &&& shown.rows@.len() == report.hits@.len()
            &&& digits::decimal(report.hits@.len()).is_prefix_of(shown.summary@)
            &&& shown.empty is Some <==> report.hits@.len() == 0
            &&& shown.warning is Some <==> report.warning is Some
            &&& shown.warning is Some ==> shown.warning->0@ == report.warning->0@
            &&& shown.model is Some <==> report.embedding_model is Some
        },
{
    if let SearchState::Ready(report) = studio.search_state {
        let shown: ReadySearch = panel->Ready_0;
        let count = digits::decimal(report.hits@.len());
        assert(shown.summary@.subrange(0, count.len() as int) =~= count);
        assert(search_panel::row_views(shown.rows@).len() == shown.rows@.len());
    }
}

/// The status line counts nodes before relationships, and says of a sample
/// that it is one, of pins how many there are, and of motion that it goes on.
pub proof fn law_status_tells_the_scene(
    nodes: nat,
    edges: nat,
    sampled: bool,
    kind: LayoutKind,
    pinned: nat,
    moving: bool,
)
    ensures
        ({
            let line = status_bar::left_segments(nodes, edges, sampled, kind, pinned, moving);
            let extra = (if sampled { 1int } else { 0 }) + (if pinned > 0 { 1int } else { 0 }) + (
            if moving { 1int } else { 0 });
            &&& line.len() == 3 + extra
            &&& line[0] == digits::counted(nodes) + " nodes"@
            &&& line[1] == digits::counted(edges) + " edges"@
            &&& sampled ==> line[2] == "sampled"@
            &&& moving ==> line.last() == "settling"@
            &&& pinned > 0 ==> line.contains(digits::decimal(pinned) + " pinned"@)
        }),
{
    let line = status_bar::left_segments(nodes, edges, sampled, kind, pinned, moving);
    if pinned > 0 {
        let at = if moving {
            line.len() - 2
        } else {
            line.len() - 1
        };
        assert(line[at] == digits::decimal(pinned) + " pinned"@);
    }
}

/// The canvas is shown once there are a scene and a workspace; until then
/// something stands in its place, and a failure says why.
pub proof fn law_canvas_waits_for_the_scene(
    ready: bool,
    workspace: bool,
    opening: status_bar::Opening,
)
    ensures
        status_bar::placeholder(ready, workspace, opening) is None <==> ready && workspace,
        !ready && opening is Failed ==> {
            let (_, detail) = status_bar::placeholder(ready, workspace, opening)->0;
            detail == opening->Failed_0@
        },
{
}

/// The toolbar marks the mode and the arrangement in use, lets go of a selected
/// node exactly where it is pinned, and has room for the inspector from a width
/// of 980 on and for the controls on the canvas from 1280 on.
pub proof fn law_toolbar_follows_the_studio(
    studio: Studio,
    width: u32,
    pins: Seq<bool>,
    bar: Toolbar,
    i: int,
)
    requires
        studio.toolbar_shows(width, pins, bar),
        0 < width < 0x7f80_0000,
    ensures
        0 <= i < bar.modes@.len() ==> (bar.modes@[i].chosen <==> bar.modes@[i].mode
            == studio.search_mode),
        0 <= i < bar.layouts@.len() ==> (bar.layouts@[i].chosen <==> bar.layouts@[i].kind
            == studio.layout_kind),
        bar.release ==> studio.selection is Some && studio.selection->0 is Node,
        forall|k: usize|
            studio.selection == Some(SceneSelection::Node(k)) && k < pins.len() ==> (bar.release
                <==> #[trigger] pins[k as int]),
        bar.inspector <==> 0x4475_0000 <= width,
        bar.controls == ControlPlace::Canvas <==> 0x44a0_0000 <= width,
        bar.controls == ControlPlace::Canvas <==> bar.height == 52,
{
    toolbar::law_one_button_is_chosen(studio.search_mode, studio.layout_kind);
}

/// Modes, arrangements, kinds of elements, directions and endings are called by
/// their own names.
pub proof fn law_things_have_their_own_names(id: u64)
    ensures
        SearchMode::Text.name() == "Text"@,
        SearchMode::Semantic.name() == "Semantic"@,
        SearchMode::Hybrid.name() == "Hybrid"@,
        search_panel::mode_word(SearchMode::Text) == "text"@,
        search_panel::mode_word(SearchMode::Semantic) == "semantic"@,
        search_panel::mode_word(SearchMode::Hybrid) == "hybrid"@,
        LayoutKind::Auto.name() == "Auto"@,
        LayoutKind::Force.name() == "Force"@,
        LayoutKind::Structure.name() == "Structure"@,
        LayoutKind::Orbit.name() == "Orbit"@,
        status_bar::layout_word(LayoutKind::Auto) == "auto"@,
        status_bar::layout_word(LayoutKind::Force) == "force"@,
        status_bar::layout_word(LayoutKind::Structure) == "structure"@,
        status_bar::layout_word(LayoutKind::Orbit) == "orbit"@,
        search::kind_name(ElementRef::Node(id)) == "NODE"@,
        search::kind_name(ElementRef::Edge(id)) == "EDGE"@,
        search::element_id(ElementRef::Node(id)) == id,
        search::element_id(ElementRef::Edge(id)) == id,
        Direction::Outgoing.name() == "Outgoing"@,
        Direction::Incoming.name() == "Incoming"@,
        Direction::Both.name() == "Both"@,
        studio::direction_text(Direction::Outgoing) == "outgoing only"@,
        studio::direction_text(Direction::Incoming) == "incoming only"@,
        studio::direction_text(Direction::Both) == "either direction"@,
        EvidencePathTermination::Found.name() == "Found"@,
        EvidencePathTermination::NotFoundWithinHops.name() == "NotFoundWithinHops"@,
        EvidencePathTermination::ExpansionLimit.name() == "ExpansionLimit"@,
        EvidencePathStrategy::BreadthFirst.name() == "BreadthFirst"@,
        EvidencePathStrategy::BidirectionalBreadthFirst.name() == "BidirectionalBreadthFirst"@,
        path_panel::strategy_text(EvidencePathStrategy::BreadthFirst) == "BREADTH-FIRST"@,
        path_panel::strategy_text(EvidencePathStrategy::BidirectionalBreadthFirst)
            == "BIDIRECTIONAL"@,
{
}

} // verus!
