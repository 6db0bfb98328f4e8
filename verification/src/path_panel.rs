//! What the studio shows of a path: while its end is chosen, while it is
//! searched for, and once the search has ended.

use vstd::prelude::*;
use vstd::string::*;

use crate::digits;
use crate::digits::{decimal_text, format_count, padded_text, usize_text};
use crate::evidence::{
    EvidenceNode, EvidencePathReport, EvidencePathStrategy, EvidencePathTermination, EvidenceStep,
};
use crate::graph::{Direction, Value, ValueView};
use crate::scene;
use crate::scene::{SceneProperty, SceneSelection, SceneSnapshot};
use crate::studio;
use crate::studio::{count_hops, plural_ending, PathDraft, PathState, Studio};
use crate::text;
use crate::text::{concat2, concat3, concat4, concat5, concat6};

verus! {

/// Whether a key names an element.
pub open spec fn names_element(key: Seq<char>) -> bool {
    key == "title"@ || key == "name"@ || key == "headline"@ || key == "path"@ || key == "tag_name"@
        || key == "login"@
}

/// The first property from `from` on whose key names an element.
pub open spec fn naming_property(properties: Seq<SceneProperty>, from: int) -> Option<int>
    decreases properties.len() - from,
{
    if from < 0 || from >= properties.len() {
        None
    } else if names_element(properties[from].key@) {
        Some(from)
    } else {
        naming_property(properties, from + 1)
    }
}

/// What a node of the scene is called: by the first property that names it,
/// if that is a text other than empty, else by its label.
pub open spec fn node_title(snapshot: SceneSnapshot, index: int) -> Seq<char> {
    let properties = snapshot.nodes.properties@[index]@;
    match naming_property(properties, 0) {
        Some(i) => match properties[i].value@ {
            ValueView::Text(s) => if s.len() == 0 {
                snapshot.nodes.labels@[index]@
            } else {
                s
            },
            _ => snapshot.nodes.labels@[index]@,
        },
        None => snapshot.nodes.labels@[index]@,
    }
}

fn find_naming(properties: &Vec<SceneProperty>) -> (r: Option<usize>)
    ensures
        match r {
            Some(i) => i < properties@.len() && naming_property(properties@, 0) == Some(i as int),
            None => naming_property(properties@, 0) is None,
        },
{
    let mut i: usize = 0;
    while i < properties.len()
        invariant
            i <= properties.len(),
            naming_property(properties@, i as int) == naming_property(properties@, 0),
        decreases properties.len() - i,
    {
        let key = properties[i].key.as_str();
        if text::same_text(key, "title") || text::same_text(key, "name") || text::same_text(
            key,
            "headline",
        ) || text::same_text(key, "path") || text::same_text(key, "tag_name")
            || text::same_text(key, "login") {
            return Some(i);
        }
        i = i + 1;
    }
    None
}

/// What a node of the scene is called.
pub fn scene_node_title(snapshot: &SceneSnapshot, index: usize) -> (r: String)
    requires
        snapshot.wf(),
        index < snapshot.nodes.ids@.len(),
    ensures
        r@ == node_title(*snapshot, index as int),
{
    let properties = &snapshot.nodes.properties[index];
    match find_naming(properties) {
        Some(i) => match &properties[i].value {
            Value::String(s) => if s.as_str().is_empty() {
                snapshot.nodes.labels[index].clone()
            } else {
                s.clone()
            },
            _ => snapshot.nodes.labels[index].clone(),
        },
        None => snapshot.nodes.labels[index].clone(),
    }
}

/// A direction in capitals.
pub open spec fn compact_direction(direction: Direction) -> Seq<char> {
    match direction {
        Direction::Outgoing => "FROM ORIGIN"@,
        Direction::Incoming => "TO ORIGIN"@,
        Direction::Both => "EITHER WAY"@,
    }
}

/// A direction in capitals.
pub fn path_direction_compact_label(direction: Direction) -> (r: &'static str)
    ensures
        r@ == compact_direction(direction),
{
    match direction {
        Direction::Outgoing => "FROM ORIGIN",
        Direction::Incoming => "TO ORIGIN",
        Direction::Both => "EITHER WAY",
    }
}

/// A strategy in capitals.
pub open spec fn strategy_text(strategy: EvidencePathStrategy) -> Seq<char> {
    match strategy {
        EvidencePathStrategy::BreadthFirst => "BREADTH-FIRST"@,
        EvidencePathStrategy::BidirectionalBreadthFirst => "BIDIRECTIONAL"@,
    }
}

/// A strategy in capitals.
pub fn path_strategy_label(strategy: EvidencePathStrategy) -> (r: &'static str)
    ensures
        r@ == strategy_text(strategy),
{
    match strategy {
        EvidencePathStrategy::BreadthFirst => "BREADTH-FIRST",
        EvidencePathStrategy::BidirectionalBreadthFirst => "BIDIRECTIONAL",
    }
}

/// One end of a path as it is shown.
#[derive(Debug)]
pub struct EndpointCard {
    pub role: &'static str,
    pub line: String,
    pub title: String,
}

/// The contents of one end of a path as it is shown.
pub struct CardView {
    pub role: Seq<char>,
    pub line: Seq<char>,
    pub title: Seq<char>,
}

impl View for EndpointCard {
    type V = CardView;

    open spec fn view(&self) -> CardView {
        CardView { role: self.role@, line: self.line@, title: self.title@ }
    }
}

/// One end of a path as it is shown.
pub open spec fn card_of(role: Seq<char>, id: u64, label: Seq<char>, title: Seq<char>) -> CardView {
    CardView {
        role,
        line: "node:"@ + digits::decimal(id as nat) + " · "@ + label,
        title,
    }
}

fn endpoint_card(role: &'static str, id: u64, label: &str, title: String) -> (r: EndpointCard)
    ensures
        r@ == card_of(role@, id, label@, title@),
{
    let shown = decimal_text(id);
    EndpointCard { role, line: concat4("node:", shown.as_str(), " · ", label), title }
}

/// What is shown while the end of a path is chosen.
#[derive(Debug)]
pub struct ChoosingPanel {
    pub hint: &'static str,
    pub origin: Option<EndpointCard>,
    pub direction: &'static str,
    pub limit: String,
    /// The hop limits on offer, and which one is set.
    pub hops: Vec<(usize, bool)>,
    pub destination: Option<(usize, EndpointCard)>,
}

/// The contents of an optional card.
pub open spec fn card_view(card: Option<EndpointCard>) -> Option<CardView> {
    match card {
        Some(c) => Some(c@),
        None => None,
    }
}

/// The hop limits on offer.
pub open spec fn hop_choices(max_hops: usize) -> Seq<(usize, bool)> {
    seq![
        (1usize, max_hops == 1),
        (2usize, max_hops == 2),
        (4usize, max_hops == 4),
        (6usize, max_hops == 6),
    ]
}

/// Whether the panel shows a path whose end is chosen.
pub open spec fn choosing_shows(studio: Studio, draft: PathDraft, panel: ChoosingPanel) -> bool {
    let destination = studio.destination(draft.start);
    &&& panel.hint@ == if destination is Some {
        "ENTER RUNS · ESC CANCELS"@
    } else {
        "ESC CANCELS"@
    }
    &&& card_view(panel.origin) == match studio.snapshot {
        Some(s) => match scene::position_of(s.nodes.ids@, draft.start) {
            Some(i) => Some(
                card_of(
                    "FROM"@,
                    draft.start,
                    s.nodes.labels@[i as int]@,
                    node_title(s, i as int),
                ),
            ),
            None => None,
        },
        None => None,
    }
    &&& panel.direction@ == compact_direction(draft.direction)
    &&& panel.limit@ == "≤ "@ + digits::decimal(draft.max_hops as nat)
    &&& panel.hops@ == hop_choices(draft.max_hops)
    &&& match panel.destination {
        None => destination is None,
        Some((index, card)) => destination matches Some((i, id)) && index == i && card@
            == card_of(
            "TO"@,
            id,
            studio.snapshot->0.nodes.labels@[i as int]@,
            node_title(studio.snapshot->0, i as int),
        ),
    }
}

/// A step of a path as it is shown.
#[derive(Debug)]
pub struct StepRow {
    pub number: String,
    pub title: String,
    /// The relationship's label, where the title does not say it.
    pub kind: Option<String>,
    pub route: String,
    pub spoken: String,
    pub selected: bool,
}

/// The contents of a step of a path as it is shown.
pub struct StepRowView {
    pub number: Seq<char>,
    pub title: Seq<char>,
    pub kind: Option<Seq<char>>,
    pub route: Seq<char>,
    pub spoken: Seq<char>,
    pub selected: bool,
}

impl View for StepRow {
    type V = StepRowView;

    open spec fn view(&self) -> StepRowView {
        StepRowView {
            number: self.number@,
            title: self.title@,
            kind: text::opt_view(self.kind),
            route: self.route@,
            spoken: self.spoken@,
            selected: self.selected,
        }
    }
}

/// Which way a step goes along its relationship.
pub open spec fn orientation_text(forward: bool) -> Seq<char> {
    if forward {
        "stored direction"@
    } else {
        "reverse traversal"@
    }
}

fn orientation(forward: bool) -> (r: &'static str)
    ensures
        r@ == orientation_text(forward),
{
    if forward {
        "stored direction"
    } else {
        "reverse traversal"
    }
}

/// Whether a step's relationship is the selected element.
pub open spec fn step_selected(studio: Studio, edge_id: u64) -> bool {
    match studio.snapshot {
        Some(s) => studio::edge_selection(s, edge_id) == studio.selection,
        None => false,
    }
}

fn is_step_selected(studio: &Studio, edge_id: u64) -> (r: bool)
    requires
        studio.wf(),
    ensures
        r == step_selected(*studio, edge_id),
{
    match &studio.snapshot {
        Some(s) => {
            let place: Option<SceneSelection> = match s.edge_index(edge_id) {
                Some(i) => Some(SceneSelection::Edge(i)),
                None => None,
            };
            place == studio.selection
        },
        None => false,
    }
}

/// A step of a path as it is shown.
pub open spec fn step_row(studio: Studio, step: EvidenceStep, number: nat) -> StepRowView {
    let from = digits::decimal(step.from as nat);
    let to = digits::decimal(step.to as nat);
    StepRowView {
        number: digits::padded(number, 2),
        title: step.title@,
        kind: if step.title@ == text::spaced(step.label@) {
            None
        } else {
            Some(step.label@)
        },
        route: "node:"@ + from + " → node:"@ + to + " · "@ + orientation_text(step.forward),
        spoken: "Evidence step "@ + digits::decimal(number) + ", "@ + step.title@ + ", node "@
            + from + (" to node "@ + to + ", relationship "@ + step.label@ + ", "@
            + orientation_text(step.forward)),
        selected: step_selected(studio, step.edge_id),
    }
}

/// The steps of a path as they are shown.
pub open spec fn step_rows(studio: Studio, steps: Seq<EvidenceStep>) -> Seq<StepRowView> {
    steps.map(|i: int, step: EvidenceStep| step_row(studio, step, (i + 1) as nat))
}

/// The contents of steps.
pub open spec fn step_views(rows: Seq<StepRow>) -> Seq<StepRowView> {
    rows.map_values(|r: StepRow| r@)
}

fn make_step_row(studio: &Studio, step: &EvidenceStep, number: usize) -> (r: StepRow)
    requires
        studio.wf(),
    ensures
        r@ == step_row(*studio, *step, number as nat),
{
    let from = decimal_text(step.from);
    let to = decimal_text(step.to);
    let way = orientation(step.forward);
    let plain = text::space_underscores(step.label.as_str());
    let kind: Option<String> = if text::same_text(step.title.as_str(), plain.as_str()) {
        None
    } else {
        Some(step.label.clone())
    };
    let shown = usize_text(number);
    let head = concat6(
        "Evidence step ",
        shown.as_str(),
        ", ",
        step.title.as_str(),
        ", node ",
        from.as_str(),
    );
    let tail = concat6(" to node ", to.as_str(), ", relationship ", step.label.as_str(), ", ", way);
    StepRow {
        number: padded_text(number, 2),
        title: step.title.clone(),
        kind,
        route: concat6("node:", from.as_str(), " → node:", to.as_str(), " · ", way),
        spoken: concat2(head.as_str(), tail.as_str()),
        selected: is_step_selected(studio, step.edge_id),
    }
}

fn make_step_rows(studio: &Studio, steps: &Vec<EvidenceStep>) -> (r: Vec<StepRow>)
    requires
        studio.wf(),
    ensures
        step_views(r@) == step_rows(*studio, steps@),
{
    let ghost wanted = step_rows(*studio, steps@);
    let mut rows: Vec<StepRow> = Vec::new();
    let mut i: usize = 0;
    let count: usize = steps.len();
    assert(step_views(rows@) =~= wanted.take(0));
    while i < count
        invariant
            studio.wf(),
            count == steps@.len(),
            i <= count,
            wanted == step_rows(*studio, steps@),
            step_views(rows@) == wanted.take(i as int),
        decreases count - i,
    {
        let row = make_step_row(studio, &steps[i], i + 1);
        let ghost before = step_views(rows@);
        let ghost view = row@;
        rows.push(row);
        proof {
            assert(step_views(rows@) =~= before.push(view));
            assert(wanted[i as int] == view);
            assert(wanted.take(i + 1) =~= wanted.take(i as int).push(view));
        }
        i = i + 1;
    }
    assert(wanted.take(count as int) =~= wanted);
    rows
}

/// How a path search ended, in capitals.
pub open spec fn outcome_text(termination: EvidencePathTermination) -> Seq<char> {
    match termination {
        EvidencePathTermination::Found => "EXACT"@,
        EvidencePathTermination::NotFoundWithinHops => "NO PATH"@,
        EvidencePathTermination::ExpansionLimit => "INCOMPLETE"@,
    }
}

fn outcome_label(termination: EvidencePathTermination) -> (r: &'static str)
    ensures
        r@ == outcome_text(termination),
{
    match termination {
        EvidencePathTermination::Found => "EXACT",
        EvidencePathTermination::NotFoundWithinHops => "NO PATH",
        EvidencePathTermination::ExpansionLimit => "INCOMPLETE",
    }
}

/// A path search in a few words.
pub open spec fn summary_text(report: EvidencePathReport) -> Seq<char> {
    let hops = studio::hop_count(report);
    match report.termination {
        EvidencePathTermination::Found => if hops == 0 {
            "Same node · "@ + report.elapsed_ms@ + " ms"@
        } else {
            digits::decimal(hops) + " hop"@ + studio::plural(hops) + " · "@ + report.elapsed_ms@
                + " ms"@
        },
        EvidencePathTermination::NotFoundWithinHops => "None within "@ + digits::decimal(
            report.max_hops as nat,
        ) + " hops · "@ + report.elapsed_ms@ + " ms"@,
        EvidencePathTermination::ExpansionLimit => "Work cap reached · "@ + report.elapsed_ms@
            + " ms"@,
    }
}

fn summary_of(report: &EvidencePathReport) -> (r: String)
    ensures
        r@ == summary_text(*report),
{
    let hops = count_hops(report);
    let elapsed = report.elapsed_ms.as_str();
    match report.termination {
        EvidencePathTermination::Found => if hops == 0 {
            concat3("Same node · ", elapsed, " ms")
        } else {
            let shown = usize_text(hops);
            concat6(shown.as_str(), " hop", plural_ending(hops), " · ", elapsed, " ms")
        },
        EvidencePathTermination::NotFoundWithinHops => {
            let shown = usize_text(report.max_hops);
            concat5("None within ", shown.as_str(), " hops · ", elapsed, " ms")
        },
        EvidencePathTermination::ExpansionLimit => concat3("Work cap reached · ", elapsed, " ms"),
    }
}

/// How many of the nodes of a path the scene holds.
pub open spec fn nodes_in_view(snapshot: SceneSnapshot, nodes: Seq<EvidenceNode>) -> nat
    decreases nodes.len(),
{
    if nodes.len() == 0 {
        0
    } else {
        nodes_in_view(snapshot, nodes.drop_last()) + if snapshot.nodes.ids@.contains(
            nodes.last().id,
        ) {
            1nat
        } else {
            0nat
        }
    }
}

/// How many of the relationships of a path the scene holds.
pub open spec fn steps_in_view(snapshot: SceneSnapshot, steps: Seq<EvidenceStep>) -> nat
    decreases steps.len(),
{
    if steps.len() == 0 {
        0
    } else {
        steps_in_view(snapshot, steps.drop_last()) + if snapshot.edges.ids@.contains(
            steps.last().edge_id,
        ) {
            1nat
        } else {
            0nat
        }
    }
}

/// How many nodes and relationships of a report the scene holds: of its
/// path, or else of its two ends.
pub open spec fn in_view(snapshot: Option<SceneSnapshot>, report: EvidencePathReport) -> (nat, nat) {
    match snapshot {
        None => (0, 0),
        Some(s) => match report.path {
            Some(path) => (nodes_in_view(s, path.nodes@), steps_in_view(s, path.steps@)),
            None => (
                (if s.nodes.ids@.contains(report.start.id) {
                    1nat
                } else {
                    0nat
                }) + if report.end.id != report.start.id && s.nodes.ids@.contains(report.end.id) {
                    1nat
                } else {
                    0nat
                },
                0,
            ),
        },
    }
}

/// How many nodes and relationships a report is about.
pub open spec fn reported(report: EvidencePathReport) -> (nat, nat) {
    match report.path {
        Some(path) => (path.nodes@.len(), path.steps@.len()),
        None => (2, 0),
    }
}

fn count_nodes(snapshot: &SceneSnapshot, nodes: &Vec<EvidenceNode>) -> (r: usize)
    requires
        snapshot.wf(),
    ensures
        r == nodes_in_view(*snapshot, nodes@),
{
    let mut count: usize = 0;
    let mut i: usize = 0;
    assert(nodes@.take(0) =~= Seq::<EvidenceNode>::empty());
    while i < nodes.len()
        invariant
            snapshot.wf(),
            i <= nodes.len(),
            count <= i,
            count == nodes_in_view(*snapshot, nodes@.take(i as int)),
        decreases nodes.len() - i,
    {
        assert(nodes@.take(i + 1).drop_last() =~= nodes@.take(i as int));
        if snapshot.node_index(nodes[i].id).is_some() {
            count = count + 1;
        }
        i = i + 1;
    }
    assert(nodes@.take(nodes@.len() as int) =~= nodes@);
    count
}

fn count_steps(snapshot: &SceneSnapshot, steps: &Vec<EvidenceStep>) -> (r: usize)
    requires
        snapshot.wf(),
    ensures
        r == steps_in_view(*snapshot, steps@),
{
    let mut count: usize = 0;
    let mut i: usize = 0;
    assert(steps@.take(0) =~= Seq::<EvidenceStep>::empty());
    while i < steps.len()
        invariant
            snapshot.wf(),
            i <= steps.len(),
            count <= i,
            count == steps_in_view(*snapshot, steps@.take(i as int)),
        decreases steps.len() - i,
    {
        assert(steps@.take(i + 1).drop_last() =~= steps@.take(i as int));
        if snapshot.edge_index(steps[i].edge_id).is_some() {
            count = count + 1;
        }
        i = i + 1;
    }
    assert(steps@.take(steps@.len() as int) =~= steps@);
    count
}

fn count_in_view(snapshot: &Option<SceneSnapshot>, report: &EvidencePathReport) -> (r: (usize, usize))
    requires
        snapshot matches Some(s) ==> s.wf(),
    ensures
        r.0 == in_view(*snapshot, *report).0,
        r.1 == in_view(*snapshot, *report).1,
{
    match snapshot {
        None => (0, 0),
        Some(s) => match &report.path {
            Some(path) => (count_nodes(s, &path.nodes), count_steps(s, &path.steps)),
            None => {
                let first: usize = if s.node_index(report.start.id).is_some() {
                    1
                } else {
                    0
                };
                let second: usize = if report.end.id != report.start.id && s.node_index(
                    report.end.id,
                ).is_some() {
                    1
                } else {
                    0
                };
                (first + second, 0)
            },
        },
    }
}

/// The notice that the canvas does not show a whole result.
pub open spec fn partial_notice(snapshot: Option<SceneSnapshot>, report: EvidencePathReport) -> Option<
    Seq<char>,
> {
    let (nodes, edges) = in_view(snapshot, report);
    let (all_nodes, all_edges) = reported(report);
    if nodes < all_nodes || edges < all_edges {
        Some(
            "Exact database result; sampled canvas shows "@ + digits::decimal(nodes) + "/"@
                + digits::decimal(all_nodes) + " nodes and "@ + digits::decimal(edges) + ("/"@
                + digits::decimal(all_edges) + " relationships."@),
        )
    } else {
        None
    }
}

fn make_partial_notice(snapshot: &Option<SceneSnapshot>, report: &EvidencePathReport) -> (r: Option<
    String,
>)
    requires
        snapshot matches Some(s) ==> s.wf(),
    ensures
        text::opt_view(r) == partial_notice(*snapshot, *report),
{
    let (nodes, edges) = count_in_view(snapshot, report);
    let (all_nodes, all_edges): (usize, usize) = match &report.path {
        Some(path) => (path.nodes.len(), path.steps.len()),
        None => (2, 0),
    };
    if nodes < all_nodes || edges < all_edges {
        let a = usize_text(nodes);
        let b = usize_text(all_nodes);
        let c = usize_text(edges);
        let d = usize_text(all_edges);
        let head = concat6(
            "Exact database result; sampled canvas shows ",
            a.as_str(),
            "/",
            b.as_str(),
            " nodes and ",
            c.as_str(),
        );
        let tail = concat3("/", d.as_str(), " relationships.");
        Some(concat2(head.as_str(), tail.as_str()))
    } else {
        None
    }
}

/// The work of a path search as it is shown.
#[derive(Debug)]
pub struct PlanCard {
    pub plan: String,
    pub from: String,
    pub to: String,
    pub visited: String,
    pub reads: String,
}

/// The contents of the work of a path search as it is shown.
pub struct PlanView {
    pub plan: Seq<char>,
    pub from: Seq<char>,
    pub to: Seq<char>,
    pub visited: Seq<char>,
    pub reads: Seq<char>,
}

impl View for PlanCard {
    type V = PlanView;

    open spec fn view(&self) -> PlanView {
        PlanView {
            plan: self.plan@,
            from: self.from@,
            to: self.to@,
            visited: self.visited@,
            reads: self.reads@,
        }
    }
}

/// The work of a path search as it is shown.
pub open spec fn plan_of(report: EvidencePathReport) -> PlanView {
    PlanView {
        plan: strategy_text(report.strategy) + " · "@ + compact_direction(report.direction),
        from: digits::counted(report.start_expanded_nodes as nat) + " expanded"@,
        to: digits::counted(report.end_expanded_nodes as nat) + " expanded"@,
        visited: digits::counted(report.visited_nodes as nat),
        reads: digits::counted(report.examined_relationships as nat),
    }
}

/// Shows the work of a path search.
pub fn path_plan_diagnostics(report: &EvidencePathReport) -> (r: PlanCard)
    ensures
        r@ == plan_of(*report),
{
    let from = format_count(report.start_expanded_nodes);
    let to = format_count(report.end_expanded_nodes);
    PlanCard {
        plan: concat3(
            path_strategy_label(report.strategy),
            " · ",
            path_direction_compact_label(report.direction),
        ),
        from: concat2(from.as_str(), " expanded"),
        to: concat2(to.as_str(), " expanded"),
        visited: format_count(report.visited_nodes),
        reads: format_count(report.examined_relationships),
    }
}

/// What is shown below a path search.
#[derive(Debug)]
pub enum PathBody {
    /// The start is the end.
    Identity,
    Steps(Vec<StepRow>),
    /// There is no path; `warn` tells that this is no proof of absence.
    Absent { title: &'static str, detail: String, warn: bool },
}

/// The contents of what is shown below a path search.
pub enum PathBodyView {
    Identity,
    Steps(Seq<StepRowView>),
    Absent { title: Seq<char>, detail: Seq<char>, warn: bool },
}

impl View for PathBody {
    type V = PathBodyView;

    open spec fn view(&self) -> PathBodyView {
        match self {
            PathBody::Identity => PathBodyView::Identity,
            PathBody::Steps(rows) => PathBodyView::Steps(step_views(rows@)),
            PathBody::Absent { title, detail, warn } => PathBodyView::Absent {
                title: title@,
                detail: detail@,
                warn: *warn,
            },
        }
    }
}

/// What is shown below a path search.
pub open spec fn body_of(studio: Studio, report: EvidencePathReport) -> PathBodyView {
    match report.path {
        Some(path) => if path.steps@.len() == 0 {
            PathBodyView::Identity
        } else {
            PathBodyView::Steps(step_rows(studio, path.steps@))
        },
        None => match report.termination {
            EvidencePathTermination::NotFoundWithinHops => PathBodyView::Absent {
                title: "No evidence chain in this hop bound"@,
                detail: "The complete search found no matching chain up to "@ + digits::decimal(
                    report.max_hops as nat,
                ) + " hops. Increase max-hops to widen the proof boundary."@,
                warn: false,
            },
            EvidencePathTermination::ExpansionLimit => PathBodyView::Absent {
                title: "Search stopped before it was conclusive"@,
                detail: "The "@ + digits::decimal(report.max_hops as nat)
                    + "-hop search reached its frontier-work budget. This is not proof of absence."@,
                warn: true,
            },
            EvidencePathTermination::Found => PathBodyView::Absent {
                title: "No path payload"@,
                detail: "The database returned an inconsistent path result."@,
                warn: false,
            },
        },
    }
}

fn make_body(studio: &Studio, report: &EvidencePathReport) -> (r: PathBody)
    requires
        studio.wf(),
    ensures
        r@ == body_of(*studio, *report),
{
    match &report.path {
        Some(path) => {
            if path.steps.len() == 0 {
                PathBody::Identity
            } else {
                PathBody::Steps(make_step_rows(studio, &path.steps))
            }
        },
        None => {
            let shown = usize_text(report.max_hops);
            match report.termination {
                EvidencePathTermination::NotFoundWithinHops => PathBody::Absent {
                    title: "No evidence chain in this hop bound",
                    detail: concat3(
                        "The complete search found no matching chain up to ",
                        shown.as_str(),
                        " hops. Increase max-hops to widen the proof boundary.",
                    ),
                    warn: false,
                },
                EvidencePathTermination::ExpansionLimit => PathBody::Absent {
                    title: "Search stopped before it was conclusive",
                    detail: concat3(
                        "The ",
                        shown.as_str(),
                        "-hop search reached its frontier-work budget. This is not proof of absence.",
                    ),
                    warn: true,
                },
                EvidencePathTermination::Found => PathBody::Absent {
                    title: "No path payload",
                    detail: "The database returned an inconsistent path result.".to_owned(),
                    warn: false,
                },
            }
        },
    }
}

/// What is shown once a path search has ended.
#[derive(Debug)]
pub struct ReadyPanel {
    pub outcome: &'static str,
    pub summary: String,
    pub start: EndpointCard,
    pub end: EndpointCard,
    pub plan: PlanCard,
    pub relationship: Option<String>,
    pub partial: Option<String>,
    pub body: PathBody,
}

/// Whether the panel shows a path search that has ended.
pub open spec fn ready_shows(studio: Studio, report: EvidencePathReport, panel: ReadyPanel) -> bool {
    &&& panel.outcome@ == outcome_text(report.termination)
    &&& panel.summary@ == summary_text(report)
    &&& panel.start@ == card_of(
        "FROM"@,
        report.start.id,
        report.start.label@,
        report.start.title@,
    )
    &&& panel.end@ == card_of("TO"@, report.end.id, report.end.label@, report.end.title@)
    &&& panel.plan@ == plan_of(report)
    &&& text::opt_view(panel.relationship) == match report.relationship_label {
        Some(label) => Some("relationship:"@ + label@),
        None => None,
    }
    &&& text::opt_view(panel.partial) == partial_notice(studio.snapshot, report)
    &&& panel.body@ == body_of(studio, report)
}

/// What the studio shows of a path.
#[derive(Debug)]
pub enum PathPanel {
    Empty,
    Choosing(ChoosingPanel),
    Searching { route: String },
    Failed { route: String, error: String },
    Ready(ReadyPanel),
}

/// The ends of a path that is searched for.
pub open spec fn route_text(start: u64, end: u64) -> Seq<char> {
    "node:"@ + digits::decimal(start as nat) + "  →  node:"@ + digits::decimal(end as nat)
}

fn route_of(start: u64, end: u64) -> (r: String)
    ensures
        r@ == route_text(start, end),
{
    let first = decimal_text(start);
    let second = decimal_text(end);
    concat4("node:", first.as_str(), "  →  node:", second.as_str())
}

impl Studio {
    /// Whether the panel shows the state of the path search.
    pub open spec fn path_panel_shows(self, panel: PathPanel) -> bool {
        match self.path_state {
            PathState::Idle => panel is Empty,
            PathState::ChoosingEnd(draft) => panel matches PathPanel::Choosing(choosing)
                && choosing_shows(self, draft, choosing),
            PathState::Searching { start, end } => panel matches PathPanel::Searching { route }
                && route@ == route_text(start, end),
            PathState::Failed { start, end, error } => panel matches PathPanel::Failed {
                route,
                error: shown,
            } && route@ == route_text(start, end) && shown@ == error@,
            PathState::Ready(report) => panel matches PathPanel::Ready(ready) && ready_shows(
                self,
                report,
                ready,
            ),
        }
    }

    fn choosing_panel(&self, draft: PathDraft) -> (r: ChoosingPanel)
        requires
            self.wf(),
            self.path_state == PathState::ChoosingEnd(draft),
        ensures
            choosing_shows(*self, draft, r),
    {
        let origin: Option<EndpointCard> = match &self.snapshot {
            Some(s) => match s.node_index(draft.start) {
                Some(i) => Some(
                    endpoint_card(
                        "FROM",
                        draft.start,
                        s.nodes.labels[i].as_str(),
                        scene_node_title(s, i),
                    ),
                ),
                None => None,
            },
            None => None,
        };
        let destination: Option<(usize, EndpointCard)> = match (
            self.path_destination_candidate(),
            &self.snapshot,
        ) {
            (Some(i), Some(s)) => Some(
                (
                    i,
                    endpoint_card(
                        "TO",
                        s.nodes.ids[i],
                        s.nodes.labels[i].as_str(),
                        scene_node_title(s, i),
                    ),
                ),
            ),
            _ => None,
        };
        let hint: &'static str = if destination.is_some() {
            "ENTER RUNS · ESC CANCELS"
        } else {
            "ESC CANCELS"
        };
        let limit = usize_text(draft.max_hops);
        let hops: Vec<(usize, bool)> = vec![
            (1usize, draft.max_hops == 1),
            (2usize, draft.max_hops == 2),
            (4usize, draft.max_hops == 4),
            (6usize, draft.max_hops == 6),
        ];
        assert(hops@ =~= hop_choices(draft.max_hops));
        ChoosingPanel {
            hint,
            origin,
            direction: path_direction_compact_label(draft.direction),
            limit: concat2("≤ ", limit.as_str()),
            hops,
            destination,
        }
    }

    fn ready_panel(&self, report: &EvidencePathReport) -> (r: ReadyPanel)
        requires
            self.wf(),
        ensures
            ready_shows(*self, *report, r),
    {
        let relationship: Option<String> = match &report.relationship_label {
            Some(label) => Some(concat2("relationship:", label.as_str())),
            None => None,
        };
        ReadyPanel {
            outcome: outcome_label(report.termination),
            summary: summary_of(report),
            start: endpoint_card(
                "FROM",
                report.start.id,
                report.start.label.as_str(),
                report.start.title.clone(),
            ),
            end: endpoint_card(
                "TO",
                report.end.id,
                report.end.label.as_str(),
                report.end.title.clone(),
            ),
            plan: path_plan_diagnostics(report),
            relationship,
            partial: make_partial_notice(&self.snapshot, report),
            body: make_body(self, report),
        }
    }

    /// Decides what is shown of a path.
    pub fn path_panel(&self) -> (r: PathPanel)
        requires
            self.wf(),
        ensures
            self.path_panel_shows(r),
    {
        match &self.path_state {
            PathState::Idle => PathPanel::Empty,
            PathState::ChoosingEnd(draft) => PathPanel::Choosing(self.choosing_panel(*draft)),
            PathState::Searching { start, end } => PathPanel::Searching {
                route: route_of(*start, *end),
            },
            PathState::Failed { start, end, error } => PathPanel::Failed {
                route: route_of(*start, *end),
                error: error.clone(),
            },
            PathState::Ready(report) => PathPanel::Ready(self.ready_panel(report)),
        }
    }
}

/// A search that stopped at its work limit is never shown as a proof that
/// there is no path.
pub proof fn law_incomplete_search_is_no_proof(studio: Studio, report: EvidencePathReport)
    requires
        report.termination == EvidencePathTermination::ExpansionLimit,
        report.path is None,
    ensures
        outcome_text(report.termination) == "INCOMPLETE"@,
        body_of(studio, report) matches PathBodyView::Absent { warn, .. } && warn,
{
}

} // verus!
