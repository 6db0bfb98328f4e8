//! Exact evidence paths: resolving a request, and turning the engine's answer
//! into presentation-ready records.

use vstd::prelude::*;
use vstd::string::*;

use crate::digits;
use crate::graph;
use crate::graph::{Direction, EdgeId, EdgeRecord, GraphData, NodeId, Property, ValueView};
use crate::scene;
use crate::scene::SceneProperty;
use crate::text;

verus! {

/// The keys that title an element, best first.
pub open spec fn preferred_keys() -> Seq<Seq<char>> {
    seq!["title"@, "name"@, "headline"@, "path"@, "tag_name"@, "login"@]
}

/// The keys that describe an element, best first.
pub open spec fn secondary_keys() -> Seq<Seq<char>> {
    seq!["body"@, "description"@, "message"@, "url"@, "state"@, "kind"@]
}

/// The text that titles an element.
pub fn preferred_property(read: &GraphData, properties: &Vec<Property>) -> (r: Option<String>)
    ensures
        text::opt_view(r) == read.first_text(properties@, preferred_keys()),
{
    let keys = vec!["title", "name", "headline", "path", "tag_name", "login"];
    assert(graph::str_views(keys@) =~= preferred_keys());
    read.find_first_text(properties, &keys)
}

/// The text that describes an element beside its title.
pub fn secondary_property(read: &GraphData, properties: &Vec<Property>, title: &str) -> (r: Option<
    String,
>)
    ensures
        text::opt_view(r) == read.first_other_text(properties@, secondary_keys(), title@),
{
    let keys = vec!["body", "description", "message", "url", "state", "kind"];
    assert(graph::str_views(keys@) =~= secondary_keys());
    read.find_first_other_text(properties, &keys, title)
}

/// One owned node in an exact evidence path.
#[derive(Debug)]
pub struct EvidenceNode {
    pub id: NodeId,
    pub label: String,
    pub title: String,
    pub vector_count: u32,
    pub properties: Vec<SceneProperty>,
}

/// The contents of an evidence node.
pub struct EvidenceNodeView {
    pub id: NodeId,
    pub label: Seq<char>,
    pub title: Seq<char>,
    pub vector_count: u32,
    pub properties: Seq<(Seq<char>, ValueView)>,
}

impl View for EvidenceNode {
    type V = EvidenceNodeView;

    open spec fn view(&self) -> EvidenceNodeView {
        EvidenceNodeView {
            id: self.id,
            label: self.label@,
            title: self.title@,
            vector_count: self.vector_count,
            properties: scene::properties_view(self.properties@),
        }
    }
}

/// One directed traversal step. `forward` tells whether the path follows the
/// relationship's stored source-to-target orientation.
#[derive(Debug)]
pub struct EvidenceStep {
    pub edge_id: EdgeId,
    pub from: NodeId,
    pub to: NodeId,
    pub label: String,
    pub title: String,
    pub forward: bool,
    pub vector_count: u32,
    pub properties: Vec<SceneProperty>,
}

/// The contents of a step.
pub struct EvidenceStepView {
    pub edge_id: EdgeId,
    pub from: NodeId,
    pub to: NodeId,
    pub label: Seq<char>,
    pub title: Seq<char>,
    pub forward: bool,
    pub vector_count: u32,
    pub properties: Seq<(Seq<char>, ValueView)>,
}

impl View for EvidenceStep {
    type V = EvidenceStepView;

    open spec fn view(&self) -> EvidenceStepView {
        EvidenceStepView {
            edge_id: self.edge_id,
            from: self.from,
            to: self.to,
            label: self.label@,
            title: self.title@,
            forward: self.forward,
            vector_count: self.vector_count,
            properties: scene::properties_view(self.properties@),
        }
    }
}

/// A hydrated path.
#[derive(Debug)]
pub struct EvidencePath {
    pub nodes: Vec<EvidenceNode>,
    pub steps: Vec<EvidenceStep>,
}

/// The contents of a path.
pub struct EvidencePathView {
    pub nodes: Seq<EvidenceNodeView>,
    pub steps: Seq<EvidenceStepView>,
}

impl View for EvidencePath {
    type V = EvidencePathView;

    open spec fn view(&self) -> EvidencePathView {
        EvidencePathView {
            nodes: self.nodes@.map_values(|n: EvidenceNode| n@),
            steps: self.steps@.map_values(|s: EvidenceStep| s@),
        }
    }
}

/// How the engine searched.
#[derive(Clone, Copy, Debug, PartialEq, Eq, Structural)]
pub enum EvidencePathStrategy {
    BreadthFirst,
    BidirectionalBreadthFirst,
}

/// Why the engine stopped. `ExpansionLimit` is no proof that there is no path.
#[derive(Clone, Copy, Debug, PartialEq, Eq, Structural)]
pub enum EvidencePathTermination {
    Found,
    NotFoundWithinHops,
    ExpansionLimit,
}

/// The nodes of a path in order, and the relationship of each hop.
#[derive(Debug)]
pub struct ShortestPath {
    pub nodes: Vec<NodeId>,
    pub edges: Vec<EdgeId>,
}

/// What the engine answers to a path request.
#[derive(Debug)]
pub struct PathSearch {
    pub path: Option<ShortestPath>,
    pub strategy: EvidencePathStrategy,
    pub termination: EvidencePathTermination,
    pub visited_nodes: usize,
    pub start_expanded_nodes: usize,
    pub end_expanded_nodes: usize,
    pub expanded_nodes: usize,
    pub examined_relationships: usize,
}

/// A path request with its relationship label resolved.
#[derive(Clone, Copy, Debug, PartialEq, Eq, Structural)]
pub struct PathRequest {
    pub start: NodeId,
    pub end: NodeId,
    pub max_hops: usize,
    pub max_expansions: usize,
    pub direction: Direction,
    pub label: Option<u32>,
}

/// A presentation-ready exact path result with the engine's completeness and
/// work diagnostics preserved.
#[derive(Debug)]
pub struct EvidencePathReport {
    pub start: EvidenceNode,
    pub end: EvidenceNode,
    pub path: Option<EvidencePath>,
    pub strategy: EvidencePathStrategy,
    pub termination: EvidencePathTermination,
    pub direction: Direction,
    pub relationship_label: Option<String>,
    pub max_hops: usize,
    pub visited_nodes: usize,
    pub start_expanded_nodes: usize,
    pub end_expanded_nodes: usize,
    pub expanded_nodes: usize,
    pub examined_relationships: usize,
    /// The time taken, in milliseconds with one decimal.
    pub elapsed_ms: String,
}

/// The contents of a report.
pub struct ReportView {
    pub start: EvidenceNodeView,
    pub end: EvidenceNodeView,
    pub path: Option<EvidencePathView>,
    pub strategy: EvidencePathStrategy,
    pub termination: EvidencePathTermination,
    pub direction: Direction,
    pub relationship_label: Option<Seq<char>>,
    pub max_hops: usize,
    pub visited_nodes: usize,
    pub start_expanded_nodes: usize,
    pub end_expanded_nodes: usize,
    pub expanded_nodes: usize,
    pub examined_relationships: usize,
    pub elapsed_ms: Seq<char>,
}

/// The contents of an optional path.
pub open spec fn path_view(path: Option<EvidencePath>) -> Option<EvidencePathView> {
    match path {
        Some(p) => Some(p@),
        None => None,
    }
}

impl View for EvidencePathReport {
    type V = ReportView;

    open spec fn view(&self) -> ReportView {
        ReportView {
            start: self.start@,
            end: self.end@,
            path: path_view(self.path),
            strategy: self.strategy,
            termination: self.termination,
            direction: self.direction,
            relationship_label: text::opt_view(self.relationship_label),
            max_hops: self.max_hops,
            visited_nodes: self.visited_nodes,
            start_expanded_nodes: self.start_expanded_nodes,
            end_expanded_nodes: self.end_expanded_nodes,
            expanded_nodes: self.expanded_nodes,
            examined_relationships: self.examined_relationships,
            elapsed_ms: self.elapsed_ms@,
        }
    }
}

impl GraphData {
    /// The title of an element: its preferred property, or `fallback`.
    pub open spec fn title_or(self, properties: Seq<Property>, fallback: Seq<char>) -> Seq<char> {
        match self.first_text(properties, preferred_keys()) {
            Some(found) => found,
            None => fallback,
        }
    }

    /// A stored node as evidence.
    pub open spec fn evidence_node(self, id: NodeId) -> Option<EvidenceNodeView> {
        match self.node_at(id) {
            None => None,
            Some(i) => {
                let node = self.nodes@[i];
                let label = self.symbol_or(node.label, "Unknown"@);
                Some(
                    EvidenceNodeView {
                        id,
                        label,
                        title: text::truncated_text(
                            self.title_or(
                                node.properties@,
                                label + " "@ + digits::decimal(id as nat),
                            ),
                            92,
                        ),
                        vector_count: node.vector_count,
                        properties: self.spelled(node.properties@),
                    },
                )
            },
        }
    }

    /// A stored relationship as a step from one node to another.
    pub open spec fn evidence_step(self, edge: EdgeRecord, from: NodeId, to: NodeId) -> EvidenceStepView {
        let label = self.symbol_or(edge.label, "Unknown"@);
        EvidenceStepView {
            edge_id: edge.id,
            from,
            to,
            label,
            title: text::truncated_text(
                self.title_or(edge.properties@, text::spaced(label)),
                92,
            ),
            forward: edge.source == from && edge.target == to,
            vector_count: edge.vector_count,
            properties: self.spelled(edge.properties@),
        }
    }

    /// The first `upto` nodes of a path as evidence, or why one is missing.
    pub open spec fn evidence_nodes(self, ids: Seq<NodeId>, upto: nat) -> Result<
        Seq<EvidenceNodeView>,
        Seq<char>,
    >
        decreases upto,
    {
        if upto == 0 {
            Ok(Seq::empty())
        } else {
            match self.evidence_nodes(ids, (upto - 1) as nat) {
                Err(error) => Err(error),
                Ok(before) => match self.evidence_node(ids[upto - 1]) {
                    Some(node) => Ok(before.push(node)),
                    None => Err(
                        "path node "@ + digits::decimal(ids[upto - 1] as nat)
                            + " disappeared during hydration"@,
                    ),
                },
            }
        }
    }

    /// The first `upto` steps of a path as evidence, or why one is missing.
    pub open spec fn evidence_steps(
        self,
        nodes: Seq<NodeId>,
        edges: Seq<EdgeId>,
        upto: nat,
    ) -> Result<Seq<EvidenceStepView>, Seq<char>>
        decreases upto,
    {
        if upto == 0 {
            Ok(Seq::empty())
        } else {
            match self.evidence_steps(nodes, edges, (upto - 1) as nat) {
                Err(error) => Err(error),
                Ok(before) => match self.edge_at(edges[upto - 1]) {
                    Some(i) => Ok(
                        before.push(
                            self.evidence_step(self.edges@[i], nodes[upto - 1], nodes[upto as int]),
                        ),
                    ),
                    None => Err(
                        "path relationship "@ + digits::decimal(edges[upto - 1] as nat)
                            + " disappeared during hydration"@,
                    ),
                },
            }
        }
    }

    /// A path as evidence: every node, then every step.
    pub open spec fn evidence_path(self, nodes: Seq<NodeId>, edges: Seq<EdgeId>) -> Result<
        EvidencePathView,
        Seq<char>,
    > {
        match self.evidence_nodes(nodes, nodes.len()) {
            Err(error) => Err(error),
            Ok(hydrated) => match self.evidence_steps(nodes, edges, edges.len()) {
                Err(error) => Err(error),
                Ok(steps) => Ok(EvidencePathView { nodes: hydrated, steps }),
            },
        }
    }
}

/// The contents of an optional evidence node.
pub open spec fn node_view(node: Option<EvidenceNode>) -> Option<EvidenceNodeView> {
    match node {
        Some(n) => Some(n@),
        None => None,
    }
}

/// The contents of a hydration result.
pub open spec fn path_result(r: Result<EvidencePath, String>) -> Result<
    EvidencePathView,
    Seq<char>,
> {
    match r {
        Ok(path) => Ok(path@),
        Err(error) => Err(error@),
    }
}

/// Copies a stored node as evidence.
pub fn hydrate_evidence_node(read: &GraphData, id: NodeId) -> (r: Option<EvidenceNode>)
    ensures
        node_view(r) == read.evidence_node(id),
{
    match read.node(id) {
        None => None,
        Some(node) => {
            let label = read.symbol(node.label, "Unknown");
            let title = match preferred_property(read, &node.properties) {
                Some(found) => found,
                None => text::concat3(label.as_str(), " ", digits::decimal_text(id).as_str()),
            };
            let node = EvidenceNode {
                id,
                label,
                title: text::truncate_text(title.as_str(), 92),
                vector_count: node.vector_count,
                properties: read.owned_properties(&node.properties),
            };
            Some(node)
        },
    }
}

fn hydrate_step(read: &GraphData, edge: &EdgeRecord, from: NodeId, to: NodeId) -> (r: EvidenceStep)
    ensures
        r@ == read.evidence_step(*edge, from, to),
{
    let label = read.symbol(edge.label, "Unknown");
    let title = match preferred_property(read, &edge.properties) {
        Some(found) => found,
        None => text::space_underscores(label.as_str()),
    };
    EvidenceStep {
        edge_id: edge.id,
        from,
        to,
        label,
        title: text::truncate_text(title.as_str(), 92),
        forward: edge.source == from && edge.target == to,
        vector_count: edge.vector_count,
        properties: read.owned_properties(&edge.properties),
    }
}

/// Whether every relationship of a path has a node at either end.
pub open spec fn chained(nodes: Seq<NodeId>, edges: Seq<EdgeId>) -> bool {
    edges.len() > 0 ==> nodes.len() > edges.len()
}

/// Copies every node and relationship of a path as evidence.
pub fn hydrate_evidence_path(read: &GraphData, path: &ShortestPath) -> (r: Result<
    EvidencePath,
    String,
>)
    requires
        chained(path.nodes@, path.edges@),
    ensures
        path_result(r) == read.evidence_path(path.nodes@, path.edges@),
{
    let mut nodes: Vec<EvidenceNode> = Vec::new();
    let mut i: usize = 0;
    let ghost to_view = |n: EvidenceNode| n@;
    proof {
        assert(nodes@.map_values(to_view) =~= Seq::<EvidenceNodeView>::empty());
    }
    while i < path.nodes.len()
        invariant
            i <= path.nodes.len(),
            to_view == (|n: EvidenceNode| n@),
            read.evidence_nodes(path.nodes@, i as nat) == Ok::<Seq<EvidenceNodeView>, Seq<char>>(
                nodes@.map_values(to_view),
            ),
        decreases path.nodes.len() - i,
    {
        let id: u64 = path.nodes[i];
        let ghost before = nodes@.map_values(to_view);
        match hydrate_evidence_node(read, id) {
            Some(node) => {
                let ghost view = node@;
                nodes.push(node);
                proof {
                    assert(nodes@.map_values(to_view) =~= before.push(view));
                }
            },
            None => {
                let error = text::concat3(
                    "path node ",
                    digits::decimal_text(id).as_str(),
                    " disappeared during hydration",
                );
                proof {
                    read.lemma_nodes_error(path.nodes@, (i + 1) as nat, path.nodes@.len());
                }
                return Err(error);
            },
        }
        i = i + 1;
    }
    let mut steps: Vec<EvidenceStep> = Vec::new();
    let mut k: usize = 0;
    let ghost step_view = |s: EvidenceStep| s@;
    proof {
        assert(steps@.map_values(step_view) =~= Seq::<EvidenceStepView>::empty());
    }
    while k < path.edges.len()
        invariant
            k <= path.edges.len(),
            chained(path.nodes@, path.edges@),
            step_view == (|s: EvidenceStep| s@),
            read.evidence_nodes(path.nodes@, path.nodes@.len()) == Ok::<
                Seq<EvidenceNodeView>,
                Seq<char>,
            >(nodes@.map_values(to_view)),
            read.evidence_steps(path.nodes@, path.edges@, k as nat) == Ok::<
                Seq<EvidenceStepView>,
                Seq<char>,
            >(steps@.map_values(step_view)),
        decreases path.edges.len() - k,
    {
        let id: u64 = path.edges[k];
        let ghost before = steps@.map_values(step_view);
        match read.edge(id) {
            Some(edge) => {
                let step = hydrate_step(read, edge, path.nodes[k], path.nodes[k + 1]);
                let ghost view = step@;
                steps.push(step);
                proof {
                    assert(steps@.map_values(step_view) =~= before.push(view));
                }
            },
            None => {
                let error = text::concat3(
                    "path relationship ",
                    digits::decimal_text(id).as_str(),
                    " disappeared during hydration",
                );
                proof {
                    read.lemma_steps_error(
                        path.nodes@,
                        path.edges@,
                        (k + 1) as nat,
                        path.edges@.len(),
                    );
                }
                return Err(error);
            },
        }
        k = k + 1;
    }
    Ok(EvidencePath { nodes, steps })
}

impl GraphData {
    proof fn lemma_nodes_error(self, ids: Seq<NodeId>, at: nat, upto: nat)
        requires
            at <= upto,
            self.evidence_nodes(ids, at) is Err,
        ensures
            self.evidence_nodes(ids, upto) == self.evidence_nodes(ids, at),
        decreases upto,
    {
        if at < upto {
            self.lemma_nodes_error(ids, at, (upto - 1) as nat);
        }
    }

    proof fn lemma_steps_error(self, nodes: Seq<NodeId>, edges: Seq<EdgeId>, at: nat, upto: nat)
        requires
            at <= upto,
            self.evidence_steps(nodes, edges, at) is Err,
        ensures
            self.evidence_steps(nodes, edges, upto) == self.evidence_steps(nodes, edges, at),
        decreases upto,
    {
        if at < upto {
            self.lemma_steps_error(nodes, edges, at, (upto - 1) as nat);
        }
    }
}

/// The relationship filter that a text asks for: none where it is blank.
pub open spec fn label_filter(label: Option<Seq<char>>) -> Option<Seq<char>> {
    match label {
        None => None,
        Some(l) => if text::trimmed(l).len() == 0 {
            None
        } else {
            Some(text::trimmed(l))
        },
    }
}

impl GraphData {
    /// The request that a path query makes, or why it makes none: an endpoint
    /// or the relationship label does not exist.
    pub open spec fn path_request(
        self,
        start: NodeId,
        end: NodeId,
        direction: Direction,
        label: Option<Seq<char>>,
        max_hops: usize,
        max_expansions: usize,
    ) -> Result<PathRequest, Seq<char>> {
        if self.node_at(start) is None {
            Err("start node "@ + digits::decimal(start as nat) + " does not exist"@)
        } else if self.node_at(end) is None {
            Err("end node "@ + digits::decimal(end as nat) + " does not exist"@)
        } else {
            match label_filter(label) {
                None => Ok(
                    PathRequest { start, end, max_hops, max_expansions, direction, label: None },
                ),
                Some(name) => match self.symbol_of(name) {
                    Some(symbol) => Ok(
                        PathRequest {
                            start,
                            end,
                            max_hops,
                            max_expansions,
                            direction,
                            label: Some(symbol),
                        },
                    ),
                    None => Err("relationship label “"@ + name + "” does not exist"@),
                },
            }
        }
    }
}

/// The contents of a request result.
pub open spec fn request_result(r: Result<PathRequest, String>) -> Result<PathRequest, Seq<char>> {
    match r {
        Ok(request) => Ok(request),
        Err(error) => Err(error@),
    }
}

/// Resolves a path query against the database.
pub fn evidence_path_request(
    read: &GraphData,
    start: NodeId,
    end: NodeId,
    direction: Direction,
    relationship_label: Option<&str>,
    max_hops: usize,
    max_expansions: usize,
) -> (r: Result<PathRequest, String>)
    ensures
        request_result(r) == read.path_request(
            start,
            end,
            direction,
            text::opt_str_view(relationship_label),
            max_hops,
            max_expansions,
        ),
{
    if read.node(start).is_none() {
        return Err(
            text::concat3("start node ", digits::decimal_text(start).as_str(), " does not exist"),
        );
    }
    if read.node(end).is_none() {
        return Err(
            text::concat3("end node ", digits::decimal_text(end).as_str(), " does not exist"),
        );
    }
    let filter = trimmed_label(relationship_label);
    match filter {
        None => Ok(PathRequest { start, end, max_hops, max_expansions, direction, label: None }),
        Some(name) => match read.label_id(name.as_str()) {
            Some(symbol) => Ok(
                PathRequest {
                    start,
                    end,
                    max_hops,
                    max_expansions,
                    direction,
                    label: Some(symbol),
                },
            ),
            None => Err(
                text::concat3("relationship label “", name.as_str(), "” does not exist"),
            ),
        },
    }
}

fn trimmed_label(label: Option<&str>) -> (r: Option<String>)
    ensures
        text::opt_view(r) == label_filter(text::opt_str_view(label)),
{
    match label {
        None => None,
        Some(l) => {
            let name = text::trim_text(l);
            if name.as_str().is_empty() {
                None
            } else {
                Some(name)
            }
        },
    }
}

impl GraphData {
    /// The report on a path query, given the engine's answer to its request.
    pub open spec fn report(
        self,
        start: NodeId,
        end: NodeId,
        direction: Direction,
        label: Option<Seq<char>>,
        max_hops: usize,
        max_expansions: usize,
        search: Result<PathSearch, String>,
        elapsed_ms: Seq<char>,
    ) -> Result<ReportView, Seq<char>> {
        match self.path_request(start, end, direction, label, max_hops, max_expansions) {
            Err(error) => Err(error),
            Ok(_) => match search {
                Err(error) => Err("path search failed: "@ + error@),
                Ok(found) => {
                    let path: Result<Option<EvidencePathView>, Seq<char>> = match found.path {
                        None => Ok(None),
                        Some(p) => match self.evidence_path(p.nodes@, p.edges@) {
                            Ok(hydrated) => Ok(Some(hydrated)),
                            Err(error) => Err(error),
                        },
                    };
                    match path {
                        Err(error) => Err(error),
                        Ok(hydrated) => Ok(
                            ReportView {
                                start: self.evidence_node(start)->0,
                                end: self.evidence_node(end)->0,
                                path: hydrated,
                                strategy: found.strategy,
                                termination: found.termination,
                                direction,
                                relationship_label: label_filter(label),
                                max_hops,
                                visited_nodes: found.visited_nodes,
                                start_expanded_nodes: found.start_expanded_nodes,
                                end_expanded_nodes: found.end_expanded_nodes,
                                expanded_nodes: found.expanded_nodes,
                                examined_relationships: found.examined_relationships,
                                elapsed_ms,
                            },
                        ),
                    }
                },
            },
        }
    }
}

/// The contents of a report result.
pub open spec fn report_result(r: Result<EvidencePathReport, String>) -> Result<
    ReportView,
    Seq<char>,
> {
    match r {
        Ok(report) => Ok(report@),
        Err(error) => Err(error@),
    }
}

/// Hydrates an exact, bounded evidence path. `search` is the engine's answer
/// to the request that the query makes, and `elapsed_ms` the time taken.
pub fn evidence_path_database(
    read: &GraphData,
    start: NodeId,
    end: NodeId,
    direction: Direction,
    relationship_label: Option<&str>,
    max_hops: usize,
    max_expansions: usize,
    search: Result<PathSearch, String>,
    elapsed_ms: String,
) -> (r: Result<EvidencePathReport, String>)
    requires
        search matches Ok(found) ==> found.path matches Some(p) ==> chained(p.nodes@, p.edges@),
    ensures
        report_result(r) == read.report(
            start,
            end,
            direction,
            text::opt_str_view(relationship_label),
            max_hops,
            max_expansions,
            search,
            elapsed_ms@,
        ),
{
    let request = evidence_path_request(
        read,
        start,
        end,
        direction,
        relationship_label,
        max_hops,
        max_expansions,
    );
    match request {
        Err(error) => Err(error),
        Ok(_) => match search {
            Err(error) => Err(text::concat2("path search failed: ", error.as_str())),
            Ok(found) => {
                let path = match &found.path {
                    None => None,
                    Some(p) => match hydrate_evidence_path(read, p) {
                        Ok(hydrated) => Some(hydrated),
                        Err(error) => {
                            return Err(error);
                        },
                    },
                };
                let start_node = hydrate_evidence_node(read, start).unwrap();
                let end_node = hydrate_evidence_node(read, end).unwrap();
                Ok(
                    EvidencePathReport {
                        start: start_node,
                        end: end_node,
                        path,
                        strategy: found.strategy,
                        termination: found.termination,
                        direction,
                        relationship_label: trimmed_label(relationship_label),
                        max_hops,
                        visited_nodes: found.visited_nodes,
                        start_expanded_nodes: found.start_expanded_nodes,
                        end_expanded_nodes: found.end_expanded_nodes,
                        expanded_nodes: found.expanded_nodes,
                        examined_relationships: found.examined_relationships,
                        elapsed_ms,
                    },
                )
            },
        },
    }
}

proof fn lemma_steps_shape(g: GraphData, nodes: Seq<NodeId>, edges: Seq<EdgeId>, upto: nat)
    requires
        g.evidence_steps(nodes, edges, upto) is Ok,
    ensures
        ({
            let steps = g.evidence_steps(nodes, edges, upto)->Ok_0;
            &&& steps.len() == upto
            &&& forall|i: int|
                0 <= i < upto ==> (#[trigger] steps[i]).from == nodes[i] && steps[i].to == nodes[i
                    + 1]
        }),
    decreases upto,
{
    if upto > 0 {
        lemma_steps_shape(g, nodes, edges, (upto - 1) as nat);
    }
}

proof fn lemma_nodes_shape(g: GraphData, ids: Seq<NodeId>, upto: nat)
    requires
        g.evidence_nodes(ids, upto) is Ok,
    ensures
        ({
            let nodes = g.evidence_nodes(ids, upto)->Ok_0;
            &&& nodes.len() == upto
            &&& forall|i: int| 0 <= i < upto ==> (#[trigger] nodes[i]).id == ids[i]
        }),
    decreases upto,
{
    if upto > 0 {
        lemma_nodes_shape(g, ids, (upto - 1) as nat);
    }
}

/// A hydrated path is an ordered chain: it has the engine's nodes, and each
/// step leads from one node to the next.
pub proof fn law_hydrated_path_is_a_chain(g: GraphData, nodes: Seq<NodeId>, edges: Seq<EdgeId>)
    requires
        chained(nodes, edges),
        g.evidence_path(nodes, edges) is Ok,
    ensures
        ({
            let path = g.evidence_path(nodes, edges)->Ok_0;
            &&& path.nodes.len() == nodes.len()
            &&& path.steps.len() == edges.len()
            &&& forall|i: int| 0 <= i < nodes.len() ==> (#[trigger] path.nodes[i]).id == nodes[i]
            &&& forall|i: int|
                0 <= i < edges.len() ==> (#[trigger] path.steps[i]).from == path.nodes[i].id
                    && path.steps[i].to == path.nodes[i + 1].id
        }),
{
    lemma_nodes_shape(g, nodes, nodes.len());
    lemma_steps_shape(g, nodes, edges, edges.len());
    let path = g.evidence_path(nodes, edges)->Ok_0;
    assert forall|i: int| 0 <= i < edges.len() implies (#[trigger] path.steps[i]).from
        == path.nodes[i].id && path.steps[i].to == path.nodes[i + 1].id by {
        assert(path.nodes[i].id == nodes[i]);
        assert(path.nodes[i + 1].id == nodes[i + 1]);
    }
}

/// An answer that stopped at its work limit is reported as such, and never
/// with a termination that claims a conclusion.
pub proof fn law_termination_is_preserved(
    g: GraphData,
    start: NodeId,
    end: NodeId,
    direction: Direction,
    label: Option<Seq<char>>,
    max_hops: usize,
    max_expansions: usize,
    found: PathSearch,
    elapsed_ms: Seq<char>,
)
    ensures
        g.report(
            start,
            end,
            direction,
            label,
            max_hops,
            max_expansions,
            Ok(found),
            elapsed_ms,
        ) matches Ok(report) ==> report.termination == found.termination && (report.path is Some
            <==> found.path is Some),
{
}

} // verus!
