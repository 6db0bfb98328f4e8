//! The engineering graph that an import builds: keyed nodes that better
//! records replace, and relationships that never repeat.

use vstd::prelude::*;
use vstd::string::*;

use crate::graph::{Value, ValueView};
use crate::labels;
use crate::text;

verus! {

/// A property of an imported element.
pub type Field = (&'static str, Value);

/// The contents of a property list.
pub open spec fn fields_view(fields: Seq<Field>) -> Seq<(Seq<char>, ValueView)> {
    fields.map_values(|f: Field| (f.0@, f.1@))
}

/// A node to import.
#[derive(Debug)]
pub struct GraphNode {
    pub label: &'static str,
    pub properties: Vec<Field>,
    pub embedding_texts: Vec<String>,
    pub summary: String,
}

/// The contents of a node to import.
pub struct GraphNodeView {
    pub label: Seq<char>,
    pub properties: Seq<(Seq<char>, ValueView)>,
    pub embedding_texts: Seq<Seq<char>>,
    pub summary: Seq<char>,
}

impl View for GraphNode {
    type V = GraphNodeView;

    open spec fn view(&self) -> GraphNodeView {
        GraphNodeView {
            label: self.label@,
            properties: fields_view(self.properties@),
            embedding_texts: text::views(self.embedding_texts@),
            summary: self.summary@,
        }
    }
}

/// A relationship to import, between nodes named by their keys.
#[derive(Debug)]
pub struct GraphEdge {
    pub source: String,
    pub target: String,
    pub label: &'static str,
    pub properties: Vec<Field>,
    pub embedding_text: String,
}

/// The contents of a relationship to import.
pub struct GraphEdgeView {
    pub source: Seq<char>,
    pub target: Seq<char>,
    pub label: Seq<char>,
    pub properties: Seq<(Seq<char>, ValueView)>,
    pub embedding_text: Seq<char>,
}

impl View for GraphEdge {
    type V = GraphEdgeView;

    open spec fn view(&self) -> GraphEdgeView {
        GraphEdgeView {
            source: self.source@,
            target: self.target@,
            label: self.label@,
            properties: fields_view(self.properties@),
            embedding_text: self.embedding_text@,
        }
    }
}

/// The text that is embedded for a payload: trimmed, and cut at 12 KiB with an
/// ellipsis behind the cut.
pub open spec fn payload(value: Seq<char>) -> Seq<char> {
    text::truncated_utf8(text::trimmed(value), 12 * 1024)
}

/// The text that is embedded for a payload.
pub fn embedding_payload(value: &str) -> (r: String)
    ensures
        r@ == payload(value@),
{
    let trimmed = text::trim_text(value);
    text::truncate_utf8(trimmed.as_str(), 12 * 1024)
}

/// The payloads of the texts that are not blank.
pub open spec fn payloads(texts: Seq<Seq<char>>) -> Seq<Seq<char>>
    decreases texts.len(),
{
    if texts.len() == 0 {
        Seq::empty()
    } else {
        let before = payloads(texts.drop_last());
        if text::is_blank(texts.last()) {
            before
        } else {
            before.push(payload(texts.last()))
        }
    }
}

/// The node made of the given parts: blank texts are not embedded.
pub open spec fn node_of(
    label: Seq<char>,
    properties: Seq<(Seq<char>, ValueView)>,
    texts: Seq<Seq<char>>,
    summary: Seq<char>,
) -> GraphNodeView {
    GraphNodeView { label, properties, embedding_texts: payloads(texts), summary }
}

impl GraphNode {
    /// A node whose blank texts are dropped and long ones cut.
    pub fn new(
        label: &'static str,
        properties: Vec<Field>,
        embedding_texts: Vec<String>,
        summary: String,
    ) -> (r: GraphNode)
        ensures
            r@ == node_of(
                label@,
                fields_view(properties@),
                text::views(embedding_texts@),
                summary@,
            ),
    {
        let ghost all = text::views(embedding_texts@);
        let mut kept: Vec<String> = Vec::new();
        let mut i: usize = 0;
        assert(text::views(kept@) =~= payloads(all.take(0)));
        while i < embedding_texts.len()
            invariant
                i <= embedding_texts.len(),
                all == text::views(embedding_texts@),
                text::views(kept@) == payloads(all.take(i as int)),
            decreases embedding_texts.len() - i,
        {
            assert(all.take(i + 1).drop_last() =~= all.take(i as int));
            if !text::text_is_blank(embedding_texts[i].as_str()) {
                let ghost before = text::views(kept@);
                let cut = embedding_payload(embedding_texts[i].as_str());
                let ghost view = cut@;
                kept.push(cut);
                assert(text::views(kept@) =~= before.push(view));
            }
            i = i + 1;
        }
        assert(all.take(all.len() as int) =~= all);
        GraphNode { label, properties, embedding_texts: kept, summary }
    }
}

/// What an import has collected.
#[derive(Debug)]
pub struct EngineeringGraph {
    pub nodes: Vec<GraphNode>,
    /// The key of each node.
    pub keys: Vec<String>,
    /// How good each node's record is; a better one replaces it.
    pub ranks: Vec<u8>,
    pub edges: Vec<GraphEdge>,
}

/// The contents of an engineering graph.
#[verifier::ext_equal]
pub struct GraphView {
    pub keys: Seq<Seq<char>>,
    pub nodes: Seq<GraphNodeView>,
    pub ranks: Seq<u8>,
    pub edges: Seq<GraphEdgeView>,
}

impl View for EngineeringGraph {
    type V = GraphView;

    open spec fn view(&self) -> GraphView {
        GraphView {
            keys: text::views(self.keys@),
            nodes: self.nodes@.map_values(|n: GraphNode| n@),
            ranks: self.ranks@,
            edges: self.edges@.map_values(|e: GraphEdge| e@),
        }
    }
}

/// Whether an edge joins the given nodes under the given label.
pub open spec fn same_link(
    edge: GraphEdgeView,
    source: Seq<char>,
    target: Seq<char>,
    label: Seq<char>,
) -> bool {
    edge.source == source && edge.target == target && edge.label == label
}

impl GraphView {
    /// The graph with nothing in it.
    pub open spec fn empty() -> GraphView {
        GraphView { keys: Seq::empty(), nodes: Seq::empty(), ranks: Seq::empty(), edges: Seq::empty() }
    }

    /// Every node has one key and one rank, keys differ, and no two
    /// relationships join the same nodes under the same label.
    pub open spec fn wf(self) -> bool {
        &&& self.nodes.len() == self.keys.len()
        &&& self.ranks.len() == self.keys.len()
        &&& self.keys.no_duplicates()
        &&& forall|i: int, j: int|
            0 <= i < j < self.edges.len() ==> !same_link(
                #[trigger] self.edges[i],
                (#[trigger] self.edges[j]).source,
                self.edges[j].target,
                self.edges[j].label,
            )
    }

    /// Every relationship joins nodes of the graph.
    pub open spec fn closed(self) -> bool {
        forall|i: int|
            0 <= i < self.edges.len() ==> self.keys.contains((#[trigger] self.edges[i]).source)
                && self.keys.contains(self.edges[i].target)
    }

    /// The position of a key, or the number of keys.
    pub open spec fn slot(self, key: Seq<char>) -> int {
        if self.keys.contains(key) {
            self.keys.index_of(key)
        } else {
            self.keys.len() as int
        }
    }

    /// The graph with a record under a key: a new node, or in place of a
    /// record of lower rank.
    pub open spec fn with_node(self, key: Seq<char>, node: GraphNodeView, rank: u8) -> GraphView {
        if self.keys.contains(key) {
            let i = self.keys.index_of(key);
            if rank > self.ranks[i] {
                GraphView {
                    nodes: self.nodes.update(i, node),
                    ranks: self.ranks.update(i, rank),
                    ..self
                }
            } else {
                self
            }
        } else {
            GraphView {
                keys: self.keys.push(key),
                nodes: self.nodes.push(node),
                ranks: self.ranks.push(rank),
                ..self
            }
        }
    }

    /// Whether the graph already joins the nodes under the label.
    pub open spec fn links(self, source: Seq<char>, target: Seq<char>, label: Seq<char>) -> bool {
        exists|i: int|
            0 <= i < self.edges.len() && same_link(#[trigger] self.edges[i], source, target, label)
    }

    /// The graph with a relationship, unless it is there already.
    pub open spec fn with_edge(
        self,
        source: Seq<char>,
        target: Seq<char>,
        label: Seq<char>,
        properties: Seq<(Seq<char>, ValueView)>,
        embedding_text: Seq<char>,
    ) -> GraphView {
        if self.links(source, target, label) {
            self
        } else {
            GraphView {
                edges: self.edges.push(
                    GraphEdgeView {
                        source,
                        target,
                        label,
                        properties,
                        embedding_text: payload(embedding_text),
                    },
                ),
                ..self
            }
        }
    }
}

impl Default for EngineeringGraph {
    fn default() -> (r: EngineeringGraph)
        ensures
            r@ == GraphView::empty(),
    {
        let r = EngineeringGraph {
            nodes: Vec::new(),
            keys: Vec::new(),
            ranks: Vec::new(),
            edges: Vec::new(),
        };
        assert(r@ =~= GraphView::empty());
        r
    }
}

impl EngineeringGraph {
    /// The position of a key.
    pub fn index_of_key(&self, key: &str) -> (r: Option<usize>)
        requires
            self@.wf(),
        ensures
            match r {
                Some(i) => i < self.keys@.len() && self@.keys[i as int] == key@
                    && self@.keys.contains(key@) && self@.keys.index_of(key@) == i,
                None => !self@.keys.contains(key@),
            },
    {
        let mut i: usize = 0;
        while i < self.keys.len()
            invariant
                self@.wf(),
                i <= self.keys.len(),
                forall|j: int| 0 <= j < i ==> (#[trigger] self@.keys[j]) != key@,
            decreases self.keys.len() - i,
        {
            assert(self@.keys[i as int] == self.keys@[i as int]@);
            if text::same_text(self.keys[i].as_str(), key) {
                assert(self@.keys.contains(key@));
                let ghost k = self@.keys.index_of(key@);
                assert(self@.keys[k] == key@);
                return Some(i);
            }
            i = i + 1;
        }
        None
    }

    /// Records a node under a key. A record of higher rank replaces one that
    /// is there; any other leaves it.
    pub fn upsert_node(&mut self, key: String, node: GraphNode, rank: u8)
        requires
            old(self)@.wf(),
        ensures
            final(self)@ == old(self)@.with_node(key@, node@, rank),
            final(self)@.wf(),
    {
        let ghost before = self@;
        let ghost view = node@;
        let ghost name = key@;
        match self.index_of_key(key.as_str()) {
            Some(index) => {
                if rank > self.ranks[index] {
                    self.nodes.set(index, node);
                    self.ranks.set(index, rank);
                    proof {
                        assert(self@ =~= before.with_node(name, view, rank));
                    }
                }
            },
            None => {
                self.keys.push(key);
                self.nodes.push(node);
                self.ranks.push(rank);
                proof {
                    assert(self@.keys =~= before.keys.push(name));
                    assert(self@.nodes =~= before.nodes.push(view));
                    assert(self@.ranks =~= before.ranks.push(rank));
                    assert(self@ =~= before.with_node(name, view, rank));
                }
            },
        }
    }

    fn has_link(&self, source: &str, target: &str, label: &str) -> (r: bool)
        ensures
            r == self@.links(source@, target@, label@),
    {
        let mut i: usize = 0;
        while i < self.edges.len()
            invariant
                i <= self.edges.len(),
                forall|j: int|
                    0 <= j < i ==> !same_link(#[trigger] self@.edges[j], source@, target@, label@),
            decreases self.edges.len() - i,
        {
            let edge = &self.edges[i];
            assert(self@.edges[i as int] == edge@);
            if text::same_text(edge.source.as_str(), source) && text::same_text(
                edge.target.as_str(),
                target,
            ) && text::same_text(edge.label, label) {
                assert(same_link(self@.edges[i as int], source@, target@, label@));
                return true;
            }
            i = i + 1;
        }
        false
    }

    /// Records a relationship, unless the same nodes are joined under the
    /// same label already.
    pub fn add_edge(
        &mut self,
        source: &str,
        target: &str,
        label: &'static str,
        properties: Vec<Field>,
        embedding_text: String,
    )
        requires
            old(self)@.wf(),
        ensures
            final(self)@ == old(self)@.with_edge(
                source@,
                target@,
                label@,
                fields_view(properties@),
                embedding_text@,
            ),
            final(self)@.wf(),
    {
        let ghost before = self@;
        if !self.has_link(source, target, label) {
            let edge = GraphEdge {
                source: source.to_owned(),
                target: target.to_owned(),
                label,
                properties,
                embedding_text: embedding_payload(embedding_text.as_str()),
            };
            let ghost view = edge@;
            self.edges.push(edge);
            proof {
                assert(self@.edges =~= before.edges.push(view));
                assert(self@ =~= before.with_edge(
                    source@,
                    target@,
                    label@,
                    fields_view(properties@),
                    embedding_text@,
                ));
            }
        }
    }

    /// Whether every relationship joins nodes of the graph.
    pub fn resolve_stubs(&self) -> (r: bool)
        requires
            self@.wf(),
        ensures
            r == self@.closed(),
    {
        let mut i: usize = 0;
        while i < self.edges.len()
            invariant
                self@.wf(),
                i <= self.edges.len(),
                forall|j: int|
                    0 <= j < i ==> self@.keys.contains((#[trigger] self@.edges[j]).source)
                        && self@.keys.contains(self@.edges[j].target),
            decreases self.edges.len() - i,
        {
            let edge = &self.edges[i];
            assert(self@.edges[i as int] == edge@);
            if self.index_of_key(edge.source.as_str()).is_none() || self.index_of_key(
                edge.target.as_str(),
            ).is_none() {
                assert(!(self@.keys.contains(self@.edges[i as int].source) && self@.keys.contains(
                    self@.edges[i as int].target,
                )));
                return false;
            }
            i = i + 1;
        }
        true
    }
}

/// The texts of the first `upto` nodes, in order.
pub open spec fn node_texts(nodes: Seq<GraphNodeView>, upto: nat) -> Seq<Seq<char>>
    decreases upto,
{
    if upto == 0 {
        Seq::empty()
    } else {
        node_texts(nodes, (upto - 1) as nat) + nodes[upto - 1].embedding_texts
    }
}

impl GraphView {
    /// Everything to embed: the texts of the nodes, then of the relationships.
    pub open spec fn texts(self) -> Seq<Seq<char>> {
        node_texts(self.nodes, self.nodes.len()) + self.edges.map_values(
            |e: GraphEdgeView| e.embedding_text,
        )
    }

    /// The label of each node.
    pub open spec fn node_labels(self) -> Seq<Seq<char>> {
        self.nodes.map_values(|n: GraphNodeView| n.label)
    }

    /// The label of each relationship.
    pub open spec fn edge_labels(self) -> Seq<Seq<char>> {
        self.edges.map_values(|e: GraphEdgeView| e.label)
    }
}

impl EngineeringGraph {
    /// Everything to embed: the texts of the nodes, then of the relationships.
    pub fn embedding_texts(&self) -> (r: Vec<String>)
        ensures
            text::views(r@) == self@.texts(),
    {
        let mut out: Vec<String> = Vec::new();
        let mut i: usize = 0;
        assert(text::views(out@) =~= node_texts(self@.nodes, 0));
        while i < self.nodes.len()
            invariant
                i <= self.nodes.len(),
                text::views(out@) == node_texts(self@.nodes, i as nat),
            decreases self.nodes.len() - i,
        {
            let ghost start = text::views(out@);
            let node = &self.nodes[i];
            assert(self@.nodes[i as int] == node@);
            let ghost texts = text::views(node.embedding_texts@);
            let mut k: usize = 0;
            assert(start + texts.take(0) =~= start);
            while k < node.embedding_texts.len()
                invariant
                    k <= node.embedding_texts.len(),
                    texts == text::views(node.embedding_texts@),
                    text::views(out@) == start + texts.take(k as int),
                decreases node.embedding_texts.len() - k,
            {
                let ghost before = text::views(out@);
                out.push(node.embedding_texts[k].clone());
                proof {
                    assert(text::views(out@) =~= before.push(texts[k as int]));
                    assert(start + texts.take(k + 1) =~= (start + texts.take(k as int)).push(
                        texts[k as int],
                    ));
                }
                k = k + 1;
            }
            assert(texts.take(texts.len() as int) =~= texts);
            i = i + 1;
        }
        let ghost base = text::views(out@);
        let ghost edge_texts = self@.edges.map_values(|e: GraphEdgeView| e.embedding_text);
        let mut e: usize = 0;
        assert(base + edge_texts.take(0) =~= base);
        while e < self.edges.len()
            invariant
                e <= self.edges.len(),
                edge_texts == self@.edges.map_values(|e: GraphEdgeView| e.embedding_text),
                text::views(out@) == base + edge_texts.take(e as int),
            decreases self.edges.len() - e,
        {
            let ghost before = text::views(out@);
            out.push(self.edges[e].embedding_text.clone());
            proof {
                assert(edge_texts[e as int] == self.edges@[e as int].embedding_text@);
                assert(text::views(out@) =~= before.push(edge_texts[e as int]));
                assert(base + edge_texts.take(e + 1) =~= (base + edge_texts.take(e as int)).push(
                    edge_texts[e as int],
                ));
            }
            e = e + 1;
        }
        assert(edge_texts.take(edge_texts.len() as int) =~= edge_texts);
        out
    }

    /// How many texts there are to embed.
    pub fn embedding_text_count(&self) -> (r: usize)
        ensures
            r == self@.texts().len(),
    {
        let texts = self.embedding_texts();
        assert(text::views(texts@).len() == texts@.len());
        texts.len()
    }

    fn labels_of_nodes(&self) -> (r: Vec<String>)
        ensures
            text::views(r@) == self@.node_labels(),
    {
        let mut out: Vec<String> = Vec::new();
        let mut i: usize = 0;
        while i < self.nodes.len()
            invariant
                i <= self.nodes.len(),
                text::views(out@) == self@.node_labels().take(i as int),
            decreases self.nodes.len() - i,
        {
            let ghost before = text::views(out@);
            out.push(self.nodes[i].label.to_owned());
            proof {
                assert(text::views(out@) =~= before.push(self.nodes@[i as int].label@));
                assert(self@.node_labels().take(i + 1) =~= self@.node_labels().take(i as int).push(
                    self.nodes@[i as int].label@,
                ));
            }
            i = i + 1;
        }
        assert(self@.node_labels().take(self@.nodes.len() as int) =~= self@.node_labels());
        out
    }

    fn labels_of_edges(&self) -> (r: Vec<String>)
        ensures
            text::views(r@) == self@.edge_labels(),
    {
        let mut out: Vec<String> = Vec::new();
        let mut i: usize = 0;
        while i < self.edges.len()
            invariant
                i <= self.edges.len(),
                text::views(out@) == self@.edge_labels().take(i as int),
            decreases self.edges.len() - i,
        {
            let ghost before = text::views(out@);
            out.push(self.edges[i].label.to_owned());
            proof {
                assert(text::views(out@) =~= before.push(self.edges@[i as int].label@));
                assert(self@.edge_labels().take(i + 1) =~= self@.edge_labels().take(i as int).push(
                    self.edges@[i as int].label@,
                ));
            }
            i = i + 1;
        }
        assert(self@.edge_labels().take(self@.edges.len() as int) =~= self@.edge_labels());
        out
    }

    /// How often each node label occurs, labels in order.
    pub fn node_label_counts(&self) -> (r: Vec<(String, usize)>)
        ensures
            labels::counts_view(r@) == labels::counts_by_label(self@.node_labels()),
    {
        let names = self.labels_of_nodes();
        labels::count_by_label(&names)
    }

    /// How often each relationship label occurs, labels in order.
    pub fn edge_label_counts(&self) -> (r: Vec<(String, usize)>)
        ensures
            labels::counts_view(r@) == labels::counts_by_label(self@.edge_labels()),
    {
        let names = self.labels_of_edges();
        labels::count_by_label(&names)
    }

    /// The positions of the nodes that each relationship joins, or the first
    /// key that names no node.
    pub fn edge_endpoints(&self) -> (r: Result<Vec<(usize, usize)>, String>)
        requires
            self@.wf(),
        ensures
            match r {
                Ok(ends) => self@.closed() && self@.ends_at(ends@),
                Err(e) => !self@.closed() && e@ == self@.missing_end(0),
            },
    {
        let mut ends: Vec<(usize, usize)> = Vec::new();
        let mut i: usize = 0;
        while i < self.edges.len()
            invariant
                self@.wf(),
                i <= self.edges.len(),
                ends@.len() == i,
                self@.missing_end(0) == self@.missing_end(i as int),
                forall|j: int|
                    0 <= j < i ==> {
                        let (s, t) = #[trigger] ends@[j];
                        &&& s < self@.keys.len() && self@.keys[s as int] == self@.edges[j].source
                        &&& t < self@.keys.len() && self@.keys[t as int] == self@.edges[j].target
                    },
            decreases self.edges.len() - i,
        {
            let edge = &self.edges[i];
            assert(self@.edges[i as int] == edge@);
            match self.index_of_key(edge.source.as_str()) {
                None => {
                    assert(!self@.keys.contains(self@.edges[i as int].source));
                    return Err(text::concat2("missing source node ", edge.source.as_str()));
                },
                Some(s) => match self.index_of_key(edge.target.as_str()) {
                    None => {
                        assert(!self@.keys.contains(self@.edges[i as int].target));
                        return Err(text::concat2("missing target node ", edge.target.as_str()));
                    },
                    Some(t) => {
                        ends.push((s, t));
                    },
                },
            }
            i = i + 1;
        }
        proof {
            assert forall|j: int| 0 <= j < self@.edges.len() implies self@.keys.contains(
                (#[trigger] self@.edges[j]).source,
            ) && self@.keys.contains(self@.edges[j].target) by {
                let (s, t) = ends@[j];
                assert(self@.keys[s as int] == self@.edges[j].source);
                assert(self@.keys[t as int] == self@.edges[j].target);
            }
        }
        Ok(ends)
    }
}

impl GraphView {
    /// Whether these are the slots of the ends of every relationship, the source
    /// first.
    pub open spec fn ends_at(self, ends: Seq<(usize, usize)>) -> bool {
        &&& ends.len() == self.edges.len()
        &&& forall|i: int|
            0 <= i < ends.len() ==> {
                let (s, t) = #[trigger] ends[i];
                &&& s < self.keys.len() && self.keys[s as int] == self.edges[i].source
                &&& t < self.keys.len() && self.keys[t as int] == self.edges[i].target
            }
    }

    /// What is said of the first relationship from `from` on that lacks an
    /// end.
    pub open spec fn missing_end(self, from: int) -> Seq<char>
        decreases self.edges.len() - from,
    {
        if from < 0 || from >= self.edges.len() {
            Seq::empty()
        } else if !self.keys.contains(self.edges[from].source) {
            "missing source node "@ + self.edges[from].source
        } else if !self.keys.contains(self.edges[from].target) {
            "missing target node "@ + self.edges[from].target
        } else {
            self.missing_end(from + 1)
        }
    }

    pub proof fn lemma_with_node(self, key: Seq<char>, node: GraphNodeView, rank: u8)
        requires
            self.closed(),
        ensures
            self.with_node(key, node, rank).closed(),
            self.with_node(key, node, rank).keys.contains(key),
            forall|k: Seq<char>|
                self.keys.contains(k) ==> #[trigger] self.with_node(
                    key,
                    node,
                    rank,
                ).keys.contains(k),
    {
        let now = self.with_node(key, node, rank);
        if !self.keys.contains(key) {
            assert(now.keys.last() == key);
            assert forall|k: Seq<char>| self.keys.contains(k) implies #[trigger] now.keys.contains(
                k,
            ) by {
                let i = choose|i: int| 0 <= i < self.keys.len() && self.keys[i] == k;
                assert(now.keys[i] == k);
            }
        }
    }

    pub proof fn lemma_with_edge(
        self,
        source: Seq<char>,
        target: Seq<char>,
        label: Seq<char>,
        properties: Seq<(Seq<char>, ValueView)>,
        embedding_text: Seq<char>,
    )
        requires
            self.closed(),
            self.keys.contains(source),
            self.keys.contains(target),
        ensures
            self.with_edge(source, target, label, properties, embedding_text).closed(),
            self.with_edge(source, target, label, properties, embedding_text).keys == self.keys,
    {
    }
}

/// A record that is recorded again, or a poorer one, changes nothing.
pub proof fn law_poorer_records_change_nothing(
    g: GraphView,
    key: Seq<char>,
    node: GraphNodeView,
    rank: u8,
    other: GraphNodeView,
    other_rank: u8,
)
    requires
        g.wf(),
        other_rank <= rank,
    ensures
        g.with_node(key, node, rank).with_node(key, other, other_rank) == g.with_node(
            key,
            node,
            rank,
        ),
{
    let now = g.with_node(key, node, rank);
    if !g.keys.contains(key) {
        assert(now.keys.last() == key);
        let i = now.keys.index_of(key);
        assert(now.keys[i] == key);
        if i < g.keys.len() {
            assert(g.keys[i] == key);
        }
    }
}

/// A better record replaces a stub: it is what the key names afterwards.
pub proof fn law_better_records_replace(
    g: GraphView,
    key: Seq<char>,
    stub: GraphNodeView,
    stub_rank: u8,
    node: GraphNodeView,
    rank: u8,
)
    requires
        g.wf(),
        !g.keys.contains(key),
        rank > stub_rank,
    ensures
        ({
            let now = g.with_node(key, stub, stub_rank).with_node(key, node, rank);
            &&& now.keys == g.keys.push(key)
            &&& now.nodes[now.slot(key)] == node
            &&& now.ranks[now.slot(key)] == rank
            &&& now.edges == g.edges
        }),
{
    let first = g.with_node(key, stub, stub_rank);
    assert(first.keys.last() == key);
    let i = first.keys.index_of(key);
    assert(first.keys[i] == key);
    if i < g.keys.len() {
        assert(g.keys[i] == key);
    }
}

/// A relationship that is there already is not added again, whatever its
/// properties and text.
pub proof fn law_relationships_do_not_repeat(
    g: GraphView,
    source: Seq<char>,
    target: Seq<char>,
    label: Seq<char>,
    properties: Seq<(Seq<char>, ValueView)>,
    embedding_text: Seq<char>,
    other_properties: Seq<(Seq<char>, ValueView)>,
    other_text: Seq<char>,
)
    ensures
        ({
            let once = g.with_edge(source, target, label, properties, embedding_text);
            once.with_edge(source, target, label, other_properties, other_text) == once
        }),
{
    let once = g.with_edge(source, target, label, properties, embedding_text);
    if !g.links(source, target, label) {
        assert(same_link(once.edges[g.edges.len() as int], source, target, label));
    }
}

} // verus!
