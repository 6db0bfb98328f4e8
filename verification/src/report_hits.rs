//! What searches and queries print.

use vstd::prelude::*;
use vstd::string::*;

use crate::digits;
use crate::digits::decimal_text;
use crate::graph::{EdgeRecord, ElementRef, GraphData, NodeRecord};
use crate::report;
use crate::report::{
    no_lines, push_count, push_entry, push_line, Printout, PrintoutView,
};
use crate::text;
use crate::text::{concat2, concat3, concat4, concat5, concat6};

verus! {

/// A hit of a vector search, its score as text.
#[derive(Debug)]
pub struct ScoredElement {
    pub score: String,
    pub element: ElementRef,
}

/// What is printed of a node that was hit.
pub open spec fn node_hit(read: GraphData, score: Seq<char>, id: u64, gone: Seq<char>) -> Result<
    Seq<char>,
    Seq<char>,
> {
    match read.node_at(id) {
        None => Err(gone),
        Some(i) => Ok(
            score + "\tnode\t"@ + digits::decimal(id as nat) + "\t"@ + read.symbol_or(
                read.nodes@[i].label,
                "?"@,
            ) + "\t"@ + read.concise(read.nodes@[i].properties@, GraphData::concise_keys()),
        ),
    }
}

/// What is printed of a relationship that was hit.
pub open spec fn edge_hit(read: GraphData, score: Seq<char>, id: u64) -> Result<
    Seq<char>,
    Seq<char>,
> {
    match read.edge_at(id) {
        None => Err("search result relationship disappeared"@),
        Some(i) => Ok(
            score + "\tedge\t"@ + digits::decimal(id as nat) + "\t"@ + read.symbol_or(
                read.edges@[i].label,
                "?"@,
            ) + "\t"@ + (digits::decimal(read.edges@[i].source as nat) + " -> "@ + digits::decimal(
                read.edges@[i].target as nat,
            )),
        ),
    }
}

/// What is printed of a hit.
pub open spec fn hit_entry(read: GraphData, score: Seq<char>, element: ElementRef) -> Result<
    Seq<char>,
    Seq<char>,
> {
    match element {
        ElementRef::Node(id) => node_hit(read, score, id, "search result node disappeared"@),
        ElementRef::Edge(id) => edge_hit(read, score, id),
    }
}

/// A line, or the failure in its place.
pub open spec fn line_result(r: Result<String, String>) -> Result<Seq<char>, Seq<char>> {
    match r {
        Ok(line) => Ok(line@),
        Err(message) => Err(message@),
    }
}

fn node_hit_line(read: &GraphData, score: &str, id: u64, gone: &str) -> (r: Result<String, String>)
    ensures
        line_result(r) == node_hit(*read, score@, id, gone@),
{
    match read.node(id) {
        None => Err(gone.to_owned()),
        Some(node) => {
            let number = decimal_text(id);
            let label = read.symbol(node.label, "?");
            let what = read.concise_element(&node.properties);
            let head = concat5(score, "\tnode\t", number.as_str(), "\t", label.as_str());
            Ok(concat3(head.as_str(), "\t", what.as_str()))
        },
    }
}

fn edge_hit_line(read: &GraphData, score: &str, id: u64) -> (r: Result<String, String>)
    ensures
        line_result(r) == edge_hit(*read, score@, id),
{
    match read.edge(id) {
        None => Err("search result relationship disappeared".to_owned()),
        Some(edge) => {
            let number = decimal_text(id);
            let label = read.symbol(edge.label, "?");
            let source = decimal_text(edge.source);
            let target = decimal_text(edge.target);
            let head = concat6(score, "\tedge\t", number.as_str(), "\t", label.as_str(), "\t");
            let ends = concat3(source.as_str(), " -> ", target.as_str());
            Ok(concat2(head.as_str(), ends.as_str()))
        },
    }
}

fn hit_line(read: &GraphData, score: &str, element: ElementRef) -> (r: Result<String, String>)
    ensures
        line_result(r) == hit_entry(*read, score@, element),
{
    match element {
        ElementRef::Node(id) => node_hit_line(read, score, id, "search result node disappeared"),
        ElementRef::Edge(id) => edge_hit_line(read, score, id),
    }
}

/// What is printed once the first `upto` hits have followed.
pub open spec fn with_hits(
    before: PrintoutView,
    read: GraphData,
    hits: Seq<ScoredElement>,
    upto: nat,
) -> PrintoutView
    decreases upto,
{
    if upto == 0 {
        before
    } else {
        with_hits(before, read, hits, (upto - 1) as nat).followed_by(
            hit_entry(read, hits[upto - 1].score@, hits[upto - 1].element),
        )
    }
}

/// Nothing printed yet.
pub open spec fn nothing() -> PrintoutView {
    PrintoutView { lines: Seq::empty(), failure: None }
}

/// Prints the hits of a search.
pub fn search_lines(read: &GraphData, hits: &Vec<ScoredElement>) -> (r: Printout)
    ensures
        r@ == with_hits(nothing(), *read, hits@, hits@.len()),
{
    let mut out = Printout::of(no_lines());
    let mut i: usize = 0;
    while i < hits.len()
        invariant
            i <= hits.len(),
            out@ == with_hits(nothing(), *read, hits@, i as nat),
        decreases hits.len() - i,
    {
        out.follow(hit_line(read, hits[i].score.as_str(), hits[i].element));
        i = i + 1;
    }
    out
}

/// A node found within range of a seed, its score as text.
#[derive(Debug)]
pub struct ScoredNode {
    pub score: String,
    pub node: u64,
}

/// What is printed once the first `upto` nodes have followed.
pub open spec fn with_nodes(
    before: PrintoutView,
    read: GraphData,
    hits: Seq<ScoredNode>,
    upto: nat,
) -> PrintoutView
    decreases upto,
{
    if upto == 0 {
        before
    } else {
        with_nodes(before, read, hits, (upto - 1) as nat).followed_by(
            node_hit(
                read,
                hits[upto - 1].score@,
                hits[upto - 1].node,
                "matched node disappeared"@,
            ),
        )
    }
}

/// What is printed before the nodes within range of a seed.
pub open spec fn range_head(
    strategy: Seq<char>,
    candidate_nodes: u64,
    candidate_vectors: u64,
) -> PrintoutView {
    PrintoutView {
        lines: seq![
            report::entry("strategy"@, strategy),
            report::count("candidate_nodes"@, candidate_nodes as int),
            report::count("candidate_vectors"@, candidate_vectors as int),
        ],
        failure: None,
    }
}

/// Prints the nodes within range of a seed.
pub fn range_lines(
    read: &GraphData,
    strategy: &str,
    candidate_nodes: u64,
    candidate_vectors: u64,
    hits: &Vec<ScoredNode>,
) -> (r: Printout)
    ensures
        r@ == with_nodes(
            range_head(strategy@, candidate_nodes, candidate_vectors),
            *read,
            hits@,
            hits@.len(),
        ),
{
    let mut lines = no_lines();
    push_entry(&mut lines, "strategy", strategy);
    push_count(&mut lines, "candidate_nodes", candidate_nodes);
    push_count(&mut lines, "candidate_vectors", candidate_vectors);
    let mut out = Printout::of(lines);
    let ghost head = range_head(strategy@, candidate_nodes, candidate_vectors);
    assert(out@ =~= head);
    let mut i: usize = 0;
    while i < hits.len()
        invariant
            i <= hits.len(),
            out@ == with_nodes(head, *read, hits@, i as nat),
        decreases hits.len() - i,
    {
        out.follow(
            node_hit_line(
                read,
                hits[i].score.as_str(),
                hits[i].node,
                "matched node disappeared",
            ),
        );
        i = i + 1;
    }
    out
}

/// A hit of a search by facets: which vector of the element met each facet.
#[derive(Debug)]
pub struct FacetHit {
    pub score: String,
    pub element: ElementRef,
    pub matched: Vec<u32>,
}

/// The numbers of vectors in decimal.
pub open spec fn number_texts(numbers: Seq<u32>) -> Seq<Seq<char>> {
    numbers.map_values(|n: u32| digits::decimal(n as nat))
}

fn texts_of(numbers: &Vec<u32>) -> (r: Vec<String>)
    ensures
        text::views(r@) == number_texts(numbers@),
{
    let mut out = no_lines();
    let mut i: usize = 0;
    assert(number_texts(numbers@).take(0) =~= Seq::<Seq<char>>::empty());
    while i < numbers.len()
        invariant
            i <= numbers.len(),
            text::views(out@) == number_texts(numbers@).take(i as int),
        decreases numbers.len() - i,
    {
        push_line(&mut out, decimal_text(numbers[i] as u64));
        assert(text::views(out@) =~= number_texts(numbers@).take(i + 1));
        i = i + 1;
    }
    assert(number_texts(numbers@).take(numbers@.len() as int) =~= number_texts(numbers@));
    out
}

/// What is printed of a hit of a search by facets.
pub open spec fn facet_entry(read: GraphData, hit: FacetHit) -> Result<Seq<char>, Seq<char>> {
    match hit_entry(read, hit.score@, hit.element) {
        Err(e) => Err(e),
        Ok(line) => Ok(
            line + "\tfacets="@ + text::joined(number_texts(hit.matched@), ","@),
        ),
    }
}

/// What is printed once the first `upto` hits by facets have followed.
pub open spec fn with_facets(
    before: PrintoutView,
    read: GraphData,
    hits: Seq<FacetHit>,
    upto: nat,
) -> PrintoutView
    decreases upto,
{
    if upto == 0 {
        before
    } else {
        with_facets(before, read, hits, (upto - 1) as nat).followed_by(
            facet_entry(read, hits[upto - 1]),
        )
    }
}

/// Prints the hits of a search by facets.
pub fn facet_lines(read: &GraphData, hits: &Vec<FacetHit>) -> (r: Printout)
    ensures
        r@ == with_facets(nothing(), *read, hits@, hits@.len()),
{
    let mut out = Printout::of(no_lines());
    let mut i: usize = 0;
    while i < hits.len()
        invariant
            i <= hits.len(),
            out@ == with_facets(nothing(), *read, hits@, i as nat),
        decreases hits.len() - i,
    {
        let numbers = texts_of(&hits[i].matched);
        let matched = text::join_texts(&numbers, ",");
        let next = match hit_line(read, hits[i].score.as_str(), hits[i].element) {
            Err(message) => Err(message),
            Ok(line) => Ok(concat3(line.as_str(), "\tfacets=", matched.as_str())),
        };
        assert(line_result(next) == facet_entry(*read, hits@[i as int]));
        out.follow(next);
        i = i + 1;
    }
    out
}

/// A path from a seed to a node that a query reached, its score as text.
#[derive(Debug)]
pub struct SemanticHit {
    pub score: String,
    pub seed: u64,
    pub node: u64,
    pub path: Vec<u64>,
}

/// The labels of the relationships that are there.
pub open spec fn path_labels(read: GraphData, path: Seq<u64>) -> Seq<Seq<char>>
    decreases path.len(),
{
    if path.len() == 0 {
        Seq::empty()
    } else {
        let before = path_labels(read, path.drop_last());
        match read.edge_at(path.last()) {
            Some(i) => before.push(read.symbol_or(read.edges@[i].label, "?"@)),
            None => before,
        }
    }
}

fn labels_of(read: &GraphData, path: &Vec<u64>) -> (r: Vec<String>)
    ensures
        text::views(r@) == path_labels(*read, path@),
{
    let mut out = no_lines();
    let mut i: usize = 0;
    assert(path@.take(0) =~= Seq::<u64>::empty());
    while i < path.len()
        invariant
            i <= path.len(),
            text::views(out@) == path_labels(*read, path@.take(i as int)),
        decreases path.len() - i,
    {
        assert(path@.take(i + 1).drop_last() =~= path@.take(i as int));
        match read.edge(path[i]) {
            Some(edge) => {
                push_line(&mut out, read.symbol(edge.label, "?"));
            },
            None => {},
        }
        i = i + 1;
    }
    assert(path@.take(path@.len() as int) =~= path@);
    out
}

/// What is printed of a path that a query reached, if its node is there.
pub open spec fn semantic_entry(read: GraphData, hit: SemanticHit) -> Option<Seq<char>> {
    match read.node_at(hit.node) {
        None => None,
        Some(i) => Some(
            hit.score@ + "\tseed="@ + digits::decimal(hit.seed as nat) + "\tnode="@
                + digits::decimal(hit.node as nat) + ("\thops="@ + digits::decimal(hit.path@.len())
                + "\tpath="@ + text::joined(path_labels(read, hit.path@), ">"@) + ("\t"@
                + read.symbol_or(read.nodes@[i].label, "?"@) + "\t"@ + read.concise(
                read.nodes@[i].properties@,
                GraphData::concise_keys(),
            ))),
        ),
    }
}

/// What is printed of the first `upto` paths that a query reached.
pub open spec fn semantic_entries(read: GraphData, hits: Seq<SemanticHit>, upto: nat) -> Seq<
    Seq<char>,
>
    decreases upto,
{
    if upto == 0 {
        Seq::empty()
    } else {
        let before = semantic_entries(read, hits, (upto - 1) as nat);
        match semantic_entry(read, hits[upto - 1]) {
            Some(line) => before.push(line),
            None => before,
        }
    }
}

/// Prints the paths that a query reached.
pub fn semantic_lines(read: &GraphData, hits: &Vec<SemanticHit>) -> (r: Vec<String>)
    ensures
        text::views(r@) == semantic_entries(*read, hits@, hits@.len()),
{
    let mut out = no_lines();
    let mut i: usize = 0;
    while i < hits.len()
        invariant
            i <= hits.len(),
            text::views(out@) == semantic_entries(*read, hits@, i as nat),
        decreases hits.len() - i,
    {
        let hit = &hits[i];
        match read.node(hit.node) {
            None => {},
            Some(node) => {
                let seed = decimal_text(hit.seed);
                let number = decimal_text(hit.node);
                let hops = decimal_text(hit.path.len() as u64);
                let labels = labels_of(read, &hit.path);
                let route = text::join_texts(&labels, ">");
                let label = read.symbol(node.label, "?");
                let what = read.concise_element(&node.properties);
                let head = concat5(
                    hit.score.as_str(),
                    "\tseed=",
                    seed.as_str(),
                    "\tnode=",
                    number.as_str(),
                );
                let middle = concat4("\thops=", hops.as_str(), "\tpath=", route.as_str());
                let end = concat4("\t", label.as_str(), "\t", what.as_str());
                let tail = concat2(middle.as_str(), end.as_str());
                push_line(&mut out, concat2(head.as_str(), tail.as_str()));
            },
        }
        i = i + 1;
    }
    out
}

/// A pattern that a query matched.
#[derive(Clone, Copy, Debug)]
pub struct PatternMatch {
    pub start: u64,
    pub edge: u64,
    pub end: u64,
}

/// What is printed of a node within a pattern.
pub open spec fn pattern_node(read: GraphData, id: u64, node: NodeRecord) -> Seq<char> {
    digits::decimal(id as nat) + ":"@ + read.symbol_or(node.label, "?"@) + " "@ + read.concise(
        node.properties@,
        GraphData::concise_keys(),
    )
}

/// What is printed of a relationship within a pattern.
pub open spec fn pattern_edge(read: GraphData, id: u64, edge: EdgeRecord) -> Seq<char> {
    " -["@ + digits::decimal(id as nat) + ":"@ + read.symbol_or(edge.label, "?"@) + "]-> "@
}

/// What is printed of a pattern that a query matched.
pub open spec fn pattern_entry(read: GraphData, found: PatternMatch) -> Result<
    Seq<char>,
    Seq<char>,
> {
    match read.node_at(found.start) {
        None => Err("matched start disappeared"@),
        Some(s) => match read.edge_at(found.edge) {
            None => Err("matched edge disappeared"@),
            Some(e) => match read.node_at(found.end) {
                None => Err("matched end disappeared"@),
                Some(t) => Ok(
                    pattern_node(read, found.start, read.nodes@[s]) + pattern_edge(
                        read,
                        found.edge,
                        read.edges@[e],
                    ) + pattern_node(read, found.end, read.nodes@[t]),
                ),
            },
        },
    }
}

fn pattern_node_text(read: &GraphData, id: u64, node: &NodeRecord) -> (r: String)
    ensures
        r@ == pattern_node(*read, id, *node),
{
    let number = decimal_text(id);
    let label = read.symbol(node.label, "?");
    let what = read.concise_element(&node.properties);
    concat5(number.as_str(), ":", label.as_str(), " ", what.as_str())
}

fn pattern_line(read: &GraphData, found: PatternMatch) -> (r: Result<String, String>)
    ensures
        line_result(r) == pattern_entry(*read, found),
{
    match read.node(found.start) {
        None => Err("matched start disappeared".to_owned()),
        Some(start) => match read.edge(found.edge) {
            None => Err("matched edge disappeared".to_owned()),
            Some(edge) => match read.node(found.end) {
                None => Err("matched end disappeared".to_owned()),
                Some(end) => {
                    let first = pattern_node_text(read, found.start, start);
                    let number = decimal_text(found.edge);
                    let label = read.symbol(edge.label, "?");
                    let link = concat5(" -[", number.as_str(), ":", label.as_str(), "]-> ");
                    let last = pattern_node_text(read, found.end, end);
                    Ok(concat3(first.as_str(), link.as_str(), last.as_str()))
                },
            },
        },
    }
}

/// What is printed once the first `upto` patterns have followed.
pub open spec fn with_patterns(read: GraphData, found: Seq<PatternMatch>, upto: nat) -> PrintoutView
    decreases upto,
{
    if upto == 0 {
        nothing()
    } else {
        with_patterns(read, found, (upto - 1) as nat).followed_by(
            pattern_entry(read, found[upto - 1]),
        )
    }
}

/// Prints the patterns that a query matched.
pub fn query_lines(read: &GraphData, found: &Vec<PatternMatch>) -> (r: Printout)
    ensures
        r@ == with_patterns(*read, found@, found@.len()),
{
    let mut out = Printout::of(no_lines());
    let mut i: usize = 0;
    while i < found.len()
        invariant
            i <= found.len(),
            out@ == with_patterns(*read, found@, i as nat),
        decreases found.len() - i,
    {
        out.follow(pattern_line(read, found[i]));
        i = i + 1;
    }
    out
}

/// A pattern that a query matched by meaning, its scores as text.
#[derive(Debug)]
pub struct SemanticMatch {
    pub pattern: PatternMatch,
    pub score: String,
    pub start_score: String,
    pub edge_score: Option<String>,
    pub end_score: Option<String>,
}

/// A score that may be absent.
pub open spec fn score_or_dash(score: Option<Seq<char>>) -> Seq<char> {
    match score {
        Some(s) => s,
        None => "-"@,
    }
}

/// The score as it is printed.
pub fn optional_score(score: &Option<String>) -> (r: String)
    ensures
        r@ == score_or_dash(text::opt_view(*score)),
{
    match score {
        Some(s) => s.clone(),
        None => "-".to_owned(),
    }
}

/// What is printed of a pattern that a query matched by meaning.
pub open spec fn semantic_match_entry(read: GraphData, found: SemanticMatch) -> Result<
    Seq<char>,
    Seq<char>,
> {
    match pattern_entry(read, found.pattern) {
        Err(e) => Err(e),
        Ok(line) => Ok(
            found.score@ + "\tstart="@ + found.start_score@ + ("\tedge="@ + score_or_dash(
                text::opt_view(found.edge_score),
            ) + "\tend="@ + score_or_dash(text::opt_view(found.end_score)) + "\t"@ + line),
        ),
    }
}

/// What is printed once the first `upto` patterns by meaning have followed.
pub open spec fn with_semantic_matches(
    read: GraphData,
    found: Seq<SemanticMatch>,
    upto: nat,
) -> PrintoutView
    decreases upto,
{
    if upto == 0 {
        nothing()
    } else {
        with_semantic_matches(read, found, (upto - 1) as nat).followed_by(
            semantic_match_entry(read, found[upto - 1]),
        )
    }
}

/// Prints the patterns that a query matched by meaning.
pub fn semantic_query_lines(read: &GraphData, found: &Vec<SemanticMatch>) -> (r: Printout)
    ensures
        r@ == with_semantic_matches(*read, found@, found@.len()),
{
    let mut out = Printout::of(no_lines());
    let mut i: usize = 0;
    while i < found.len()
        invariant
            i <= found.len(),
            out@ == with_semantic_matches(*read, found@, i as nat),
        decreases found.len() - i,
    {
        let hit = &found[i];
        let next = match pattern_line(read, hit.pattern) {
            Err(message) => Err(message),
            Ok(line) => {
                let edge_score = optional_score(&hit.edge_score);
                let end_score = optional_score(&hit.end_score);
                let head = concat3(hit.score.as_str(), "\tstart=", hit.start_score.as_str());
                let tail = concat6(
                    "\tedge=",
                    edge_score.as_str(),
                    "\tend=",
                    end_score.as_str(),
                    "\t",
                    line.as_str(),
                );
                Ok(concat2(head.as_str(), tail.as_str()))
            },
        };
        assert(line_result(next) == semantic_match_entry(*read, found@[i as int]));
        out.follow(next);
        i = i + 1;
    }
    out
}

/// As many ids as may be listed.
pub open spec fn listed(ids: Seq<u64>, limit: nat) -> Seq<u64> {
    if ids.len() <= limit {
        ids
    } else {
        ids.take(limit as int)
    }
}

/// The lines of ids.
pub open spec fn id_entries(key: Seq<char>, ids: Seq<u64>) -> Seq<Seq<char>> {
    ids.map_values(|id: u64| report::count(key, id as int))
}

/// What is printed of a numeric range: the plan, and as many elements as may
/// be listed, nodes before relationships.
pub open spec fn numeric_range_entries(
    strategy: Seq<char>,
    candidate_upper_bound: u64,
    elapsed_ms: Seq<char>,
    nodes: Seq<u64>,
    edges: Seq<u64>,
    limit: nat,
) -> Seq<Seq<char>> {
    seq![
        report::entry("strategy"@, strategy),
        report::count("candidate_upper_bound"@, candidate_upper_bound as int),
        report::count("matches"@, (nodes.len() + edges.len()) as int),
        report::entry("elapsed_ms"@, elapsed_ms),
    ] + id_entries("node"@, listed(nodes, limit)) + id_entries(
        "edge"@,
        listed(
            edges,
            if nodes.len() <= limit {
                (limit - nodes.len()) as nat
            } else {
                0
            },
        ),
    )
}

fn push_ids(lines: &mut Vec<String>, key: &str, ids: &Vec<u64>, limit: usize)
    ensures
        text::views(final(lines)@) == text::views(old(lines)@) + id_entries(
            key@,
            listed(ids@, limit as nat),
        ),
{
    let ghost before = text::views(lines@);
    let ghost shown = listed(ids@, limit as nat);
    let end: usize = if ids.len() <= limit {
        ids.len()
    } else {
        limit
    };
    let mut i: usize = 0;
    assert(before + id_entries(key@, shown).take(0) =~= before);
    while i < end
        invariant
            i <= end,
            end == shown.len(),
            end <= ids.len(),
            shown == listed(ids@, limit as nat),
            text::views(lines@) == before + id_entries(key@, shown).take(i as int),
        decreases end - i,
    {
        push_count(lines, key, ids[i]);
        proof {
            assert(shown[i as int] == ids@[i as int]);
            assert(id_entries(key@, shown).take(i + 1) =~= id_entries(key@, shown).take(
                i as int,
            ).push(report::count(key@, ids@[i as int] as int)));
            assert(text::views(lines@) =~= before + id_entries(key@, shown).take(i + 1));
        }
        i = i + 1;
    }
    assert(id_entries(key@, shown).take(end as int) =~= id_entries(key@, shown));
}

/// Prints a numeric range.
pub fn numeric_range_lines(
    strategy: &str,
    candidate_upper_bound: u64,
    elapsed_ms: &str,
    nodes: &Vec<u64>,
    edges: &Vec<u64>,
    limit: usize,
) -> (r: Vec<String>)
    requires
        nodes@.len() + edges@.len() <= u64::MAX,
    ensures
        text::views(r@) == numeric_range_entries(
            strategy@,
            candidate_upper_bound,
            elapsed_ms@,
            nodes@,
            edges@,
            limit as nat,
        ),
{
    let mut lines = no_lines();
    push_entry(&mut lines, "strategy", strategy);
    push_count(&mut lines, "candidate_upper_bound", candidate_upper_bound);
    let total: u64 = nodes.len() as u64 + edges.len() as u64;
    push_count(&mut lines, "matches", total);
    push_entry(&mut lines, "elapsed_ms", elapsed_ms);
    assert(text::views(lines@) =~= seq![
        report::entry("strategy"@, strategy@),
        report::count("candidate_upper_bound"@, candidate_upper_bound as int),
        report::count("matches"@, (nodes@.len() + edges@.len()) as int),
        report::entry("elapsed_ms"@, elapsed_ms@),
    ]);
    push_ids(&mut lines, "node", nodes, limit);
    let remaining: usize = if nodes.len() <= limit {
        limit - nodes.len()
    } else {
        0
    };
    push_ids(&mut lines, "edge", edges, remaining);
    lines
}

/// No more elements are listed than may be.
pub proof fn law_listing_is_bounded(nodes: Seq<u64>, edges: Seq<u64>, limit: nat)
    ensures
        listed(nodes, limit).len() + listed(
            edges,
            if nodes.len() <= limit {
                (limit - nodes.len()) as nat
            } else {
                0
            },
        ).len() <= limit,
{
}

} // verus!
