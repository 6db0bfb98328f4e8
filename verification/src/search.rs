//! Ranked search over nodes and relationships.
//!
//! Scores are carried by the bits of their single-precision values and
//! ordered by IEEE 754 total order.

use vstd::prelude::*;
use vstd::relations::*;
use vstd::seq_lib::*;
use vstd::string::*;

use crate::digits;
use crate::evidence;
use crate::evidence::{preferred_property, secondary_property};
use crate::graph;
use crate::graph::{searchable_value, ElementRef, GraphData, Property};
use crate::order;
use crate::order::{sort_ranked, Ranked};
use crate::scene;
use crate::scene::{SceneSelection, SceneSnapshot};
use crate::single;
use crate::text;

verus! {

/// Which retrieval signals a search uses.
#[derive(Clone, Copy, Debug, PartialEq, Eq, Structural)]
pub enum SearchMode {
    Text,
    Semantic,
    Hybrid,
}

impl Default for SearchMode {
    fn default() -> (r: SearchMode)
        ensures
            r == SearchMode::Hybrid,
    {
        SearchMode::Hybrid
    }
}

impl SearchMode {
    pub open spec fn name(self) -> Seq<char> {
        match self {
            SearchMode::Text => "Text"@,
            SearchMode::Semantic => "Semantic"@,
            SearchMode::Hybrid => "Hybrid"@,
        }
    }

    /// The mode's name.
    pub fn label(self) -> (r: &'static str)
        ensures
            r@ == self.name(),
    {
        match self {
            SearchMode::Text => "Text",
            SearchMode::Semantic => "Semantic",
            SearchMode::Hybrid => "Hybrid",
        }
    }
}

/// One whole-element search result. Nodes and relationships share the same
/// ranked result surface because both can carry native vectors.
#[derive(Debug)]
pub struct SearchHit {
    pub element: ElementRef,
    pub label: String,
    pub title: String,
    pub detail: String,
    pub score: u32,
    pub lexical_score: Option<u32>,
    pub semantic_score: Option<u32>,
    pub vector_index: Option<u32>,
}

/// The contents of a hit.
pub struct HitView {
    pub element: ElementRef,
    pub label: Seq<char>,
    pub title: Seq<char>,
    pub detail: Seq<char>,
    pub score: u32,
    pub signals: SignalsView,
}

/// The signals that an element was found by.
pub struct SignalsView {
    pub element: ElementRef,
    pub lexical: Option<u32>,
    pub semantic: Option<u32>,
    pub vector_index: Option<u32>,
}

impl View for SearchHit {
    type V = HitView;

    open spec fn view(&self) -> HitView {
        HitView {
            element: self.element,
            label: self.label@,
            title: self.title@,
            detail: self.detail@,
            score: self.score,
            signals: SignalsView {
                element: self.element,
                lexical: self.lexical_score,
                semantic: self.semantic_score,
                vector_index: self.vector_index,
            },
        }
    }
}

/// The kind of an element, in capitals.
pub open spec fn kind_name(element: ElementRef) -> Seq<char> {
    match element {
        ElementRef::Node(_) => "NODE"@,
        ElementRef::Edge(_) => "EDGE"@,
    }
}

/// The id of an element.
pub open spec fn element_id(element: ElementRef) -> u64 {
    match element {
        ElementRef::Node(id) => id,
        ElementRef::Edge(id) => id,
    }
}

/// Where an element is shown in a snapshot.
pub open spec fn selection_of(s: SceneSnapshot, element: ElementRef) -> Option<SceneSelection> {
    match element {
        ElementRef::Node(id) => match scene::position_of(s.nodes.ids@, id) {
            Some(i) => Some(SceneSelection::Node(i)),
            None => None,
        },
        ElementRef::Edge(id) => match scene::position_of(s.edges.ids@, id) {
            Some(i) => Some(SceneSelection::Edge(i)),
            None => None,
        },
    }
}

impl SearchHit {
    /// The kind of the element, in capitals.
    pub fn kind_label(&self) -> (r: &'static str)
        ensures
            r@ == kind_name(self.element),
    {
        match self.element {
            ElementRef::Node(_) => "NODE",
            ElementRef::Edge(_) => "EDGE",
        }
    }

    /// The id of the element.
    pub fn id(&self) -> (r: u64)
        ensures
            r == element_id(self.element),
    {
        match self.element {
            ElementRef::Node(id) => id,
            ElementRef::Edge(id) => id,
        }
    }

    /// Where the element is shown in a snapshot.
    pub fn scene_selection(&self, snapshot: &SceneSnapshot) -> (r: Option<SceneSelection>)
        requires
            snapshot.wf(),
        ensures
            r == selection_of(*snapshot, self.element),
    {
        match self.element {
            ElementRef::Node(id) => match snapshot.node_index(id) {
                Some(i) => Some(SceneSelection::Node(i)),
                None => None,
            },
            ElementRef::Edge(id) => match snapshot.edge_index(id) {
                Some(i) => Some(SceneSelection::Edge(i)),
                None => None,
            },
        }
    }
}

/// The outcome of a search.
#[derive(Debug)]
pub struct SearchReport {
    pub query: String,
    pub mode: SearchMode,
    pub hits: Vec<SearchHit>,
    /// The time taken, in milliseconds with one decimal.
    pub elapsed_ms: String,
    pub embedding_model: Option<String>,
    /// Hybrid search can still return text results if its semantic provider
    /// is unavailable; the reason remains visible.
    pub warning: Option<String>,
}

/// The order of elements: nodes before relationships, then by id.
pub open spec fn element_leq(a: ElementRef, b: ElementRef) -> bool {
    match (a, b) {
        (ElementRef::Node(x), ElementRef::Node(y)) => x <= y,
        (ElementRef::Edge(x), ElementRef::Edge(y)) => x <= y,
        (ElementRef::Node(_), ElementRef::Edge(_)) => true,
        (ElementRef::Edge(_), ElementRef::Node(_)) => false,
    }
}

fn element_is_leq(a: ElementRef, b: ElementRef) -> (r: bool)
    ensures
        r == element_leq(a, b),
{
    match (a, b) {
        (ElementRef::Node(x), ElementRef::Node(y)) => x <= y,
        (ElementRef::Edge(x), ElementRef::Edge(y)) => x <= y,
        (ElementRef::Node(_), ElementRef::Edge(_)) => true,
        (ElementRef::Edge(_), ElementRef::Node(_)) => false,
    }
}

/// A candidate: an element, its score and the vector that scored.
#[derive(Clone, Copy, Debug, PartialEq, Eq, Structural)]
pub struct RankedElement {
    pub element: ElementRef,
    pub score: u32,
    pub vector_index: u32,
}

impl View for RankedElement {
    type V = RankedElement;

    open spec fn view(&self) -> RankedElement {
        *self
    }
}

impl Ranked for RankedElement {
    /// Best first: by descending score, then descending element, then
    /// descending vector.
    open spec fn leq(a: RankedElement, b: RankedElement) -> bool {
        let x = single::total_place(a.score);
        let y = single::total_place(b.score);
        if x != y {
            x > y
        } else if a.element != b.element {
            element_leq(b.element, a.element)
        } else {
            a.vector_index >= b.vector_index
        }
    }

    proof fn order_is_total() {
    }

    fn is_leq(&self, other: &RankedElement) -> (r: bool) {
        let x: i64 = single::place_of(self.score);
        let y: i64 = single::place_of(other.score);
        if x != y {
            x > y
        } else if self.element != other.element {
            element_is_leq(other.element, self.element)
        } else {
            self.vector_index >= other.vector_index
        }
    }
}

/// Whether a score counts as a match: anything but a number at most zero.
pub open spec fn counts(score: u32) -> bool {
    single::nan(score) || single::magnitude(score) > 0
}

/// Whether `a` stands strictly before `b`.
pub open spec fn beats(a: RankedElement, b: RankedElement) -> bool {
    !RankedElement::leq(b, a)
}

/// Where a candidate goes among ranked ones: before the first that it beats.
pub open spec fn slot_for(ranked: Seq<RankedElement>, c: RankedElement, from: int) -> int
    decreases ranked.len() - from,
{
    if from < 0 || from >= ranked.len() {
        ranked.len() as int
    } else if beats(c, ranked[from]) {
        from
    } else {
        slot_for(ranked, c, from + 1)
    }
}

/// The ranked candidates with one more, cut to `limit`.
pub open spec fn retained_with(ranked: Seq<RankedElement>, c: RankedElement, limit: nat) -> Seq<
    RankedElement,
> {
    if !counts(c.score) || limit == 0 {
        ranked
    } else {
        let grown = ranked.insert(slot_for(ranked, c, 0), c);
        if grown.len() > limit {
            grown.take(limit as int)
        } else {
            grown
        }
    }
}

/// The candidates that remain when they come one after another.
pub open spec fn retained(candidates: Seq<RankedElement>, limit: nat) -> Seq<RankedElement>
    decreases candidates.len(),
{
    if candidates.len() == 0 {
        Seq::empty()
    } else {
        retained_with(retained(candidates.drop_last(), limit), candidates.last(), limit)
    }
}

proof fn lemma_slot_range(ranked: Seq<RankedElement>, c: RankedElement, from: int)
    requires
        0 <= from <= ranked.len(),
    ensures
        from <= slot_for(ranked, c, from) <= ranked.len(),
        forall|j: int| from <= j < slot_for(ranked, c, from) ==> !beats(c, #[trigger] ranked[j]),
        slot_for(ranked, c, from) < ranked.len() ==> beats(
            c,
            ranked[slot_for(ranked, c, from)],
        ),
    decreases ranked.len() - from,
{
    if from < ranked.len() && !beats(c, ranked[from]) {
        lemma_slot_range(ranked, c, from + 1);
    }
}

/// Keeps the best `limit` candidates, best first.
pub fn retain_candidate(ranked: &mut Vec<RankedElement>, candidate: RankedElement, limit: usize)
    requires
        old(ranked)@.len() <= limit,
    ensures
        final(ranked)@ == retained_with(old(ranked)@, candidate, limit as nat),
        final(ranked)@.len() <= limit,
{
    if !score_counts(candidate.score) || limit == 0 {
        return;
    }
    let ghost before = ranked@;
    let mut k: usize = 0;
    while k < ranked.len() && ranked[k].is_leq(&candidate)
        invariant
            k <= ranked.len(),
            ranked@ == before,
            slot_for(before, candidate, 0) == slot_for(before, candidate, k as int),
        decreases ranked.len() - k,
    {
        k = k + 1;
    }
    proof {
        assert(slot_for(before, candidate, 0) == k);
    }
    if ranked.len() < limit {
        ranked.insert(k, candidate);
    } else if k < ranked.len() {
        ranked.pop();
        ranked.insert(k, candidate);
        proof {
            assert(ranked@ =~= before.insert(k as int, candidate).take(limit as int));
        }
    } else {
        proof {
            assert(ranked@ =~= before.insert(k as int, candidate).take(limit as int));
        }
    }
}

fn score_counts(score: u32) -> (r: bool)
    ensures
        r == counts(score),
{
    let zero: u32 = 0;
    single::is_less(zero, score) || (!single::is_finite(score) && score % 0x80_0000 != 0)
}

proof fn lemma_insert_is_sort(s: Seq<RankedElement>, c: RankedElement)
    ensures
        ({
            let sorted = order::ranked_sort::<RankedElement>(s);
            order::ranked_sort::<RankedElement>(s.push(c)) == sorted.insert(
                slot_for(sorted, c, 0),
                c,
            )
        }),
{
    broadcast use group_to_multiset_ensures;

    let leq = order::ranking::<RankedElement>();
    let sorted = order::ranked_sort::<RankedElement>(s);
    order::lemma_ranked_sort::<RankedElement>(s);
    lemma_slot_range(sorted, c, 0);
    let p = slot_for(sorted, c, 0);
    let grown = sorted.insert(p, c);
    assert forall|i: int, j: int| 0 <= i < j < grown.len() implies #[trigger] leq(
        grown[i],
        grown[j],
    ) by {
        if j < p {
            assert(leq(sorted[i], sorted[j]));
        } else if j == p {
            assert(!beats(c, sorted[i]));
        } else if i < p {
            assert(leq(sorted[i], sorted[j - 1]));
        } else if i == p {
            assert(beats(c, sorted[p]));
            if p < j - 1 {
                assert(leq(sorted[p], sorted[j - 1]));
            }
        } else {
            assert(leq(sorted[i - 1], sorted[j - 1]));
        }
    }
    to_multiset_insert(sorted, p, c);
    to_multiset_build(s, c);
    order::lemma_is_ranked_sort::<RankedElement>(s.push(c), grown);
}

proof fn lemma_slot_of_prefix(sorted: Seq<RankedElement>, c: RankedElement, limit: nat, from: int)
    requires
        limit <= sorted.len(),
        0 <= from <= limit,
    ensures
        slot_for(sorted.take(limit as int), c, from) == if slot_for(sorted, c, from) < limit {
            slot_for(sorted, c, from)
        } else {
            limit as int
        },
    decreases limit - from,
{
    if from < limit && !beats(c, sorted[from]) {
        lemma_slot_of_prefix(sorted, c, limit, from + 1);
    } else if from == limit {
        lemma_slot_range(sorted, c, from);
    }
}

/// Retaining candidates one by one keeps the best of all that count, in
/// order: sorting them all and cutting at the limit gives the same.
pub proof fn law_retained_are_the_best(candidates: Seq<RankedElement>, limit: nat)
    requires
        limit > 0,
    ensures
        ({
            let matches = candidates.filter(|c: RankedElement| counts(c.score));
            let sorted = order::ranked_sort::<RankedElement>(matches);
            retained(candidates, limit) == if sorted.len() > limit {
                sorted.take(limit as int)
            } else {
                sorted
            }
        }),
    decreases candidates.len(),
{
    let keep = |c: RankedElement| counts(c.score);
    if candidates.len() == 0 {
        assert(candidates.filter(keep) =~= Seq::<RankedElement>::empty());
        order::lemma_ranked_sort::<RankedElement>(Seq::<RankedElement>::empty());
        assert(order::ranked_sort::<RankedElement>(Seq::<RankedElement>::empty()) =~= Seq::<
            RankedElement,
        >::empty());
    } else {
        let prior = candidates.drop_last();
        let c = candidates.last();
        law_retained_are_the_best(prior, limit);
        assert(prior.push(c) =~= candidates);
        prior.lemma_filter_push(c, keep);
        let before = prior.filter(keep);
        order::lemma_ranked_sort::<RankedElement>(before);
        let sorted = order::ranked_sort::<RankedElement>(before);
        if counts(c.score) {
            lemma_insert_is_sort(before, c);
            lemma_slot_range(sorted, c, 0);
            let p = slot_for(sorted, c, 0);
            let grown = sorted.insert(p, c);
            if sorted.len() > limit {
                lemma_slot_of_prefix(sorted, c, limit, 0);
                let cut = sorted.take(limit as int);
                let q = slot_for(cut, c, 0);
                assert(cut.insert(q, c).take(limit as int) =~= grown.take(limit as int));
            }
        }
    }
}

/// Whether `part` occurs in `whole` at position `at`.
pub open spec fn occurs_at(whole: Seq<char>, part: Seq<char>, at: int) -> bool {
    0 <= at && at + part.len() <= whole.len() && whole.subrange(at, at + part.len()) == part
}

/// Whether `part` occurs in `whole`.
pub open spec fn occurs(whole: Seq<char>, part: Seq<char>) -> bool {
    exists|at: int| #[trigger] occurs_at(whole, part, at)
}

fn chars_occur_at(whole: &Vec<char>, part: &Vec<char>, at: usize) -> (r: bool)
    requires
        at + part@.len() <= whole@.len(),
    ensures
        r == occurs_at(whole@, part@, at as int),
{
    let mut i: usize = 0;
    let total: usize = whole.len();
    while i < part.len()
        invariant
            total == whole@.len(),
            at + part@.len() <= whole@.len(),
            i <= part.len(),
            forall|j: int| 0 <= j < i ==> whole@[at + j] == part@[j],
        decreases part.len() - i,
    {
        if whole[at + i] != part[i] {
            assert(whole@.subrange(at as int, at + part@.len())[i as int] == whole@[at + i]);
            return false;
        }
        i = i + 1;
    }
    assert(whole@.subrange(at as int, at + part@.len()) =~= part@);
    true
}

/// Whether one text occurs in another.
pub fn contains_text(whole: &str, part: &str) -> (r: bool)
    ensures
        r == occurs(whole@, part@),
{
    let w = text::chars_of(whole);
    let p = text::chars_of(part);
    if p.len() > w.len() {
        return false;
    }
    let last: usize = w.len() - p.len();
    let mut at: usize = 0;
    while at <= last
        invariant
            w@ == whole@,
            p@ == part@,
            last == w@.len() - p@.len(),
            at <= last + 1,
            forall|k: int| 0 <= k < at ==> !occurs_at(whole@, part@, k),
        decreases last + 1 - at,
    {
        if chars_occur_at(&w, &p, at) {
            assert(occurs_at(whole@, part@, at as int));
            return true;
        }
        if at == last {
            assert forall|k: int| !occurs_at(whole@, part@, k) by {}
            return false;
        }
        at = at + 1;
    }
    false
}

/// How a text matches the whole query.
#[derive(Clone, Copy, Debug, PartialEq, Eq, Structural)]
pub enum PhraseMatch {
    Exact,
    Contained,
    Absent,
}

/// How a text matches a query: the whole phrase, and how many of its terms.
#[derive(Clone, Copy, Debug, PartialEq, Eq, Structural)]
pub struct TextMatch {
    pub phrase: PhraseMatch,
    pub matched: usize,
}

pub open spec fn phrase_match(content: Seq<char>, phrase: Seq<char>) -> PhraseMatch {
    if content == phrase {
        PhraseMatch::Exact
    } else if phrase.len() > 0 && occurs(content, phrase) {
        PhraseMatch::Contained
    } else {
        PhraseMatch::Absent
    }
}

/// How many of the terms occur in a text.
pub open spec fn terms_in(content: Seq<char>, terms: Seq<Seq<char>>) -> nat
    decreases terms.len(),
{
    if terms.len() == 0 {
        0
    } else {
        terms_in(content, terms.drop_last()) + if occurs(content, terms.last()) {
            1nat
        } else {
            0
        }
    }
}

pub open spec fn text_match(content: Seq<char>, phrase: Seq<char>, terms: Seq<Seq<char>>) -> TextMatch {
    TextMatch {
        phrase: phrase_match(content, phrase),
        matched: terms_in(content, terms) as usize,
    }
}

/// Matches a text in small letters against a query.
pub fn match_text(content: &str, phrase: &str, terms: &Vec<String>) -> (r: TextMatch)
    ensures
        r == text_match(content@, phrase@, text::views(terms@)),
{
    let matched_phrase = if text::same_text(content, phrase) {
        PhraseMatch::Exact
    } else if !phrase.is_empty() && contains_text(content, phrase) {
        PhraseMatch::Contained
    } else {
        PhraseMatch::Absent
    };
    let ghost views = text::views(terms@);
    let mut matched: usize = 0;
    let mut i: usize = 0;
    while i < terms.len()
        invariant
            i <= terms.len(),
            views == text::views(terms@),
            matched <= i,
            matched == terms_in(content@, views.take(i as int)),
        decreases terms.len() - i,
    {
        assert(views.take(i + 1).drop_last() =~= views.take(i as int));
        if contains_text(content, terms[i].as_str()) {
            matched = matched + 1;
        }
        i = i + 1;
    }
    assert(views.take(views.len() as int) =~= views);
    TextMatch { phrase: matched_phrase, matched }
}

/// How much a matching text weighs, by where it stands.
#[derive(Clone, Copy, Debug, PartialEq, Eq, Structural)]
pub enum MatchWeight {
    Label,
    Title,
    Body,
    Other,
}

/// The weight of a property by its key.
pub open spec fn key_weight(key: Seq<char>) -> MatchWeight {
    if key == "title"@ || key == "name"@ || key == "headline"@ || key == "path"@ || key
        == "tag_name"@ || key == "login"@ {
        MatchWeight::Title
    } else if key == "body"@ || key == "description"@ || key == "message"@ || key == "url"@ {
        MatchWeight::Body
    } else {
        MatchWeight::Other
    }
}

fn weight_of(key: &str) -> (r: MatchWeight)
    ensures
        r == key_weight(key@),
{
    if text::same_text(key, "title") || text::same_text(key, "name") || text::same_text(
        key,
        "headline",
    ) || text::same_text(key, "path") || text::same_text(key, "tag_name") || text::same_text(
        key,
        "login",
    ) {
        MatchWeight::Title
    } else if text::same_text(key, "body") || text::same_text(key, "description")
        || text::same_text(key, "message") || text::same_text(key, "url") {
        MatchWeight::Body
    } else {
        MatchWeight::Other
    }
}

impl GraphData {
    /// How the first `upto` properties match: those with searchable text, in
    /// order, in small letters.
    pub open spec fn property_matches(
        self,
        properties: Seq<Property>,
        phrase: Seq<char>,
        terms: Seq<Seq<char>>,
        upto: nat,
    ) -> Seq<(MatchWeight, TextMatch)>
        decreases upto,
    {
        if upto == 0 {
            Seq::empty()
        } else {
            let before = self.property_matches(properties, phrase, terms, (upto - 1) as nat);
            let property = properties[upto - 1];
            match graph::searchable(property.value@) {
                None => before,
                Some(value) => before.push(
                    (
                        key_weight(self.symbol_or(property.key, ""@)),
                        text_match(text::ascii_lowered(value), phrase, terms),
                    ),
                ),
            }
        }
    }

    /// How an element matches: its label, then its properties.
    pub open spec fn element_matches(
        self,
        label: Seq<char>,
        properties: Seq<Property>,
        phrase: Seq<char>,
        terms: Seq<Seq<char>>,
    ) -> Seq<(MatchWeight, TextMatch)> {
        seq![(MatchWeight::Label, text_match(text::ascii_lowered(label), phrase, terms))]
            + self.property_matches(properties, phrase, terms, properties.len())
    }

    /// Matches an element against a query, with the weight of each place.
    pub fn lexical_matches(
        &self,
        label: &str,
        properties: &Vec<Property>,
        phrase: &str,
        terms: &Vec<String>,
    ) -> (r: Vec<(MatchWeight, TextMatch)>)
        ensures
            r@ == self.element_matches(label@, properties@, phrase@, text::views(terms@)),
    {
        let mut out: Vec<(MatchWeight, TextMatch)> = Vec::new();
        let lowered = text::ascii_lowercase(label);
        let first = match_text(lowered.as_str(), phrase, terms);
        out.push((MatchWeight::Label, first));
        let ghost head = out@;
        let mut i: usize = 0;
        proof {
            assert(head + self.property_matches(properties@, phrase@, text::views(terms@), 0)
                =~= head);
        }
        while i < properties.len()
            invariant
                i <= properties.len(),
                out@ == head + self.property_matches(
                    properties@,
                    phrase@,
                    text::views(terms@),
                    i as nat,
                ),
            decreases properties.len() - i,
        {
            let property = &properties[i];
            match searchable_value(&property.value) {
                Some(value) => {
                    let key = self.symbol(property.key, "");
                    let lowered = text::ascii_lowercase(value.as_str());
                    let found = match_text(lowered.as_str(), phrase, terms);
                    let ghost before = out@;
                    out.push((weight_of(key.as_str()), found));
                    proof {
                        assert(out@ =~= head + self.property_matches(
                            properties@,
                            phrase@,
                            text::views(terms@),
                            (i + 1) as nat,
                        ));
                    }
                },
                None => {},
            }
            i = i + 1;
        }
        proof {
            assert(head =~= seq![
                (
                    MatchWeight::Label,
                    text_match(text::ascii_lowered(label@), phrase@, text::views(terms@)),
                ),
            ]);
        }
        out
    }
}

/// A search about to run.
#[derive(Debug)]
pub struct SearchPlan {
    /// The query without whitespace at either end.
    pub query: String,
    /// The query in small letters.
    pub phrase: String,
    /// The words of the phrase.
    pub terms: Vec<String>,
    /// How many candidates each signal contributes.
    pub candidate_limit: usize,
    pub wants_text: bool,
    pub wants_vectors: bool,
}

/// Six candidates for every wanted hit, at least thirty-two.
pub open spec fn candidates_for(limit: nat) -> nat {
    let wanted: nat = if limit == 0 {
        1
    } else {
        limit
    };
    let six: nat = if wanted * 6 <= usize::MAX {
        wanted * 6
    } else {
        usize::MAX as nat
    };
    if six < 32 {
        32
    } else {
        six
    }
}

impl GraphData {
    /// The elements with their text scores: the nodes, then the
    /// relationships.
    pub open spec fn scored_elements(self, scores: Seq<u32>) -> Seq<RankedElement> {
        Seq::new(
            self.nodes@.len() + self.edges@.len(),
            |i: int|
                RankedElement {
                    element: if i < self.nodes@.len() {
                        ElementRef::Node(self.nodes@[i].id)
                    } else {
                        ElementRef::Edge(self.edges@[i - self.nodes@.len()].id)
                    },
                    score: scores[i],
                    vector_index: 0,
                },
        )
    }

    /// The best text candidates of all elements, best first. `scores` has the
    /// text score of each node, and then of each relationship.
    pub fn lexical_candidates(&self, scores: &Vec<u32>, limit: usize) -> (r: Vec<RankedElement>)
        requires
            scores@.len() == self.nodes@.len() + self.edges@.len(),
        ensures
            r@ == retained(self.scored_elements(scores@), limit as nat),
    {
        let ghost all = self.scored_elements(scores@);
        let mut ranked: Vec<RankedElement> = Vec::new();
        let node_count: usize = self.nodes.len();
        let total: usize = scores.len();
        let mut i: usize = 0;
        proof {
            assert(all.take(0) =~= Seq::<RankedElement>::empty());
            assert(ranked@ =~= retained(all.take(0), limit as nat));
        }
        while i < total
            invariant
                i <= total,
                total == scores@.len(),
                node_count == self.nodes@.len(),
                scores@.len() == self.nodes@.len() + self.edges@.len(),
                all == self.scored_elements(scores@),
                ranked@ == retained(all.take(i as int), limit as nat),
                ranked@.len() <= limit,
            decreases total - i,
        {
            let element = if i < node_count {
                ElementRef::Node(self.nodes[i].id)
            } else {
                ElementRef::Edge(self.edges[i - node_count].id)
            };
            retain_candidate(
                &mut ranked,
                RankedElement { element, score: scores[i], vector_index: 0 },
                limit,
            );
            proof {
                assert(all.take(i + 1).drop_last() =~= all.take(i as int));
                assert(all.take(i + 1).last() == all[i as int]);
            }
            i = i + 1;
        }
        assert(all.take(total as int) =~= all);
        ranked
    }
}

/// Prepares a search, or says that the query is empty.
pub fn plan_search(query: &str, mode: SearchMode, limit: usize) -> (r: Result<SearchPlan, String>)
    ensures
        match r {
            Err(e) => text::is_blank(query@) && e@ == "search query is empty"@,
            Ok(plan) => {
                &&& !text::is_blank(query@)
                &&& plan.query@ == text::trimmed(query@)
                &&& plan.phrase@ == text::ascii_lowered(text::trimmed(query@))
                &&& text::views(plan.terms@) == text::nonempty_pieces(
                    plan.phrase@,
                    text::Separator::NonWord,
                )
                &&& plan.candidate_limit == candidates_for(limit as nat)
                &&& plan.wants_text == (mode != SearchMode::Semantic)
                &&& plan.wants_vectors == (mode != SearchMode::Text)
            },
        },
{
    let trimmed = text::trim_text(query);
    if trimmed.as_str().is_empty() {
        return Err("search query is empty".to_owned());
    }
    let phrase = text::ascii_lowercase(trimmed.as_str());
    let terms = text::split_nonempty(phrase.as_str(), text::Separator::NonWord);
    let wanted: usize = if limit == 0 {
        1
    } else {
        limit
    };
    let six: usize = match wanted.checked_mul(6) {
        Some(n) => n,
        None => usize::MAX,
    };
    let candidate_limit: usize = if six < 32 {
        32
    } else {
        six
    };
    let wants_text = match mode {
        SearchMode::Semantic => false,
        SearchMode::Text => true,
        SearchMode::Hybrid => true,
    };
    let wants_vectors = match mode {
        SearchMode::Text => false,
        SearchMode::Semantic => true,
        SearchMode::Hybrid => true,
    };
    Ok(SearchPlan { query: trimmed, phrase, terms, candidate_limit, wants_text, wants_vectors })
}

/// The signals that an element was found by.
#[derive(Clone, Copy, Debug, PartialEq, Eq, Structural)]
pub struct Signals {
    pub element: ElementRef,
    pub lexical: Option<u32>,
    pub semantic: Option<u32>,
    pub vector_index: Option<u32>,
}

impl View for Signals {
    type V = SignalsView;

    open spec fn view(&self) -> SignalsView {
        SignalsView {
            element: self.element,
            lexical: self.lexical,
            semantic: self.semantic,
            vector_index: self.vector_index,
        }
    }
}

/// The first position from `from` on that holds the element's signals.
pub open spec fn signals_at(list: Seq<Signals>, element: ElementRef, from: int) -> int
    decreases list.len() - from,
{
    if from < 0 || from >= list.len() {
        list.len() as int
    } else if list[from].element == element {
        from
    } else {
        signals_at(list, element, from + 1)
    }
}

/// The signals with a text score for an element, held between 0 and 1.
pub open spec fn with_lexical(list: Seq<Signals>, element: ElementRef, value: u32) -> Seq<Signals> {
    let score = single::held_unit(value);
    let k = signals_at(list, element, 0);
    if k < list.len() {
        list.update(k, Signals { lexical: Some(score), ..list[k] })
    } else {
        list.push(
            Signals { element, lexical: Some(score), semantic: None, vector_index: None },
        )
    }
}

/// The signals with a vector score for an element, held between 0 and 1: the
/// greater score stays, and the earlier of two that are not less than each
/// other.
pub open spec fn with_semantic(list: Seq<Signals>, c: RankedElement) -> Seq<Signals> {
    let found = single::held_unit(c.score);
    let k = signals_at(list, c.element, 0);
    if k < list.len() {
        let better = match list[k].semantic {
            None => true,
            Some(score) => single::less(score, found),
        };
        if better {
            list.update(
                k,
                Signals { semantic: Some(found), vector_index: Some(c.vector_index), ..list[k] },
            )
        } else {
            list
        }
    } else {
        list.push(
            Signals {
                element: c.element,
                lexical: None,
                semantic: Some(found),
                vector_index: Some(c.vector_index),
            },
        )
    }
}

/// The text scores of the first `upto` candidates.
pub open spec fn lexical_signals(lexical: Seq<RankedElement>, upto: nat) -> Seq<Signals>
    decreases upto,
{
    if upto == 0 {
        Seq::empty()
    } else {
        with_lexical(
            lexical_signals(lexical, (upto - 1) as nat),
            lexical[upto - 1].element,
            lexical[upto - 1].score,
        )
    }
}

/// `list` with the vector scores of the first `upto` candidates.
pub open spec fn fused(list: Seq<Signals>, semantic: Seq<RankedElement>, upto: nat) -> Seq<Signals>
    decreases upto,
{
    if upto == 0 {
        list
    } else {
        with_semantic(fused(list, semantic, (upto - 1) as nat), semantic[upto - 1])
    }
}

fn find_signals(list: &Vec<Signals>, element: ElementRef) -> (r: usize)
    ensures
        r == signals_at(list@, element, 0),
        r <= list@.len(),
{
    let mut i: usize = 0;
    while i < list.len() && list[i].element != element
        invariant
            i <= list.len(),
            signals_at(list@, element, 0) == signals_at(list@, element, i as int),
        decreases list.len() - i,
    {
        i = i + 1;
    }
    i
}

/// What the vector side of a search came to.
#[derive(Debug)]
pub enum SemanticOutcome {
    /// The mode asks for no vectors.
    NotAsked,
    /// The query could not be embedded.
    EmbeddingFailed(String),
    /// The engine's vector search failed.
    SearchFailed(String),
    /// Candidates with normalized scores.
    Hits(Vec<RankedElement>),
}

/// The signals of a search, and what a reader should know of them.
#[derive(Debug)]
pub struct FusedSignals {
    pub signals: Vec<Signals>,
    pub warning: Option<String>,
}

pub open spec fn semantic_warning(error: Seq<char>) -> Seq<char> {
    "Semantic retrieval unavailable ("@ + error + "); showing text matches"@
}

/// The text candidates that a mode takes: none in a semantic search.
pub open spec fn text_side(mode: SearchMode, lexical: Seq<RankedElement>) -> Seq<RankedElement> {
    if mode == SearchMode::Semantic {
        Seq::empty()
    } else {
        lexical
    }
}

/// The signals of a search and its warning, or why it fails. A text search
/// takes no notice of vectors.
pub open spec fn fusion(
    mode: SearchMode,
    lexical: Seq<RankedElement>,
    semantic: SemanticOutcome,
) -> Result<(Seq<Signals>, Option<Seq<char>>), Seq<char>> {
    let side = text_side(mode, lexical);
    let base = lexical_signals(side, side.len());
    if mode == SearchMode::Text {
        Ok((base, None))
    } else {
        match semantic {
            SemanticOutcome::NotAsked => Ok((base, None)),
            SemanticOutcome::EmbeddingFailed(error) => if mode == SearchMode::Hybrid {
                Ok((base, Some(semantic_warning(error@))))
            } else {
                Err(error@)
            },
            SemanticOutcome::SearchFailed(error) => Err("semantic search failed: "@ + error@),
            SemanticOutcome::Hits(hits) => Ok((fused(base, hits@, hits@.len()), None)),
        }
    }
}

/// The signals of a search and its warning, or the message in their place.
pub open spec fn fusion_result(r: Result<FusedSignals, String>) -> Result<
    (Seq<Signals>, Option<Seq<char>>),
    Seq<char>,
> {
    match r {
        Ok(found) => Ok((found.signals@, text::opt_view(found.warning))),
        Err(message) => Err(message@),
    }
}

fn gather_lexical(lexical: &Vec<RankedElement>) -> (r: Vec<Signals>)
    ensures
        r@ == lexical_signals(lexical@, lexical@.len()),
{
    let mut signals: Vec<Signals> = Vec::new();
    let mut i: usize = 0;
    while i < lexical.len()
        invariant
            i <= lexical.len(),
            signals@ == lexical_signals(lexical@, i as nat),
        decreases lexical.len() - i,
    {
        let c = lexical[i];
        let score: u32 = single::hold_unit(c.score);
        let k: usize = find_signals(&signals, c.element);
        if k < signals.len() {
            let old_entry = signals[k];
            signals.set(
                k,
                Signals {
                    element: old_entry.element,
                    lexical: Some(score),
                    semantic: old_entry.semantic,
                    vector_index: old_entry.vector_index,
                },
            );
        } else {
            signals.push(
                Signals {
                    element: c.element,
                    lexical: Some(score),
                    semantic: None,
                    vector_index: None,
                },
            );
        }
        i = i + 1;
    }
    signals
}

fn gather_semantic(signals: &mut Vec<Signals>, hits: &Vec<RankedElement>)
    ensures
        final(signals)@ == fused(old(signals)@, hits@, hits@.len()),
{
    let ghost base = signals@;
    let mut k: usize = 0;
    while k < hits.len()
        invariant
            k <= hits.len(),
            signals@ == fused(base, hits@, k as nat),
        decreases hits.len() - k,
    {
        let c = hits[k];
        let found: u32 = single::hold_unit(c.score);
        let at: usize = find_signals(signals, c.element);
        if at < signals.len() {
            let old_entry = signals[at];
            let better = match old_entry.semantic {
                None => true,
                Some(score) => single::is_less(score, found),
            };
            if better {
                signals.set(
                    at,
                    Signals {
                        element: old_entry.element,
                        lexical: old_entry.lexical,
                        semantic: Some(found),
                        vector_index: Some(c.vector_index),
                    },
                );
            }
        } else {
            signals.push(
                Signals {
                    element: c.element,
                    lexical: None,
                    semantic: Some(found),
                    vector_index: Some(c.vector_index),
                },
            );
        }
        k = k + 1;
    }
}

/// Fuses text and vector candidates, one entry per element. The mode decides
/// which are taken: no text candidates in a semantic search, no vectors in a
/// text search. A hybrid search goes on without vectors where the query cannot
/// be embedded, and says so; a semantic one fails.
pub fn fuse_signals(
    mode: SearchMode,
    lexical: &Vec<RankedElement>,
    semantic: SemanticOutcome,
) -> (r: Result<FusedSignals, String>)
    ensures
        fusion_result(r) == fusion(mode, lexical@, semantic),
        r matches Ok(found) ==> forall|i: int|
            0 <= i < found.signals@.len() ==> follows(mode, (#[trigger] found.signals@[i])@),
{
    proof {
        law_signals_follow_the_mode(mode, lexical@, semantic);
    }
    match mode {
        SearchMode::Text => {
            return Ok(FusedSignals { signals: gather_lexical(lexical), warning: None });
        },
        _ => {},
    }
    let mut signals: Vec<Signals> = match mode {
        SearchMode::Semantic => Vec::new(),
        _ => gather_lexical(lexical),
    };
    let ghost side = text_side(mode, lexical@);
    assert(signals@ =~= lexical_signals(side, side.len()));
    match semantic {
        SemanticOutcome::NotAsked => Ok(FusedSignals { signals, warning: None }),
        SemanticOutcome::EmbeddingFailed(error) => match mode {
            SearchMode::Hybrid => {
                let warning = text::concat3(
                    "Semantic retrieval unavailable (",
                    error.as_str(),
                    "); showing text matches",
                );
                Ok(FusedSignals { signals, warning: Some(warning) })
            },
            _ => Err(error),
        },
        SemanticOutcome::SearchFailed(error) => Err(
            text::concat2("semantic search failed: ", error.as_str()),
        ),
        SemanticOutcome::Hits(hits) => {
            gather_semantic(&mut signals, &hits);
            Ok(FusedSignals { signals, warning: None })
        },
    }
}

/// A fused entry by its final score.
#[derive(Clone, Copy, Debug, PartialEq, Eq, Structural)]
pub struct ScoredSlot {
    pub score: u32,
    pub element: ElementRef,
    pub slot: usize,
}

impl View for ScoredSlot {
    type V = ScoredSlot;

    open spec fn view(&self) -> ScoredSlot {
        *self
    }
}

impl Ranked for ScoredSlot {
    /// By descending score, then element.
    open spec fn leq(a: ScoredSlot, b: ScoredSlot) -> bool {
        let x = single::total_place(a.score);
        let y = single::total_place(b.score);
        if x != y {
            x > y
        } else if a.element != b.element {
            element_leq(a.element, b.element)
        } else {
            a.slot <= b.slot
        }
    }

    proof fn order_is_total() {
    }

    fn is_leq(&self, other: &ScoredSlot) -> (r: bool) {
        let x: i64 = single::place_of(self.score);
        let y: i64 = single::place_of(other.score);
        if x != y {
            x > y
        } else if self.element != other.element {
            element_is_leq(self.element, other.element)
        } else {
            self.slot <= other.slot
        }
    }
}

/// An entry's final score: its text score, its vector score, or their mix.
pub open spec fn final_score(mode: SearchMode, signals: Signals, mixed: u32) -> u32 {
    match mode {
        SearchMode::Text => match signals.lexical {
            Some(score) => score,
            None => 0,
        },
        SearchMode::Semantic => match signals.semantic {
            Some(score) => score,
            None => 0,
        },
        SearchMode::Hybrid => mixed,
    }
}

/// The first `upto` entries by their final scores.
pub open spec fn scored_slots(
    mode: SearchMode,
    signals: Seq<Signals>,
    mixed: Seq<u32>,
    upto: nat,
) -> Seq<ScoredSlot> {
    Seq::new(
        upto,
        |i: int|
            ScoredSlot {
                score: final_score(mode, signals[i], mixed[i]),
                element: signals[i].element,
                slot: i as usize,
            },
    )
}

impl GraphData {
    /// An element as a search result.
    pub open spec fn hit(self, signals: Signals, score: u32) -> Option<HitView> {
        match signals.element {
            ElementRef::Node(id) => match self.node_at(id) {
                None => None,
                Some(i) => {
                    let node = self.nodes@[i];
                    let label = self.symbol_or(node.label, "Unknown"@);
                    let title = self.title_or(
                        node.properties@,
                        label + " "@ + digits::decimal(id as nat),
                    );
                    let detail = match self.first_other_text(
                        node.properties@,
                        evidence::secondary_keys(),
                        title,
                    ) {
                        Some(found) => found,
                        None => "node:"@ + digits::decimal(id as nat),
                    };
                    Some(hit_of(signals, label, title, detail, score))
                },
            },
            ElementRef::Edge(id) => match self.edge_at(id) {
                None => None,
                Some(i) => {
                    let edge = self.edges@[i];
                    let label = self.symbol_or(edge.label, "Unknown"@);
                    let title = self.title_or(edge.properties@, text::spaced(label));
                    let detail = match self.first_other_text(
                        edge.properties@,
                        evidence::secondary_keys(),
                        title,
                    ) {
                        Some(found) => found,
                        None => "node:"@ + digits::decimal(edge.source as nat) + " → node:"@
                            + digits::decimal(edge.target as nat),
                    };
                    Some(hit_of(signals, label, title, detail, score))
                },
            },
        }
    }
}

pub open spec fn hit_of(
    signals: Signals,
    label: Seq<char>,
    title: Seq<char>,
    detail: Seq<char>,
    score: u32,
) -> HitView {
    HitView {
        element: signals.element,
        label,
        title: text::truncated_text(title, 92),
        detail: text::truncated_text(detail, 132),
        score,
        signals: signals@,
    }
}

/// The contents of an optional hit.
pub open spec fn hit_view(hit: Option<SearchHit>) -> Option<HitView> {
    match hit {
        Some(h) => Some(h@),
        None => None,
    }
}

fn make_hit(signals: Signals, label: String, title: String, detail: String, score: u32) -> (r:
    SearchHit)
    ensures
        r@ == hit_of(signals, label@, title@, detail@, score),
{
    SearchHit {
        element: signals.element,
        label,
        title: text::truncate_text(title.as_str(), 92),
        detail: text::truncate_text(detail.as_str(), 132),
        score,
        lexical_score: signals.lexical,
        semantic_score: signals.semantic,
        vector_index: signals.vector_index,
    }
}

/// Turns an entry into a search result; none if the element is gone.
pub fn hydrate_search_hit(read: &GraphData, signals: Signals, score: u32) -> (r: Option<SearchHit>)
    ensures
        hit_view(r) == read.hit(signals, score),
{
    match signals.element {
        ElementRef::Node(id) => match read.node(id) {
            None => None,
            Some(node) => {
                let label = read.symbol(node.label, "Unknown");
                let title = match preferred_property(read, &node.properties) {
                    Some(found) => found,
                    None => text::concat3(label.as_str(), " ", digits::decimal_text(id).as_str()),
                };
                let detail = match secondary_property(read, &node.properties, title.as_str()) {
                    Some(found) => found,
                    None => text::concat2("node:", digits::decimal_text(id).as_str()),
                };
                Some(make_hit(signals, label, title, detail, score))
            },
        },
        ElementRef::Edge(id) => match read.edge(id) {
            None => None,
            Some(edge) => {
                let label = read.symbol(edge.label, "Unknown");
                let title = match preferred_property(read, &edge.properties) {
                    Some(found) => found,
                    None => text::space_underscores(label.as_str()),
                };
                let detail = match secondary_property(read, &edge.properties, title.as_str()) {
                    Some(found) => found,
                    None => text::concat4(
                        "node:",
                        digits::decimal_text(edge.source).as_str(),
                        " → node:",
                        digits::decimal_text(edge.target).as_str(),
                    ),
                };
                Some(make_hit(signals, label, title, detail, score))
            },
        },
    }
}

impl GraphData {
    /// The first `upto` ranked entries as results, those that are gone left
    /// out.
    pub open spec fn hits(self, signals: Seq<Signals>, ranked: Seq<ScoredSlot>, upto: nat) -> Seq<
        HitView,
    >
        decreases upto,
    {
        if upto == 0 {
            Seq::empty()
        } else {
            let before = self.hits(signals, ranked, (upto - 1) as nat);
            let entry = ranked[upto - 1];
            match self.hit(signals[entry.slot as int], entry.score) {
                Some(hit) => before.push(hit),
                None => before,
            }
        }
    }
}

/// The best entries, at most `limit` of them and at least one where there is
/// one.
pub open spec fn best_slots(
    mode: SearchMode,
    signals: Seq<Signals>,
    mixed: Seq<u32>,
    limit: nat,
) -> Seq<ScoredSlot> {
    let ranked = order::ranked_sort::<ScoredSlot>(
        scored_slots(mode, signals, mixed, signals.len()),
    );
    let wanted: nat = if limit == 0 {
        1
    } else {
        limit
    };
    if ranked.len() <= wanted {
        ranked
    } else {
        ranked.take(wanted as int)
    }
}

/// The contents of a list of hits.
pub open spec fn hits_view(hits: Seq<SearchHit>) -> Seq<HitView> {
    hits.map_values(|h: SearchHit| h@)
}

/// Ranks fused entries and turns the best into a report. `mixed` holds, for
/// each entry, the weighted mix of its scores, which a hybrid search ranks by.
pub fn search_database(
    read: &GraphData,
    query: String,
    mode: SearchMode,
    embedding_model: &str,
    limit: usize,
    found: FusedSignals,
    mixed: &Vec<u32>,
    elapsed_ms: String,
) -> (r: SearchReport)
    requires
        mixed@.len() == found.signals@.len(),
    ensures
        ({
            let best = best_slots(mode, found.signals@, mixed@, limit as nat);
            hits_view(r.hits@) == read.hits(found.signals@, best, best.len())
        }),
        r.query@ == query@,
        r.mode == mode,
        r.elapsed_ms@ == elapsed_ms@,
        text::opt_view(r.warning) == text::opt_view(found.warning),
        text::opt_view(r.embedding_model) == if mode == SearchMode::Text {
            None
        } else {
            Some(embedding_model@)
        },
        (forall|i: int|
            0 <= i < found.signals@.len() ==> follows(mode, (#[trigger] found.signals@[i])@))
            ==> forall|p: int| 0 <= p < r.hits@.len() ==> follows(mode, (#[trigger] r.hits@[p])@.signals),
{
    let signals = found.signals;
    let mut slots: Vec<ScoredSlot> = Vec::new();
    let mut i: usize = 0;
    while i < signals.len()
        invariant
            i <= signals.len(),
            mixed@.len() == signals@.len(),
            slots@ == scored_slots(mode, signals@, mixed@, i as nat),
        decreases signals.len() - i,
    {
        let s = signals[i];
        let score: u32 = match mode {
            SearchMode::Text => match s.lexical {
                Some(score) => score,
                None => 0,
            },
            SearchMode::Semantic => match s.semantic {
                Some(score) => score,
                None => 0,
            },
            SearchMode::Hybrid => mixed[i],
        };
        slots.push(ScoredSlot { score, element: s.element, slot: i });
        assert(slots@ =~= scored_slots(mode, signals@, mixed@, (i + 1) as nat));
        i = i + 1;
    }
    let ghost all = slots@;
    let mut ranked = sort_ranked(slots);
    proof {
        assert(order::ranked_views(all) =~= all);
        assert(order::ranked_views(ranked@) =~= ranked@);
        order::lemma_ranked_sort::<ScoredSlot>(all);
    }
    let ghost sorted = ranked@;
    let wanted: usize = if limit == 0 {
        1
    } else {
        limit
    };
    if ranked.len() > wanted {
        ranked.truncate(wanted);
        assert(ranked@ =~= sorted.take(wanted as int));
    }
    let ghost best = ranked@;
    proof {
        assert forall|k: int| 0 <= k < best.len() implies (#[trigger] best[k]).slot
            < signals@.len() by {
            assert(sorted.contains(sorted[k]));
            assert(all.contains(sorted[k]));
        }
    }
    let mut hits: Vec<SearchHit> = Vec::new();
    let mut k: usize = 0;
    assert(hits_view(hits@) =~= read.hits(signals@, best, 0));
    while k < ranked.len()
        invariant
            k <= ranked.len(),
            ranked@ == best,
            forall|j: int| 0 <= j < best.len() ==> (#[trigger] best[j]).slot < signals@.len(),
            hits_view(hits@) == read.hits(signals@, best, k as nat),
        decreases ranked.len() - k,
    {
        let entry = ranked[k];
        assert(best[k as int].slot < signals@.len());
        match hydrate_search_hit(read, signals[entry.slot], entry.score) {
            Some(hit) => {
                let ghost before = hits_view(hits@);
                let ghost view = hit@;
                hits.push(hit);
                assert(hits_view(hits@) =~= before.push(view));
            },
            None => {},
        }
        k = k + 1;
    }
    let model = match mode {
        SearchMode::Text => None,
        SearchMode::Semantic => Some(embedding_model.to_owned()),
        SearchMode::Hybrid => Some(embedding_model.to_owned()),
    };
    proof {
        read.lemma_hits(signals@, best, best.len());
        let from = read.stored_entries(signals@, best, best.len());
        assert forall|p: int| 0 <= p < hits@.len() implies (#[trigger] hits@[p])@.signals
            == signals@[best[from[p]].slot as int]@ && best[from[p]].slot < signals@.len() by {
            assert(hits_view(hits@)[p] == hits@[p]@);
            assert(0 <= from[p] < best.len());
        }
    }
    SearchReport {
        query,
        mode,
        hits,
        elapsed_ms,
        embedding_model: model,
        warning: found.warning,
    }
}

proof fn lemma_signals_at(list: Seq<Signals>, element: ElementRef, from: int)
    requires
        0 <= from <= list.len(),
    ensures
        from <= signals_at(list, element, from) <= list.len(),
        signals_at(list, element, from) < list.len() ==> list[signals_at(
            list,
            element,
            from,
        )].element == element,
        forall|j: int|
            from <= j < signals_at(list, element, from) ==> (#[trigger] list[j]).element != element,
    decreases list.len() - from,
{
    if from < list.len() && list[from].element != element {
        lemma_signals_at(list, element, from + 1);
    }
}

/// Whether no element has two entries.
pub open spec fn one_entry_each(list: Seq<Signals>) -> bool {
    forall|i: int, j: int|
        0 <= i < j < list.len() ==> (#[trigger] list[i]).element != (#[trigger] list[j]).element
}

/// Fusion deduplicates whole elements: several vectors of one element never
/// make several entries.
pub proof fn law_fusion_has_one_entry_per_element(
    lexical: Seq<RankedElement>,
    semantic: Seq<RankedElement>,
    a: nat,
    b: nat,
)
    requires
        a <= lexical.len(),
        b <= semantic.len(),
    ensures
        one_entry_each(lexical_signals(lexical, a)),
        one_entry_each(fused(lexical_signals(lexical, a), semantic, b)),
    decreases a + b,
{
    if b > 0 {
        law_fusion_has_one_entry_per_element(lexical, semantic, a, (b - 1) as nat);
        lemma_signals_at(
            fused(lexical_signals(lexical, a), semantic, (b - 1) as nat),
            semantic[b - 1].element,
            0,
        );
    } else if a > 0 {
        law_fusion_has_one_entry_per_element(lexical, semantic, (a - 1) as nat, 0);
        lemma_signals_at(
            lexical_signals(lexical, (a - 1) as nat),
            lexical[a - 1].element,
            0,
        );
    }
}

/// Whether the signals are those of the mode: no vector score in a text
/// search, no text score in a semantic one.
pub open spec fn follows(mode: SearchMode, signals: SignalsView) -> bool {
    &&& mode == SearchMode::Text ==> signals.semantic is None && signals.vector_index is None
    &&& mode == SearchMode::Semantic ==> signals.lexical is None
}

/// Whether the scores that are there lie between 0 and 1, but for
/// not-a-number.
pub open spec fn normalized(signals: SignalsView) -> bool {
    &&& signals.lexical matches Some(score) ==> single::in_unit(score)
    &&& signals.semantic matches Some(score) ==> single::in_unit(score)
}

proof fn lemma_held_unit(value: u32)
    ensures
        single::in_unit(single::held_unit(value)),
{
    assert(single::magnitude(single::ONE) == 0x3f80_0000);
}

proof fn lemma_lexical_signals(lexical: Seq<RankedElement>, upto: nat)
    requires
        upto <= lexical.len(),
    ensures
        forall|i: int|
            0 <= i < lexical_signals(lexical, upto).len() ==> {
                let s = #[trigger] lexical_signals(lexical, upto)[i];
                follows(SearchMode::Text, s@) && normalized(s@)
            },
    decreases upto,
{
    if upto > 0 {
        lemma_lexical_signals(lexical, (upto - 1) as nat);
        lemma_held_unit(lexical[upto - 1].score);
        lemma_signals_at(
            lexical_signals(lexical, (upto - 1) as nat),
            lexical[upto - 1].element,
            0,
        );
    }
}

proof fn lemma_fused(list: Seq<Signals>, semantic: Seq<RankedElement>, upto: nat, bare: bool)
    requires
        upto <= semantic.len(),
        forall|i: int|
            0 <= i < list.len() ==> normalized((#[trigger] list[i])@) && (bare ==> follows(
                SearchMode::Semantic,
                list[i]@,
            )),
    ensures
        forall|i: int|
            0 <= i < fused(list, semantic, upto).len() ==> {
                let s = #[trigger] fused(list, semantic, upto)[i];
                normalized(s@) && (bare ==> follows(SearchMode::Semantic, s@))
            },
    decreases upto,
{
    if upto > 0 {
        lemma_fused(list, semantic, (upto - 1) as nat, bare);
        lemma_held_unit(semantic[upto - 1].score);
        lemma_signals_at(
            fused(list, semantic, (upto - 1) as nat),
            semantic[upto - 1].element,
            0,
        );
    }
}

/// The mode decides the signals of a search: a text search has no vector
/// scores, a semantic one no text scores. No element has two entries, and
/// every score lies between 0 and 1, but for not-a-number.
pub proof fn law_signals_follow_the_mode(
    mode: SearchMode,
    lexical: Seq<RankedElement>,
    semantic: SemanticOutcome,
)
    ensures
        fusion(mode, lexical, semantic) matches Ok((list, _)) ==> one_entry_each(list)
            && forall|i: int|
            0 <= i < list.len() ==> follows(mode, (#[trigger] list[i])@) && normalized(list[i]@),
{
    let side = text_side(mode, lexical);
    let base = lexical_signals(side, side.len());
    lemma_lexical_signals(side, side.len());
    law_fusion_has_one_entry_per_element(side, Seq::empty(), side.len(), 0);
    match semantic {
        SemanticOutcome::Hits(hits) => {
            lemma_fused(base, hits@, hits@.len(), mode == SearchMode::Semantic);
            law_fusion_has_one_entry_per_element(side, hits@, side.len(), hits@.len());
        },
        _ => {},
    }
}

impl GraphData {
    /// Which of the first `upto` ranked entries are still stored.
    spec fn stored_entries(self, signals: Seq<Signals>, ranked: Seq<ScoredSlot>, upto: nat) -> Seq<
        int,
    >
        decreases upto,
    {
        if upto == 0 {
            Seq::empty()
        } else {
            let before = self.stored_entries(signals, ranked, (upto - 1) as nat);
            let entry = ranked[upto - 1];
            if self.hit(signals[entry.slot as int], entry.score) is Some {
                before.push(upto - 1)
            } else {
                before
            }
        }
    }

    proof fn lemma_hits(self, signals: Seq<Signals>, ranked: Seq<ScoredSlot>, upto: nat)
        ensures
            ({
                let hits = self.hits(signals, ranked, upto);
                let from = self.stored_entries(signals, ranked, upto);
                &&& hits.len() == from.len() <= upto
                &&& forall|p: int|
                    0 <= p < hits.len() ==> 0 <= (#[trigger] from[p]) < upto && hits[p].score
                        == ranked[from[p]].score && hits[p].signals
                        == signals[ranked[from[p]].slot as int]@ && hits[p].element
                        == signals[ranked[from[p]].slot as int].element
                &&& forall|p: int, q: int|
                    0 <= p < q < hits.len() ==> (#[trigger] from[p]) < (#[trigger] from[q])
            }),
        decreases upto,
    {
        if upto > 0 {
            self.lemma_hits(signals, ranked, (upto - 1) as nat);
        }
    }
}

/// What a report of a search shows: no more hits than asked for, or than one;
/// no element twice; the best first, and among equals by element; and the
/// signals of the mode, with scores between 0 and 1 but for not-a-number.
pub proof fn law_hits_are_ranked_and_follow_the_mode(
    read: GraphData,
    mode: SearchMode,
    lexical: Seq<RankedElement>,
    semantic: SemanticOutcome,
    list: Seq<Signals>,
    warning: Option<Seq<char>>,
    mixed: Seq<u32>,
    limit: nat,
)
    requires
        fusion(mode, lexical, semantic) == Ok::<(Seq<Signals>, Option<Seq<char>>), Seq<char>>(
            (list, warning),
        ),
        mixed.len() == list.len() <= usize::MAX,
    ensures
        ({
            let best = best_slots(mode, list, mixed, limit);
            let hits = read.hits(list, best, best.len());
            &&& hits.len() <= if limit == 0 {
                1
            } else {
                limit
            }
            &&& forall|p: int, q: int|
                0 <= p < q < hits.len() ==> {
                    let x = single::total_place((#[trigger] hits[p]).score);
                    let y = single::total_place((#[trigger] hits[q]).score);
                    &&& hits[p].element != hits[q].element
                    &&& x > y || (x == y && element_leq(hits[p].element, hits[q].element))
                }
            &&& forall|p: int|
                0 <= p < hits.len() ==> follows(mode, (#[trigger] hits[p]).signals) && normalized(
                    hits[p].signals,
                )
        }),
{
    let best = best_slots(mode, list, mixed, limit);
    let hits = read.hits(list, best, best.len());
    let from = read.stored_entries(list, best, best.len());
    let all = scored_slots(mode, list, mixed, list.len());
    let ranked = order::ranked_sort::<ScoredSlot>(all);
    law_signals_follow_the_mode(mode, lexical, semantic);
    read.lemma_hits(list, best, best.len());
    order::lemma_ranked_sort::<ScoredSlot>(all);
    assert(all.no_duplicates()) by {
        assert forall|i: int, j: int| 0 <= i < all.len() && 0 <= j < all.len() && i
            != j implies all[i] != all[j] by {
            assert(all[i].slot == i && all[j].slot == j);
        }
    }
    all.lemma_multiset_has_no_duplicates();
    ranked.lemma_multiset_has_no_duplicates_conv();
    assert forall|e: int| 0 <= e < best.len() implies (#[trigger] best[e]).slot < list.len()
        && best[e].element == list[best[e].slot as int].element by {
        assert(best[e] == ranked[e]);
        assert(ranked.contains(ranked[e]));
        assert(all.contains(ranked[e]));
    }
    assert forall|p: int, q: int| 0 <= p < q < hits.len() implies {
        let x = single::total_place((#[trigger] hits[p]).score);
        let y = single::total_place((#[trigger] hits[q]).score);
        &&& hits[p].element != hits[q].element
        &&& x > y || (x == y && element_leq(hits[p].element, hits[q].element))
    } by {
        let e = from[p];
        let f = from[q];
        assert(e < f);
        assert(ranked[e] != ranked[f]);
        assert(order::ranking::<ScoredSlot>()(ranked[e], ranked[f]));
        assert(best[e] == ranked[e] && best[f] == ranked[f]);
        let a = best[e].slot as int;
        let b = best[f].slot as int;
        if hits[p].element == hits[q].element {
            assert(list[a].element == list[b].element);
            assert(a == b);
            assert(all.contains(ranked[e]) && all.contains(ranked[f]));
            assert(ranked[e] == all[a] && ranked[f] == all[b]);
        }
    }
    assert forall|p: int| 0 <= p < hits.len() implies follows(mode, (#[trigger] hits[p]).signals)
        && normalized(hits[p].signals) by {
        let e = from[p];
        assert(follows(mode, list[best[e].slot as int]@));
    }
}

} // verus!
