//! What a search shows, told by the scores of the elements.

use vstd::prelude::*;
use vstd::relations::*;
use vstd::seq_lib::*;

use crate::graph::{ElementRef, GraphData, Property};
use crate::graph_laws;
use crate::order;
use crate::scene;
use crate::scene::{SceneSelection, SceneSnapshot};
use crate::search;
use crate::search::{
    HitView, MatchWeight, PhraseMatch, RankedElement, ScoredSlot, SearchMode, SemanticOutcome, Signals,
};
use crate::single;
use crate::text;

verus! {

/// The score by which an entry takes part in a search of this mode: its text
/// score, its vector score, or the mix of both.
pub open spec fn score_in(mode: SearchMode, signals: Signals, mixed: u32) -> u32 {
    if mode == SearchMode::Hybrid {
        mixed
    } else {
        let own = if mode == SearchMode::Text {
            signals.lexical
        } else {
            signals.semantic
        };
        if own is Some {
            own->0
        } else {
            0
        }
    }
}

/// Whether an element is stored in the database.
pub open spec fn is_stored(read: GraphData, element: ElementRef) -> bool {
    match element {
        ElementRef::Node(id) => exists|i: int|
            0 <= i < read.nodes@.len() && (#[trigger] read.nodes@[i]).id == id,
        ElementRef::Edge(id) => exists|i: int|
            0 <= i < read.edges@.len() && (#[trigger] read.edges@[i]).id == id,
    }
}

/// Whether a hit shows an entry, by the score of the mode.
pub open spec fn shows(hit: HitView, mode: SearchMode, signals: Signals, mixed: u32) -> bool {
    &&& hit.element == signals.element
    &&& hit.score == score_in(mode, signals, mixed)
    &&& hit.signals.lexical == signals.lexical
    &&& hit.signals.semantic == signals.semantic
    &&& hit.signals.vector_index == signals.vector_index
}

proof fn lemma_hit_is_stored(read: GraphData, signals: Signals, score: u32)
    ensures
        read.hit(signals, score) is Some <==> is_stored(read, signals.element),
        read.hit(signals, score) matches Some(hit) ==> hit.element == signals.element && hit.score
            == score && hit.signals == signals@,
{
    match signals.element {
        ElementRef::Node(id) => {
            graph_laws::law_node_lookup_is_exact(read, id);
        },
        ElementRef::Edge(id) => {
            graph_laws::law_edge_lookup_is_exact(read, id);
        },
    }
}

/// Which of the first `upto` ranked entries each hit comes from.
spec fn origins(read: GraphData, signals: Seq<Signals>, ranked: Seq<ScoredSlot>, upto: nat) -> Seq<
    int,
>
    decreases upto,
{
    if upto == 0 {
        Seq::empty()
    } else {
        let before = origins(read, signals, ranked, (upto - 1) as nat);
        if is_stored(read, signals[ranked[upto - 1].slot as int].element) {
            before.push(upto - 1)
        } else {
            before
        }
    }
}

proof fn lemma_origins(read: GraphData, signals: Seq<Signals>, ranked: Seq<ScoredSlot>, upto: nat)
    ensures
        ({
            let hits = read.hits(signals, ranked, upto);
            let from = origins(read, signals, ranked, upto);
            &&& hits.len() == from.len() <= upto
            &&& forall|p: int|
                0 <= p < hits.len() ==> 0 <= (#[trigger] from[p]) < upto && hits[p].score
                    == ranked[from[p]].score && hits[p].signals
                    == signals[ranked[from[p]].slot as int]@ && hits[p].element
                    == signals[ranked[from[p]].slot as int].element
            &&& forall|p: int, q: int|
                0 <= p < q < hits.len() ==> (#[trigger] from[p]) < (#[trigger] from[q])
            &&& forall|e: int|
                0 <= e < upto && is_stored(
                    read,
                    signals[(#[trigger] ranked[e]).slot as int].element,
                ) ==> from.contains(e)
        }),
    decreases upto,
{
    if upto > 0 {
        let less = (upto - 1) as nat;
        lemma_origins(read, signals, ranked, less);
        let entry = ranked[upto - 1];
        lemma_hit_is_stored(read, signals[entry.slot as int], entry.score);
        let before = origins(read, signals, ranked, less);
        let from = origins(read, signals, ranked, upto);
        assert forall|e: int|
            0 <= e < upto && is_stored(
                read,
                signals[(#[trigger] ranked[e]).slot as int].element,
            ) implies from.contains(e) by {
            if e == upto - 1 {
                assert(from.last() == e);
            } else {
                let k = choose|k: int| 0 <= k < before.len() && before[k] == e;
                assert(from[k] == e);
            }
        }
    }
}

/// The ranked entries are a rearrangement of the scored ones: those before a
/// cut have a place at least as high as those behind it.
proof fn lemma_best(mode: SearchMode, list: Seq<Signals>, mixed: Seq<u32>, limit: nat)
    requires
        mixed.len() == list.len() <= usize::MAX,
    ensures
        ({
            let best = search::best_slots(mode, list, mixed, limit);
            let wanted: nat = if limit == 0 {
                1
            } else {
                limit
            };
            &&& best.len() == if list.len() <= wanted {
                list.len()
            } else {
                wanted
            }
            &&& forall|e: int|
                0 <= e < best.len() ==> {
                    let s = (#[trigger] best[e]).slot as int;
                    0 <= s < list.len() && best[e].score == score_in(mode, list[s], mixed[s])
                }
            &&& forall|e: int, f: int|
                0 <= e < f < best.len() ==> single::total_place((#[trigger] best[e]).score)
                    >= single::total_place((#[trigger] best[f]).score) && best[e].slot
                    != best[f].slot
            &&& forall|i: int|
                0 <= i < list.len() ==> {
                    ||| exists|e: int| 0 <= e < best.len() && (#[trigger] best[e]).slot == i
                    ||| forall|e: int|
                        0 <= e < best.len() ==> single::total_place((#[trigger] best[e]).score)
                            >= single::total_place(score_in(mode, #[trigger] list[i], mixed[i]))
                }
        }),
{
    let all = search::scored_slots(mode, list, mixed, list.len());
    let ranked = order::ranked_sort::<ScoredSlot>(all);
    let best = search::best_slots(mode, list, mixed, limit);
    order::lemma_ranked_sort::<ScoredSlot>(all);
    assert(all.no_duplicates()) by {
        assert forall|i: int, j: int| 0 <= i < all.len() && 0 <= j < all.len() && i
            != j implies all[i] != all[j] by {
            assert(all[i].slot == i && all[j].slot == j);
        }
    }
    all.lemma_multiset_has_no_duplicates();
    ranked.lemma_multiset_has_no_duplicates_conv();
    assert forall|e: int| 0 <= e < ranked.len() implies ({
        let s = (#[trigger] ranked[e]).slot as int;
        0 <= s < list.len() && ranked[e] == all[s] && ranked[e].score == score_in(
            mode,
            list[s],
            mixed[s],
        )
    }) by {
        assert(ranked.contains(ranked[e]));
        assert(all.contains(ranked[e]));
        let s = choose|s: int| 0 <= s < all.len() && all[s] == ranked[e];
        assert(all[s].slot == s);
    }
    assert forall|e: int, f: int| 0 <= e < f < ranked.len() implies single::total_place(
        (#[trigger] ranked[e]).score,
    ) >= single::total_place((#[trigger] ranked[f]).score) && ranked[e].slot != ranked[f].slot by {
        assert(order::ranking::<ScoredSlot>()(ranked[e], ranked[f]));
        assert(ranked[e] != ranked[f]);
    }
    assert forall|i: int| 0 <= i < list.len() implies ({
        ||| exists|e: int| 0 <= e < best.len() && (#[trigger] best[e]).slot == i
        ||| forall|e: int|
            0 <= e < best.len() ==> single::total_place((#[trigger] best[e]).score)
                >= single::total_place(score_in(mode, #[trigger] list[i], mixed[i]))
    }) by {
        assert(all[i].slot == i);
        assert(all.contains(all[i]));
        assert(ranked.contains(all[i]));
        let g = choose|g: int| 0 <= g < ranked.len() && ranked[g] == all[i];
        if g < best.len() {
            assert(best[g].slot == i);
        } else {
            assert forall|e: int| 0 <= e < best.len() implies single::total_place(
                (#[trigger] best[e]).score,
            ) >= single::total_place(score_in(mode, list[i], mixed[i])) by {
                assert(best[e] == ranked[e]);
                assert(ranked[g].score == score_in(mode, list[i], mixed[i]));
            }
        }
    }
}

/// Every hit is a stored element with its own signals. Its score is its text
/// score in a text search, its vector score in a semantic one, nothing where
/// it has none, and the mix of both in a hybrid search.
pub proof fn law_hits_have_the_score_of_the_mode(
    read: GraphData,
    mode: SearchMode,
    list: Seq<Signals>,
    mixed: Seq<u32>,
    limit: nat,
)
    requires
        mixed.len() == list.len() <= usize::MAX,
    ensures
        ({
            let best = search::best_slots(mode, list, mixed, limit);
            let hits = read.hits(list, best, best.len());
            forall|p: int|
                0 <= p < hits.len() ==> is_stored(read, (#[trigger] hits[p]).element) && exists|
                    i: int,
                |
                    0 <= i < list.len() && shows(hits[p], mode, #[trigger] list[i], mixed[i])
        }),
{
    let best = search::best_slots(mode, list, mixed, limit);
    let hits = read.hits(list, best, best.len());
    let from = origins(read, list, best, best.len());
    lemma_best(mode, list, mixed, limit);
    lemma_origins(read, list, best, best.len());
    lemma_origins_stored(read, list, best, best.len());
    assert forall|p: int| 0 <= p < hits.len() implies is_stored(read, (#[trigger] hits[p]).element)
        && exists|i: int|
        0 <= i < list.len() && shows(hits[p], mode, #[trigger] list[i], mixed[i]) by {
        let e = from[p];
        let i = best[e].slot as int;
        assert(shows(hits[p], mode, list[i], mixed[i]));
    }
}

proof fn lemma_origins_stored(
    read: GraphData,
    signals: Seq<Signals>,
    ranked: Seq<ScoredSlot>,
    upto: nat,
)
    ensures
        forall|p: int|
            0 <= p < origins(read, signals, ranked, upto).len() ==> is_stored(
                read,
                signals[ranked[#[trigger] origins(read, signals, ranked, upto)[p]].slot as int].element,
            ),
    decreases upto,
{
    if upto > 0 {
        lemma_origins_stored(read, signals, ranked, (upto - 1) as nat);
    }
}

/// Of two stored elements the one with the greater score of the mode comes
/// first, and no element that the limit leaves out has a greater score than
/// one that is shown.
pub proof fn law_better_elements_come_first(
    read: GraphData,
    mode: SearchMode,
    list: Seq<Signals>,
    mixed: Seq<u32>,
    limit: nat,
    better: int,
    q: int,
)
    requires
        mixed.len() == list.len() <= usize::MAX,
        0 <= better < list.len(),
        is_stored(read, list[better].element),
        ({
            let best = search::best_slots(mode, list, mixed, limit);
            0 <= q < read.hits(list, best, best.len()).len()
        }),
        ({
            let best = search::best_slots(mode, list, mixed, limit);
            let worse = read.hits(list, best, best.len())[q].score;
            single::total_place(score_in(mode, list[better], mixed[better])) > single::total_place(
                worse,
            )
        }),
    ensures
        ({
            let best = search::best_slots(mode, list, mixed, limit);
            let hits = read.hits(list, best, best.len());
            exists|p: int|
                0 <= p < q && shows(#[trigger] hits[p], mode, list[better], mixed[better])
        }),
{
    let best = search::best_slots(mode, list, mixed, limit);
    let hits = read.hits(list, best, best.len());
    let from = origins(read, list, best, best.len());
    lemma_best(mode, list, mixed, limit);
    lemma_origins(read, list, best, best.len());
    let f = from[q];
    assert(best[f].score == hits[q].score);
    assert(list[better].element == list[better].element);
    let e = choose|e: int| 0 <= e < best.len() && (#[trigger] best[e]).slot == better;
    assert(e < f);
    assert(from.contains(e));
    let p = choose|p: int| 0 <= p < from.len() && from[p] == e;
    if p >= q {
        if p > q {
            assert(from[q] < from[p]);
        }
    }
    assert(shows(hits[p], mode, list[better], mixed[better]));
}

/// Where the limit has room, every stored element of the search is shown.
pub proof fn law_wide_limits_show_everything(
    read: GraphData,
    mode: SearchMode,
    list: Seq<Signals>,
    mixed: Seq<u32>,
    limit: nat,
    i: int,
)
    requires
        mixed.len() == list.len() <= usize::MAX,
        0 <= i < list.len() <= limit,
        is_stored(read, list[i].element),
    ensures
        ({
            let best = search::best_slots(mode, list, mixed, limit);
            let hits = read.hits(list, best, best.len());
            exists|p: int|
                0 <= p < hits.len() && shows(#[trigger] hits[p], mode, list[i], mixed[i])
        }),
{
    let best = search::best_slots(mode, list, mixed, limit);
    let hits = read.hits(list, best, best.len());
    let from = origins(read, list, best, best.len());
    lemma_best(mode, list, mixed, limit);
    lemma_origins(read, list, best, best.len());
    let all = search::scored_slots(mode, list, mixed, list.len());
    order::lemma_ranked_sort::<ScoredSlot>(all);
    assert(all[i].slot == i);
    assert(all.contains(all[i]));
    assert(best.contains(all[i]));
    let e = choose|e: int| 0 <= e < best.len() && best[e] == all[i];
    assert(best[e].slot == i);
    assert(from.contains(e));
    let p = choose|p: int| 0 <= p < from.len() && from[p] == e;
    assert(shows(hits[p], mode, list[i], mixed[i]));
}

/// A hit names the element as the database does: its label is the stored
/// label, its title the element's own title where it has one.
pub proof fn law_hits_describe_stored_elements(read: GraphData, signals: Signals, score: u32, i: int)
    requires
        0 <= i < read.nodes@.len(),
        signals.element == ElementRef::Node(read.nodes@[i].id),
        forall|j: int| 0 <= j < i ==> (#[trigger] read.nodes@[j]).id != read.nodes@[i].id,
    ensures
        read.hit(signals, score) matches Some(hit) && {
            let node = read.nodes@[i];
            &&& node.label < read.symbols@.len() ==> hit.label == read.symbols@[node.label as int]@
            &&& read.property_text(node.properties@, "title"@) matches Some(title) ==> hit.title
                == text::truncated_text(title, 92)
            &&& hit.score == score
        },
{
    graph_laws::law_node_lookup_is_exact(read, read.nodes@[i].id);
    graph_laws::law_titles_prefer_the_title(read, read.nodes@[i].properties@);
}

/// A relationship is named by its stored label, and, where nothing else
/// describes it, by the nodes that it leads from and to.
pub proof fn law_hits_describe_stored_relationships(
    read: GraphData,
    signals: Signals,
    score: u32,
    i: int,
)
    requires
        0 <= i < read.edges@.len(),
        signals.element == ElementRef::Edge(read.edges@[i].id),
        forall|j: int| 0 <= j < i ==> (#[trigger] read.edges@[j]).id != read.edges@[i].id,
    ensures
        read.hit(signals, score) matches Some(hit) && {
            let edge = read.edges@[i];
            &&& edge.label < read.symbols@.len() ==> hit.label == read.symbols@[edge.label as int]@
            &&& edge.properties@.len() == 0 ==> hit.detail == text::truncated_text(
                "node:"@ + crate::digits::decimal(edge.source as nat) + " → node:"@
                    + crate::digits::decimal(edge.target as nat),
                132,
            )
            &&& hit.score == score
        },
{
    graph_laws::law_edge_lookup_is_exact(read, read.edges@[i].id);
    let edge = read.edges@[i];
    if edge.properties@.len() == 0 {
        assert forall|key: Seq<char>| #[trigger]
            read.property_text(edge.properties@, key) is None by {
            if let Some(symbol) = read.symbol_of(key) {
                assert(crate::graph::property_slot(edge.properties@, symbol, 0) is None);
            }
        }
        graph_laws::law_titles_prefer_the_title(read, edge.properties@);
        let title = read.title_or(
            edge.properties@,
            text::spaced(read.symbol_or(edge.label, "Unknown"@)),
        );
        graph_laws::law_descriptions_add_to_the_title(read, edge.properties@, title);
    }
}

proof fn lemma_found(list: Seq<Signals>, element: ElementRef, from: int)
    requires
        0 <= from <= list.len(),
    ensures
        from <= search::signals_at(list, element, from) <= list.len(),
        search::signals_at(list, element, from) < list.len() ==> list[search::signals_at(
            list,
            element,
            from,
        )].element == element,
        forall|j: int|
            from <= j < search::signals_at(list, element, from) ==> (#[trigger] list[j]).element
                != element,
    decreases list.len() - from,
{
    if from < list.len() && list[from].element != element {
        lemma_found(list, element, from + 1);
    }
}

/// Whether a list has an entry of the element with this text score.
pub open spec fn has_text_score(list: Seq<Signals>, element: ElementRef, score: u32) -> bool {
    exists|k: int|
        0 <= k < list.len() && (#[trigger] list[k]).element == element && list[k].lexical == Some(
            score,
        )
}

/// Whether a list has an entry of the element with a vector score that the
/// given one does not exceed.
pub open spec fn has_vector_score(list: Seq<Signals>, element: ElementRef, score: u32) -> bool {
    exists|k: int|
        0 <= k < list.len() && (#[trigger] list[k]).element == element && list[k].semantic is Some
            && !single::less(list[k].semantic->0, score)
}

/// Whether an entry's vector score and vector are those of one hit.
pub open spec fn from_hit(entry: Signals, hits: Seq<RankedElement>, upto: int) -> bool {
    exists|h: int|
        0 <= h < upto && (#[trigger] hits[h]).element == entry.element && entry.semantic == Some(
            single::held_unit(hits[h].score),
        ) && entry.vector_index == Some(hits[h].vector_index)
}

proof fn lemma_lexical_kept(lexical: Seq<RankedElement>, upto: nat)
    requires
        upto <= lexical.len(),
        forall|i: int, j: int|
            0 <= i < j < lexical.len() ==> (#[trigger] lexical[i]).element != (
            #[trigger] lexical[j]).element,
    ensures
        ({
            let list = search::lexical_signals(lexical, upto);
            &&& list.len() == upto
            &&& forall|i: int|
                0 <= i < upto ==> (#[trigger] list[i]).element == lexical[i].element
                    && list[i].lexical == Some(single::held_unit(lexical[i].score))
                    && list[i].semantic is None && list[i].vector_index is None
        }),
    decreases upto,
{
    if upto > 0 {
        let before = search::lexical_signals(lexical, (upto - 1) as nat);
        lemma_lexical_kept(lexical, (upto - 1) as nat);
        lemma_found(before, lexical[upto - 1].element, 0);
        let k = search::signals_at(before, lexical[upto - 1].element, 0);
        if k < before.len() {
            assert(before[k].element == lexical[k].element);
        }
    }
}

/// What one more vector hit does to a list of signals.
spec fn grows_by(before: Seq<Signals>, list: Seq<Signals>, c: RankedElement) -> bool {
    &&& search::one_entry_each(list)
    &&& before.len() <= list.len() <= before.len() + 1
    &&& forall|i: int|
        0 <= i < before.len() ==> (#[trigger] list[i]).element == before[i].element
            && list[i].lexical == before[i].lexical
    &&& forall|i: int|
        before.len() <= i < list.len() ==> (#[trigger] list[i]).lexical is None
            && list[i].semantic is Some
    &&& forall|i: int|
        0 <= i < before.len() && (#[trigger] before[i]).semantic is Some
            ==> list[i].semantic is Some
    &&& forall|i: int, score: u32|
        0 <= i < before.len() && (#[trigger] before[i]).semantic is Some && !(
        #[trigger] single::less(before[i].semantic->0, score)) ==> !single::less(
            list[i].semantic->0,
            score,
        )
    &&& has_vector_score(list, c.element, single::held_unit(c.score))
    &&& forall|i: int|
        0 <= i < list.len() ==> (i < before.len() && #[trigger] list[i] == before[i]) || (
        list[i].element == c.element && list[i].semantic == Some(single::held_unit(c.score))
            && list[i].vector_index == Some(c.vector_index))
}

#[verifier::spinoff_prover]
#[verifier::rlimit(40)]
proof fn lemma_grows_by(before: Seq<Signals>, c: RankedElement)
    requires
        search::one_entry_each(before),
    ensures
        grows_by(before, search::with_semantic(before, c), c),
{
    let list = search::with_semantic(before, c);
    lemma_found(before, c.element, 0);
    let k = search::signals_at(before, c.element, 0);
    if k < before.len() {
        assert(list[k].element == c.element);
        assert(list[k].semantic is Some && !single::less(
            list[k].semantic->0,
            single::held_unit(c.score),
        ));
        assert(has_vector_score(list, c.element, single::held_unit(c.score)));
    } else {
        assert(list[before.len() as int].element == c.element);
        assert(has_vector_score(list, c.element, single::held_unit(c.score)));
    }
}

proof fn lemma_scores_stay(
    before: Seq<Signals>,
    list: Seq<Signals>,
    c: RankedElement,
    element: ElementRef,
    score: u32,
)
    requires
        grows_by(before, list, c),
        has_vector_score(before, element, score),
    ensures
        has_vector_score(list, element, score),
{
    let m = choose|m: int|
        0 <= m < before.len() && (#[trigger] before[m]).element == element
            && before[m].semantic is Some && !single::less(before[m].semantic->0, score);
    assert(list[m].element == element);
    assert(list[m].semantic is Some && !single::less(list[m].semantic->0, score));
}

proof fn lemma_hits_stay(
    before: Seq<Signals>,
    list: Seq<Signals>,
    hits: Seq<RankedElement>,
    less: int,
    i: int,
)
    requires
        0 <= less < hits.len(),
        grows_by(before, list, hits[less]),
        0 <= i < list.len(),
        i < before.len() && before[i].semantic is Some ==> from_hit(before[i], hits, less),
        list[i].semantic is Some,
    ensures
        from_hit(list[i], hits, less + 1),
{
    if i < before.len() && list[i] == before[i] {
        let h = choose|h: int|
            0 <= h < less && (#[trigger] hits[h]).element == before[i].element
                && before[i].semantic == Some(single::held_unit(hits[h].score))
                && before[i].vector_index == Some(hits[h].vector_index);
        assert(hits[h].element == list[i].element);
    } else {
        assert(hits[less].element == list[i].element);
    }
}

/// What is kept of a list of text signals once vector hits are added.
spec fn keeps_signals(
    base: Seq<Signals>,
    hits: Seq<RankedElement>,
    upto: nat,
    list: Seq<Signals>,
) -> bool {
    &&& search::one_entry_each(list)
    &&& list.len() >= base.len()
    &&& forall|i: int|
        0 <= i < base.len() ==> (#[trigger] list[i]).element == base[i].element && list[i].lexical
            == base[i].lexical
    &&& forall|i: int|
        base.len() <= i < list.len() ==> (#[trigger] list[i]).lexical is None
            && list[i].semantic is Some
    &&& forall|h: int|
        0 <= h < upto ==> has_vector_score(
            list,
            (#[trigger] hits[h]).element,
            single::held_unit(hits[h].score),
        )
    &&& forall|i: int|
        0 <= i < list.len() && (#[trigger] list[i]).semantic is Some ==> from_hit(
            list[i],
            hits,
            upto as int,
        )
}

#[verifier::spinoff_prover]
proof fn lemma_signals_kept(
    base: Seq<Signals>,
    hits: Seq<RankedElement>,
    less: nat,
    before: Seq<Signals>,
    list: Seq<Signals>,
)
    requires
        less < hits.len(),
        keeps_signals(base, hits, less, before),
        grows_by(before, list, hits[less as int]),
    ensures
        keeps_signals(base, hits, less + 1, list),
{
    let upto = less + 1;
    assert forall|i: int| 0 <= i < base.len() implies (#[trigger] list[i]).element
        == base[i].element && list[i].lexical == base[i].lexical by {
        assert(before[i].element == base[i].element);
    }
    assert forall|i: int| base.len() <= i < list.len() implies (#[trigger] list[i]).lexical is None
        && list[i].semantic is Some by {
        if i < before.len() {
            assert(before[i].lexical is None && before[i].semantic is Some);
        }
    }
    assert forall|h: int| 0 <= h < upto implies has_vector_score(
        list,
        (#[trigger] hits[h]).element,
        single::held_unit(hits[h].score),
    ) by {
        if h < less {
            lemma_scores_stay(
                before,
                list,
                hits[less as int],
                hits[h].element,
                single::held_unit(hits[h].score),
            );
        }
    }
    assert forall|i: int| 0 <= i < list.len() && (#[trigger] list[i]).semantic is Some implies
        from_hit(list[i], hits, upto as int) by {
        lemma_hits_stay(before, list, hits, less as int, i);
    }
}

proof fn lemma_fused_kept(base: Seq<Signals>, hits: Seq<RankedElement>, upto: nat)
    requires
        upto <= hits.len(),
        forall|i: int| 0 <= i < base.len() ==> (#[trigger] base[i]).semantic is None,
        search::one_entry_each(base),
    ensures
        keeps_signals(base, hits, upto, search::fused(base, hits, upto)),
    decreases upto,
{
    if upto > 0 {
        let less = (upto - 1) as nat;
        lemma_fused_kept(base, hits, less);
        let before = search::fused(base, hits, less);
        lemma_grows_by(before, hits[upto - 1]);
        lemma_signals_kept(base, hits, less, before, search::fused(base, hits, upto));
    }
}

/// Fusion loses no signal. With each element once on the text side, every text
/// match keeps its score, held between 0 and 1, and its place; every vector
/// hit is there with the best score of its element, which is the score of one
/// of the element's own vectors; and nothing else is there.
pub proof fn law_fusion_keeps_every_signal(lexical: Seq<RankedElement>, hits: Vec<RankedElement>)
    requires
        forall|i: int, j: int|
            0 <= i < j < lexical.len() ==> (#[trigger] lexical[i]).element != (
            #[trigger] lexical[j]).element,
    ensures
        search::fusion(SearchMode::Hybrid, lexical, SemanticOutcome::Hits(hits)) matches Ok(
            (list, warning),
        ) && {
            &&& warning is None
            &&& list.len() >= lexical.len()
            &&& forall|i: int|
                0 <= i < lexical.len() ==> (#[trigger] list[i]).element == lexical[i].element
                    && list[i].lexical == Some(single::held_unit(lexical[i].score))
            &&& forall|i: int|
                lexical.len() <= i < list.len() ==> (#[trigger] list[i]).lexical is None
                    && list[i].semantic is Some
            &&& forall|h: int|
                0 <= h < hits@.len() ==> has_vector_score(
                    list,
                    (#[trigger] hits@[h]).element,
                    single::held_unit(hits@[h].score),
                )
            &&& forall|i: int|
                0 <= i < list.len() && (#[trigger] list[i]).semantic is Some ==> from_hit(
                    list[i],
                    hits@,
                    hits@.len() as int,
                )
        },
{
    lemma_lexical_kept(lexical, lexical.len());
    let base = search::lexical_signals(lexical, lexical.len());
    lemma_fused_kept(base, hits@, hits@.len());
}

/// A semantic search takes its signals from the vector hits alone.
pub proof fn law_semantic_search_uses_vectors_alone(
    lexical: Seq<RankedElement>,
    hits: Vec<RankedElement>,
)
    ensures
        search::fusion(SearchMode::Semantic, lexical, SemanticOutcome::Hits(hits)) matches Ok(
            (list, _),
        ) && {
            &&& forall|i: int|
                0 <= i < list.len() ==> (#[trigger] list[i]).lexical is None && from_hit(
                    list[i],
                    hits@,
                    hits@.len() as int,
                )
            &&& forall|h: int|
                0 <= h < hits@.len() ==> has_vector_score(
                    list,
                    (#[trigger] hits@[h]).element,
                    single::held_unit(hits@[h].score),
                )
        },
{
    let base = search::lexical_signals(Seq::<RankedElement>::empty(), 0);
    assert(base =~= Seq::<Signals>::empty());
    lemma_fused_kept(base, hits@, hits@.len());
}

/// A text search is the text side alone, whatever became of the vectors. A
/// hybrid search that could not embed its query shows just that, with a
/// warning; a semantic one fails, and so does any that failed to search the
/// vectors that it asked for.
pub proof fn law_failed_vectors_leave_text(
    lexical: Seq<RankedElement>,
    outcome: SemanticOutcome,
    error: String,
)
    requires
        forall|i: int, j: int|
            0 <= i < j < lexical.len() ==> (#[trigger] lexical[i]).element != (
            #[trigger] lexical[j]).element,
    ensures
        search::fusion(SearchMode::Text, lexical, outcome) matches Ok((list, None)) && {
            &&& list.len() == lexical.len()
            &&& forall|i: int|
                0 <= i < lexical.len() ==> (#[trigger] list[i]).element == lexical[i].element
                    && list[i].lexical == Some(single::held_unit(lexical[i].score))
            &&& search::fusion(
                SearchMode::Hybrid,
                lexical,
                SemanticOutcome::EmbeddingFailed(error),
            ) matches Ok((same, Some(_))) && same == list
        },
        search::fusion(SearchMode::Semantic, lexical, SemanticOutcome::EmbeddingFailed(error)) == Err::<
            (Seq<Signals>, Option<Seq<char>>),
            Seq<char>,
        >(error@),
        search::fusion(SearchMode::Semantic, lexical, SemanticOutcome::SearchFailed(error)) is Err,
        search::fusion(SearchMode::Hybrid, lexical, SemanticOutcome::SearchFailed(error)) is Err,
{
    lemma_lexical_kept(lexical, lexical.len());
}

/// Only matches are kept as candidates: scores above 0, but for not-a-number.
/// None is made up, and no more are kept than the limit says.
pub proof fn law_candidates_are_matches(candidates: Seq<RankedElement>, limit: nat)
    requires
        limit > 0,
    ensures
        search::retained(candidates, limit).len() <= limit,
        forall|i: int|
            0 <= i < search::retained(candidates, limit).len() ==> {
                let kept = #[trigger] search::retained(candidates, limit)[i];
                candidates.contains(kept) && (single::less(0, kept.score) || single::nan(kept.score))
            },
{
    let keep = |c: RankedElement| search::counts(c.score);
    search::law_retained_are_the_best(candidates, limit);
    let found = candidates.filter(keep);
    let sorted = order::ranked_sort::<RankedElement>(found);
    order::lemma_ranked_sort::<RankedElement>(found);
    let kept = search::retained(candidates, limit);
    assert forall|i: int| 0 <= i < kept.len() implies candidates.contains(#[trigger] kept[i]) && (
    single::less(0, kept[i].score) || single::nan(kept[i].score)) by {
        assert(sorted.contains(sorted[i]));
        assert(found.contains(kept[i]));
        candidates.lemma_filter_contains_rev(keep, kept[i]);
        let f = choose|f: int| 0 <= f < found.len() && found[f] == kept[i];
        candidates.lemma_filter_pred(keep, f);
        assert(single::magnitude(0) == 0);
        assert(!single::nan(0)) by {
            assert(single::finite(0));
        }
    }
}

/// A candidate that matches better than one that is kept is kept as well, and
/// stands before it.
pub proof fn law_better_candidates_are_kept(
    candidates: Seq<RankedElement>,
    limit: nat,
    better: int,
    q: int,
)
    requires
        limit > 0,
        0 <= better < candidates.len(),
        single::less(0, candidates[better].score) || single::nan(candidates[better].score),
        0 <= q < search::retained(candidates, limit).len(),
        single::total_place(candidates[better].score) > single::total_place(
            search::retained(candidates, limit)[q].score,
        ),
    ensures
        exists|p: int|
            0 <= p < q && #[trigger] search::retained(candidates, limit)[p] == candidates[better],
{
    let keep = |c: RankedElement| search::counts(c.score);
    search::law_retained_are_the_best(candidates, limit);
    let found = candidates.filter(keep);
    let sorted = order::ranked_sort::<RankedElement>(found);
    order::lemma_ranked_sort::<RankedElement>(found);
    let kept = search::retained(candidates, limit);
    let c = candidates[better];
    assert(search::counts(c.score)) by {
        assert(single::magnitude(0) == 0);
    }
    candidates.lemma_filter_contains(keep, better);
    assert(found.contains(c));
    assert(sorted.contains(c));
    let p = choose|p: int| 0 <= p < sorted.len() && sorted[p] == c;
    assert(kept[q] == sorted[q]);
    if p > q {
        assert(order::ranking::<RankedElement>()(sorted[q], sorted[p]));
    }
    assert(p < q);
    assert(kept[p] == c);
}

/// Where the limit has room, every match is kept.
pub proof fn law_all_matches_are_kept(candidates: Seq<RankedElement>, limit: nat, i: int)
    requires
        0 <= i < candidates.len() <= limit,
        single::less(0, candidates[i].score) || single::nan(candidates[i].score),
    ensures
        search::retained(candidates, limit).contains(candidates[i]),
{
    let keep = |c: RankedElement| search::counts(c.score);
    search::law_retained_are_the_best(candidates, limit);
    let found = candidates.filter(keep);
    let sorted = order::ranked_sort::<RankedElement>(found);
    order::lemma_ranked_sort::<RankedElement>(found);
    candidates.lemma_filter_len(keep);
    assert(search::counts(candidates[i].score)) by {
        assert(single::magnitude(0) == 0);
    }
    candidates.lemma_filter_contains(keep, i);
    assert(found.contains(candidates[i]));
    assert(sorted.contains(candidates[i]));
}

/// Every node and every relationship is a candidate with its own score.
pub proof fn law_every_element_is_a_candidate(read: GraphData, scores: Seq<u32>, i: int)
    requires
        scores.len() == read.nodes@.len() + read.edges@.len(),
    ensures
        read.scored_elements(scores).len() == scores.len(),
        0 <= i < read.nodes@.len() ==> read.scored_elements(scores)[i].element == ElementRef::Node(
            read.nodes@[i].id,
        ) && read.scored_elements(scores)[i].score == scores[i],
        0 <= i < read.edges@.len() ==> ({
            let at = read.nodes@.len() + i;
            read.scored_elements(scores)[at].element == ElementRef::Edge(read.edges@[i].id)
                && read.scored_elements(scores)[at].score == scores[at]
        }),
{
}

/// The more results are asked for, the more candidates are looked at: always
/// at least as many as results, and never fewer than thirty-two.
pub proof fn law_candidates_outnumber_results(limit: nat, more: nat)
    requires
        limit <= more <= usize::MAX,
    ensures
        search::candidates_for(limit) >= limit,
        search::candidates_for(limit) >= 32,
        search::candidates_for(limit) <= search::candidates_for(more),
        6 <= limit * 6 <= usize::MAX ==> search::candidates_for(limit) >= limit * 6,
        search::candidates_for(limit) <= usize::MAX,
{
}

/// A text matches a phrase exactly where it is the phrase, and contains it
/// where the phrase stands somewhere in it.
pub proof fn law_phrases_match_where_they_occur(
    before: Seq<char>,
    phrase: Seq<char>,
    after: Seq<char>,
)
    requires
        phrase.len() > 0,
    ensures
        search::phrase_match(phrase, phrase) == PhraseMatch::Exact,
        before.len() + after.len() > 0 ==> search::phrase_match(before + phrase + after, phrase)
            == PhraseMatch::Contained,
        search::phrase_match(before, phrase) == PhraseMatch::Absent ==> before != phrase
            && forall|at: int|
            0 <= at && at + phrase.len() <= before.len() ==> #[trigger] before.subrange(
                at,
                at + phrase.len(),
            ) != phrase,
        search::phrase_match(before, phrase) == PhraseMatch::Contained ==> before != phrase
            && exists|at: int|
            0 <= at && at + phrase.len() <= before.len() && #[trigger] before.subrange(
                at,
                at + phrase.len(),
            ) == phrase,
{
    let whole = before + phrase + after;
    assert(whole.subrange(before.len() as int, (before.len() + phrase.len()) as int) =~= phrase);
    assert(search::occurs_at(whole, phrase, before.len() as int));
    if before.len() + after.len() > 0 {
        assert(whole.len() != phrase.len());
    }
    assert forall|at: int|
        search::phrase_match(before, phrase) == PhraseMatch::Absent && 0 <= at && at + phrase.len()
            <= before.len() implies #[trigger] before.subrange(at, at + phrase.len()) != phrase by {
        if before.subrange(at, at + phrase.len()) == phrase {
            assert(search::occurs_at(before, phrase, at));
        }
    }
    if search::phrase_match(before, phrase) == PhraseMatch::Contained {
        let at = choose|at: int| #[trigger] search::occurs_at(before, phrase, at);
        assert(before.subrange(at, at + phrase.len()) == phrase);
    }
}

/// As many terms match as occur in the text: all of them where each does, and
/// none where none does.
pub proof fn law_matched_terms_occur(content: Seq<char>, terms: Seq<Seq<char>>)
    ensures
        search::terms_in(content, terms) == terms.filter(
            |term: Seq<char>| search::occurs(content, term),
        ).len(),
        search::terms_in(content, terms) <= terms.len(),
        search::terms_in(content, terms) == terms.len() <==> forall|i: int|
            0 <= i < terms.len() ==> search::occurs(content, #[trigger] terms[i]),
    decreases terms.len(),
{
    reveal(Seq::filter);
    if terms.len() > 0 {
        let rest = terms.drop_last();
        law_matched_terms_occur(content, rest);
        assert forall|i: int| 0 <= i < rest.len() implies rest[i] == #[trigger] terms[i] by {}
        if forall|i: int| 0 <= i < rest.len() ==> search::occurs(content, #[trigger] rest[i]) {
        } else {
            let i = choose|i: int| 0 <= i < rest.len() && !search::occurs(content, #[trigger] rest[i]);
            assert(!search::occurs(content, terms[i]));
        }
    }
}

/// A match in a title weighs as such, and so does one in a body; the label of
/// an element is always among what is matched, and weighs as a label.
pub proof fn law_matches_weigh_by_their_key(
    read: GraphData,
    label: Seq<char>,
    properties: Seq<Property>,
    phrase: Seq<char>,
    terms: Seq<Seq<char>>,
)
    ensures
        search::key_weight("title"@) == MatchWeight::Title,
        search::key_weight("name"@) == MatchWeight::Title,
        search::key_weight("headline"@) == MatchWeight::Title,
        search::key_weight("path"@) == MatchWeight::Title,
        search::key_weight("tag_name"@) == MatchWeight::Title,
        search::key_weight("login"@) == MatchWeight::Title,
        search::key_weight("body"@) == MatchWeight::Body,
        search::key_weight("description"@) == MatchWeight::Body,
        search::key_weight("message"@) == MatchWeight::Body,
        search::key_weight("url"@) == MatchWeight::Body,
        search::key_weight("state"@) == MatchWeight::Other,
        ({
            let found = read.element_matches(label, properties, phrase, terms);
            &&& 1 <= found.len() <= 1 + properties.len()
            &&& found[0].0 == MatchWeight::Label
            &&& phrase.len() > 0 && text::ascii_lowered(label) == phrase ==> found[0].1.phrase
                == PhraseMatch::Exact
            &&& forall|i: int|
                0 < i < found.len() ==> (#[trigger] found[i]).0 != MatchWeight::Label
        }),
{
    reveal_strlit("title");
    reveal_strlit("name");
    reveal_strlit("headline");
    reveal_strlit("path");
    reveal_strlit("tag_name");
    reveal_strlit("login");
    reveal_strlit("body");
    reveal_strlit("description");
    reveal_strlit("message");
    reveal_strlit("url");
    reveal_strlit("state");
    assert("body"@[0] != "title"@[0] && "body"@[0] != "name"@[0] && "body"@[0] != "headline"@[0]
        && "body"@[0] != "path"@[0] && "body"@[0] != "login"@[0]);
    assert("description"@[0] == 'd' && "message"@[0] == 'm' && "url"@[0] == 'u' && "state"@[0]
        == 's');
    lemma_property_matches(read, properties, phrase, terms, properties.len());
}

proof fn lemma_property_matches(
    read: GraphData,
    properties: Seq<Property>,
    phrase: Seq<char>,
    terms: Seq<Seq<char>>,
    upto: nat,
)
    ensures
        ({
            let found = read.property_matches(properties, phrase, terms, upto);
            &&& found.len() <= upto
            &&& forall|i: int|
                0 <= i < found.len() ==> (#[trigger] found[i]).0 != MatchWeight::Label
        }),
    decreases upto,
{
    if upto > 0 {
        lemma_property_matches(read, properties, phrase, terms, (upto - 1) as nat);
    }
}

/// Choosing a hit selects the row of the element that it names, in nodes or
/// relationships as it is one, and nothing where the scene lacks it.
pub proof fn law_hits_select_their_element(s: SceneSnapshot, element: ElementRef)
    requires
        s.nodes.ids@.len() <= usize::MAX,
        s.edges.ids@.len() <= usize::MAX,
    ensures
        match search::selection_of(s, element) {
            Some(SceneSelection::Node(i)) => i < s.nodes.ids@.len() && element == ElementRef::Node(
                s.nodes.ids@[i as int],
            ),
            Some(SceneSelection::Edge(i)) => i < s.edges.ids@.len() && element == ElementRef::Edge(
                s.edges.ids@[i as int],
            ),
            None => match element {
                ElementRef::Node(id) => !s.nodes.ids@.contains(id),
                ElementRef::Edge(id) => !s.edges.ids@.contains(id),
            },
        },
{
    match element {
        ElementRef::Node(id) => {
            if s.nodes.ids@.contains(id) {
                let i = s.nodes.ids@.index_of(id);
                assert(s.nodes.ids@[i] == id);
            }
        },
        ElementRef::Edge(id) => {
            if s.edges.ids@.contains(id) {
                let i = s.edges.ids@.index_of(id);
                assert(s.edges.ids@[i] == id);
            }
        },
    }
}

/// Among equals nodes come before relationships, and lower ids before higher
/// ones.
pub proof fn law_ties_are_broken_by_kind_and_id(a: u64, b: u64)
    ensures
        search::element_leq(ElementRef::Node(a), ElementRef::Edge(b)),
        !search::element_leq(ElementRef::Edge(a), ElementRef::Node(b)),
        search::element_leq(ElementRef::Node(a), ElementRef::Node(b)) <==> a <= b,
        search::element_leq(ElementRef::Edge(a), ElementRef::Edge(b)) <==> a <= b,
{
}

/// Candidates are kept from the best to the worst; of equally good ones the
/// later element stands first.
pub proof fn law_candidates_are_ranked(
    candidates: Seq<RankedElement>,
    limit: nat,
    p: int,
    q: int,
)
    requires
        limit > 0,
        0 <= p < q < search::retained(candidates, limit).len(),
    ensures
        ({
            let kept = search::retained(candidates, limit);
            let x = single::total_place(kept[p].score);
            let y = single::total_place(kept[q].score);
            x > y || (x == y && (kept[p].element == kept[q].element || search::element_leq(
                kept[q].element,
                kept[p].element,
            )))
        }),
{
    search::law_retained_are_the_best(candidates, limit);
    let matches = candidates.filter(|c: RankedElement| search::counts(c.score));
    let sorted = order::ranked_sort::<RankedElement>(matches);
    order::lemma_ranked_sort::<RankedElement>(matches);
    assert(order::ranking::<RankedElement>()(sorted[p], sorted[q]));
    assert(search::retained(candidates, limit)[p] == sorted[p]);
    assert(search::retained(candidates, limit)[q] == sorted[q]);
}

} // verus!
