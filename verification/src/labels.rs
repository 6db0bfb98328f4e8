//! How often labels occur.

use vstd::prelude::*;
use vstd::relations::*;
use vstd::string::*;

use crate::order;
use crate::order::{sort_ranked, text_is_leq, Ranked};
use crate::scene::SceneSnapshot;
use crate::text;
use crate::text::same_text;

verus! {

impl Ranked for (String, usize) {
    /// Higher counts first, then labels in order.
    open spec fn leq(a: (Seq<char>, usize), b: (Seq<char>, usize)) -> bool {
        if a.1 != b.1 {
            a.1 > b.1
        } else {
            order::text_leq(a.0, b.0)
        }
    }

    proof fn order_is_total() {
        let leq = |a: (Seq<char>, usize), b: (Seq<char>, usize)| Self::leq(a, b);
        assert forall|a: (Seq<char>, usize)| #[trigger] leq(a, a) by {
            order::lemma_text_leq_reflexive(a.0);
        }
        assert forall|a: (Seq<char>, usize), b: (Seq<char>, usize)| #[trigger] leq(a, b)
            && #[trigger] leq(b, a) implies a == b by {
            order::lemma_text_leq_antisymmetric(a.0, b.0);
        }
        assert forall|a: (Seq<char>, usize), b: (Seq<char>, usize), c: (Seq<char>, usize)| #[trigger]
            leq(a, b) && #[trigger] leq(b, c) implies leq(a, c) by {
            if a.1 == b.1 && b.1 == c.1 {
                order::lemma_text_leq_transitive(a.0, b.0, c.0);
            }
        }
        assert forall|a: (Seq<char>, usize), b: (Seq<char>, usize)| #[trigger] leq(a, b)
            || #[trigger] leq(b, a) by {
            order::lemma_text_leq_total(a.0, b.0);
        }
    }

    fn is_leq(&self, other: &(String, usize)) -> (r: bool) {
        if self.1 != other.1 {
            self.1 > other.1
        } else {
            text_is_leq(self.0.as_str(), other.0.as_str())
        }
    }
}

/// The labels without repetitions, by first occurrence.
pub open spec fn distinct(labels: Seq<Seq<char>>) -> Seq<Seq<char>>
    decreases labels.len(),
{
    if labels.len() == 0 {
        Seq::empty()
    } else {
        let before = distinct(labels.drop_last());
        if before.contains(labels.last()) {
            before
        } else {
            before.push(labels.last())
        }
    }
}

/// How often a label occurs.
pub open spec fn occurrences(labels: Seq<Seq<char>>, label: Seq<char>) -> nat
    decreases labels.len(),
{
    if labels.len() == 0 {
        0
    } else {
        occurrences(labels.drop_last(), label) + if labels.last() == label {
            1nat
        } else {
            0
        }
    }
}

/// Each label with how often it occurs, by first occurrence.
pub open spec fn tallies(labels: Seq<Seq<char>>) -> Seq<(Seq<char>, usize)> {
    distinct(labels).map_values(
        |label: Seq<char>| (label, occurrences(labels, label) as usize),
    )
}

/// Each label with how often it occurs, the most frequent first.
pub open spec fn label_counts(labels: Seq<Seq<char>>) -> Seq<(Seq<char>, usize)> {
    order::ranked_sort::<(String, usize)>(tallies(labels))
}

pub proof fn lemma_occurrences_bound(labels: Seq<Seq<char>>, label: Seq<char>)
    ensures
        occurrences(labels, label) <= labels.len(),
        labels.contains(label) <==> occurrences(labels, label) > 0,
        distinct(labels).contains(label) <==> labels.contains(label),
    decreases labels.len(),
{
    if labels.len() > 0 {
        let before = labels.drop_last();
        lemma_occurrences_bound(before, label);
        let d = distinct(before);
        let now = distinct(labels);
        if labels.contains(label) {
            let i = choose|i: int| 0 <= i < labels.len() && labels[i] == label;
            if i < before.len() {
                assert(before[i] == label);
            }
        }
        if before.contains(label) {
            let i = choose|i: int| 0 <= i < before.len() && before[i] == label;
            assert(labels[i] == label);
        }
        if labels.last() == label {
            assert(labels[labels.len() - 1] == label);
            if !d.contains(label) {
                assert(now.last() == label);
            }
        } else if d.contains(label) {
            let k = choose|k: int| 0 <= k < d.len() && d[k] == label;
            assert(now[k] == label);
        } else if now.contains(label) {
            let k = choose|k: int| 0 <= k < now.len() && now[k] == label;
            if k < d.len() {
                assert(d[k] == label);
            }
        }
    }
}

pub proof fn lemma_distinct_positions(labels: Seq<Seq<char>>)
    ensures
        distinct(labels).no_duplicates(),
    decreases labels.len(),
{
    if labels.len() > 0 {
        lemma_distinct_positions(labels.drop_last());
    }
}

/// Counts labels, the most frequent first.
pub fn count_labels(labels: &Vec<String>) -> (r: Vec<(String, usize)>)
    ensures
        order::ranked_views(r@) == label_counts(text::views(labels@)),
{
    let ghost all = text::views(labels@);
    let mut counts: Vec<(String, usize)> = Vec::new();
    let mut i: usize = 0;
    proof {
        assert(order::ranked_views(counts@) =~= tallies(all.take(0)));
    }
    while i < labels.len()
        invariant
            i <= labels.len(),
            all == text::views(labels@),
            order::ranked_views(counts@) == tallies(all.take(i as int)),
        decreases labels.len() - i,
    {
        let ghost prior = all.take(i as int);
        let ghost now = all.take(i + 1);
        let ghost label = labels@[i as int]@;
        let ghost before = order::ranked_views(counts@);
        proof {
            assert(now.drop_last() =~= prior);
            assert(now.last() == label);
            lemma_distinct_positions(prior);
        }
        let mut k: usize = 0;
        while k < counts.len() && !same_text(counts[k].0.as_str(), labels[i].as_str())
            invariant
                i < labels.len(),
                label == labels@[i as int]@,
                k <= counts.len(),
                order::ranked_views(counts@) == tallies(prior),
                forall|j: int| 0 <= j < k ==> (#[trigger] distinct(prior)[j]) != label,
            decreases counts.len() - k,
        {
            proof {
                assert(order::ranked_views(counts@)[k as int] == counts@[k as int]@);
                assert(order::ranked_views(counts@).len() == counts@.len());
                assert(tallies(prior).len() == distinct(prior).len());
                assert(tallies(prior)[k as int].0 == distinct(prior)[k as int]);
            }
            k = k + 1;
        }
        if k < counts.len() {
            proof {
                assert(order::ranked_views(counts@)[k as int] == counts@[k as int]@);
                assert(order::ranked_views(counts@).len() == counts@.len());
                assert(tallies(prior).len() == distinct(prior).len());
                assert(tallies(prior)[k as int].0 == distinct(prior)[k as int]);
                assert(distinct(prior).contains(label));
                lemma_occurrences_bound(prior, label);
                assert(counts@[k as int].1 == occurrences(prior, label) as usize);
            }
            let name = counts[k].0.clone();
            let count: usize = counts[k].1 + 1;
            counts.set(k, (name, count));
            proof {
                let after = order::ranked_views(counts@);
                assert(after.len() == before.len());
                assert forall|j: int| 0 <= j < after.len() implies after[j] == tallies(
                    now,
                )[j] by {
                    assert(after[j] == counts@[j]@);
                    assert(distinct(now) == distinct(prior));
                    lemma_occurrences_bound(prior, distinct(prior)[j]);
                    if j != k {
                        assert(before[j] == after[j]);
                        assert(distinct(prior)[j] != distinct(prior)[k as int]);
                    }
                }
                assert(after =~= tallies(now));
            }
        } else {
            proof {
                assert(order::ranked_views(counts@).len() == counts@.len());
                assert(tallies(prior).len() == distinct(prior).len());
                assert(!distinct(prior).contains(label));
                lemma_occurrences_bound(prior, label);
            }
            counts.push((labels[i].clone(), 1));
            proof {
                let after = order::ranked_views(counts@);
                assert(distinct(now) == distinct(prior).push(label));
                assert forall|j: int| 0 <= j < after.len() implies after[j] == tallies(
                    now,
                )[j] by {
                    assert(after[j] == counts@[j]@);
                    if j < before.len() {
                        assert(before[j] == after[j]);
                        assert(distinct(now)[j] == distinct(prior)[j]);
                        assert(distinct(prior).contains(distinct(prior)[j]));
                    }
                }
                assert(after =~= tallies(now));
            }
        }
        i = i + 1;
    }
    assert(all.take(all.len() as int) =~= all);
    sort_ranked(counts)
}

impl SceneSnapshot {
    /// How often each node label occurs.
    pub fn label_counts(&self) -> (r: Vec<(String, usize)>)
        ensures
            order::ranked_views(r@) == label_counts(text::views(self.nodes.labels@)),
    {
        count_labels(&self.nodes.labels)
    }

    /// How often each relationship label occurs.
    pub fn relationship_counts(&self) -> (r: Vec<(String, usize)>)
        ensures
            order::ranked_views(r@) == label_counts(text::views(self.edges.labels@)),
    {
        count_labels(&self.edges.labels)
    }
}

/// Every label that occurs is listed, once, with the number of its
/// occurrences, and higher counts come first.
pub proof fn law_counts_are_complete_and_ordered(labels: Seq<Seq<char>>)
    requires
        labels.len() <= usize::MAX,
    ensures
        forall|label: Seq<char>|
            labels.contains(label) ==> #[trigger] label_counts(labels).contains(
                (label, occurrences(labels, label) as usize),
            ),
        forall|i: int|
            0 <= i < label_counts(labels).len() ==> (#[trigger] label_counts(labels)[i]).1
                == occurrences(labels, label_counts(labels)[i].0) && label_counts(labels)[i].1 > 0,
        forall|i: int, j: int|
            0 <= i < j < label_counts(labels).len() ==> (#[trigger] label_counts(labels)[i]).1 >= (
            #[trigger] label_counts(labels)[j]).1,
        forall|i: int, j: int|
            0 <= i < j < label_counts(labels).len() ==> (#[trigger] label_counts(labels)[i]).0 != (
            #[trigger] label_counts(labels)[j]).0,
{
    let t = tallies(labels);
    let sorted = order::ranked_sort::<(String, usize)>(t);
    assert(sorted == label_counts(labels));
    order::lemma_ranked_sort::<(String, usize)>(t);
    assert forall|label: Seq<char>| labels.contains(label) implies #[trigger] sorted.contains(
        (label, occurrences(labels, label) as usize),
    ) by {
        lemma_occurrences_bound(labels, label);
        let d = distinct(labels);
        let k = choose|k: int| 0 <= k < d.len() && d[k] == label;
        assert(t[k] == (label, occurrences(labels, label) as usize));
        assert(t.contains((label, occurrences(labels, label) as usize)));
    }
    assert forall|i: int| 0 <= i < sorted.len() implies (#[trigger] sorted[i]).1 == occurrences(
        labels,
        sorted[i].0,
    ) && sorted[i].1 > 0 by {
        assert(sorted.contains(sorted[i]));
        assert(t.contains(sorted[i]));
        let k = choose|k: int| 0 <= k < t.len() && t[k] == sorted[i];
        assert(t.len() == distinct(labels).len());
        assert(distinct(labels).contains(distinct(labels)[k]));
        lemma_occurrences_bound(labels, sorted[i].0);
    }
    assert forall|i: int, j: int| 0 <= i < j < sorted.len() implies (#[trigger] sorted[i]).1 >= (
    #[trigger] sorted[j]).1 by {
        assert(order::ranking::<(String, usize)>()(sorted[i], sorted[j]));
    }
    assert(sorted.no_duplicates()) by {
        lemma_distinct_positions(labels);
        assert forall|i: int, j: int| 0 <= i < j < t.len() implies t[i] != t[j] by {
            assert(t[i].0 == distinct(labels)[i] && t[j].0 == distinct(labels)[j]);
        }
        t.lemma_multiset_has_no_duplicates();
        sorted.lemma_multiset_has_no_duplicates_conv();
    }
}

/// Labels that occur equally often stand in the order of the alphabet.
pub proof fn law_equal_counts_are_alphabetical(labels: Seq<Seq<char>>, i: int, j: int)
    requires
        0 <= i < j < label_counts(labels).len(),
        label_counts(labels)[i].1 == label_counts(labels)[j].1,
    ensures
        order::text_leq(label_counts(labels)[i].0, label_counts(labels)[j].0),
{
    let sorted = label_counts(labels);
    order::lemma_ranked_sort::<(String, usize)>(tallies(labels));
    assert(order::ranking::<(String, usize)>()(sorted[i], sorted[j]));
}

/// A label is counted as often as it occurs.
pub proof fn law_labels_are_counted(labels: Seq<Seq<char>>, label: Seq<char>)
    ensures
        occurrences(labels, label) == labels.filter(|l: Seq<char>| l == label).len(),
    decreases labels.len(),
{
    reveal(Seq::filter);
    if labels.len() > 0 {
        law_labels_are_counted(labels.drop_last(), label);
    }
}

/// A label with its count, ordered by label.
#[derive(Debug)]
struct ByLabel {
    label: String,
    count: usize,
}

impl View for ByLabel {
    type V = (Seq<char>, usize);

    closed spec fn view(&self) -> (Seq<char>, usize) {
        (self.label@, self.count)
    }
}

/// Whether one labelled count stands before another by its label.
pub open spec fn label_leq(a: (Seq<char>, usize), b: (Seq<char>, usize)) -> bool {
    if a.0 != b.0 {
        order::text_leq(a.0, b.0)
    } else {
        a.1 <= b.1
    }
}

impl Ranked for ByLabel {
    closed spec fn leq(a: (Seq<char>, usize), b: (Seq<char>, usize)) -> bool {
        label_leq(a, b)
    }

    proof fn order_is_total() {
        let leq = |a: (Seq<char>, usize), b: (Seq<char>, usize)| Self::leq(a, b);
        assert forall|a: (Seq<char>, usize), b: (Seq<char>, usize)| #[trigger] leq(a, b)
            && #[trigger] leq(b, a) implies a == b by {
            if a.0 != b.0 {
                order::lemma_text_leq_antisymmetric(a.0, b.0);
            }
        }
        assert forall|a: (Seq<char>, usize), b: (Seq<char>, usize), c: (Seq<char>, usize)| #[trigger]
            leq(a, b) && #[trigger] leq(b, c) implies leq(a, c) by {
            if a.0 != b.0 && b.0 != c.0 {
                order::lemma_text_leq_transitive(a.0, b.0, c.0);
                if a.0 == c.0 {
                    order::lemma_text_leq_antisymmetric(a.0, b.0);
                }
            }
        }
        assert forall|a: (Seq<char>, usize), b: (Seq<char>, usize)| #[trigger] leq(a, b)
            || #[trigger] leq(b, a) by {
            order::lemma_text_leq_total(a.0, b.0);
        }
    }

    fn is_leq(&self, other: &ByLabel) -> (r: bool) {
        if !same_text(self.label.as_str(), other.label.as_str()) {
            text_is_leq(self.label.as_str(), other.label.as_str())
        } else {
            self.count <= other.count
        }
    }
}

/// The contents of a list of labelled counts.
pub open spec fn counts_view(counts: Seq<(String, usize)>) -> Seq<(Seq<char>, usize)> {
    counts.map_values(|c: (String, usize)| (c.0@, c.1))
}

/// Each label with how often it occurs, labels in order.
pub open spec fn counts_by_label(labels: Seq<Seq<char>>) -> Seq<(Seq<char>, usize)> {
    tallies(labels).sort_by(
        |a: (Seq<char>, usize), b: (Seq<char>, usize)| label_leq(a, b),
    )
}

/// Counts labels, labels in order.
pub fn count_by_label(labels: &Vec<String>) -> (r: Vec<(String, usize)>)
    ensures
        counts_view(r@) == counts_by_label(text::views(labels@)),
{
    let ghost all = text::views(labels@);
    let counts = count_labels(labels);
    let ghost ranked = order::ranked_views(counts@);
    let mut items: Vec<ByLabel> = Vec::new();
    let mut i: usize = 0;
    while i < counts.len()
        invariant
            i <= counts.len(),
            ranked == order::ranked_views(counts@),
            order::ranked_views(items@) == ranked.take(i as int),
        decreases counts.len() - i,
    {
        let ghost before = order::ranked_views(items@);
        let item = ByLabel { label: counts[i].0.clone(), count: counts[i].1 };
        let ghost view = item@;
        items.push(item);
        proof {
            assert(view == ranked[i as int]);
            assert(order::ranked_views(items@) =~= before.push(view));
            assert(ranked.take(i + 1) =~= ranked.take(i as int).push(view));
        }
        i = i + 1;
    }
    assert(ranked.take(ranked.len() as int) =~= ranked);
    let sorted = sort_ranked(items);
    let ghost sorted_views = order::ranked_views(sorted@);
    let mut out: Vec<(String, usize)> = Vec::new();
    let mut k: usize = 0;
    while k < sorted.len()
        invariant
            k <= sorted.len(),
            sorted_views == order::ranked_views(sorted@),
            counts_view(out@) == sorted_views.take(k as int),
        decreases sorted.len() - k,
    {
        let ghost before = counts_view(out@);
        out.push((sorted[k].label.clone(), sorted[k].count));
        proof {
            assert(sorted_views[k as int] == sorted@[k as int]@);
            assert(counts_view(out@) =~= before.push(sorted_views[k as int]));
            assert(sorted_views.take(k + 1) =~= sorted_views.take(k as int).push(
                sorted_views[k as int],
            ));
        }
        k = k + 1;
    }
    proof {
        assert(sorted_views.take(sorted_views.len() as int) =~= sorted_views);
        let leq = |a: (Seq<char>, usize), b: (Seq<char>, usize)| label_leq(a, b);
        assert(order::ranking::<ByLabel>() =~= leq);
        order::lemma_ranked_sort::<(String, usize)>(tallies(all));
        order::lemma_ranked_sort::<ByLabel>(ranked);
        assert(sorted_views == order::ranked_sort::<ByLabel>(ranked));
        assert(ranked.to_multiset() == tallies(all).to_multiset());
        order::lemma_is_ranked_sort::<ByLabel>(tallies(all), sorted_views);
    }
    out
}

/// Counts in the order of the alphabet hold every label that occurs, once and
/// with its count.
pub proof fn law_alphabetical_counts_are_complete(labels: Seq<Seq<char>>)
    requires
        labels.len() <= usize::MAX,
    ensures
        forall|label: Seq<char>| #[trigger]
            labels.contains(label) ==> exists|i: int|
                0 <= i < counts_by_label(labels).len() && (#[trigger] counts_by_label(labels)[i]).0
                    == label,
        forall|i: int|
            0 <= i < counts_by_label(labels).len() ==> labels.contains(
                (#[trigger] counts_by_label(labels)[i]).0,
            ) && counts_by_label(labels)[i].1 == occurrences(labels, counts_by_label(labels)[i].0),
        forall|i: int, j: int|
            0 <= i < j < counts_by_label(labels).len() ==> order::text_leq(
                (#[trigger] counts_by_label(labels)[i]).0,
                (#[trigger] counts_by_label(labels)[j]).0,
            ) && counts_by_label(labels)[i].0 != counts_by_label(labels)[j].0,
{
    let t = tallies(labels);
    let d = distinct(labels);
    let sorted = counts_by_label(labels);
    order::lemma_ranked_sort::<ByLabel>(t);
    assert(order::ranking::<ByLabel>() =~= (|a: (Seq<char>, usize), b: (Seq<char>, usize)|
        label_leq(a, b)));
    assert(sorted == order::ranked_sort::<ByLabel>(t));
    assert forall|label: Seq<char>| #[trigger] labels.contains(label) implies exists|i: int|
        0 <= i < sorted.len() && (#[trigger] sorted[i]).0 == label by {
        lemma_occurrences_bound(labels, label);
        let k = choose|k: int| 0 <= k < d.len() && d[k] == label;
        assert(t[k] == (label, occurrences(labels, label) as usize));
        assert(t.contains(t[k]));
        assert(sorted.contains(t[k]));
        let i = choose|i: int| 0 <= i < sorted.len() && sorted[i] == t[k];
        assert(sorted[i].0 == label);
    }
    assert forall|i: int| 0 <= i < sorted.len() implies labels.contains((#[trigger] sorted[i]).0)
        && sorted[i].1 == occurrences(labels, sorted[i].0) by {
        assert(sorted.contains(sorted[i]));
        assert(t.contains(sorted[i]));
        let k = choose|k: int| 0 <= k < t.len() && t[k] == sorted[i];
        assert(d.contains(d[k]));
        lemma_occurrences_bound(labels, sorted[i].0);
    }
    assert(sorted.no_duplicates()) by {
        lemma_distinct_positions(labels);
        assert forall|i: int, j: int| 0 <= i < j < t.len() implies t[i] != t[j] by {
            assert(t[i].0 == d[i] && t[j].0 == d[j]);
        }
        t.lemma_multiset_has_no_duplicates();
        sorted.lemma_multiset_has_no_duplicates_conv();
    }
    assert forall|i: int, j: int| 0 <= i < j < sorted.len() implies order::text_leq(
        (#[trigger] sorted[i]).0,
        (#[trigger] sorted[j]).0,
    ) && sorted[i].0 != sorted[j].0 by {
        assert(order::ranking::<ByLabel>()(sorted[i], sorted[j]));
        assert(label_leq(sorted[i], sorted[j]));
        assert(sorted[i] != sorted[j]);
        if sorted[i].0 == sorted[j].0 {
            assert(sorted[i].1 == sorted[j].1);
        }
    }
}

} // verus!
