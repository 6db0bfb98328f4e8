//! Total orders and a sort that is proved against them.

use vstd::prelude::*;
use vstd::relations::*;
use vstd::seq_lib::*;

use crate::text::chars_of;

verus! {

/// Lexicographic order by character, the order of strings.
pub open spec fn text_leq(a: Seq<char>, b: Seq<char>) -> bool
    decreases a.len(),
{
    if a.len() == 0 {
        true
    } else if b.len() == 0 {
        false
    } else if a[0] != b[0] {
        a[0] < b[0]
    } else {
        text_leq(a.drop_first(), b.drop_first())
    }
}

pub proof fn lemma_text_leq_reflexive(a: Seq<char>)
    ensures
        text_leq(a, a),
    decreases a.len(),
{
    if a.len() > 0 {
        lemma_text_leq_reflexive(a.drop_first());
    }
}

pub proof fn lemma_text_leq_antisymmetric(a: Seq<char>, b: Seq<char>)
    requires
        text_leq(a, b),
        text_leq(b, a),
    ensures
        a == b,
    decreases a.len(),
{
    if a.len() > 0 && b.len() > 0 {
        assert(a[0] == b[0]);
        lemma_text_leq_antisymmetric(a.drop_first(), b.drop_first());
        assert(a.drop_first().len() == b.drop_first().len());
        assert forall|i: int| 0 <= i < a.len() implies a[i] == b[i] by {
            if i > 0 {
                assert(a[i] == a.drop_first()[i - 1]);
                assert(b[i] == b.drop_first()[i - 1]);
            }
        }
        assert(a =~= b);
    } else {
        assert(a =~= b);
    }
}

pub proof fn lemma_text_leq_transitive(a: Seq<char>, b: Seq<char>, c: Seq<char>)
    requires
        text_leq(a, b),
        text_leq(b, c),
    ensures
        text_leq(a, c),
    decreases a.len(),
{
    if a.len() > 0 && b.len() > 0 && c.len() > 0 && a[0] == b[0] && b[0] == c[0] {
        lemma_text_leq_transitive(a.drop_first(), b.drop_first(), c.drop_first());
    }
}

pub proof fn lemma_text_leq_total(a: Seq<char>, b: Seq<char>)
    ensures
        text_leq(a, b) || text_leq(b, a),
    decreases a.len(),
{
    if a.len() > 0 && b.len() > 0 && a[0] == b[0] {
        lemma_text_leq_total(a.drop_first(), b.drop_first());
    }
}

/// Whether `a` comes before `b` or equals it.
pub fn text_is_leq(a: &str, b: &str) -> (r: bool)
    ensures
        r == text_leq(a@, b@),
{
    let x = chars_of(a);
    let y = chars_of(b);
    let mut i: usize = 0;
    assert(a@.subrange(0, a@.len() as int) =~= a@);
    assert(b@.subrange(0, b@.len() as int) =~= b@);
    while i < x.len() && i < y.len() && x[i] == y[i]
        invariant
            x@ == a@,
            y@ == b@,
            i <= x.len(),
            i <= y.len(),
            text_leq(a@, b@) == text_leq(
                a@.subrange(i as int, a@.len() as int),
                b@.subrange(i as int, b@.len() as int),
            ),
        decreases x.len() - i,
    {
        assert(a@.subrange(i as int, a@.len() as int).drop_first() =~= a@.subrange(
            i + 1,
            a@.len() as int,
        ));
        assert(b@.subrange(i as int, b@.len() as int).drop_first() =~= b@.subrange(
            i + 1,
            b@.len() as int,
        ));
        i = i + 1;
    }
    if i == x.len() {
        true
    } else if i == y.len() {
        false
    } else {
        x[i] < y[i]
    }
}

/// Values with a total order on their views.
pub trait Ranked: View + Sized {
    /// Whether `a` stands before `b` or equals it.
    spec fn leq(a: Self::V, b: Self::V) -> bool;

    proof fn order_is_total()
        ensures
            total_ordering(|a: Self::V, b: Self::V| Self::leq(a, b)),
    ;

    fn is_leq(&self, other: &Self) -> (r: bool)
        ensures
            r == Self::leq(self@, other@),
    ;
}

/// The views of a sequence of ranked values.
pub open spec fn ranked_views<T: View>(items: Seq<T>) -> Seq<T::V> {
    items.map_values(|t: T| t@)
}

/// The order of a ranked type as a closure.
pub open spec fn ranking<T: Ranked>() -> spec_fn(T::V, T::V) -> bool {
    |a: T::V, b: T::V| T::leq(a, b)
}

/// The views in ascending order.
pub open spec fn ranked_sort<T: Ranked>(items: Seq<T::V>) -> Seq<T::V> {
    items.sort_by(ranking::<T>())
}

/// A sorted sequence with the same items is the sorted sequence.
pub proof fn lemma_is_ranked_sort<T: Ranked>(items: Seq<T::V>, sorted: Seq<T::V>)
    requires
        sorted_by(sorted, ranking::<T>()),
        sorted.to_multiset() == items.to_multiset(),
    ensures
        sorted == ranked_sort::<T>(items),
{
    T::order_is_total();
    items.lemma_sort_by_ensures(ranking::<T>());
    lemma_sorted_unique(sorted, ranked_sort::<T>(items), ranking::<T>());
}

/// What sorting keeps: the items, and ascending order.
pub proof fn lemma_ranked_sort<T: Ranked>(items: Seq<T::V>)
    ensures
        sorted_by(ranked_sort::<T>(items), ranking::<T>()),
        ranked_sort::<T>(items).to_multiset() == items.to_multiset(),
        ranked_sort::<T>(items).len() == items.len(),
        forall|x: T::V| ranked_sort::<T>(items).contains(x) <==> items.contains(x),
{
    broadcast use group_to_multiset_ensures;

    T::order_is_total();
    items.lemma_sort_by_ensures(ranking::<T>());
    let sorted = ranked_sort::<T>(items);
    assert(sorted.to_multiset().len() == items.to_multiset().len());
    assert forall|x: T::V| sorted.contains(x) <==> items.contains(x) by {
        assert(sorted.to_multiset().count(x) == items.to_multiset().count(x));
    }
}

/// Values with the same multiset have views with the same multiset.
proof fn lemma_views_multiset<T: View>(a: Seq<T>, b: Seq<T>)
    requires
        a.to_multiset() == b.to_multiset(),
    ensures
        ranked_views(a).to_multiset() == ranked_views(b).to_multiset(),
    decreases a.len(),
{
    broadcast use group_to_multiset_ensures;

    to_multiset_len(a);
    to_multiset_len(b);
    if a.len() == 0 {
        assert(b.len() == 0);
        assert(ranked_views(a) =~= ranked_views(b));
    } else {
        let x = a.last();
        assert(a.contains(x)) by {
            assert(a[a.len() - 1] == x);
        }
        assert(b.to_multiset().count(x) > 0);
        let k = choose|k: int| 0 <= k < b.len() && b[k] == x;
        assert(a.remove(a.len() - 1) =~= a.drop_last());
        lemma_views_multiset(a.drop_last(), b.remove(k));
        assert(ranked_views(a) =~= ranked_views(a.drop_last()).push(x@));
        assert(ranked_views(b) =~= ranked_views(b.remove(k)).insert(k, x@));
        to_multiset_insert(ranked_views(b.remove(k)), k, x@);
    }
}

/// Values from the last to the first.
fn reversed<T>(items: Vec<T>) -> (r: Vec<T>)
    ensures
        r@ == items@.reverse(),
{
    let ghost all = items@;
    let mut rest = items;
    let mut out: Vec<T> = Vec::new();
    while rest.len() > 0
        invariant
            rest@ == all.take(rest@.len() as int),
            rest@.len() <= all.len(),
            out@ == all.skip(rest@.len() as int).reverse(),
        decreases rest@.len(),
    {
        let ghost n = rest@.len() as int;
        let item = rest.pop().unwrap();
        out.push(item);
        assert(out@ =~= all.skip(n - 1).reverse());
    }
    assert(all.skip(0) =~= all);
    out
}

/// Whether every view in one sequence stands before every one in another.
spec fn below<T: Ranked>(a: Seq<T>, b: Seq<T>) -> bool {
    forall|i: int, j: int|
        0 <= i < a.len() && 0 <= j < b.len() ==> T::leq(
            #[trigger] ranked_views(a)[i],
            #[trigger] ranked_views(b)[j],
        )
}

/// Takes the last value of `a`, which stands before no value of `b`, behind
/// all that is still to come.
proof fn lemma_take_last<T: Ranked>(a: Seq<T>, b: Seq<T>, out: Seq<T>)
    requires
        a.len() > 0,
        sorted_by(ranked_views(a), ranking::<T>()),
        sorted_by(ranked_views(b), ranking::<T>()),
        sorted_by(ranked_views(out.reverse()), ranking::<T>()),
        below(a, out),
        below(b, out),
        b.len() > 0 ==> T::leq(b.last()@, a.last()@),
    ensures
        sorted_by(ranked_views(a.drop_last()), ranking::<T>()),
        sorted_by(ranked_views(out.push(a.last()).reverse()), ranking::<T>()),
        below(a.drop_last(), out.push(a.last())),
        below(b, out.push(a.last())),
{
    T::order_is_total();
    let leq = ranking::<T>();
    let x = a.last();
    let rest = a.drop_last();
    let after = out.push(x);
    let views = ranked_views(a);
    assert(views.last() == x@);
    assert forall|i: int, j: int| 0 <= i < j < rest.len() implies #[trigger] leq(
        ranked_views(rest)[i],
        ranked_views(rest)[j],
    ) by {
        assert(leq(views[i], views[j]));
    }
    let turned = ranked_views(after.reverse());
    let before = ranked_views(out.reverse());
    assert(turned =~= seq![x@] + before);
    assert forall|i: int, j: int| 0 <= i < j < turned.len() implies #[trigger] leq(
        turned[i],
        turned[j],
    ) by {
        if i == 0 {
            let k = out.len() - j;
            assert(before[j - 1] == ranked_views(out)[k]);
            assert(T::leq(views[a.len() - 1], ranked_views(out)[k]));
        } else {
            assert(leq(before[i - 1], before[j - 1]));
        }
    }
    assert forall|i: int, j: int| 0 <= i < rest.len() && 0 <= j < after.len() implies T::leq(
        #[trigger] ranked_views(rest)[i],
        #[trigger] ranked_views(after)[j],
    ) by {
        if j == out.len() {
            assert(leq(views[i], views[a.len() - 1]));
        } else {
            assert(T::leq(views[i], ranked_views(out)[j]));
        }
    }
    assert forall|i: int, j: int| 0 <= i < b.len() && 0 <= j < after.len() implies T::leq(
        #[trigger] ranked_views(b)[i],
        #[trigger] ranked_views(after)[j],
    ) by {
        if j == out.len() {
            let last = ranked_views(b)[b.len() - 1];
            assert(last == b.last()@);
            if i < b.len() - 1 {
                assert(leq(ranked_views(b)[i], last));
                assert(leq(last, x@));
            }
        } else {
            assert(T::leq(ranked_views(b)[i], ranked_views(out)[j]));
        }
    }
}

proof fn lemma_move_last<T>(a: Seq<T>, b: Seq<T>, out: Seq<T>)
    requires
        a.len() > 0,
    ensures
        a.drop_last().to_multiset().add(b.to_multiset()).add(out.push(a.last()).to_multiset())
            == a.to_multiset().add(b.to_multiset()).add(out.to_multiset()),
        b.to_multiset().add(a.drop_last().to_multiset()).add(out.push(a.last()).to_multiset())
            == b.to_multiset().add(a.to_multiset()).add(out.to_multiset()),
{
    assert(a =~= a.drop_last().push(a.last()));
    to_multiset_build(a.drop_last(), a.last());
    to_multiset_build(out, a.last());
    assert(a.drop_last().to_multiset().add(b.to_multiset()).add(out.push(a.last()).to_multiset())
        =~= a.to_multiset().add(b.to_multiset()).add(out.to_multiset()));
    assert(b.to_multiset().add(a.drop_last().to_multiset()).add(out.push(a.last()).to_multiset())
        =~= b.to_multiset().add(a.to_multiset()).add(out.to_multiset()));
}

/// Merges two ascending lists.
fn merge<T: Ranked>(first: Vec<T>, second: Vec<T>) -> (r: Vec<T>)
    requires
        sorted_by(ranked_views(first@), ranking::<T>()),
        sorted_by(ranked_views(second@), ranking::<T>()),
    ensures
        sorted_by(ranked_views(r@), ranking::<T>()),
        r@.to_multiset() == first@.to_multiset().add(second@.to_multiset()),
{
    broadcast use group_to_multiset_ensures;

    let ghost whole = first@.to_multiset().add(second@.to_multiset());
    let mut a = first;
    let mut b = second;
    let mut out: Vec<T> = Vec::new();
    proof {
        assert(out@ =~= Seq::<T>::empty());
        assert(out@.to_multiset() =~= vstd::multiset::Multiset::empty());
        assert(whole =~= a@.to_multiset().add(b@.to_multiset()).add(out@.to_multiset()));
    }
    while a.len() > 0 || b.len() > 0
        invariant
            sorted_by(ranked_views(a@), ranking::<T>()),
            sorted_by(ranked_views(b@), ranking::<T>()),
            sorted_by(ranked_views(out@.reverse()), ranking::<T>()),
            below(a@, out@),
            below(b@, out@),
            whole == a@.to_multiset().add(b@.to_multiset()).add(out@.to_multiset()),
        decreases a@.len() + b@.len(),
    {
        let from_first = if a.len() == 0 {
            false
        } else if b.len() == 0 {
            true
        } else {
            b[b.len() - 1].is_leq(&a[a.len() - 1])
        };
        let ghost left = a@;
        let ghost right = b@;
        let ghost done = out@;
        proof {
            T::order_is_total();
            if !from_first && left.len() > 0 {
                let leq = ranking::<T>();
                assert(leq(left.last()@, right.last()@) || leq(right.last()@, left.last()@));
            }
        }
        if from_first {
            proof {
                lemma_take_last(left, right, done);
                lemma_move_last(left, right, done);
            }
            let item = a.pop().unwrap();
            out.push(item);
            assert(whole =~= a@.to_multiset().add(b@.to_multiset()).add(out@.to_multiset()));
        } else {
            proof {
                lemma_take_last(right, left, done);
                lemma_move_last(right, left, done);
            }
            let item = b.pop().unwrap();
            out.push(item);
            assert(whole =~= a@.to_multiset().add(b@.to_multiset()).add(out@.to_multiset()));
        }
    }
    proof {
        assert(a@ =~= Seq::<T>::empty());
        assert(b@ =~= Seq::<T>::empty());
        assert(a@.to_multiset() =~= vstd::multiset::Multiset::empty());
        assert(b@.to_multiset() =~= vstd::multiset::Multiset::empty());
        assert(whole =~= out@.to_multiset());
        out@.lemma_reverse_to_multiset();
    }
    reversed(out)
}

fn merge_sort<T: Ranked>(items: Vec<T>) -> (r: Vec<T>)
    ensures
        sorted_by(ranked_views(r@), ranking::<T>()),
        r@.to_multiset() == items@.to_multiset(),
    decreases items@.len(),
{
    if items.len() < 2 {
        return items;
    }
    let ghost all = items@;
    let middle: usize = items.len() / 2;
    let mut first = items;
    let second = first.split_off(middle);
    proof {
        assert(first@ + second@ =~= all);
        lemma_multiset_concat(first@, second@);
    }
    let left = merge_sort(first);
    let right = merge_sort(second);
    merge(left, right)
}

proof fn lemma_multiset_concat<T>(a: Seq<T>, b: Seq<T>)
    ensures
        (a + b).to_multiset() == a.to_multiset().add(b.to_multiset()),
    decreases b.len(),
{
    broadcast use group_to_multiset_ensures;

    if b.len() == 0 {
        assert(a + b =~= a);
        assert(b =~= Seq::<T>::empty());
        assert(b.to_multiset() =~= vstd::multiset::Multiset::empty());
        assert(a.to_multiset().add(b.to_multiset()) =~= a.to_multiset());
    } else {
        lemma_multiset_concat(a, b.drop_last());
        assert(a + b =~= (a + b.drop_last()).push(b.last()));
        assert(b =~= b.drop_last().push(b.last()));
        assert((a + b).to_multiset() =~= a.to_multiset().add(b.to_multiset()));
    }
}

/// Puts values in ascending order.
pub fn sort_ranked<T: Ranked>(items: Vec<T>) -> (r: Vec<T>)
    ensures
        ranked_views(r@) == ranked_sort::<T>(ranked_views(items@)),
        r@.to_multiset() == items@.to_multiset(),
        r@.len() == items@.len(),
{
    broadcast use group_to_multiset_ensures;

    let ghost all = items@;
    let r = merge_sort(items);
    proof {
        lemma_views_multiset(r@, all);
        lemma_is_ranked_sort::<T>(ranked_views(all), ranked_views(r@));
        assert(r@.to_multiset().len() == all.to_multiset().len());
    }
    r
}

} // verus!
