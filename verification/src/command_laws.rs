//! What the arguments of a command line mean, and what benchmarks sample.

use vstd::prelude::*;
use vstd::string::*;

use crate::benchmark;
use crate::command_table::Param;
use crate::commands;
use crate::commands::{ArgView, Argument, ArgumentView, VectorEncoding, VectorTarget};
use crate::digits;
use crate::digits_laws;
use crate::graph::Direction;
use crate::text;

verus! {

/// Each direction has its word, a missing one is the default, and no other
/// word is a direction.
pub proof fn law_directions_have_their_words(a: ArgumentView, default: Direction)
    ensures
        commands::heading_of(None, default) == Ok::<Direction, Seq<char>>(default),
        match commands::heading_of(Some(a), default) {
            Ok(direction) => a.text == match direction {
                Direction::Outgoing => "out"@,
                Direction::Incoming => "in"@,
                Direction::Both => "both"@,
            },
            Err(_) => a.text != "out"@ && a.text != "in"@ && a.text != "both"@,
        },
{
    reveal_strlit("out");
    reveal_strlit("in");
    reveal_strlit("both");
}

/// Each kind of element has its word, both are meant by default, and no other
/// word names elements.
pub proof fn law_targets_have_their_words(s: Seq<char>)
    ensures
        commands::target_of(None) == Ok::<VectorTarget, Seq<char>>(VectorTarget::Both),
        match commands::target_of(Some(s)) {
            Ok(target) => s == match target {
                VectorTarget::Nodes => "nodes"@,
                VectorTarget::Edges => "edges"@,
                VectorTarget::Both => "both"@,
            },
            Err(_) => s != "nodes"@ && s != "edges"@ && s != "both"@,
        },
{
}

/// Vectors are stored in half precision by default, and otherwise as they are
/// asked for.
pub proof fn law_encodings_have_their_words(a: ArgumentView)
    ensures
        commands::encoding_of(None) == Ok::<VectorEncoding, Seq<char>>(VectorEncoding::F16),
        match commands::encoding_of(Some(a)) {
            Ok(encoding) => a.text == match encoding {
                VectorEncoding::F16 => "f16"@,
                VectorEncoding::F32 => "f32"@,
            },
            Err(_) => a.text != "f16"@ && a.text != "f32"@,
        },
{
}

/// A bound is read as its type says: a number that is written out is that
/// bound, and `-` is no bound in either type.
pub proof fn law_bounds_are_of_their_type(
    a: ArgumentView,
    n: i64,
    f: (u64, Seq<char>, Seq<char>),
    numeric_type: Seq<char>,
)
    ensures
        a.text == "-"@ ==> commands::bound_of(a, numeric_type) == Ok::<ArgView, Seq<char>>(
            ArgView::Unbounded,
        ),
        a.text == digits::signed_decimal(n as int) && a.text != "-"@ ==> commands::bound_of(
            a,
            "int"@,
        ) == Ok::<ArgView, Seq<char>>(ArgView::IntBound(n)),
        a.float == Ok::<(u64, Seq<char>, Seq<char>), Seq<char>>(f) && a.text != "-"@
            ==> commands::bound_of(a, "float"@) == Ok::<ArgView, Seq<char>>(ArgView::FloatBound(f)),
        commands::bound_of(a, numeric_type) == Ok::<ArgView, Seq<char>>(ArgView::Unbounded)
            ==> a.text == "-"@,
        a.text != "-"@ && numeric_type != "int"@ && numeric_type != "float"@ ==> commands::bound_of(
            a,
            numeric_type,
        ) is Err,
{
    reveal_strlit("int");
    reveal_strlit("float");
    assert("int"@.len() != "float"@.len());
    digits_laws::law_signed_decimal_round_trips(n);
}

/// A text argument is kept as it is. A missing one is an error where it must
/// be there; a missing embedder is the environment's, or the lexical one.
pub proof fn law_texts_are_kept(
    description: &'static str,
    a: ArgumentView,
    embedder: Option<Seq<char>>,
    before: Seq<ArgView>,
)
    ensures
        commands::reads(Param::Required(description), Some(a), embedder, before) == Ok::<
            ArgView,
            Seq<char>,
        >(ArgView::Text(a.text)),
        commands::reads(Param::Required(description), None, embedder, before) is Err,
        commands::reads(Param::Optional, Some(a), embedder, before) == Ok::<ArgView, Seq<char>>(
            ArgView::Text(a.text),
        ),
        commands::reads(Param::Optional, None, embedder, before) == Ok::<ArgView, Seq<char>>(
            ArgView::Missing,
        ),
        commands::reads(Param::Filter, None, embedder, before) == Ok::<ArgView, Seq<char>>(
            ArgView::Missing,
        ),
        commands::reads(Param::Filter, Some(a), embedder, before) == Ok::<ArgView, Seq<char>>(
            if a.text == "-"@ {
                ArgView::Missing
            } else {
                ArgView::Text(a.text)
            },
        ),
        commands::reads(Param::EmbedderName, Some(a), embedder, before) == Ok::<ArgView, Seq<char>>(
            ArgView::Text(a.text),
        ),
        embedder matches Some(name) ==> commands::reads(Param::EmbedderName, None, embedder, before)
            == Ok::<ArgView, Seq<char>>(ArgView::Text(name)),
        embedder is None ==> commands::reads(Param::EmbedderName, None, embedder, before) == Ok::<
            ArgView,
            Seq<char>,
        >(ArgView::Text("hash"@)),
{
}

/// A number that is written out is that number. A missing one is its default,
/// nothing, or an error, and zero is refused where it is to be.
pub proof fn law_numbers_are_read(
    description: &'static str,
    refusal: &'static str,
    a: ArgumentView,
    n: usize,
    id: u64,
    default: usize,
    before: Seq<ArgView>,
)
    requires
        default > 0,
    ensures
        a.text == digits::decimal(id as nat) ==> commands::reads(
            Param::RequiredId(description),
            Some(a),
            None,
            before,
        ) == Ok::<ArgView, Seq<char>>(ArgView::Id(id)),
        a.text == digits::decimal(n as nat) ==> {
            let number = Ok::<ArgView, Seq<char>>(ArgView::Number(n));
            &&& commands::reads(Param::RequiredSize(description), Some(a), None, before) == number
            &&& commands::reads(Param::Count(description, default, None), Some(a), None, before)
                == number
            &&& commands::reads(Param::Maybe(description, None), Some(a), None, before) == number
            &&& n > 0 ==> commands::reads(
                Param::Count(description, default, Some(refusal)),
                Some(a),
                None,
                before,
            ) == number
            &&& n == 0 ==> commands::reads(
                Param::Count(description, default, Some(refusal)),
                Some(a),
                None,
                before,
            ) == Err::<ArgView, Seq<char>>(refusal@)
            &&& n == 0 ==> commands::reads(
                Param::Maybe(description, Some(refusal)),
                Some(a),
                None,
                before,
            ) == Err::<ArgView, Seq<char>>(refusal@)
        },
        commands::reads(Param::Count(description, default, Some(refusal)), None, None, before)
            == Ok::<ArgView, Seq<char>>(ArgView::Number(default)),
        commands::reads(Param::Maybe(description, Some(refusal)), None, None, before) == Ok::<
            ArgView,
            Seq<char>,
        >(ArgView::Missing),
        commands::reads(Param::RequiredId(description), None, None, before) is Err,
        commands::reads(Param::RequiredSize(description), None, None, before) is Err,
{
    digits::law_decimal_round_trips(id);
    digits::law_decimal_round_trips(n as u64);
    assert(digits::unsigned_value(digits::decimal(n as nat)) == Some(n as nat));
}

/// Arguments are read in order, each by its own parameter, and the first that
/// cannot be read decides what is said.
pub proof fn law_arguments_are_read_in_order(
    shape: Seq<Param>,
    args: Seq<Argument>,
    embedder: Option<Seq<char>>,
    upto: nat,
)
    requires
        upto <= shape.len(),
    ensures
        match commands::values_of(shape, args, embedder, upto) {
            Ok(values) => {
                &&& values.len() == upto
                &&& forall|i: int|
                    0 <= i < upto ==> commands::reads(
                        shape[i],
                        commands::argument_at(args, i + 1),
                        embedder,
                        values.take(i),
                    ) == Ok::<ArgView, Seq<char>>(#[trigger] values[i])
            },
            Err(message) => exists|i: int, before: Seq<ArgView>|
                0 <= i < upto && #[trigger] commands::reads(
                    shape[i],
                    commands::argument_at(args, i + 1),
                    embedder,
                    before,
                ) == Err::<ArgView, Seq<char>>(message) && before.len() == i,
        },
    decreases upto,
{
    if upto > 0 {
        law_arguments_are_read_in_order(shape, args, embedder, (upto - 1) as nat);
        match commands::values_of(shape, args, embedder, (upto - 1) as nat) {
            Ok(before) => {
                let last = commands::reads(
                    shape[upto - 1],
                    commands::argument_at(args, upto as int),
                    embedder,
                    before,
                );
                match last {
                    Ok(value) => {
                        let values = before.push(value);
                        assert forall|i: int| 0 <= i < upto implies commands::reads(
                            shape[i],
                            commands::argument_at(args, i + 1),
                            embedder,
                            values.take(i),
                        ) == Ok::<ArgView, Seq<char>>(#[trigger] values[i]) by {
                            if i < upto - 1 {
                                assert(values.take(i) =~= before.take(i));
                                assert(before[i] == values[i]);
                            } else {
                                assert(values.take(i) =~= before);
                            }
                        }
                    },
                    Err(message) => {
                        let i = upto - 1;
                        assert(commands::argument_at(args, i + 1) == commands::argument_at(
                            args,
                            upto as int,
                        ));
                        assert(commands::reads(
                            shape[i],
                            commands::argument_at(args, i + 1),
                            embedder,
                            before,
                        ) == Err::<ArgView, Seq<char>>(message));
                    },
                }
            },
            Err(message) => {
                let (i, before) = choose|i: int, before: Seq<ArgView>|
                    0 <= i < upto - 1 && #[trigger] commands::reads(
                        shape[i],
                        commands::argument_at(args, i + 1),
                        embedder,
                        before,
                    ) == Err::<ArgView, Seq<char>>(message) && before.len() == i;
                assert(commands::reads(
                    shape[i],
                    commands::argument_at(args, i + 1),
                    embedder,
                    before,
                ) == Err::<ArgView, Seq<char>>(message));
            },
        }
    }
}

/// The text that pieces make up with bars between them.
pub open spec fn barred(pieces: Seq<Seq<char>>) -> Seq<char>
    decreases pieces.len(),
{
    if pieces.len() == 0 {
        Seq::empty()
    } else if pieces.len() == 1 {
        pieces[0]
    } else {
        pieces[0] + seq!['|', '|'] + barred(pieces.drop_first())
    }
}

/// Whether a text holds no two bars in a row.
pub open spec fn without_bars(s: Seq<char>) -> bool {
    forall|i: int| 0 <= i < s.len() - 1 ==> !((#[trigger] s[i]) == '|' && s[i + 1] == '|')
}

proof fn lemma_barred(s: Seq<char>, from: int, at: int)
    requires
        0 <= from <= at <= s.len(),
        forall|i: int| from <= i < at && i + 1 < s.len() ==> !((#[trigger] s[i]) == '|' && s[i + 1] == '|'),
    ensures
        commands::between_bars(s, from, at).len() > 0,
        barred(commands::between_bars(s, from, at)) == s.skip(from),
        forall|k: int|
            0 <= k < commands::between_bars(s, from, at).len() ==> without_bars(
                #[trigger] commands::between_bars(s, from, at)[k],
            ),
    decreases s.len() - at,
{
    let all = commands::between_bars(s, from, at);
    if at + 1 >= s.len() {
        assert(s.subrange(from, s.len() as int) =~= s.skip(from));
        assert forall|i: int| 0 <= i < all[0].len() - 1 implies !((#[trigger] all[0][i]) == '|'
            && all[0][i + 1] == '|') by {
            assert(s[from + i] == all[0][i]);
        }
    } else if s[at] == '|' && s[at + 1] == '|' {
        let rest = commands::between_bars(s, at + 2, at + 2);
        lemma_barred(s, at + 2, at + 2);
        assert(all.drop_first() =~= rest);
        assert(all[0] =~= s.subrange(from, at));
        assert(s.subrange(from, at) + seq!['|', '|'] + s.skip(at + 2) =~= s.skip(from));
        assert forall|i: int| 0 <= i < all[0].len() - 1 implies !((#[trigger] all[0][i]) == '|'
            && all[0][i + 1] == '|') by {
            assert(s[from + i] == all[0][i]);
        }
        assert forall|k: int| 0 <= k < all.len() implies without_bars(#[trigger] all[k]) by {
            if k > 0 {
                assert(all[k] == rest[k - 1]);
            }
        }
    } else {
        lemma_barred(s, from, at + 1);
    }
}

/// What is split at double bars makes up the text again, and no piece of it
/// holds a double bar.
pub proof fn law_bars_split_the_text(s: Seq<char>)
    ensures
        barred(commands::between_bars(s, 0, 0)) == s,
        forall|k: int|
            0 <= k < commands::between_bars(s, 0, 0).len() ==> without_bars(
                #[trigger] commands::between_bars(s, 0, 0)[k],
            ),
{
    lemma_barred(s, 0, 0);
    assert(s.skip(0) =~= s);
}

proof fn lemma_facets(pieces: Seq<Seq<char>>)
    ensures
        forall|facet: Seq<char>|
            commands::trimmed_pieces(pieces).contains(facet) <==> facet.len() > 0 && exists|k: int|
                0 <= k < pieces.len() && text::trimmed(#[trigger] pieces[k]) == facet,
    decreases pieces.len(),
{
    if pieces.len() > 0 {
        let rest = pieces.drop_last();
        let before = commands::trimmed_pieces(rest);
        let all = commands::trimmed_pieces(pieces);
        lemma_facets(rest);
        assert forall|facet: Seq<char>|
            all.contains(facet) <==> facet.len() > 0 && exists|k: int|
                0 <= k < pieces.len() && text::trimmed(#[trigger] pieces[k]) == facet by {
            if all.contains(facet) {
                let m = choose|m: int| 0 <= m < all.len() && all[m] == facet;
                if m < before.len() {
                    assert(before[m] == facet);
                    assert(before.contains(facet));
                    let k = choose|k: int|
                        0 <= k < rest.len() && text::trimmed(#[trigger] rest[k]) == facet;
                    assert(pieces[k] == rest[k]);
                } else {
                    assert(text::trimmed(pieces[pieces.len() - 1]) == facet);
                }
            }
            if facet.len() > 0 && exists|k: int|
                0 <= k < pieces.len() && text::trimmed(#[trigger] pieces[k]) == facet {
                let k = choose|k: int|
                    0 <= k < pieces.len() && text::trimmed(#[trigger] pieces[k]) == facet;
                if k < rest.len() {
                    assert(rest[k] == pieces[k]);
                    assert(before.contains(facet));
                    let m = choose|m: int| 0 <= m < before.len() && before[m] == facet;
                    assert(all[m] == facet);
                } else {
                    assert(all.last() == facet);
                }
            }
        }
    }
}

/// The facets of a query are its pieces between double bars, trimmed, and
/// without those that are blank.
pub proof fn law_facets_are_the_filled_pieces(s: Seq<char>, facet: Seq<char>)
    ensures
        commands::facets_of(s).contains(facet) <==> facet.len() > 0 && exists|k: int|
            0 <= k < commands::between_bars(s, 0, 0).len() && text::trimmed(
                #[trigger] commands::between_bars(s, 0, 0)[k],
            ) == facet,
{
    lemma_facets(commands::between_bars(s, 0, 0));
}

/// Benchmarks refuse to be run on nothing: on no queries, no candidates, no
/// results, or with a filter of no stride.
pub proof fn law_empty_benchmarks_are_refused(values: Seq<ArgView>, i: int)
    requires
        0 <= i < values.len(),
        values[i] == ArgView::Number(0),
    ensures
        i == 1 || i == 2 ==> commands::sizes_error("bench-ann"@, values) is Some,
        3 <= i <= 5 ==> commands::sizes_error("bench-fbin"@, values) is Some,
        2 <= i <= 5 ==> commands::sizes_error("bench-filtered-fbin"@, values) is Some,
        5 <= i <= 7 ==> commands::sizes_error("bench-range-fbin"@, values) is Some,
{
    reveal_strlit("bench-ann");
    reveal_strlit("bench-fbin");
    reveal_strlit("bench-filtered-fbin");
    reveal_strlit("bench-range-fbin");
    assert("bench-ann"@.len() != "bench-fbin"@.len());
    assert("bench-ann"@.len() != "bench-filtered-fbin"@.len());
    assert("bench-ann"@.len() != "bench-range-fbin"@.len());
    assert("bench-fbin"@.len() != "bench-filtered-fbin"@.len());
    assert("bench-fbin"@.len() != "bench-range-fbin"@.len());
    assert("bench-filtered-fbin"@.len() != "bench-range-fbin"@.len());
}

/// Samples lie a whole number of strides apart, in order, and so that as many
/// as are asked for fit among the elements.
pub proof fn law_samples_are_spaced(has: Seq<bool>, stride: nat, at: nat, left: nat)
    requires
        stride > 0,
    ensures
        forall|i: int|
            0 <= i < benchmark::samples(has, stride, at, left).len() ==> (
            #[trigger] benchmark::samples(has, stride, at, left)[i]).0 >= at,
        forall|i: int, j: int|
            0 <= i < j < benchmark::samples(has, stride, at, left).len() ==> (
            #[trigger] benchmark::samples(has, stride, at, left)[i]).0 + stride <= (
            #[trigger] benchmark::samples(has, stride, at, left)[j]).0,
        left > 0 && at < has.len() && has[at as int] ==> benchmark::samples(
            has,
            stride,
            at,
            left,
        ).len() > 0 && benchmark::samples(has, stride, at, left)[0].0 == at,
    decreases
            if at < has.len() {
                has.len() - at
            } else {
                0
            },
{
    if left > 0 && at < has.len() {
        let all = benchmark::samples(has, stride, at, left);
        if has[at as int] {
            let rest = benchmark::samples(has, stride, at + stride, (left - 1) as nat);
            law_samples_are_spaced(has, stride, at + stride, (left - 1) as nat);
            assert forall|i: int| 0 <= i < all.len() implies (#[trigger] all[i]).0 >= at by {
                if i > 0 {
                    assert(all[i] == rest[i - 1]);
                }
            }
            assert forall|i: int, j: int| 0 <= i < j < all.len() implies (#[trigger] all[i]).0
                + stride <= (#[trigger] all[j]).0 by {
                assert(all[j] == rest[j - 1]);
                if i > 0 {
                    assert(all[i] == rest[i - 1]);
                }
            }
        } else {
            law_samples_are_spaced(has, stride, at + stride, left);
            let rest = benchmark::samples(has, stride, at + stride, left);
            assert(all == rest);
            assert forall|i: int| 0 <= i < all.len() implies (#[trigger] all[i]).0 >= at by {
                assert(rest[i].0 >= at + stride);
            }
            assert forall|i: int, j: int| 0 <= i < j < all.len() implies (#[trigger] all[i]).0
                + stride <= (#[trigger] all[j]).0 by {
                assert(rest[i].0 + stride <= rest[j].0);
            }
        }
    }
}

/// As many samples as are asked for fit among the elements where there are
/// enough of them.
pub proof fn law_strides_leave_room(elements: nat, queries: nat)
    requires
        queries > 0,
    ensures
        benchmark::sample_stride(elements, queries) >= 1,
        elements >= queries ==> benchmark::sample_stride(elements, queries) * queries <= elements,
        elements >= queries ==> (benchmark::sample_stride(elements, queries) + 1) * queries
            > elements,
{
    let each = elements / queries;
    assert(each * queries <= elements && (each + 1) * queries > elements) by (nonlinear_arith)
        requires
            queries > 0,
            each == elements / queries,
    ;
    if elements >= queries {
        assert(each >= 1) by (nonlinear_arith)
            requires
                elements >= queries,
                queries > 0,
                each == elements / queries,
        ;
    }
}

/// Queries fit the database where they have its dimension and the known
/// results cover them.
pub proof fn law_fitting_queries_are_taken(
    dimension: usize,
    stored: usize,
    available: usize,
    truth: Option<(usize, usize)>,
    k: usize,
)
    ensures
        benchmark::files_error(dimension, stored, available, truth, k) is None <==> dimension
            == stored && match truth {
            None => true,
            Some((rows, columns)) => rows == available && k <= columns,
        },
{
}

} // verus!
