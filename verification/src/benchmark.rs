//! What benchmarks decide and count: the shape of their files, which elements
//! are sampled, how many results agree, and what is printed.
//!
//! Times and ratios come as text, already rounded.

use vstd::prelude::*;
use vstd::string::*;

use crate::commands::VectorTarget;
use crate::digits;
use crate::digits::usize_text;
use crate::graph::{Direction, ElementRef};
use crate::report;
use crate::report::{no_lines, push_count, push_entry};
use crate::text;
use crate::text::{concat4, concat5};

verus! {

/// The number that four bytes write, least significant first.
pub open spec fn le32(bytes: Seq<u8>, at: int) -> nat {
    (bytes[at] + 0x100 * bytes[at + 1] + 0x1_0000 * bytes[at + 2] + 0x100_0000 * bytes[at
        + 3]) as nat
}

fn read_le32(bytes: &Vec<u8>, at: usize) -> (r: u32)
    requires
        at + 4 <= bytes@.len(),
    ensures
        r == le32(bytes@, at as int),
{
    let length: usize = bytes.len();
    assert(at + 4 <= length);
    bytes[at] as u32 + 0x100 * bytes[at + 1] as u32 + 0x1_0000 * bytes[at + 2] as u32 + 0x100_0000
        * bytes[at + 3] as u32
}

/// The length of a file with the given numbers of rows and columns, where it
/// can be held.
pub open spec fn matrix_length(rows: nat, columns: nat, bytes_per_value: nat) -> Option<nat> {
    if rows * columns > usize::MAX || rows * columns * bytes_per_value > usize::MAX || rows
        * columns * bytes_per_value + 8 > usize::MAX {
        None
    } else {
        Some(rows * columns * bytes_per_value + 8)
    }
}

/// The rows and columns that the header of a matrix file names, where the file
/// has the length that they ask for, or what is wrong with it.
pub open spec fn shape_of(
    header: Seq<u8>,
    file_len: usize,
    bytes_per_value: nat,
    path: Seq<char>,
) -> Result<(nat, nat), Seq<char>> {
    let rows = le32(header, 0);
    let columns = le32(header, 4);
    match matrix_length(rows, columns, bytes_per_value) {
        None => Err("matrix file length overflow"@),
        Some(expected) => if file_len == expected {
            Ok((rows, columns))
        } else {
            Err(
                path + " has "@ + digits::decimal(file_len as nat) + " bytes; header requires "@
                    + digits::decimal(expected),
            )
        },
    }
}

/// The contents of a shape result.
pub open spec fn shape_result(r: Result<(usize, usize), String>) -> Result<
    (nat, nat),
    Seq<char>,
> {
    match r {
        Ok((rows, columns)) => Ok((rows as nat, columns as nat)),
        Err(message) => Err(message@),
    }
}

/// Reads the numbers of rows and columns at the start of a matrix file, whose
/// length they must account for.
pub fn matrix_shape(header: &Vec<u8>, file_len: usize, bytes_per_value: usize, path: &str) -> (r:
    Result<(usize, usize), String>)
    requires
        header@.len() == 8,
    ensures
        shape_result(r) == shape_of(header@, file_len, bytes_per_value as nat, path@),
{
    let rows: usize = read_le32(header, 0) as usize;
    let columns: usize = read_le32(header, 4) as usize;
    match rows.checked_mul(columns) {
        None => Err("matrix file length overflow".to_owned()),
        Some(values) => match values.checked_mul(bytes_per_value) {
            None => Err("matrix file length overflow".to_owned()),
            Some(bytes) => match bytes.checked_add(8) {
                None => Err("matrix file length overflow".to_owned()),
                Some(expected) => {
                    if file_len != expected {
                        let found = usize_text(file_len);
                        let wanted = usize_text(expected);
                        return Err(
                            concat5(
                                path,
                                " has ",
                                found.as_str(),
                                " bytes; header requires ",
                                wanted.as_str(),
                            ),
                        );
                    }
                    Ok((rows, columns))
                },
            },
        },
    }
}

/// The values of a row, by their bits.
pub open spec fn row_values(bytes: Seq<u8>) -> Seq<nat> {
    Seq::new(bytes.len() / 4, |i: int| le32(bytes, 4 * i))
}

/// Reads a row of single-precision values by their bits.
pub fn decode_row(bytes: &Vec<u8>) -> (r: Vec<u32>)
    ensures
        r@.len() == bytes@.len() / 4,
        forall|i: int| 0 <= i < r@.len() ==> #[trigger] r@[i] == row_values(bytes@)[i],
{
    let length: usize = bytes.len();
    let n: usize = length / 4;
    let mut out: Vec<u32> = Vec::new();
    let mut i: usize = 0;
    while i < n
        invariant
            length == bytes@.len(),
            n == length / 4,
            i <= n,
            out@.len() == i,
            forall|j: int| 0 <= j < i ==> #[trigger] out@[j] == row_values(bytes@)[j],
        decreases n - i,
    {
        out.push(read_le32(bytes, 4 * i));
        i = i + 1;
    }
    out
}

/// Reads the first `k` ids of a row of known neighbors.
pub fn truth_row(bytes: &Vec<u8>, k: usize) -> (r: Vec<u64>)
    ensures
        r@.len() == if bytes@.len() / 4 <= k {
            bytes@.len() / 4
        } else {
            k as nat
        },
        forall|i: int| 0 <= i < r@.len() ==> #[trigger] r@[i] == row_values(bytes@)[i],
{
    let length: usize = bytes.len();
    let n: usize = length / 4;
    let end: usize = if n <= k {
        n
    } else {
        k
    };
    let mut out: Vec<u64> = Vec::new();
    let mut i: usize = 0;
    while i < end
        invariant
            length == bytes@.len(),
            n == length / 4,
            i <= end <= n,
            out@.len() == i,
            forall|j: int| 0 <= j < i ==> #[trigger] out@[j] == row_values(bytes@)[j],
        decreases end - i,
    {
        out.push(read_le32(bytes, 4 * i) as u64);
        i = i + 1;
    }
    out
}

/// What is said while vectors are stored: after every hundred thousand.
pub fn stored_progress(stored: usize, total: usize, metadata: bool) -> (r: Option<String>)
    ensures
        match r {
            Some(line) => stored % 100_000 == 0 && line@ == "stored "@ + digits::decimal(
                stored as nat,
            ) + "/"@ + digits::decimal(total as nat) + if metadata {
                " vectors with metadata"@
            } else {
                " vectors"@
            },
            None => stored % 100_000 != 0,
        },
{
    if stored % 100_000 == 0 {
        let first = usize_text(stored);
        let second = usize_text(total);
        Some(
            concat5(
                "stored ",
                first.as_str(),
                "/",
                second.as_str(),
                if metadata {
                    " vectors with metadata"
                } else {
                    " vectors"
                },
            ),
        )
    } else {
        None
    }
}

/// What is wrong with the files of a benchmark, if anything.
pub open spec fn files_error(
    dimension: usize,
    database_dimension: usize,
    available: usize,
    truth: Option<(usize, usize)>,
    k: usize,
) -> Option<Seq<char>> {
    if dimension != database_dimension {
        Some(
            "query dimension "@ + digits::decimal(dimension as nat)
                + " does not match database dimension "@ + digits::decimal(
                database_dimension as nat,
            ),
        )
    } else {
        match truth {
            Some((rows, columns)) if rows != available || k > columns => Some(
                "ground-truth matrix shape does not match queries/k"@,
            ),
            _ => None,
        }
    }
}

/// Decides how many queries are made. `truth` is the shape of the known
/// neighbors, where the benchmark has them.
pub fn plan_queries(
    query_count: usize,
    dimension: usize,
    database_dimension: usize,
    available: usize,
    truth: Option<(usize, usize)>,
    k: usize,
) -> (r: Result<usize, String>)
    ensures
        match r {
            Ok(n) => files_error(dimension, database_dimension, available, truth, k) is None && n
                == if query_count <= available {
                query_count
            } else {
                available
            },
            Err(message) => files_error(dimension, database_dimension, available, truth, k)
                == Some(message@),
        },
{
    if dimension != database_dimension {
        let first = usize_text(dimension);
        let second = usize_text(database_dimension);
        return Err(
            concat4(
                "query dimension ",
                first.as_str(),
                " does not match database dimension ",
                second.as_str(),
            ),
        );
    }
    match truth {
        Some((rows, columns)) => {
            if rows != available || k > columns {
                return Err("ground-truth matrix shape does not match queries/k".to_owned());
            }
        },
        None => {},
    }
    Ok(
        if query_count <= available {
            query_count
        } else {
            available
        },
    )
}

/// The multiples of a stride below a bound.
pub open spec fn multiples(stride: nat, bound: nat) -> Seq<u64>
    decreases bound,
{
    if bound == 0 {
        Seq::empty()
    } else {
        let before = multiples(stride, (bound - 1) as nat);
        if (bound - 1) % stride as int == 0 {
            before.push((bound - 1) as u64)
        } else {
            before
        }
    }
}

proof fn lemma_between_multiples(stride: nat, from: nat, to: nat)
    requires
        stride > 0,
        from % stride == 0,
        from < to <= from + stride,
    ensures
        multiples(stride, to) == multiples(stride, from).push(from as u64),
    decreases to - from,
{
    if to > from + 1 {
        lemma_between_multiples(stride, from, (to - 1) as nat);
        assert((to - 1) % stride as int != 0) by {
            let d = to - 1 - from;
            vstd::arithmetic::div_mod::lemma_add_mod_noop(from as int, d, stride as int);
            vstd::arithmetic::div_mod::lemma_small_mod(d as nat, stride);
        }
    } else {
        assert(to - 1 == from);
    }
}

/// The ids that a filter lets through: every so many, from zero on.
pub fn strided_ids(nodes: u64, stride: u64) -> (r: Vec<u64>)
    requires
        stride > 0,
    ensures
        r@ == multiples(stride as nat, nodes as nat),
{
    let mut out: Vec<u64> = Vec::new();
    let mut at: u64 = 0;
    let mut going: bool = nodes > 0;
    if !going {
        return out;
    }
    assert(0nat % (stride as nat) == 0) by {
        vstd::arithmetic::div_mod::lemma_small_mod(0, stride as nat);
    }
    while going
        invariant
            stride > 0,
            going ==> at < nodes && at % stride == 0 && out@ == multiples(
                stride as nat,
                at as nat,
            ),
            !going ==> out@ == multiples(stride as nat, nodes as nat),
        decreases
                if going {
                    nodes - at
                } else {
                    0
                },
    {
        out.push(at);
        if nodes - at <= stride {
            proof {
                lemma_between_multiples(stride as nat, at as nat, nodes as nat);
            }
            going = false;
        } else {
            proof {
                lemma_between_multiples(stride as nat, at as nat, (at + stride) as nat);
                vstd::arithmetic::div_mod::lemma_mod_add_multiples_vanish(
                    at as int,
                    stride as int,
                );
            }
            at = at + stride;
        }
    }
    out
}

/// An id is let through exactly when it is a multiple of the stride.
pub proof fn law_filter_lets_multiples_through(stride: nat, bound: nat, id: u64)
    requires
        stride > 0,
        bound <= u64::MAX,
    ensures
        multiples(stride, bound).contains(id) <==> id < bound && id as nat % stride == 0,
    decreases bound,
{
    if bound > 0 {
        let before = multiples(stride, (bound - 1) as nat);
        let now = multiples(stride, bound);
        law_filter_lets_multiples_through(stride, (bound - 1) as nat, id);
        if before.contains(id) {
            let k = choose|k: int| 0 <= k < before.len() && before[k] == id;
            assert(now[k] == id);
        }
        if now.contains(id) && !before.contains(id) {
            let k = choose|k: int| 0 <= k < now.len() && now[k] == id;
            assert(k == before.len());
        }
        if id == bound - 1 && id as nat % stride == 0 {
            assert(now[before.len() as int] == id);
        }
    }
}

/// The elements that a benchmark samples from: nodes before relationships.
pub open spec fn elements_for(target: VectorTarget, nodes: Seq<u64>, edges: Seq<u64>) -> Seq<
    ElementRef,
> {
    (if target == VectorTarget::Edges {
        Seq::empty()
    } else {
        nodes.map_values(|id: u64| ElementRef::Node(id))
    }) + if target == VectorTarget::Nodes {
        Seq::empty()
    } else {
        edges.map_values(|id: u64| ElementRef::Edge(id))
    }
}

/// Lists the elements that a benchmark samples from.
pub fn target_elements(target: VectorTarget, nodes: &Vec<u64>, edges: &Vec<u64>) -> (r: Result<
    Vec<ElementRef>,
    String,
>)
    ensures
        match r {
            Ok(elements) => elements@ == elements_for(target, nodes@, edges@) && elements@.len()
                > 0,
            Err(message) => elements_for(target, nodes@, edges@).len() == 0 && message@
                == "database has no elements for the requested target"@,
        },
{
    let mut out: Vec<ElementRef> = Vec::new();
    let ghost first: Seq<ElementRef> = if target == VectorTarget::Edges {
        Seq::empty()
    } else {
        nodes@.map_values(|id: u64| ElementRef::Node(id))
    };
    let mut i: usize = 0;
    if target != VectorTarget::Edges {
        while i < nodes.len()
            invariant
                i <= nodes.len(),
                first == nodes@.map_values(|id: u64| ElementRef::Node(id)),
                out@ == first.take(i as int),
            decreases nodes.len() - i,
        {
            out.push(ElementRef::Node(nodes[i]));
            assert(out@ =~= first.take(i + 1));
            i = i + 1;
        }
        assert(first.take(nodes@.len() as int) =~= first);
    }
    assert(out@ =~= first);
    if target != VectorTarget::Nodes {
        let ghost second = edges@.map_values(|id: u64| ElementRef::Edge(id));
        let mut j: usize = 0;
        assert(first + second.take(0) =~= first);
        while j < edges.len()
            invariant
                j <= edges.len(),
                second == edges@.map_values(|id: u64| ElementRef::Edge(id)),
                out@ == first + second.take(j as int),
            decreases edges.len() - j,
        {
            out.push(ElementRef::Edge(edges[j]));
            assert(out@ =~= first + second.take(j + 1));
            j = j + 1;
        }
        assert(second.take(edges@.len() as int) =~= second);
    }
    assert(out@ =~= elements_for(target, nodes@, edges@));
    if out.len() == 0 {
        Err("database has no elements for the requested target".to_owned())
    } else {
        Ok(out)
    }
}

/// How far apart samples are taken.
pub open spec fn sample_stride(elements: nat, queries: nat) -> nat {
    if elements / queries == 0 {
        1
    } else {
        elements / queries
    }
}

/// The element that is mixed into the one at `at`.
pub open spec fn companion(at: nat, stride: nat, elements: nat) -> nat {
    (at + stride / 3 + 1) % elements
}

/// The samples from `at` on: each element that has a vector, with the one
/// that is mixed into it, until `left` are taken.
pub open spec fn samples(has: Seq<bool>, stride: nat, at: nat, left: nat) -> Seq<(nat, nat)>
    decreases
            if at < has.len() {
                has.len() - at
            } else {
                0
            },
{
    if stride == 0 || left == 0 || at >= has.len() {
        Seq::empty()
    } else if has[at as int] {
        seq![(at, companion(at, stride, has.len()))] + samples(
            has,
            stride,
            at + stride,
            (left - 1) as nat,
        )
    } else {
        samples(has, stride, at + stride, left)
    }
}

/// The positions of samples.
pub open spec fn sample_view(pairs: Seq<(usize, usize)>) -> Seq<(nat, nat)> {
    pairs.map_values(|p: (usize, usize)| (p.0 as nat, p.1 as nat))
}

/// The element that is mixed into the one at `at`.
fn companion_of(at: usize, stride: usize, elements: usize) -> (r: usize)
    requires
        at < elements,
        0 < stride <= elements,
    ensures
        r == companion(at as nat, stride as nat, elements as nat),
{
    let room: usize = elements - at;
    let third: usize = stride / 3;
    if third < room - 1 {
        let r: usize = at + third + 1;
        proof {
            vstd::arithmetic::div_mod::lemma_small_mod(r as nat, elements as nat);
        }
        r
    } else {
        let r: usize = third - (room - 1);
        proof {
            vstd::arithmetic::div_mod::lemma_mod_add_multiples_vanish(r as int, elements as int);
            vstd::arithmetic::div_mod::lemma_small_mod(r as nat, elements as nat);
        }
        r
    }
}

/// Picks samples evenly. `has` tells which elements have a vector.
pub fn sample_queries(has: &Vec<bool>, queries: usize) -> (r: Result<Vec<(usize, usize)>, String>)
    requires
        queries > 0,
        has@.len() > 0,
    ensures
        ({
            let stride = sample_stride(has@.len(), queries as nat);
            let picked = samples(has@, stride, stride / 2, queries as nat);
            match r {
                Ok(pairs) => sample_view(pairs@) == picked && picked.len() > 0,
                Err(message) => picked.len() == 0 && message@
                    == "sampled elements do not have vectors"@,
            }
        }),
{
    let elements: usize = has.len();
    let even: usize = elements / queries;
    let stride: usize = if even == 0 {
        1
    } else {
        even
    };
    proof {
        assert(elements as int / queries as int <= elements) by (nonlinear_arith)
            requires
                queries > 0,
                elements >= 0,
        ;
    }
    let ghost whole = samples(has@, stride as nat, (stride / 2) as nat, queries as nat);
    let mut out: Vec<(usize, usize)> = Vec::new();
    let mut at: usize = stride / 2;
    let mut left: usize = queries;
    assert(sample_view(out@) + whole =~= whole);
    while left > 0 && at < elements
        invariant
            elements == has@.len(),
            0 < stride <= elements,
            out@.len() + left == queries,
            sample_view(out@) + samples(has@, stride as nat, at as nat, left as nat) == whole,
        decreases
                if at < elements {
                    elements - at
                } else {
                    0
                },
    {
        let next: usize = at.saturating_add(stride);
        proof {
            assert(samples(has@, stride as nat, next as nat, left as nat) =~= samples(
                has@,
                stride as nat,
                (at + stride) as nat,
                left as nat,
            ));
            if has@[at as int] {
                assert(samples(has@, stride as nat, next as nat, (left - 1) as nat) =~= samples(
                    has@,
                    stride as nat,
                    (at + stride) as nat,
                    (left - 1) as nat,
                ));
            }
        }
        if has[at] {
            let other: usize = companion_of(at, stride, elements);
            let ghost before = sample_view(out@);
            let ghost rest = samples(has@, stride as nat, next as nat, (left - 1) as nat);
            out.push((at, other));
            proof {
                let pair = (at as nat, companion(at as nat, stride as nat, has@.len()));
                assert(other == companion(at as nat, stride as nat, has@.len()));
                assert(sample_view(out@) =~= before.push(pair));
                assert(before.push(pair) + rest =~= before + (seq![pair] + rest));
            }
            left = left - 1;
        }
        at = next;
    }
    assert(sample_view(out@) =~= whole);
    if out.len() == 0 {
        Err("sampled elements do not have vectors".to_owned())
    } else {
        Ok(out)
    }
}

/// No more samples are taken than asked for, and every one lies among the
/// elements and has a vector.
pub proof fn law_samples_are_elements(has: Seq<bool>, stride: nat, at: nat, left: nat)
    requires
        has.len() > 0,
    ensures
        samples(has, stride, at, left).len() <= left,
        forall|i: int|
            0 <= i < samples(has, stride, at, left).len() ==> {
                let pair = #[trigger] samples(has, stride, at, left)[i];
                pair.0 < has.len() && pair.1 < has.len() && has[pair.0 as int]
            },
    decreases
            if at < has.len() {
                has.len() - at
            } else {
                0
            },
{
    if stride > 0 && left > 0 && at < has.len() {
        let all = samples(has, stride, at, left);
        if has[at as int] {
            let rest = samples(has, stride, at + stride, (left - 1) as nat);
            law_samples_are_elements(has, stride, at + stride, (left - 1) as nat);
            assert((at + stride / 3 + 1) % has.len() < has.len()) by (nonlinear_arith)
                requires
                    has.len() > 0,
            ;
            assert forall|i: int| 0 <= i < all.len() implies {
                let pair = #[trigger] all[i];
                pair.0 < has.len() && pair.1 < has.len() && has[pair.0 as int]
            } by {
                if i > 0 {
                    assert(all[i] == rest[i - 1]);
                }
            }
        } else {
            law_samples_are_elements(has, stride, at + stride, left);
        }
    }
}

/// How many of the elements are among others.
pub open spec fn among(elements: Seq<ElementRef>, others: Seq<ElementRef>) -> nat
    decreases elements.len(),
{
    if elements.len() == 0 {
        0
    } else {
        among(elements.drop_last(), others) + if others.contains(elements.last()) {
            1nat
        } else {
            0nat
        }
    }
}

fn has_element(elements: &Vec<ElementRef>, end: usize, element: ElementRef) -> (r: bool)
    requires
        end <= elements@.len(),
    ensures
        r == elements@.take(end as int).contains(element),
{
    let mut i: usize = 0;
    while i < end
        invariant
            i <= end <= elements@.len(),
            forall|j: int| 0 <= j < i ==> #[trigger] elements@[j] != element,
        decreases end - i,
    {
        if elements[i] == element {
            assert(elements@.take(end as int)[i as int] == element);
            return true;
        }
        i = i + 1;
    }
    proof {
        if elements@.take(end as int).contains(element) {
            let k = choose|k: int|
                0 <= k < end && elements@.take(end as int)[k] == element;
            assert(elements@[k] == element);
        }
    }
    false
}

/// Counts the elements that are among others.
pub fn count_among(elements: &Vec<ElementRef>, others: &Vec<ElementRef>) -> (r: usize)
    ensures
        r == among(elements@, others@),
        r <= elements@.len(),
{
    let mut count: usize = 0;
    let mut i: usize = 0;
    assert(others@.take(others@.len() as int) =~= others@);
    assert(elements@.take(0) =~= Seq::<ElementRef>::empty());
    while i < elements.len()
        invariant
            i <= elements.len(),
            count <= i,
            others@.take(others@.len() as int) == others@,
            count == among(elements@.take(i as int), others@),
        decreases elements.len() - i,
    {
        assert(elements@.take(i + 1).drop_last() =~= elements@.take(i as int));
        if has_element(others, others.len(), elements[i]) {
            count = count + 1;
        }
        i = i + 1;
    }
    assert(elements@.take(elements@.len() as int) =~= elements@);
    count
}

/// Counts the elements that differ from each other.
pub fn count_distinct(elements: &Vec<ElementRef>) -> (r: usize)
    ensures
        r == elements@.to_set().len(),
{
    let mut count: usize = 0;
    let mut i: usize = 0;
    assert(elements@.take(0) =~= Seq::<ElementRef>::empty());
    assert(elements@.take(0).to_set() =~= Set::<ElementRef>::empty());
    while i < elements.len()
        invariant
            i <= elements.len(),
            count <= i,
            elements@.take(i as int).to_set().finite(),
            count == elements@.take(i as int).to_set().len(),
        decreases elements.len() - i,
    {
        proof {
            let before = elements@.take(i as int);
            let element = elements@[i as int];
            let now = elements@.take(i + 1);
            assert(now =~= before.push(element));
            assert(now.to_set() =~= before.to_set().insert(element)) by {
                assert forall|e: ElementRef| now.to_set().contains(e)
                    == before.to_set().insert(element).contains(e) by {
                    if before.contains(e) {
                        let k = choose|k: int| 0 <= k < before.len() && before[k] == e;
                        assert(now[k] == e);
                    }
                    if e == element {
                        assert(now[i as int] == e);
                    }
                    if now.contains(e) && e != element {
                        let k = choose|k: int| 0 <= k < now.len() && now[k] == e;
                        assert(before[k] == e);
                    }
                }
            }
        }
        if !has_element(elements, i, elements[i]) {
            count = count + 1;
        } else {
            assert(elements@.take(i as int).to_set().insert(elements@[i as int])
                =~= elements@.take(i as int).to_set());
        }
        i = i + 1;
    }
    assert(elements@.take(elements@.len() as int) =~= elements@);
    count
}

/// Known neighbors as nodes.
pub open spec fn as_nodes(truth: Seq<u64>) -> Seq<ElementRef> {
    truth.map_values(|id: u64| ElementRef::Node(id))
}

fn nodes_of(truth: &Vec<u64>) -> (r: Vec<ElementRef>)
    ensures
        r@ == as_nodes(truth@),
{
    let mut out: Vec<ElementRef> = Vec::new();
    let mut i: usize = 0;
    while i < truth.len()
        invariant
            i <= truth.len(),
            out@ == as_nodes(truth@).take(i as int),
        decreases truth.len() - i,
    {
        out.push(ElementRef::Node(truth[i]));
        assert(out@ =~= as_nodes(truth@).take(i + 1));
        i = i + 1;
    }
    assert(as_nodes(truth@).take(truth@.len() as int) =~= as_nodes(truth@));
    out
}

/// A share of a whole: the part and the whole.
#[derive(Clone, Copy, Debug, PartialEq, Eq, Structural)]
pub struct Share {
    pub part: usize,
    pub whole: usize,
}

/// How many of the found elements are among the wanted ones, of how many wanted
/// ones there are.
pub open spec fn share_of(found: Seq<ElementRef>, wanted: Seq<ElementRef>) -> (nat, nat) {
    (among(found, wanted), wanted.to_set().len())
}

/// How many hits are known neighbors, of how many known neighbors.
pub fn recall_ids(hits: &Vec<ElementRef>, truth: &Vec<u64>) -> (r: Share)
    ensures
        (r.part as nat, r.whole as nat) == share_of(hits@, as_nodes(truth@)),
{
    let known = nodes_of(truth);
    Share { part: count_among(hits, &known), whole: count_distinct(&known) }
}

/// How many hits of one search are hits of another, of how many of the other.
pub fn recall_hits(left: &Vec<ElementRef>, right: &Vec<ElementRef>) -> (r: Share)
    ensures
        (r.part as nat, r.whole as nat) == share_of(left@, right@),
{
    Share { part: count_among(left, right), whole: count_distinct(right) }
}

/// How many exact hits an approximate search found, of how many; all of them
/// where there is none.
pub fn recall(exact: &Vec<ElementRef>, approximate: &Vec<ElementRef>) -> (r: Share)
    ensures
        exact@.len() == 0 ==> r.part == 1 && r.whole == 1,
        exact@.len() > 0 ==> r.part == among(exact@, approximate@) && r.whole == exact@.len(),
        r.part <= r.whole,
{
    if exact.len() == 0 {
        Share { part: 1, whole: 1 }
    } else {
        Share { part: count_among(exact, approximate), whole: exact.len() }
    }
}

/// A search that finds every exact hit has full recall.
pub proof fn law_exact_search_has_full_recall(exact: Seq<ElementRef>, approximate: Seq<ElementRef>)
    requires
        forall|i: int| 0 <= i < exact.len() ==> approximate.contains(#[trigger] exact[i]),
    ensures
        among(exact, approximate) == exact.len(),
    decreases exact.len(),
{
    if exact.len() > 0 {
        assert(approximate.contains(exact[exact.len() - 1]));
        assert forall|i: int| 0 <= i < exact.drop_last().len() implies approximate.contains(
            #[trigger] exact.drop_last()[i],
        ) by {
            assert(exact.drop_last()[i] == exact[i]);
        }
        law_exact_search_has_full_recall(exact.drop_last(), approximate);
    }
}

/// Checks that an expansion of nodes alone agrees with a full one.
pub fn check_expansion(nodes: u64, only_nodes: u64, only_edges: u64) -> (r: Result<(), String>)
    ensures
        match r {
            Ok(_) => only_nodes == nodes && only_edges == 0,
            Err(message) => (only_nodes != nodes || only_edges != 0) && message@
                == "node-only expansion disagrees with full expansion"@,
        },
{
    if only_nodes != nodes || only_edges != 0 {
        return Err("node-only expansion disagrees with full expansion".to_owned());
    }
    Ok(())
}

/// Checks that a numeric range selected something.
pub fn check_selection(allowed: u64) -> (r: Result<(), String>)
    ensures
        match r {
            Ok(_) => allowed > 0,
            Err(message) => allowed == 0 && message@ == "numeric range selected no nodes"@,
        },
{
    if allowed == 0 {
        return Err("numeric range selected no nodes".to_owned());
    }
    Ok(())
}

impl Direction {
    pub open spec fn name(self) -> Seq<char> {
        match self {
            Direction::Outgoing => "Outgoing"@,
            Direction::Incoming => "Incoming"@,
            Direction::Both => "Both"@,
        }
    }

    /// What the direction is called.
    pub fn label(self) -> (r: &'static str)
        ensures
            r@ == self.name(),
    {
        match self {
            Direction::Outgoing => "Outgoing",
            Direction::Incoming => "Incoming",
            Direction::Both => "Both",
        }
    }
}

/// What a benchmark of vector search against known neighbors measured.
#[derive(Debug)]
pub struct FbinBenchmark {
    pub queries: usize,
    pub k: usize,
    pub candidate_vectors: usize,
    pub f32_cache_bytes: u64,
    pub f32_cache_bytes_after: u64,
    pub approx_recall_vs_official: String,
    pub approx_recall_vs_exact: String,
    pub exact_recall_vs_official: String,
    pub approximate_p50_ms: String,
    pub approximate_p95_ms: String,
    pub exact_p50_ms: String,
    pub exact_p95_ms: String,
}

impl FbinBenchmark {
    /// What is printed.
    pub open spec fn entries(self) -> Seq<Seq<char>> {
        seq![
            report::count("queries"@, self.queries as int),
            report::count("k"@, self.k as int),
            report::count("candidate_vectors"@, self.candidate_vectors as int),
            report::count("f32_cache_bytes"@, self.f32_cache_bytes as int),
            report::count("f32_cache_bytes_after"@, self.f32_cache_bytes_after as int),
            report::entry("approx_recall_vs_official"@, self.approx_recall_vs_official@),
            report::entry("approx_recall_vs_exact"@, self.approx_recall_vs_exact@),
            report::entry("exact_recall_vs_official"@, self.exact_recall_vs_official@),
            report::entry("approximate_p50_ms"@, self.approximate_p50_ms@),
            report::entry("approximate_p95_ms"@, self.approximate_p95_ms@),
            report::entry("exact_p50_ms"@, self.exact_p50_ms@),
            report::entry("exact_p95_ms"@, self.exact_p95_ms@),
        ]
    }

    /// Prints a benchmark of vector search against known neighbors.
    pub fn lines(&self) -> (r: Vec<String>)
        ensures
            text::views(r@) == self.entries(),
    {
        let mut lines = no_lines();
        push_count(&mut lines, "queries", self.queries as u64);
        push_count(&mut lines, "k", self.k as u64);
        push_count(&mut lines, "candidate_vectors", self.candidate_vectors as u64);
        push_count(&mut lines, "f32_cache_bytes", self.f32_cache_bytes);
        push_count(&mut lines, "f32_cache_bytes_after", self.f32_cache_bytes_after);
        push_entry(&mut lines, "approx_recall_vs_official", self.approx_recall_vs_official.as_str());
        push_entry(&mut lines, "approx_recall_vs_exact", self.approx_recall_vs_exact.as_str());
        push_entry(&mut lines, "exact_recall_vs_official", self.exact_recall_vs_official.as_str());
        push_entry(&mut lines, "approximate_p50_ms", self.approximate_p50_ms.as_str());
        push_entry(&mut lines, "approximate_p95_ms", self.approximate_p95_ms.as_str());
        push_entry(&mut lines, "exact_p50_ms", self.exact_p50_ms.as_str());
        push_entry(&mut lines, "exact_p95_ms", self.exact_p95_ms.as_str());
        assert(text::views(lines@) =~= self.entries());
        lines
    }
}

/// What a benchmark of filtered vector search measured.
#[derive(Debug)]
pub struct FilteredBenchmark {
    pub queries: usize,
    pub k: usize,
    pub filter_stride: usize,
    pub allowed_elements: u64,
    pub candidate_elements: usize,
    pub adaptive_strategy: String,
    pub adaptive_candidates: u64,
    pub approx_recall_vs_exact: String,
    pub approximate_p50_ms: String,
    pub approximate_p95_ms: String,
    pub exact_p50_ms: String,
    pub exact_p95_ms: String,
}

impl FilteredBenchmark {
    /// What is printed.
    pub open spec fn entries(self) -> Seq<Seq<char>> {
        seq![
            report::count("queries"@, self.queries as int),
            report::count("k"@, self.k as int),
            report::count("filter_stride"@, self.filter_stride as int),
            report::count("allowed_elements"@, self.allowed_elements as int),
            report::count("candidate_elements"@, self.candidate_elements as int),
            report::entry("adaptive_strategy"@, self.adaptive_strategy@),
            report::count("adaptive_candidates"@, self.adaptive_candidates as int),
            report::entry("approx_recall_vs_exact"@, self.approx_recall_vs_exact@),
            report::entry("approximate_p50_ms"@, self.approximate_p50_ms@),
            report::entry("approximate_p95_ms"@, self.approximate_p95_ms@),
            report::entry("exact_p50_ms"@, self.exact_p50_ms@),
            report::entry("exact_p95_ms"@, self.exact_p95_ms@),
        ]
    }

    /// Prints a benchmark of filtered vector search.
    pub fn lines(&self) -> (r: Vec<String>)
        ensures
            text::views(r@) == self.entries(),
    {
        let mut lines = no_lines();
        push_count(&mut lines, "queries", self.queries as u64);
        push_count(&mut lines, "k", self.k as u64);
        push_count(&mut lines, "filter_stride", self.filter_stride as u64);
        push_count(&mut lines, "allowed_elements", self.allowed_elements);
        push_count(&mut lines, "candidate_elements", self.candidate_elements as u64);
        push_entry(&mut lines, "adaptive_strategy", self.adaptive_strategy.as_str());
        push_count(&mut lines, "adaptive_candidates", self.adaptive_candidates);
        push_entry(&mut lines, "approx_recall_vs_exact", self.approx_recall_vs_exact.as_str());
        push_entry(&mut lines, "approximate_p50_ms", self.approximate_p50_ms.as_str());
        push_entry(&mut lines, "approximate_p95_ms", self.approximate_p95_ms.as_str());
        push_entry(&mut lines, "exact_p50_ms", self.exact_p50_ms.as_str());
        push_entry(&mut lines, "exact_p95_ms", self.exact_p95_ms.as_str());
        assert(text::views(lines@) =~= self.entries());
        lines
    }
}

/// What a benchmark of vector search within a numeric range measured.
#[derive(Debug)]
pub struct RangeBenchmark {
    pub queries: usize,
    pub k: usize,
    pub property: String,
    pub lower_bound_inclusive: String,
    pub allowed_elements: u64,
    pub filter_strategy: String,
    pub filter_candidate_upper_bound: u64,
    pub filter_first_ms: String,
    pub filter_p50_ms: String,
    pub adaptive_strategy: String,
    pub adaptive_candidates: u64,
    pub explicit_candidate_elements: usize,
    pub adaptive_recall_vs_official: String,
    pub approx_recall_vs_official: String,
    pub approx_recall_vs_exact: String,
    pub exact_recall_vs_official: String,
    pub adaptive_total_p50_ms: String,
    pub adaptive_total_p95_ms: String,
    pub approximate_p50_ms: String,
    pub approximate_p95_ms: String,
    pub exact_p50_ms: String,
    pub exact_p95_ms: String,
}

impl RangeBenchmark {
    /// What is printed.
    pub open spec fn entries(self) -> Seq<Seq<char>> {
        seq![
            report::count("queries"@, self.queries as int),
            report::count("k"@, self.k as int),
            report::entry("property"@, self.property@),
            report::entry("lower_bound_inclusive"@, self.lower_bound_inclusive@),
            report::count("allowed_elements"@, self.allowed_elements as int),
            report::entry("filter_strategy"@, self.filter_strategy@),
            report::count("filter_candidate_upper_bound"@, self.filter_candidate_upper_bound as int),
            report::entry("filter_first_ms"@, self.filter_first_ms@),
            report::entry("filter_p50_ms"@, self.filter_p50_ms@),
            report::entry("adaptive_strategy"@, self.adaptive_strategy@),
            report::count("adaptive_candidates"@, self.adaptive_candidates as int),
            report::count("explicit_candidate_elements"@, self.explicit_candidate_elements as int),
            report::entry("adaptive_recall_vs_official"@, self.adaptive_recall_vs_official@),
            report::entry("approx_recall_vs_official"@, self.approx_recall_vs_official@),
            report::entry("approx_recall_vs_exact"@, self.approx_recall_vs_exact@),
            report::entry("exact_recall_vs_official"@, self.exact_recall_vs_official@),
            report::entry("adaptive_total_p50_ms"@, self.adaptive_total_p50_ms@),
            report::entry("adaptive_total_p95_ms"@, self.adaptive_total_p95_ms@),
            report::entry("approximate_p50_ms"@, self.approximate_p50_ms@),
            report::entry("approximate_p95_ms"@, self.approximate_p95_ms@),
            report::entry("exact_p50_ms"@, self.exact_p50_ms@),
            report::entry("exact_p95_ms"@, self.exact_p95_ms@),
        ]
    }

    /// Prints a benchmark of vector search within a numeric range.
    pub fn lines(&self) -> (r: Vec<String>)
        ensures
            text::views(r@) == self.entries(),
    {
        let mut lines = no_lines();
        push_count(&mut lines, "queries", self.queries as u64);
        push_count(&mut lines, "k", self.k as u64);
        push_entry(&mut lines, "property", self.property.as_str());
        push_entry(&mut lines, "lower_bound_inclusive", self.lower_bound_inclusive.as_str());
        push_count(&mut lines, "allowed_elements", self.allowed_elements);
        push_entry(&mut lines, "filter_strategy", self.filter_strategy.as_str());
        push_count(&mut lines, "filter_candidate_upper_bound", self.filter_candidate_upper_bound);
        push_entry(&mut lines, "filter_first_ms", self.filter_first_ms.as_str());
        push_entry(&mut lines, "filter_p50_ms", self.filter_p50_ms.as_str());
        push_entry(&mut lines, "adaptive_strategy", self.adaptive_strategy.as_str());
        push_count(&mut lines, "adaptive_candidates", self.adaptive_candidates);
        push_count(&mut lines, "explicit_candidate_elements", self.explicit_candidate_elements as u64);
        push_entry(&mut lines, "adaptive_recall_vs_official", self.adaptive_recall_vs_official.as_str());
        push_entry(&mut lines, "approx_recall_vs_official", self.approx_recall_vs_official.as_str());
        push_entry(&mut lines, "approx_recall_vs_exact", self.approx_recall_vs_exact.as_str());
        push_entry(&mut lines, "exact_recall_vs_official", self.exact_recall_vs_official.as_str());
        push_entry(&mut lines, "adaptive_total_p50_ms", self.adaptive_total_p50_ms.as_str());
        push_entry(&mut lines, "adaptive_total_p95_ms", self.adaptive_total_p95_ms.as_str());
        push_entry(&mut lines, "approximate_p50_ms", self.approximate_p50_ms.as_str());
        push_entry(&mut lines, "approximate_p95_ms", self.approximate_p95_ms.as_str());
        push_entry(&mut lines, "exact_p50_ms", self.exact_p50_ms.as_str());
        push_entry(&mut lines, "exact_p95_ms", self.exact_p95_ms.as_str());
        assert(text::views(lines@) =~= self.entries());
        lines
    }
}

/// What a benchmark of property filters measured.
#[derive(Debug)]
pub struct PropertyBenchmark {
    pub open_ms: String,
    pub strategy: String,
    pub candidate_upper_bound: u64,
    pub iterations: usize,
    pub result_count: u64,
    pub query_min_ms: String,
    pub query_p50_ms: String,
    pub query_p95_ms: String,
    pub query_max_ms: String,
}

impl PropertyBenchmark {
    /// What is printed.
    pub open spec fn entries(self) -> Seq<Seq<char>> {
        seq![
            report::entry("open_ms"@, self.open_ms@),
            report::entry("strategy"@, self.strategy@),
            report::count("candidate_upper_bound"@, self.candidate_upper_bound as int),
            report::count("iterations"@, self.iterations as int),
            report::count("result_count"@, self.result_count as int),
            report::entry("query_min_ms"@, self.query_min_ms@),
            report::entry("query_p50_ms"@, self.query_p50_ms@),
            report::entry("query_p95_ms"@, self.query_p95_ms@),
            report::entry("query_max_ms"@, self.query_max_ms@),
        ]
    }

    /// Prints a benchmark of property filters.
    pub fn lines(&self) -> (r: Vec<String>)
        ensures
            text::views(r@) == self.entries(),
    {
        let mut lines = no_lines();
        push_entry(&mut lines, "open_ms", self.open_ms.as_str());
        push_entry(&mut lines, "strategy", self.strategy.as_str());
        push_count(&mut lines, "candidate_upper_bound", self.candidate_upper_bound);
        push_count(&mut lines, "iterations", self.iterations as u64);
        push_count(&mut lines, "result_count", self.result_count);
        push_entry(&mut lines, "query_min_ms", self.query_min_ms.as_str());
        push_entry(&mut lines, "query_p50_ms", self.query_p50_ms.as_str());
        push_entry(&mut lines, "query_p95_ms", self.query_p95_ms.as_str());
        push_entry(&mut lines, "query_max_ms", self.query_max_ms.as_str());
        assert(text::views(lines@) =~= self.entries());
        lines
    }
}

/// What a benchmark of queries or of neighbors measured.
#[derive(Debug)]
pub struct QueryBenchmark {
    pub open_ms: String,
    pub iterations: usize,
    pub result_count: usize,
    pub query_min_ms: String,
    pub query_p50_ms: String,
    pub query_p95_ms: String,
    pub query_max_ms: String,
}

impl QueryBenchmark {
    /// What is printed.
    pub open spec fn entries(self) -> Seq<Seq<char>> {
        seq![
            report::entry("open_ms"@, self.open_ms@),
            report::count("iterations"@, self.iterations as int),
            report::count("result_count"@, self.result_count as int),
            report::entry("query_min_ms"@, self.query_min_ms@),
            report::entry("query_p50_ms"@, self.query_p50_ms@),
            report::entry("query_p95_ms"@, self.query_p95_ms@),
            report::entry("query_max_ms"@, self.query_max_ms@),
        ]
    }

    /// Prints a benchmark of queries or of neighbors.
    pub fn lines(&self) -> (r: Vec<String>)
        ensures
            text::views(r@) == self.entries(),
    {
        let mut lines = no_lines();
        push_entry(&mut lines, "open_ms", self.open_ms.as_str());
        push_count(&mut lines, "iterations", self.iterations as u64);
        push_count(&mut lines, "result_count", self.result_count as u64);
        push_entry(&mut lines, "query_min_ms", self.query_min_ms.as_str());
        push_entry(&mut lines, "query_p50_ms", self.query_p50_ms.as_str());
        push_entry(&mut lines, "query_p95_ms", self.query_p95_ms.as_str());
        push_entry(&mut lines, "query_max_ms", self.query_max_ms.as_str());
        assert(text::views(lines@) =~= self.entries());
        lines
    }
}

/// What a benchmark of approximate search measured.
#[derive(Debug)]
pub struct AnnBenchmark {
    pub open_ms: String,
    pub index_build_ms: String,
    pub queries: usize,
    pub target: VectorTarget,
    pub candidate_vectors: usize,
    pub recall_at_10_min: String,
    pub recall_at_10_mean: String,
    pub approximate_p50_ms: String,
    pub approximate_p95_ms: String,
    pub exact_p50_ms: String,
    pub exact_p95_ms: String,
}

impl AnnBenchmark {
    /// What is printed.
    pub open spec fn entries(self) -> Seq<Seq<char>> {
        seq![
            report::entry("open_ms"@, self.open_ms@),
            report::entry("index_build_ms"@, self.index_build_ms@),
            report::count("queries"@, self.queries as int),
            report::entry("target"@, self.target.name()),
            report::count("candidate_vectors"@, self.candidate_vectors as int),
            report::entry("recall_at_10_min"@, self.recall_at_10_min@),
            report::entry("recall_at_10_mean"@, self.recall_at_10_mean@),
            report::entry("approximate_p50_ms"@, self.approximate_p50_ms@),
            report::entry("approximate_p95_ms"@, self.approximate_p95_ms@),
            report::entry("exact_p50_ms"@, self.exact_p50_ms@),
            report::entry("exact_p95_ms"@, self.exact_p95_ms@),
        ]
    }

    /// Prints a benchmark of approximate search.
    pub fn lines(&self) -> (r: Vec<String>)
        ensures
            text::views(r@) == self.entries(),
    {
        let mut lines = no_lines();
        push_entry(&mut lines, "open_ms", self.open_ms.as_str());
        push_entry(&mut lines, "index_build_ms", self.index_build_ms.as_str());
        push_count(&mut lines, "queries", self.queries as u64);
        push_entry(&mut lines, "target", self.target.label());
        push_count(&mut lines, "candidate_vectors", self.candidate_vectors as u64);
        push_entry(&mut lines, "recall_at_10_min", self.recall_at_10_min.as_str());
        push_entry(&mut lines, "recall_at_10_mean", self.recall_at_10_mean.as_str());
        push_entry(&mut lines, "approximate_p50_ms", self.approximate_p50_ms.as_str());
        push_entry(&mut lines, "approximate_p95_ms", self.approximate_p95_ms.as_str());
        push_entry(&mut lines, "exact_p50_ms", self.exact_p50_ms.as_str());
        push_entry(&mut lines, "exact_p95_ms", self.exact_p95_ms.as_str());
        assert(text::views(lines@) =~= self.entries());
        lines
    }
}

/// What a benchmark of expansion measured.
#[derive(Debug)]
pub struct ExpandBenchmark {
    pub seed: u64,
    pub hops: usize,
    pub direction: Direction,
    pub nodes: u64,
    pub edges: u64,
    pub iterations: usize,
    pub expand_min_ms: String,
    pub expand_p50_ms: String,
    pub expand_p95_ms: String,
    pub node_only_p50_ms: String,
    pub node_only_p95_ms: String,
}

impl ExpandBenchmark {
    /// What is printed.
    pub open spec fn entries(self) -> Seq<Seq<char>> {
        seq![
            report::count("seed"@, self.seed as int),
            report::count("hops"@, self.hops as int),
            report::entry("direction"@, self.direction.name()),
            report::count("nodes"@, self.nodes as int),
            report::count("edges"@, self.edges as int),
            report::count("iterations"@, self.iterations as int),
            report::entry("expand_min_ms"@, self.expand_min_ms@),
            report::entry("expand_p50_ms"@, self.expand_p50_ms@),
            report::entry("expand_p95_ms"@, self.expand_p95_ms@),
            report::entry("node_only_p50_ms"@, self.node_only_p50_ms@),
            report::entry("node_only_p95_ms"@, self.node_only_p95_ms@),
        ]
    }

    /// Prints a benchmark of expansion.
    pub fn lines(&self) -> (r: Vec<String>)
        ensures
            text::views(r@) == self.entries(),
    {
        let mut lines = no_lines();
        push_count(&mut lines, "seed", self.seed);
        push_count(&mut lines, "hops", self.hops as u64);
        push_entry(&mut lines, "direction", self.direction.label());
        push_count(&mut lines, "nodes", self.nodes);
        push_count(&mut lines, "edges", self.edges);
        push_count(&mut lines, "iterations", self.iterations as u64);
        push_entry(&mut lines, "expand_min_ms", self.expand_min_ms.as_str());
        push_entry(&mut lines, "expand_p50_ms", self.expand_p50_ms.as_str());
        push_entry(&mut lines, "expand_p95_ms", self.expand_p95_ms.as_str());
        push_entry(&mut lines, "node_only_p50_ms", self.node_only_p50_ms.as_str());
        push_entry(&mut lines, "node_only_p95_ms", self.node_only_p95_ms.as_str());
        assert(text::views(lines@) =~= self.entries());
        lines
    }
}

/// What a benchmark of search by text measured.
#[derive(Debug)]
pub struct SearchBenchmark {
    pub open_ms: String,
    pub query_embedding_ms: String,
    pub first_search_ms: String,
    pub iterations: usize,
    pub target: VectorTarget,
    pub label: Option<String>,
    /// How many candidates an approximate search looks at, and its recall.
    pub approximate: Option<(usize, String)>,
    /// How many results the last timed search gave.
    pub result_count: usize,
    /// How many results the first search gave.
    pub first_count: usize,
    pub search_min_ms: String,
    pub search_p50_ms: String,
    pub search_p95_ms: String,
    pub search_max_ms: String,
}

impl SearchBenchmark {
    /// What is printed.
    pub open spec fn entries(self) -> Seq<Seq<char>> {
        seq![
            report::entry("open_ms"@, self.open_ms@),
            report::entry("query_embedding_ms"@, self.query_embedding_ms@),
            report::entry("first_search_ms"@, self.first_search_ms@),
            report::count("iterations"@, self.iterations as int),
            report::entry("target"@, self.target.name()),
            report::entry("label"@, report::label_or_star(text::opt_view(self.label))),
            report::entry(
                "mode"@,
                if self.approximate is Some {
                    "approximate"@
                } else {
                    "exact"@
                },
            ),
        ] + (match self.approximate {
            Some((candidates, recall)) => seq![
                report::count("candidate_vectors"@, candidates as int),
                report::entry("recall_at_10"@, recall@),
            ],
            None => Seq::empty(),
        }) + seq![
            report::count(
                "result_count"@,
                if self.result_count <= self.first_count {
                    self.first_count as int
                } else {
                    self.result_count as int
                },
            ),
            report::entry("search_min_ms"@, self.search_min_ms@),
            report::entry("search_p50_ms"@, self.search_p50_ms@),
            report::entry("search_p95_ms"@, self.search_p95_ms@),
            report::entry("search_max_ms"@, self.search_max_ms@),
        ]
    }

    /// Prints a benchmark of search by text.
    pub fn lines(&self) -> (r: Vec<String>)
        ensures
            text::views(r@) == self.entries(),
    {
        let mut lines = no_lines();
        push_entry(&mut lines, "open_ms", self.open_ms.as_str());
        push_entry(&mut lines, "query_embedding_ms", self.query_embedding_ms.as_str());
        push_entry(&mut lines, "first_search_ms", self.first_search_ms.as_str());
        push_count(&mut lines, "iterations", self.iterations as u64);
        push_entry(&mut lines, "target", self.target.label());
        match &self.label {
            Some(name) => {
                push_entry(&mut lines, "label", name.as_str());
            },
            None => {
                push_entry(&mut lines, "label", "*");
            },
        }
        push_entry(
            &mut lines,
            "mode",
            if self.approximate.is_some() {
                "approximate"
            } else {
                "exact"
            },
        );
        match &self.approximate {
            Some((candidates, recall)) => {
                push_count(&mut lines, "candidate_vectors", *candidates as u64);
                push_entry(&mut lines, "recall_at_10", recall.as_str());
            },
            None => {},
        }
        let results: usize = if self.result_count <= self.first_count {
            self.first_count
        } else {
            self.result_count
        };
        push_count(&mut lines, "result_count", results as u64);
        push_entry(&mut lines, "search_min_ms", self.search_min_ms.as_str());
        push_entry(&mut lines, "search_p50_ms", self.search_p50_ms.as_str());
        push_entry(&mut lines, "search_p95_ms", self.search_p95_ms.as_str());
        push_entry(&mut lines, "search_max_ms", self.search_max_ms.as_str());
        assert(text::views(lines@) =~= self.entries());
        lines
    }
}

} // verus!
