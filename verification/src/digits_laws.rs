//! What numbers as text keep.

use vstd::arithmetic::power::*;
use vstd::prelude::*;

use crate::digits;

verus! {

proof fn lemma_decimal_digits(n: nat)
    ensures
        digits::all_digits(digits::decimal(n)),
        digits::digits_value(digits::decimal(n)) == n,
    decreases n,
{
    let d = digits::decimal(n);
    if n < 10 {
        assert(d.drop_last() =~= Seq::<char>::empty());
        assert(digits::digits_value(d.drop_last()) == 0);
        assert(d.last() as int == 48 + n);
    } else {
        lemma_decimal_digits(n / 10);
        let e = digits::decimal(n / 10);
        assert(d.drop_last() =~= e);
        assert(d.last() as int == 48 + n % 10);
        assert forall|i: int| 0 <= i < d.len() implies digits::is_digit(#[trigger] d[i]) by {
            if i < e.len() {
                assert(d[i] == e[i]);
            }
        }
    }
}

/// Reading back a signed number that was written gives the number.
pub proof fn law_signed_decimal_round_trips(n: i64)
    ensures
        digits::i64_value(digits::signed_decimal(n as int)) == Some(n),
{
    let s = digits::signed_decimal(n as int);
    if n < 0 {
        lemma_decimal_digits((-n) as nat);
        assert(s.drop_first() =~= digits::decimal((-n) as nat));
    } else {
        lemma_decimal_digits(n as nat);
        assert(digits::is_digit(s[0]));
    }
}

/// Different numbers are written differently, in digits alone and without a
/// leading zero.
pub proof fn law_numbers_are_written_apart(a: nat, b: nat)
    ensures
        digits::decimal(a) == digits::decimal(b) ==> a == b,
        digits::all_digits(digits::decimal(a)),
        a > 0 ==> digits::decimal(a)[0] != '0',
    decreases a,
{
    lemma_decimal_digits(a);
    lemma_decimal_digits(b);
    if a >= 10 {
        law_numbers_are_written_apart(a / 10, b);
    }
}

proof fn lemma_grouped_len(d: Seq<char>, i: nat)
    requires
        1 <= i <= d.len(),
    ensures
        digits::grouped(d, i).len() + (d.len() - i) + (d.len() - i) / 3 == digits::grouped(
            d,
            1,
        ).len() + (d.len() - 1) + (d.len() - 1) / 3,
        digits::grouped(d, 1).len() == 1,
    decreases i,
{
    assert(digits::grouped(d, 0) =~= Seq::<char>::empty());
    if i > 1 {
        lemma_grouped_len(d, (i - 1) as nat);
    }
}

proof fn lemma_grouped(d: Seq<char>, i: nat)
    requires
        i <= d.len(),
        forall|k: int| 0 <= k < d.len() ==> (#[trigger] d[k]) != ',',
    ensures
        ({
            let shown = digits::grouped(d, i);
            let total = d.len() + (d.len() - 1) / 3;
            &&& shown.filter(|c: char| c != ',') == d.take(i as int)
            &&& forall|k: int| 0 <= k < shown.len() ==> ((#[trigger] shown[k]) == ',' <==> (total - k) % 4 == 0)
        }),
    decreases i,
{
    reveal(Seq::filter);
    let keep = |c: char| c != ',';
    let shown = digits::grouped(d, i);
    if i == 0 {
        assert(shown.filter(keep) =~= d.take(0));
    } else {
        let total = d.len() + (d.len() - 1) / 3;
        lemma_grouped(d, (i - 1) as nat);
        let before = digits::grouped(d, (i - 1) as nat);
        let marked = if i > 1 && (d.len() - (i - 1)) % 3 == 0 {
            before.push(',')
        } else {
            before
        };
        assert(marked.push(d[i - 1]).drop_last() =~= marked);
        assert(before.push(',').drop_last() =~= before);
        assert(before.push(',').filter(keep) == before.filter(keep));
        assert(marked.filter(keep) == before.filter(keep));
        assert(d[i - 1] != ',');
        assert(shown == marked.push(d[i - 1]));
        assert(shown.filter(keep) == marked.filter(keep).push(d[i - 1]));
        assert(d.take(i as int) =~= d.take(i - 1).push(d[i - 1]));
        if i > 1 {
            lemma_grouped_len(d, (i - 1) as nat);
        } else {
            assert(before.len() == 0);
        }
        let left = d.len() - (i - 1);
        assert(i > 1 ==> total - before.len() == left + left / 3);
        assert forall|k: int| 0 <= k < shown.len() implies ((#[trigger] shown[k]) == ',' <==> (total
            - k) % 4 == 0) by {
            if k < before.len() {
                assert(shown[k] == before[k]);
            }
        }
    }
}

/// A grouped number is the number with a comma before every third digit from
/// the right, and without its commas it is the number as it is written.
pub proof fn law_counts_are_grouped_by_thousands(n: nat)
    ensures
        digits::counted(n).filter(|c: char| c != ',') == digits::decimal(n),
        forall|k: int|
            0 <= k < digits::counted(n).len() ==> ((#[trigger] digits::counted(n)[k]) == ',' <==> (
            digits::counted(n).len() - k) % 4 == 0),
{
    let d = digits::decimal(n);
    lemma_decimal_digits(n);
    assert forall|k: int| 0 <= k < d.len() implies (#[trigger] d[k]) != ',' by {
        assert(digits::is_digit(d[k]));
    }
    lemma_grouped(d, d.len());
    lemma_grouped_len(d, d.len());
    assert(d.take(d.len() as int) =~= d);
}

/// Numbers that fit the width are told apart by their hexadecimal digits, of
/// which there are as many as the width says.
pub proof fn law_hex_tells_numbers_apart(a: nat, b: nat, width: nat)
    ensures
        digits::hex(a, width).len() == width,
        a < pow(16, width) && b < pow(16, width) && digits::hex(a, width) == digits::hex(b, width)
            ==> a == b,
    decreases width,
{
    if width == 0 {
        lemma_pow0(16);
    } else {
        let less = (width - 1) as nat;
        law_hex_tells_numbers_apart(a / 16, b / 16, less);
        lemma_pow1(16);
        lemma_pow_adds(16, less, 1);
        let p = pow(16, less);
        assert(pow(16, width) == p * 16);
        if a < pow(16, width) && b < pow(16, width) && digits::hex(a, width) == digits::hex(
            b,
            width,
        ) {
            assert(digits::hex(a, width).drop_last() =~= digits::hex(a / 16, less));
            assert(digits::hex(b, width).drop_last() =~= digits::hex(b / 16, less));
            assert(digits::hex(a, width).last() == digits::hex_char(a % 16));
            assert(digits::hex(b, width).last() == digits::hex_char(b % 16));
            assert(digits::hex_char(a % 16) as int == if a % 16 < 10 {
                48 + a % 16
            } else {
                87 + a % 16
            });
            assert(digits::hex_char(b % 16) as int == if b % 16 < 10 {
                48 + b % 16
            } else {
                87 + b % 16
            });
            assert(a / 16 < p && b / 16 < p);
        }
    }
}

proof fn lemma_zeros_value(zeros: Seq<char>, s: Seq<char>)
    requires
        forall|i: int| 0 <= i < zeros.len() ==> (#[trigger] zeros[i]) == '0',
    ensures
        digits::digits_value(zeros + s) == digits::digits_value(s),
    decreases zeros.len() + s.len(),
{
    if s.len() > 0 {
        assert((zeros + s).drop_last() =~= zeros + s.drop_last());
        lemma_zeros_value(zeros, s.drop_last());
    } else if zeros.len() > 0 {
        assert((zeros + s).drop_last() =~= zeros.drop_last() + s);
        assert((zeros + s).last() == '0');
        lemma_zeros_value(zeros.drop_last(), s);
    } else {
        assert(zeros + s =~= s);
    }
}

/// A padded number has at least its width, starts with zeros only where it is
/// too short without, and is still the number.
pub proof fn law_padding_keeps_the_number(n: nat, width: nat)
    ensures
        digits::padded(n, width).len() >= width,
        digits::decimal(n).len() < width ==> digits::padded(n, width).len() == width,
        digits::digits_value(digits::padded(n, width)) == n,
        digits::decimal(n).is_suffix_of(digits::padded(n, width)),
{
    lemma_decimal_digits(n);
    let plain = digits::decimal(n);
    if plain.len() < width {
        let zeros = Seq::new((width - plain.len()) as nat, |i: int| '0');
        lemma_zeros_value(zeros, plain);
        assert((zeros + plain).subrange(zeros.len() as int, (zeros + plain).len() as int)
            =~= plain);
    } else {
        assert(plain.subrange(0, plain.len() as int) =~= plain);
    }
}

} // verus!
