//! Decimal numbers as text.

use vstd::prelude::*;
use vstd::string::*;

use crate::text::chars_of;

verus! {

/// The character of a decimal digit.
pub open spec fn digit_char(d: nat) -> char
    recommends
        d < 10,
{
    (48 + d) as char
}

/// The decimal digits of a number, without leading zeros.
pub open spec fn decimal(n: nat) -> Seq<char>
    decreases n,
{
    if n < 10 {
        seq![digit_char(n)]
    } else {
        decimal(n / 10).push(digit_char(n % 10))
    }
}

/// The decimal form of a signed number.
pub open spec fn signed_decimal(n: int) -> Seq<char> {
    if n < 0 {
        seq!['-'] + decimal((-n) as nat)
    } else {
        decimal(n as nat)
    }
}

/// Writes a number in decimal.
pub fn decimal_text(n: u64) -> (r: String)
    ensures
        r@ == decimal(n as nat),
    decreases n,
{
    if n < 10 {
        let mut out = String::new();
        out.push((48u8 + n as u8) as char);
        assert(out@ =~= decimal(n as nat));
        out
    } else {
        let mut out = decimal_text(n / 10);
        out.push((48u8 + (n % 10) as u8) as char);
        out
    }
}

/// Writes a size in decimal.
pub fn usize_text(n: usize) -> (r: String)
    ensures
        r@ == decimal(n as nat),
{
    decimal_text(n as u64)
}

/// Writes a signed number in decimal.
pub fn signed_text(n: i64) -> (r: String)
    ensures
        r@ == signed_decimal(n as int),
{
    if n < 0 {
        let magnitude: u64 = if n == i64::MIN { 9223372036854775808u64 } else { (-n) as u64 };
        let digits = decimal_text(magnitude);
        let mut out = String::new();
        out.push('-');
        out.append(digits.as_str());
        assert(out@ =~= seq!['-'] + decimal((-n) as nat));
        out
    } else {
        decimal_text(n as u64)
    }
}

/// The first `i` of the digits `d`, with a comma before each group of three
/// counted from the end of `d`.
pub open spec fn grouped(d: Seq<char>, i: nat) -> Seq<char>
    decreases i,
{
    if i == 0 {
        Seq::empty()
    } else {
        let before = grouped(d, (i - 1) as nat);
        let marked = if i > 1 && (d.len() - (i - 1)) % 3 == 0 {
            before.push(',')
        } else {
            before
        };
        marked.push(d[i - 1])
    }
}

/// A count with its digits in comma-separated groups of three.
pub open spec fn counted(n: nat) -> Seq<char> {
    grouped(decimal(n), decimal(n).len())
}

/// Writes a count with its digits in comma-separated groups of three.
pub fn format_count(value: usize) -> (r: String)
    ensures
        r@ == counted(value as nat),
{
    let text = usize_text(value);
    let digits = chars_of(text.as_str());
    let mut output = String::new();
    let mut i: usize = 0;
    while i < digits.len()
        invariant
            i <= digits.len(),
            output@ == grouped(digits@, i as nat),
        decreases digits.len() - i,
    {
        if i > 0 && (digits.len() - i) % 3 == 0 {
            output.push(',');
        }
        output.push(digits[i]);
        i = i + 1;
    }
    output
}

/// Whether a character is an ASCII digit.
pub open spec fn is_digit(c: char) -> bool {
    '0' <= c <= '9'
}

/// The number that a sequence of digits writes.
pub open spec fn digits_value(s: Seq<char>) -> nat
    decreases s.len(),
{
    if s.len() == 0 {
        0
    } else {
        digits_value(s.drop_last()) * 10 + (s.last() as int - 48) as nat
    }
}

pub open spec fn all_digits(s: Seq<char>) -> bool {
    s.len() > 0 && forall|i: int| 0 <= i < s.len() ==> is_digit(#[trigger] s[i])
}

/// The number that a text writes: digits, after an optional `+`.
pub open spec fn unsigned_value(s: Seq<char>) -> Option<nat> {
    let digits = if s.len() > 1 && s[0] == '+' {
        s.drop_first()
    } else {
        s
    };
    if all_digits(digits) {
        Some(digits_value(digits))
    } else {
        None
    }
}

/// The number that a text writes: digits, after an optional sign.
pub open spec fn signed_value(s: Seq<char>) -> Option<int> {
    if s.len() > 1 && s[0] == '-' {
        if all_digits(s.drop_first()) {
            Some(-(digits_value(s.drop_first()) as int))
        } else {
            None
        }
    } else {
        match unsigned_value(s) {
            Some(n) => Some(n as int),
            None => None,
        }
    }
}

/// The 64-bit number that a text writes, if it writes one.
pub open spec fn u64_value(s: Seq<char>) -> Option<u64> {
    match unsigned_value(s) {
        Some(n) => if n <= u64::MAX { Some(n as u64) } else { None },
        None => None,
    }
}

/// The size that a text writes, if it writes one.
pub open spec fn usize_value(s: Seq<char>) -> Option<usize> {
    match unsigned_value(s) {
        Some(n) => if n <= usize::MAX { Some(n as usize) } else { None },
        None => None,
    }
}

/// The signed 64-bit number that a text writes, if it writes one.
pub open spec fn i64_value(s: Seq<char>) -> Option<i64> {
    match signed_value(s) {
        Some(n) => if i64::MIN <= n <= i64::MAX { Some(n as i64) } else { None },
        None => None,
    }
}

/// Why a text is no 64-bit number.
pub uninterp spec fn u64_error(s: Seq<char>) -> Seq<char>;

/// Why a text is no size, on a machine with sizes of this width.
pub uninterp spec fn usize_error(s: Seq<char>) -> Seq<char>;

/// Why a text is no signed 64-bit number.
pub uninterp spec fn i64_error(s: Seq<char>) -> Seq<char>;

/// `str::parse::<u64>`: the number that the digits write, after an optional
/// `+`, if it fits in 64 bits, else the error's text, a function of the text.
#[verifier::external_body]
pub(crate) fn parse_u64(s: &str) -> (r: Result<u64, String>)
    ensures
        match r {
            Ok(n) => u64_value(s@) == Some(n),
            Err(e) => u64_value(s@) is None && e@ == u64_error(s@),
        },
{
    s.parse::<u64>().map_err(|error| error.to_string())
}

/// `str::parse::<usize>`: the number that the digits write, after an optional
/// `+`, if it fits in a size, else the error's text, a function of the text
/// and of how wide a size is.
#[verifier::external_body]
pub(crate) fn parse_usize(s: &str) -> (r: Result<usize, String>)
    ensures
        match r {
            Ok(n) => usize_value(s@) == Some(n),
            Err(e) => usize_value(s@) is None && e@ == usize_error(s@),
        },
{
    s.parse::<usize>().map_err(|error| error.to_string())
}

/// `str::parse::<i64>`: the number that the digits write, after an optional
/// sign, if it fits in 64 bits, else the error's text, a function of the text.
#[verifier::external_body]
pub(crate) fn parse_i64(s: &str) -> (r: Result<i64, String>)
    ensures
        match r {
            Ok(n) => i64_value(s@) == Some(n),
            Err(e) => i64_value(s@) is None && e@ == i64_error(s@),
        },
{
    s.parse::<i64>().map_err(|error| error.to_string())
}

proof fn lemma_decimal_digits(n: nat)
    ensures
        all_digits(decimal(n)),
        digits_value(decimal(n)) == n,
    decreases n,
{
    if n < 10 {
        let d = decimal(n);
        assert(d.drop_last() =~= Seq::<char>::empty());
        assert(digits_value(d.drop_last()) == 0);
        assert(d.last() as int == 48 + n);
        assert forall|i: int| 0 <= i < d.len() implies is_digit(#[trigger] d[i]) by {}
    } else {
        lemma_decimal_digits(n / 10);
        let d = decimal(n);
        let e = decimal(n / 10);
        assert(d.drop_last() =~= e);
        assert(d.last() as int == 48 + n % 10);
        assert forall|i: int| 0 <= i < d.len() implies is_digit(#[trigger] d[i]) by {
            if i < e.len() {
                assert(d[i] == e[i]);
            }
        }
    }
}

/// Reading back what was written gives the number.
pub proof fn law_decimal_round_trips(n: u64)
    ensures
        u64_value(decimal(n as nat)) == Some(n),
{
    lemma_decimal_digits(n as nat);
    let d = decimal(n as nat);
    assert(is_digit(d[0]));
}

/// The character of a hexadecimal digit, in lower case.
pub open spec fn hex_char(d: nat) -> char {
    if d < 10 {
        (48 + d) as char
    } else {
        (87 + d) as char
    }
}

/// The last `width` hexadecimal digits of a number.
pub open spec fn hex(n: nat, width: nat) -> Seq<char>
    decreases width,
{
    if width == 0 {
        Seq::empty()
    } else {
        hex(n / 16, (width - 1) as nat).push(hex_char(n % 16))
    }
}

/// Writes the last `width` hexadecimal digits of a number.
pub fn hex_text(n: u64, width: usize) -> (r: String)
    ensures
        r@ == hex(n as nat, width as nat),
    decreases width,
{
    if width == 0 {
        let r = String::new();
        assert(r@ =~= Seq::<char>::empty());
        r
    } else {
        let mut out = hex_text(n / 16, width - 1);
        let d: u8 = (n % 16) as u8;
        if d < 10 {
            out.push((48u8 + d) as char);
        } else {
            out.push((87u8 + d) as char);
        }
        out
    }
}

/// A number in decimal, with zeros before it up to a width.
pub open spec fn padded(n: nat, width: nat) -> Seq<char> {
    let plain = decimal(n);
    if plain.len() >= width {
        plain
    } else {
        Seq::new((width - plain.len()) as nat, |i: int| '0') + plain
    }
}

/// Writes a number in decimal, with zeros before it up to a width.
pub fn padded_text(n: usize, width: usize) -> (r: String)
    ensures
        r@ == padded(n as nat, width as nat),
{
    let plain = usize_text(n);
    let length: usize = plain.as_str().unicode_len();
    if length >= width {
        return plain;
    }
    let mut out = String::new();
    let mut i: usize = 0;
    assert(out@ =~= Seq::new(0, |i: int| '0'));
    while i < width - length
        invariant
            length < width,
            i <= width - length,
            out@ == Seq::new(i as nat, |i: int| '0'),
        decreases width - length - i,
    {
        out.push('0');
        assert(out@ =~= Seq::new((i + 1) as nat, |i: int| '0'));
        i = i + 1;
    }
    out.append(plain.as_str());
    out
}

} // verus!
