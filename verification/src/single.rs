//! Single-precision values by their IEEE 754 bits.
//!
//! Values of this kind are carried, ordered and tested for finiteness; no
//! arithmetic is done on them here.

use vstd::prelude::*;

verus! {

/// Whether the bits are those of a value that is neither infinite nor
/// not-a-number.
pub open spec fn finite(bits: u32) -> bool {
    (bits / 0x80_0000) % 256 != 255
}

pub fn is_finite(bits: u32) -> (r: bool)
    ensures
        r == finite(bits),
{
    (bits / 0x80_0000) % 256 != 255
}

/// Whether the bits are those of not-a-number.
pub open spec fn nan(bits: u32) -> bool {
    !finite(bits) && bits % 0x80_0000 != 0
}

/// The place of a value other than not-a-number in numeric order; both zeros
/// share the place 0.
pub open spec fn magnitude(bits: u32) -> int {
    if bits < 0x8000_0000 {
        bits as int
    } else {
        0x8000_0000 - bits
    }
}

/// Numeric less-than; not-a-number is less than nothing.
pub open spec fn less(a: u32, b: u32) -> bool {
    !nan(a) && !nan(b) && magnitude(a) < magnitude(b)
}

pub fn is_nan(bits: u32) -> (r: bool)
    ensures
        r == nan(bits),
{
    !is_finite(bits) && bits % 0x80_0000 != 0
}

fn magnitude_of(bits: u32) -> (r: i64)
    ensures
        r == magnitude(bits),
{
    if bits < 0x8000_0000 {
        bits as i64
    } else {
        0x8000_0000i64 - bits as i64
    }
}

pub fn is_less(a: u32, b: u32) -> (r: bool)
    ensures
        r == less(a, b),
{
    !is_nan(a) && !is_nan(b) && magnitude_of(a) < magnitude_of(b)
}

/// Numeric equality: both zeros are equal, and not-a-number equals nothing.
pub open spec fn equal(a: u32, b: u32) -> bool {
    !nan(a) && !nan(b) && magnitude(a) == magnitude(b)
}

pub fn is_equal(a: u32, b: u32) -> (r: bool)
    ensures
        r == equal(a, b),
{
    !is_nan(a) && !is_nan(b) && magnitude_of(a) == magnitude_of(b)
}

/// The place of a value in IEEE 754 total order: negative not-a-numbers
/// first, then numeric order with -0 before +0, then positive not-a-numbers.
pub open spec fn total_place(bits: u32) -> int {
    if bits < 0x8000_0000 {
        bits as int
    } else {
        0x7fff_ffff - bits
    }
}

/// The place of a value in IEEE 754 total order.
pub fn place_of(bits: u32) -> (r: i64)
    ensures
        r == total_place(bits),
{
    if bits < 0x8000_0000 {
        bits as i64
    } else {
        0x7fff_ffffi64 - bits as i64
    }
}

/// The bits of 1.
pub const ONE: u32 = 0x3f80_0000;

/// A value held between 0 and 1; not-a-number stays what it is.
pub open spec fn held_unit(value: u32) -> u32 {
    if less(value, 0) {
        0
    } else if less(ONE, value) {
        ONE
    } else {
        value
    }
}

/// Holds a value between 0 and 1.
pub fn hold_unit(value: u32) -> (r: u32)
    ensures
        r == held_unit(value),
{
    if is_less(value, 0) {
        0
    } else if is_less(ONE, value) {
        ONE
    } else {
        value
    }
}

/// Whether a value is at least 0 and at most 1, or not-a-number.
pub open spec fn in_unit(value: u32) -> bool {
    nan(value) || 0 <= magnitude(value) <= magnitude(ONE)
}

} // verus!
