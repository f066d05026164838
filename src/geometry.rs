//! Sizes, points and fixed-point pixel lengths.

use vstd::prelude::*;

verus! {

/// Number of length units in one pixel. All lengths are `i64` counts of units.
pub const UNITS_PER_PIXEL: i64 = 64;

/// Half a pixel, in units.
pub const HALF_PIXEL: i64 = 32;

/// A width and a height.
#[derive(Clone, Copy, Debug)]
pub struct Size<T> {
    pub width: T,
    pub height: T,
}

/// A point, or an offset relative to a parent.
#[derive(Clone, Copy, Debug)]
pub struct Point<T> {
    pub x: T,
    pub y: T,
}

/// The nearest whole pixel to `v` (in units), ties rounded away from zero.
pub open spec fn nearest_pixel(v: int) -> int {
    if v >= 0 {
        ((v + HALF_PIXEL) / (UNITS_PER_PIXEL as int)) * UNITS_PER_PIXEL
    } else {
        -(((-v + HALF_PIXEL) / (UNITS_PER_PIXEL as int)) * UNITS_PER_PIXEL)
    }
}

/// What rounding `v` yields: the nearest whole pixel, unless that one lies above
/// `i64::MAX`, in which case the whole pixel just below it.
pub open spec fn round_units(v: int) -> int {
    let n = nearest_pixel(v);
    if n > i64::MAX {
        n - UNITS_PER_PIXEL
    } else {
        n
    }
}

/// Whether `v` is a whole number of pixels.
pub open spec fn is_whole_pixel(v: int) -> bool {
    v % (UNITS_PER_PIXEL as int) == 0
}

/// Rounds a length to a whole pixel, half away from zero.
pub fn round(v: i64) -> (r: i64)
    ensures
        r == round_units(v as int),
{
    let q: i64 = v / UNITS_PER_PIXEL;
    let rem: i64 = v % UNITS_PER_PIXEL;
    if v >= 0 {
        if rem >= HALF_PIXEL && q < i64::MAX / UNITS_PER_PIXEL {
            (q + 1) * UNITS_PER_PIXEL
        } else {
            q * UNITS_PER_PIXEL
        }
    } else {
        if rem <= -HALF_PIXEL {
            (q - 1) * UNITS_PER_PIXEL
        } else {
            q * UNITS_PER_PIXEL
        }
    }
}

/// Rounding yields a whole pixel that an `i64` holds.
pub proof fn lemma_round_is_whole(v: i64)
    ensures
        is_whole_pixel(round_units(v as int)),
        i64::MIN <= round_units(v as int) <= i64::MAX,
{
}

/// A whole pixel is its own rounding.
pub proof fn lemma_round_whole_fixed(v: i64)
    requires
        is_whole_pixel(v as int),
    ensures
        round_units(v as int) == v,
{
}

/// Rounding a whole pixel leaves it unchanged, so rounding twice is rounding once.
pub proof fn lemma_round_idempotent(v: i64)
    ensures
        round_units(round_units(v as int)) == round_units(v as int),
{
}

} // verus!
