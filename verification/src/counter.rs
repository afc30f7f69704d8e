//! Counters that wrap around, as an atomic fetch-and-add does.

use vstd::prelude::*;

verus! {

/// The value after `x`; the largest value is followed by zero.
pub open spec fn succ(x: usize) -> usize {
    if x == usize::MAX {
        0
    } else {
        (x + 1) as usize
    }
}

/// The sum of two counts, modulo the number of `usize` values.
pub open spec fn wrapping_sum(x: usize, y: usize) -> usize {
    if x + y > usize::MAX {
        (x + y - usize::MAX - 1) as usize
    } else {
        (x + y) as usize
    }
}

/// The larger of two values.
pub open spec fn max(x: usize, y: usize) -> usize {
    if x < y {
        y
    } else {
        x
    }
}

/// The smaller of two values.
pub open spec fn min(x: usize, y: usize) -> usize {
    if y < x {
        y
    } else {
        x
    }
}

/// The value after `x`; the largest value is followed by zero.
pub fn bump(x: usize) -> (r: usize)
    ensures
        r == succ(x),
{
    x.wrapping_add(1)
}

/// The sum of two counts, modulo the number of `usize` values.
pub fn accumulate(x: usize, y: usize) -> (r: usize)
    ensures
        r == wrapping_sum(x, y),
{
    x.wrapping_add(y)
}

} // verus!
