//! Index arithmetic on row-major grids, and a lower-bound clamp.

use vstd::prelude::*;
use vstd::std_specs::cmp::PartialOrdSpec;
use core::cmp::Ordering;

verus! {

/// The flat row-major index of the cell at column `x`, row `y`.
pub open spec fn index_of(x: int, y: int, width: int) -> int {
    width * y + x
}

/// Flattens the coordinate `(x, y)` of a grid `width` cells wide.
pub fn to_coordinate_1d(x: i32, y: i32, width: u32) -> (r: i32)
    requires
        width <= i32::MAX,
        i32::MIN <= width * y <= i32::MAX,
        i32::MIN <= index_of(x as int, y as int, width as int) <= i32::MAX,
    ensures
        r == index_of(x as int, y as int, width as int),
{
    (width as i32) * y + x
}

/// Integer division rounding toward zero, as Rust's `/` does, for `d > 0`.
pub open spec fn div_toward_zero(n: int, d: int) -> int {
    if n >= 0 {
        n / d
    } else {
        -((-n) / d)
    }
}

/// The remainder that goes with [`div_toward_zero`]: it takes the sign of `n`.
pub open spec fn rem_toward_zero(n: int, d: int) -> int {
    n - d * div_toward_zero(n, d)
}

/// Splits the flat index `i` of a grid `width` cells wide into `(x, y)`,
/// with Rust's truncating `%` and `/`.
pub fn to_coordinate_2d(i: i32, width: u32) -> (r: (i32, i32))
    requires
        0 < width <= i32::MAX,
    ensures
        r.0 == rem_toward_zero(i as int, width as int),
        r.1 == div_toward_zero(i as int, width as int),
{
    let w = width as i32;
    let q = i / w;
    let r = i % w;
    proof {
        assert(r == i - w * q) by (nonlinear_arith)
            requires
                w > 0,
                q == div_toward_zero(i as int, w as int),
                r == (if i >= 0 { i as int % w as int } else { -((-i) as int % w as int) }),
        ;
    }
    (r, q)
}

/// Raises `input` to `min` when it lies below it. A value above `max` is
/// returned as it is: only the lower bound is enforced, and `max` merely
/// exempts larger values from that test.
pub fn clamp<T: PartialOrd<T>>(input: T, min: T, max: T) -> (r: T)
    ensures
        T::obeys_partial_cmp_spec() ==> r == (if input.partial_cmp_spec(&max) != Some(
            Ordering::Greater,
        ) && input.partial_cmp_spec(&min) == Some(Ordering::Less) {
            min
        } else {
            input
        }),
{
    if input > max {
        input
    } else if input < min {
        min
    } else {
        input
    }
}

} // verus!
