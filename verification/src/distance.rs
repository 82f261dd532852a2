//! Distance from a coordinate to the origin, rounded down.

use vstd::prelude::*;

use vstd::math::abs;

use crate::scan::Coordinates;

verus! {

/// The square of an integer.
pub open spec fn square(n: int) -> int {
    n * n
}

/// `r` is the integer square root of `n`, rounded down.
pub open spec fn is_floor_sqrt(n: int, r: int) -> bool {
    &&& 0 <= r
    &&& square(r) <= n
    &&& n < square(r + 1)
}

/// The integer square root of `n`, rounded down. Meaningful for `n >= 0`,
/// where exactly one integer satisfies `is_floor_sqrt`.
pub open spec fn floor_sqrt(n: int) -> int {
    choose|r: int| is_floor_sqrt(n, r)
}

/// The distance from a coordinate to the origin: the square root of
/// `x^2 + y^2`, rounded down.
pub open spec fn spec_to_origin(point: Coordinates) -> int {
    floor_sqrt(square(point.x as int) + square(point.y as int))
}

/// For every `n >= 0` some integer is the rounded-down square root of `n`,
/// so `floor_sqrt(n)` satisfies `is_floor_sqrt`.
pub proof fn lemma_floor_sqrt_exists(n: int)
    requires
        n >= 0,
    ensures
        is_floor_sqrt(n, floor_sqrt(n)),
    decreases n,
{
    if n == 0 {
        assert(is_floor_sqrt(0, 0));
    } else {
        lemma_floor_sqrt_exists(n - 1);
        let r = floor_sqrt(n - 1);
        if n < square(r + 1) {
            assert(is_floor_sqrt(n, r));
        } else {
            assert(n == square(r + 1));
            assert(square(r + 1) < square(r + 2)) by (nonlinear_arith)
                requires
                    r >= 0,
            ;
            assert(is_floor_sqrt(n, r + 1));
        }
    }
}

/// At most one integer is the rounded-down square root of `n`.
pub proof fn lemma_floor_sqrt_unique(n: int, r1: int, r2: int)
    requires
        is_floor_sqrt(n, r1),
        is_floor_sqrt(n, r2),
    ensures
        r1 == r2,
{
    assert forall|a: int, b: int|
        0 <= a && 0 <= b && is_floor_sqrt(n, a) && is_floor_sqrt(n, b) implies a >= b by {
        if a < b {
            assert(square(a + 1) <= square(b)) by (nonlinear_arith)
                requires
                    0 <= a,
                    a + 1 <= b,
            ;
        }
    }
}

/// The distance to the origin is unchanged by negating or by taking the
/// absolute value of either coordinate, and the origin itself is at
/// distance zero.
pub proof fn lemma_distance_symmetry(x: int, y: int)
    ensures
        floor_sqrt(square(-x) + square(-y)) == floor_sqrt(square(x) + square(y)),
        floor_sqrt(square(abs(x) as int) + square(abs(y) as int)) == floor_sqrt(
            square(x) + square(y),
        ),
        floor_sqrt(square(0) + square(0)) == 0,
{
    assert(square(-x) == square(x)) by (nonlinear_arith);
    assert(square(-y) == square(y)) by (nonlinear_arith);
    assert(square(abs(x) as int) == square(x)) by (nonlinear_arith)
        requires
            abs(x) as int == x || abs(x) as int == -x,
    ;
    assert(square(abs(y) as int) == square(y)) by (nonlinear_arith)
        requires
            abs(y) as int == y || abs(y) as int == -y,
    ;
    lemma_floor_sqrt_exists(0);
    lemma_floor_sqrt_unique(0, floor_sqrt(0), 0);
}

/// The integer square root, rounded down, of a number no greater than `2^63`.
fn isqrt64(n: u64) -> (r: u32)
    requires
        n <= 0x8000_0000_0000_0000u64,
    ensures
        is_floor_sqrt(n as int, r as int),
{
    let mut lo: u64 = 0;
    let mut hi: u64 = 3037000500;
    proof {
        assert(square(3037000500) == 9223372037000250000);
    }
    while lo + 1 < hi
        invariant
            lo < hi,
            hi <= 3037000500,
            n <= 0x8000_0000_0000_0000u64,
            square(lo as int) <= n as int,
            (n as int) < square(hi as int),
        decreases hi - lo,
    {
        let mid: u64 = lo + (hi - lo) / 2;
        assert(lo < mid && mid < hi);
        assert((mid as int) * (mid as int) < 0xFFFF_FFFF_FFFF_FFFF) by (nonlinear_arith)
            requires
                mid < 3037000500,
        ;
        if mid * mid <= n {
            lo = mid;
        } else {
            hi = mid;
        }
    }
    assert(hi == lo + 1);
    assert(lo < 0x1_0000_0000u64);
    lo as u32
}

/// Calculate the distance from a given coordinate to the origin.
pub fn to_origin(point: &Coordinates) -> (r: u32)
    ensures
        r as int == spec_to_origin(*point),
        is_floor_sqrt(square(point.x as int) + square(point.y as int), r as int),
{
    let x: i64 = point.x as i64;
    let y: i64 = point.y as i64;
    proof {
        assert(0 <= (x as int) * (x as int) <= 0x4000_0000_0000_0000) by (nonlinear_arith)
            requires
                -0x8000_0000 <= x as int <= 0x7FFF_FFFF,
        ;
        assert(0 <= (y as int) * (y as int) <= 0x4000_0000_0000_0000) by (nonlinear_arith)
            requires
                -0x8000_0000 <= y as int <= 0x7FFF_FFFF,
        ;
    }
    let xx: u64 = (x * x) as u64;
    let yy: u64 = (y * y) as u64;
    let n: u64 = xx + yy;
    let r = isqrt64(n);
    proof {
        assert(n as int == square(point.x as int) + square(point.y as int));
        lemma_floor_sqrt_exists(n as int);
        lemma_floor_sqrt_unique(n as int, floor_sqrt(n as int), r as int);
    }
    r
}

} // verus!

