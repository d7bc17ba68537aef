//! Distances between cities given by integer coordinates.

use vstd::prelude::*;

verus! {

/// The squared Euclidean distance between two points.
pub open spec fn squared_distance(a: (i32, i32), b: (i32, i32)) -> int {
    let dx = a.0 - b.0;
    let dy = a.1 - b.1;
    dx * dx + dy * dy
}

/// `r` is the square root of `d` rounded to the nearest integer, that is
/// `r - 1/2 <= sqrt(d) < r + 1/2` (a tie cannot occur for an integer `d`).
pub open spec fn is_rounded_sqrt(d: int, r: int) -> bool {
    &&& r >= 0
    &&& r == 0 || (2 * r - 1) * (2 * r - 1) <= 4 * d
    &&& 4 * d < (2 * r + 1) * (2 * r + 1)
}

/// `r` is not above the rounded square root of `d`.
spec fn reaches(d: int, r: int) -> bool {
    r == 0 || (2 * r - 1) * (2 * r - 1) <= 4 * d
}

/// The TSPLIB `EUC_2D` distance: the Euclidean distance between the points,
/// rounded to the nearest integer.
pub fn euc_2d(i: (i32, i32), j: (i32, i32)) -> (r: u32)
    requires
        squared_distance(i, j) <= i32::MAX,
    ensures
        is_rounded_sqrt(squared_distance(i, j), r as int),
{
    let dx: i64 = i.0 as i64 - j.0 as i64;
    let dy: i64 = i.1 as i64 - j.1 as i64;
    proof {
        assert(dx * dx >= 0 && dy * dy >= 0) by (nonlinear_arith);
    }
    let d: u64 = (dx * dx + dy * dy) as u64;
    let four_d: u64 = 4 * d;
    // the answer lies in [lo, hi): `lo` reaches the rounded root, `hi` does not
    let mut lo: u64 = 0;
    let mut hi: u64 = 46342;
    proof {
        assert(d == squared_distance(i, j));
        assert(92683int * 92683int == 8590138489int) by (nonlinear_arith);
    }
    while hi - lo > 1
        invariant
            four_d == 4 * d,
            d <= i32::MAX,
            lo < hi <= 46342,
            reaches(d as int, lo as int),
            !reaches(d as int, hi as int),
        decreases hi - lo,
    {
        let mid: u64 = lo + (hi - lo) / 2;
        let odd: u64 = 2 * mid - 1;
        proof {
            assert(odd * odd <= 92683 * 92683) by (nonlinear_arith)
                requires
                    odd <= 92683,
            ;
        }
        if odd * odd <= four_d {
            lo = mid;
        } else {
            hi = mid;
        }
    }
    proof {
        assert(hi == lo + 1);
        assert(2 * hi - 1 == 2 * lo + 1);
    }
    lo as u32
}

/// The rounded square root of a number is unique.
pub proof fn lemma_rounded_sqrt_unique(d: int, r1: int, r2: int)
    requires
        is_rounded_sqrt(d, r1),
        is_rounded_sqrt(d, r2),
    ensures
        r1 == r2,
{
    if r1 < r2 {
        assert((2 * r2 - 1) * (2 * r2 - 1) >= (2 * r1 + 1) * (2 * r1 + 1)) by (nonlinear_arith)
            requires
                2 * r2 - 1 >= 2 * r1 + 1 >= 1,
        ;
    } else if r2 < r1 {
        assert((2 * r1 - 1) * (2 * r1 - 1) >= (2 * r2 + 1) * (2 * r2 + 1)) by (nonlinear_arith)
            requires
                2 * r1 - 1 >= 2 * r2 + 1 >= 1,
        ;
    }
}

/// The distance from `a` to `b` is the distance from `b` to `a`.
pub proof fn lemma_squared_distance_symmetric(a: (i32, i32), b: (i32, i32))
    ensures
        squared_distance(a, b) == squared_distance(b, a),
{
    let (dx, dy) = (a.0 - b.0, a.1 - b.1);
    assert(dx * dx == (-dx) * (-dx) && dy * dy == (-dy) * (-dy)) by (nonlinear_arith);
}

} // verus!
