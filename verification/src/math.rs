//! Integer square root and squared-distance arithmetic.

use vstd::prelude::*;

verus! {

/// Absolute value of a mathematical integer.
pub open spec fn abs_val(v: int) -> int {
    if v < 0 {
        -v
    } else {
        v
    }
}

/// Whether `r` is the floor of the square root of `n`.
pub open spec fn is_sqrt_floor(n: nat, r: nat) -> bool {
    r * r <= n < (r + 1) * (r + 1)
}

/// The floor of the square root of `n`.  Well defined: a root exists for
/// every `n` and is unique (see the lemmas below).
pub open spec fn sqrt_floor(n: nat) -> nat {
    choose|r: nat| #[trigger] is_sqrt_floor(n, r)
}

/// Every natural number has an integer square root floor.
pub proof fn lemma_sqrt_exists(n: nat)
    ensures
        exists|r: nat| #[trigger] is_sqrt_floor(n, r),
    decreases n,
{
    if n == 0 {
        assert(is_sqrt_floor(0, 0)) by (nonlinear_arith);
    } else {
        lemma_sqrt_exists((n - 1) as nat);
        let r = choose|r: nat| #[trigger] is_sqrt_floor((n - 1) as nat, r);
        if (r + 1) * (r + 1) <= n {
            assert(is_sqrt_floor(n, r + 1)) by (nonlinear_arith)
            requires
                is_sqrt_floor((n - 1) as nat, r),
                (r + 1) * (r + 1) <= n,
            ;
        } else {
            assert(is_sqrt_floor(n, r));
        }
    }
}

/// The square root floor is unique.
pub proof fn lemma_sqrt_unique(n: nat, r1: nat, r2: nat)
    requires
        is_sqrt_floor(n, r1),
        is_sqrt_floor(n, r2),
    ensures
        r1 == r2,
{
    assert(r1 == r2) by (nonlinear_arith)
    requires
        r1 * r1 <= n < (r1 + 1) * (r1 + 1),
        r2 * r2 <= n < (r2 + 1) * (r2 + 1),
    ;
}

/// `sqrt_floor` satisfies its defining inequalities.
pub proof fn lemma_sqrt_floor_bounds(n: nat)
    ensures
        is_sqrt_floor(n, sqrt_floor(n)),
{
    lemma_sqrt_exists(n);
}

/// Computes the floor of the square root of `n` by binary search.
pub fn isqrt(n: u64) -> (r: u64)
    requires
        n < 0x4000000000000000,
    ensures
        r == sqrt_floor(n as nat),
        r * r <= n < (r + 1) * (r + 1),
{
    let mut lo: u64 = 0;
    let mut hi: u64 = 0x80000000;
    proof {
        assert((0x80000000 + 1) * (0x80000000 + 1) > 0x4000000000000000int) by (nonlinear_arith);
    }
    while lo < hi
        invariant
            lo <= hi <= 0x80000000u64,
            lo * lo <= n,
            n < (hi + 1) * (hi + 1),
        decreases hi - lo,
    {
        let mid = (lo + hi + 1) / 2;
        proof {
            assert(lo < mid <= hi);
            assert(mid * mid <= 0x80000000 * 0x80000000int) by (nonlinear_arith)
            requires
                0 <= mid <= 0x80000000u64,
            ;
        }
        if mid * mid <= n {
            lo = mid;
        } else {
            hi = mid - 1;
        }
    }
    proof {
        lemma_sqrt_exists(n as nat);
        lemma_sqrt_unique(n as nat, lo as nat, sqrt_floor(n as nat));
    }
    lo
}

/// Squared Euclidean distance between two points; only the relative ordering
/// of distances matters to targeting, so no root is taken.
pub open spec fn sq_dist(x1: int, y1: int, x2: int, y2: int) -> int {
    (x2 - x1) * (x2 - x1) + (y2 - y1) * (y2 - y1)
}

/// For coordinates within the fixed-point range, the squared distance stays
/// below `2^61`.
pub proof fn lemma_sq_dist_bounds(x1: int, y1: int, x2: int, y2: int)
    requires
        -crate::combatant::COORD_LIMIT <= x1 <= crate::combatant::COORD_LIMIT,
        -crate::combatant::COORD_LIMIT <= y1 <= crate::combatant::COORD_LIMIT,
        -crate::combatant::COORD_LIMIT <= x2 <= crate::combatant::COORD_LIMIT,
        -crate::combatant::COORD_LIMIT <= y2 <= crate::combatant::COORD_LIMIT,
    ensures
        0 <= sq_dist(x1, y1, x2, y2) <= 0x2000000000000000,
{
    let dx = x2 - x1;
    let dy = y2 - y1;
    assert(0 <= dx * dx <= 0x1000000000000000) by (nonlinear_arith)
    requires
        -0x40000000 <= dx <= 0x40000000,
    ;
    assert(0 <= dy * dy <= 0x1000000000000000) by (nonlinear_arith)
    requires
        -0x40000000 <= dy <= 0x40000000,
    ;
}

/// Computes the squared distance between two points in the fixed-point range.
pub fn sq_dist_exec(x1: i64, y1: i64, x2: i64, y2: i64) -> (d: u64)
    requires
        -crate::combatant::COORD_LIMIT <= x1 <= crate::combatant::COORD_LIMIT,
        -crate::combatant::COORD_LIMIT <= y1 <= crate::combatant::COORD_LIMIT,
        -crate::combatant::COORD_LIMIT <= x2 <= crate::combatant::COORD_LIMIT,
        -crate::combatant::COORD_LIMIT <= y2 <= crate::combatant::COORD_LIMIT,
    ensures
        d == sq_dist(x1 as int, y1 as int, x2 as int, y2 as int),
        d < 0x4000000000000000,
{
    proof {
        lemma_sq_dist_bounds(x1 as int, y1 as int, x2 as int, y2 as int);
    }
    let dx = x2 - x1;
    let dy = y2 - y1;
    proof {
        assert(0 <= dx * dx <= 0x1000000000000000 && 0 <= dy * dy <= 0x1000000000000000)
            by (nonlinear_arith)
        requires
            -0x40000000 <= dx <= 0x40000000,
            -0x40000000 <= dy <= 0x40000000,
        ;
    }
    (dx * dx + dy * dy) as u64
}

} // verus!
