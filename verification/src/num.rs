//! Fixed-point scalar helpers: saturation, clamping and an integer
//! square root, each with an exact contract over `int`.

use vstd::prelude::*;

verus! {

/// Largest admissible coordinate of a position (milli-units), the edge
/// of the simulated world. Position updates saturate here.
pub const MAX_COORD: i64 = 1_000_000_000;

/// Largest admissible velocity component (milli-units per step).
pub const MAX_VEL: i64 = 1_000_000_000;

/// Largest admissible mass (milli-units).
pub const MAX_MASS: i64 = 1_000_000_000;

/// Largest admissible gravitational constant (milli-units).
pub const MAX_G: i64 = 10_000;

/// Largest admissible squared softening term (milli-units squared).
pub const MAX_EPS2: i64 = 1_000_000_000_000;

/// Largest admissible accuracy parameter theta (milli-units).
pub const MAX_THETA: i64 = 10_000_000;

/// Largest number of bodies a field accepts in one evaluation.
pub const MAX_BODIES: usize = 1_000_000;

/// Deepest subdivision the quadtree may reach.
pub const MAX_DEPTH: u32 = 64;

/// Symmetric saturation limit for force components.
pub const FORCE_LIM: i64 = 0x7fff_ffff_ffff_ffff;

/// Absolute value over `int`.
pub open spec fn iabs(v: int) -> int {
    if v < 0 {
        -v
    } else {
        v
    }
}

/// Clamp `v` into the closed interval `[-bound, bound]`.
pub open spec fn sym_clamp(v: int, bound: int) -> int {
    if v > bound {
        bound
    } else if v < -bound {
        -bound
    } else {
        v
    }
}

/// Addition of force components, saturating symmetrically at `FORCE_LIM`.
pub open spec fn sat_add(a: int, b: int) -> int {
    sym_clamp(a + b, FORCE_LIM as int)
}

/// The floor of the nonnegative square root, defined by counting up.
pub open spec fn sqrt_floor(n: int) -> int
    decreases n,
{
    if n <= 0 {
        0
    } else {
        let r = sqrt_floor(n - 1);
        if (r + 1) * (r + 1) <= n {
            r + 1
        } else {
            r
        }
    }
}

/// `sqrt_floor` is characterised by bracketing `n` between consecutive squares.
pub proof fn lemma_sqrt_floor(n: int)
    requires
        n >= 0,
    ensures
        sqrt_floor(n) >= 0,
        sqrt_floor(n) * sqrt_floor(n) <= n,
        n < (sqrt_floor(n) + 1) * (sqrt_floor(n) + 1),
    decreases n,
{
    if n > 0 {
        lemma_sqrt_floor(n - 1);
        let r = sqrt_floor(n - 1);
        if (r + 1) * (r + 1) <= n {
            assert(n < (r + 2) * (r + 2)) by (nonlinear_arith)
                requires
                    r >= 0,
                    n - 1 < (r + 1) * (r + 1),
            ;
        }
    }
}

/// Any value bracketed between consecutive squares is the floor square root.
pub proof fn lemma_sqrt_floor_unique(n: int, r: int)
    requires
        n >= 0,
        r >= 0,
        r * r <= n,
        n < (r + 1) * (r + 1),
    ensures
        r == sqrt_floor(n),
{
    lemma_sqrt_floor(n);
    let s = sqrt_floor(n);
    assert(r == s) by (nonlinear_arith)
        requires
            r >= 0,
            s >= 0,
            r * r <= n,
            n < (r + 1) * (r + 1),
            s * s <= n,
            n < (s + 1) * (s + 1),
    ;
}

/// Floor square root of a value no larger than `u64::MAX`.
pub fn isqrt(n: u128) -> (r: u64)
    requires
        n <= 0xffff_ffff_ffff_ffff,
    ensures
        r == sqrt_floor(n as int),
{
    if n == 0 {
        proof {
            lemma_sqrt_floor_unique(n as int, 0);
        }
        return 0;
    }
    let mut lo: u128 = 0;
    let mut hi: u128 = 0x1_0000_0000;
    proof {
        assert(hi * hi == 0x1_0000_0000_0000_0000) by (nonlinear_arith)
            requires
                hi == 0x1_0000_0000,
        ;
    }
    while lo + 1 < hi
        invariant
            0 <= lo < hi <= 0x1_0000_0000,
            lo * lo <= n,
            n < hi * hi,
        decreases hi - lo,
    {
        let mid = (lo + hi) / 2;
        assert(lo < mid < hi);
        proof {
            assert(mid * mid <= 0x1_0000_0000_0000_0000) by (nonlinear_arith)
                requires
                    0 <= mid <= 0x1_0000_0000,
            ;
        }
        if mid * mid <= n {
            lo = mid;
        } else {
            hi = mid;
        }
    }
    proof {
        assert(hi == lo + 1);
        lemma_sqrt_floor_unique(n as int, lo as int);
    }
    lo as u64
}

/// Saturating addition of two force components.
pub fn force_add(a: i64, b: i64) -> (r: i64)
    ensures
        r == sat_add(a as int, b as int),
{
    let s: i128 = (a as i128) + (b as i128);
    if s > (FORCE_LIM as i128) {
        FORCE_LIM
    } else if s < -(FORCE_LIM as i128) {
        -FORCE_LIM
    } else {
        s as i64
    }
}

/// Clamp a wide intermediate into `[-bound, bound]`.
pub fn narrow_clamp(v: i128, bound: i64) -> (r: i64)
    requires
        bound >= 0,
    ensures
        r == sym_clamp(v as int, bound as int),
{
    if v > (bound as i128) {
        bound
    } else if v < -(bound as i128) {
        -bound
    } else {
        v as i64
    }
}

} // verus!
