//! Plane geometry on integer world units: points, clamping, floor
//! division and integer square roots, the arithmetic base of the
//! layout engine and of the viewport transforms.

use vstd::prelude::*;

verus! {

/// Every node position and pin position stays within this bound on
/// each axis, so force arithmetic cannot overflow.
pub const POS_LIMIT: i64 = 1_000_000;

/// Camera offsets stay within this bound on each axis: far enough to
/// scroll any graph off-screen many times over, small enough that the
/// world-to-screen product fits in an `i64`.
pub const CAM_LIMIT: i64 = 0x2000_0000_0000;

/// Screen dimensions (pixels) are bounded by this.
pub const SCREEN_DIM_LIMIT: i64 = 1_048_576;

/// Zoom scales are bounded by this.
pub const ZOOM_LIMIT: i64 = 65_536;

/// Squared distances between in-range positions stay below this.
pub const DIST_SQ_LIMIT: u64 = 8_000_000_000_000;

/// Integer square roots of in-range squared distances stay below this.
pub const DIST_LIMIT: u64 = 3_000_000;

/// A point or displacement in the plane, in integer units.
#[derive(Clone, Copy, PartialEq, Eq, Structural, Debug)]
pub struct V2 {
    pub x: i64,
    pub y: i64,
}

/// Whether a world position lies in the bounded region that the
/// layout engine keeps every node inside.
pub open spec fn in_world(p: V2) -> bool {
    -POS_LIMIT <= p.x <= POS_LIMIT && -POS_LIMIT <= p.y <= POS_LIMIT
}

/// `v` forced into `[lo, hi]`.
pub open spec fn clamp_spec(v: int, lo: int, hi: int) -> int {
    if v < lo {
        lo
    } else if v > hi {
        hi
    } else {
        v
    }
}

/// `v` forced into `[lo, hi]`.
pub fn clamp_i64(v: i64, lo: i64, hi: i64) -> (r: i64)
    requires
        lo <= hi,
    ensures
        r == clamp_spec(v as int, lo as int, hi as int),
{
    if v < lo {
        lo
    } else if v > hi {
        hi
    } else {
        v
    }
}

/// Both coordinates forced into the world region.
pub fn clamp_world(p: V2) -> (r: V2)
    ensures
        r.x == clamp_spec(p.x as int, -POS_LIMIT as int, POS_LIMIT as int),
        r.y == clamp_spec(p.y as int, -POS_LIMIT as int, POS_LIMIT as int),
        in_world(r),
{
    V2 { x: clamp_i64(p.x, -POS_LIMIT, POS_LIMIT), y: clamp_i64(p.y, -POS_LIMIT, POS_LIMIT) }
}

/// `|v|` as a mathematical integer.
pub open spec fn abs_spec(v: int) -> int {
    if v < 0 {
        -v
    } else {
        v
    }
}

/// `|v|`, defined on every value that has a negation in `i64`.
pub fn abs_i64(v: i64) -> (r: i64)
    requires
        v > i64::MIN,
    ensures
        r == abs_spec(v as int),
{
    if v < 0 {
        -v
    } else {
        v
    }
}

/// Floor division by a positive divisor; for such divisors it agrees
/// with the Euclidean `/` of specifications.
pub fn div_floor(a: i64, b: i64) -> (r: i64)
    requires
        b > 0,
        a > i64::MIN,
    ensures
        r == a as int / b as int,
{
    if a >= 0 {
        let q: u64 = (a as u64) / (b as u64);
        proof {
            vstd::arithmetic::div_mod::lemma_div_nonincreasing(a as int, b as int);
            vstd::arithmetic::div_mod::lemma_div_pos_is_pos(a as int, b as int);
        }
        q as i64
    } else {
        let n: u64 = (-a) as u64;
        let q: u64 = n / (b as u64);
        let m: u64 = n % (b as u64);
        proof {
            vstd::arithmetic::div_mod::lemma_fundamental_div_mod(n as int, b as int);
            vstd::arithmetic::div_mod::lemma_div_nonincreasing(n as int, b as int);
            vstd::arithmetic::div_mod::lemma_div_pos_is_pos(n as int, b as int);
        }
        if m == 0 {
            let r: i64 = -(q as i64);
            proof {
                assert(a as int == (-(q as int)) * (b as int) + 0) by (nonlinear_arith)
                    requires
                        n as int == (b as int) * (q as int) + (m as int),
                        m as int == 0,
                        a as int == -(n as int),
                ;
                vstd::arithmetic::div_mod::lemma_fundamental_div_mod_converse(
                    a as int,
                    b as int,
                    -(q as int),
                    0,
                );
            }
            r
        } else {
            let r: i64 = -(q as i64) - 1;
            proof {
                assert(a as int == (-(q as int) - 1) * (b as int) + ((b as int) - (m as int)))
                    by (nonlinear_arith)
                    requires
                        n as int == (b as int) * (q as int) + (m as int),
                        a as int == -(n as int),
                ;
                vstd::arithmetic::div_mod::lemma_fundamental_div_mod_converse(
                    a as int,
                    b as int,
                    -(q as int) - 1,
                    (b as int) - (m as int),
                );
            }
            r
        }
    }
}

/// A quotient's magnitude never exceeds the numerator's, nor any
/// bound on it, when the divisor is positive.
pub proof fn lemma_div_abs_bounded(a: int, b: int, bound: int)
    requires
        abs_spec(a) <= bound,
        1 <= b,
    ensures
        abs_spec(a / b) <= bound,
{
    vstd::arithmetic::div_mod::lemma_div_is_ordered(-bound, a, b);
    vstd::arithmetic::div_mod::lemma_div_is_ordered(a, bound, b);
    vstd::arithmetic::div_mod::lemma_div_nonincreasing(bound, b);
    vstd::arithmetic::div_mod::lemma_div_pos_is_pos(bound, b);
    lemma_div_neg_bounded(bound, b);
}

/// `(-n) / b >= -n` for nonnegative `n` and positive `b`.
pub proof fn lemma_div_neg_bounded(n: int, b: int)
    requires
        0 <= n,
        1 <= b,
    ensures
        (-n) / b >= -n,
{
    if n == 0 {
        vstd::arithmetic::div_mod::lemma_div_pos_is_pos(0, b);
        vstd::arithmetic::div_mod::lemma_div_nonincreasing(0, b);
    } else {
        vstd::arithmetic::div_mod::lemma_fundamental_div_mod(-n, b);
        let q = (-n) / b;
        let r = (-n) % b;
        assert(b * q == -n - r);
        assert(r <= b - 1);
        assert(b - 1 <= n * (b - 1)) by (nonlinear_arith)
            requires
                1 <= n,
                1 <= b,
        ;
        assert(b * q >= -(n * b)) by {
            assert(n * (b - 1) == n * b - n) by (nonlinear_arith);
        }
        assert(q >= -n) by (nonlinear_arith)
            requires
                b * q >= -(n * b),
                b >= 1,
        ;
    }
}

/// A product's magnitude is bounded by the product of the factors'
/// bounds.
pub proof fn lemma_mul_abs_bounded(a: int, b: int, ab: int, bb: int)
    requires
        abs_spec(a) <= ab,
        abs_spec(b) <= bb,
    ensures
        abs_spec(a * b) <= ab * bb,
{
    assert(abs_spec(a * b) <= ab * bb) by (nonlinear_arith)
        requires
            abs_spec(a) <= ab,
            abs_spec(b) <= bb,
    ;
}

/// The integer square root, as a value: the largest `r` with
/// `r * r <= n`.
pub open spec fn isqrt_spec(n: int) -> int
    decreases n,
{
    if n < 1 {
        0
    } else {
        let r = isqrt_spec(n - 1);
        if (r + 1) * (r + 1) <= n {
            r + 1
        } else {
            r
        }
    }
}

/// The defining bounds of the integer square root.
pub proof fn lemma_isqrt_spec_bounds(n: int)
    requires
        n >= 0,
    ensures
        0 <= isqrt_spec(n),
        isqrt_spec(n) * isqrt_spec(n) <= n,
        n < (isqrt_spec(n) + 1) * (isqrt_spec(n) + 1),
    decreases n,
{
    if n == 0 {
        assert(isqrt_spec(0) == 0);
    } else {
        lemma_isqrt_spec_bounds(n - 1);
        let r = isqrt_spec(n - 1);
        if (r + 1) * (r + 1) <= n {
            assert(n - 1 < (r + 1) * (r + 1));
            assert(n == (r + 1) * (r + 1));
            assert(n < (r + 2) * (r + 2)) by (nonlinear_arith)
                requires
                    0 <= r,
                    n == (r + 1) * (r + 1),
            ;
        }
    }
}

/// Any value meeting the integer square root's bounds is it.
pub proof fn lemma_isqrt_unique(n: int, r: int)
    requires
        0 <= r,
        r * r <= n,
        n < (r + 1) * (r + 1),
    ensures
        r == isqrt_spec(n),
{
    lemma_isqrt_spec_bounds(n);
    let s = isqrt_spec(n);
    if r < s {
        assert(false) by (nonlinear_arith)
            requires
                0 <= r < s,
                s * s <= n,
                n < (r + 1) * (r + 1),
        ;
    }
    if s < r {
        assert(false) by (nonlinear_arith)
            requires
                0 <= s < r,
                r * r <= n,
                n < (s + 1) * (s + 1),
        ;
    }
}

/// The integer square root of `n`: the largest `r` with `r * r <= n`.
pub fn isqrt(n: u64) -> (r: u64)
    requires
        n <= DIST_SQ_LIMIT,
    ensures
        r * r <= n,
        (r + 1) * (r + 1) > n,
        r < DIST_LIMIT,
        r == isqrt_spec(n as int),
{
    proof {
        lemma_isqrt_spec_bounds(n as int);
    }
    if n == 0 {
        return 0;
    }
    let mut lo: u64 = 0;
    let mut hi: u64 = DIST_LIMIT;
    proof {
        assert((DIST_LIMIT as int) * (DIST_LIMIT as int) > DIST_SQ_LIMIT as int) by (nonlinear_arith);
    }
    while lo + 1 < hi
        invariant
            lo < hi <= DIST_LIMIT,
            lo * lo <= n,
            n < hi * hi,
        decreases hi - lo,
    {
        let mid: u64 = lo + (hi - lo) / 2;
        proof {
            assert(mid < hi);
            assert(mid * mid < hi * hi) by (nonlinear_arith)
                requires
                    0 <= mid < hi,
            ;
            assert(mid * mid <= DIST_LIMIT * DIST_LIMIT) by (nonlinear_arith)
                requires
                    0 <= mid <= DIST_LIMIT as u64,
            ;
        }
        if mid * mid <= n {
            lo = mid;
        } else {
            hi = mid;
        }
    }
    proof {
        assert(lo + 1 == hi);
        assert((lo + 1) * (lo + 1) == hi * hi);
        lemma_isqrt_unique(n as int, lo as int);
    }
    lo
}

} // verus!
