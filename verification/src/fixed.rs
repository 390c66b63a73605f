use vstd::prelude::*;

verus! {

/// One world unit is `SCALE` fixed-point steps. The hit-test epsilon is a
/// single step, i.e. 1/SCALE of a world unit.
pub const SCALE: i64 = 10000;

/// Magnitude bound on well-formed fixed-point coordinates. It keeps every
/// intermediate value of the intersection math inside `i128`.
pub const BOUND: i64 = 536870912;

/// Largest argument `isqrt` accepts (the square of its initial bracket).
pub const SQRT_DOMAIN: i128 = 0x40000000000000000000000000000000;

/// The integer square root: the largest `r` with `r * r <= n`.
pub open spec fn sqrt_floor(n: int) -> int {
    choose|r: int| 0 <= r && #[trigger] (r * r) <= n && n < (r + 1) * (r + 1)
}

pub proof fn lemma_mul_bound(a: int, b: int, m: int, n: int)
    by (nonlinear_arith)
    requires
        0 <= m,
        0 <= n,
        -m <= a <= m,
        -n <= b <= n,
    ensures
        -(m * n) <= a * b <= m * n,
{
}

pub proof fn lemma_square_monotone(a: int, b: int)
    by (nonlinear_arith)
    requires
        0 <= a <= b,
    ensures
        a * a <= b * b,
{
}

/// `sqrt_floor` is pinned down by any witness of its defining property.
pub proof fn lemma_sqrt_floor_is(n: int, r: int)
    requires
        0 <= r,
        r * r <= n,
        n < (r + 1) * (r + 1),
    ensures
        sqrt_floor(n) == r,
{
    assert(0 <= r && r * r <= n && n < (r + 1) * (r + 1));
    let s = sqrt_floor(n);
    assert(0 <= s && s * s <= n && n < (s + 1) * (s + 1)) by {
        assert(exists|q: int| 0 <= q && #[trigger] (q * q) <= n && n < (q + 1) * (q + 1));
    }
    if s < r {
        lemma_square_monotone(s + 1, r);
        assert(false);
    }
    if r < s {
        lemma_square_monotone(r + 1, s);
        assert(false);
    }
}

/// Every nonnegative integer has an integer square root, so `sqrt_floor`
/// satisfies its defining property.
pub proof fn lemma_sqrt_floor_props(n: int)
    requires
        0 <= n,
    ensures
        0 <= sqrt_floor(n),
        sqrt_floor(n) * sqrt_floor(n) <= n,
        n < (sqrt_floor(n) + 1) * (sqrt_floor(n) + 1),
    decreases n,
{
    if n == 0 {
        lemma_sqrt_floor_is(0, 0);
    } else {
        lemma_sqrt_floor_props(n - 1);
        let s = sqrt_floor(n - 1);
        if (s + 1) * (s + 1) <= n {
            assert(n < (s + 2) * (s + 2)) by (nonlinear_arith)
                requires
                    0 <= s,
                    n - 1 < (s + 1) * (s + 1),
            ;
            lemma_sqrt_floor_is(n, s + 1);
        } else {
            lemma_sqrt_floor_is(n, s);
        }
    }
}

/// Binary search for the integer square root.
pub fn isqrt(n: i128) -> (r: i128)
    requires
        0 <= n < SQRT_DOMAIN,
    ensures
        0 <= r,
        r * r <= n < (r + 1) * (r + 1),
        r == sqrt_floor(n as int),
{
    let mut lo: i128 = 0;
    let mut hi: i128 = 0x8000000000000000;
    assert(hi * hi == SQRT_DOMAIN);
    while hi - lo > 1
        invariant
            0 <= lo < hi <= 0x8000000000000000,
            lo * lo <= n,
            n < hi * hi,
        decreases hi - lo,
    {
        let mid = lo + (hi - lo) / 2;
        assert(lo < mid < hi);
        assert(mid * mid < SQRT_DOMAIN) by {
            lemma_square_monotone(mid as int, 0x7fffffffffffffff);
            assert(0x7fffffffffffffffint * 0x7fffffffffffffffint < SQRT_DOMAIN);
        }
        if mid * mid <= n {
            lo = mid;
        } else {
            hi = mid;
        }
    }
    proof {
        assert(hi == lo + 1);
        lemma_sqrt_floor_is(n as int, lo as int);
    }
    lo
}

/// Division rounding toward negative infinity, for a positive divisor; it
/// agrees with the mathematical `/` of specifications.
pub fn floor_div(n: i128, d: i128) -> (q: i128)
    requires
        0 < d < SQRT_DOMAIN,
        -SQRT_DOMAIN < n < SQRT_DOMAIN,
    ensures
        q == n as int / d as int,
{
    if n >= 0 {
        n / d
    } else {
        let m = -n;
        let q0 = m / d;
        let r0 = m % d;
        proof {
            vstd::arithmetic::div_mod::lemma_fundamental_div_mod(m as int, d as int);
            vstd::arithmetic::div_mod::lemma_mod_bound(m as int, d as int);
            vstd::arithmetic::div_mod::lemma_div_pos_is_pos(m as int, d as int);
        }
        if r0 == 0 {
            proof {
                assert((-(q0 as int)) * d == -(d as int * (q0 as int))) by (nonlinear_arith);
                vstd::arithmetic::div_mod::lemma_fundamental_div_mod_converse(
                    n as int,
                    d as int,
                    -(q0 as int),
                    0,
                );
            }
            -q0
        } else {
            proof {
                assert((-(q0 as int) - 1) * d == -(d as int * (q0 as int)) - d) by (
                nonlinear_arith);
                vstd::arithmetic::div_mod::lemma_fundamental_div_mod_converse(
                    n as int,
                    d as int,
                    -(q0 as int) - 1,
                    d - r0,
                );
            }
            -q0 - 1
        }
    }
}

} // verus!
