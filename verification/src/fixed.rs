//! Fixed-point scalar arithmetic.
//!
//! One world unit is `SCALE` milli-units; one second is `MS_PER_SECOND`
//! milliseconds.  All quantities of the simulation are `i64` values in these
//! units, kept inside explicit limits so that every product in the engine
//! provably fits in an `i64`.

use vstd::prelude::*;

verus! {

/// Milli-units per world unit; also the length of a unit direction vector.
pub const SCALE: i64 = 1000;

/// Milliseconds per second.
pub const MS_PER_SECOND: i64 = 1000;

/// Largest coordinate (milli-units) the world holds; positions are clamped
/// into `[-POS_LIMIT, POS_LIMIT]` on every axis.
pub const POS_LIMIT: i64 = 1_000_000_000;

/// Largest speed (milli-units per second) on every axis.
pub const VEL_LIMIT: i64 = 1_000_000;

/// Largest duration (milliseconds) a timer, a cooldown or an age can hold.
pub const TIME_LIMIT: i64 = 1_000_000_000_000;

/// Largest tick length (milliseconds) the engine accepts.
pub const MAX_DT: i64 = 1000;

/// Largest health value (milli-points) a description may give an actor.
pub const HEALTH_LIMIT: i64 = 1_000_000_000;

/// Largest collision radius (milli-units) a description may give an actor.
pub const RADIUS_LIMIT: i64 = 1_000_000;

/// One half turn (pi) in milli-radians.
pub const PI_MR: i64 = 3141;

/// One full turn (two pi) in milli-radians.
pub const TWO_PI_MR: i64 = 6283;

/// One quarter turn (pi over two) in milli-radians.
pub const HALF_PI_MR: i64 = 1571;

/// `v` held into `[lo, hi]`.
pub open spec fn spec_clamp(v: int, lo: int, hi: int) -> int {
    if v < lo {
        lo
    } else if v > hi {
        hi
    } else {
        v
    }
}

/// Clamps `v` into `[lo, hi]`.
pub fn clamp_i64(v: i64, lo: i64, hi: i64) -> (r: i64)
    requires
        lo <= hi,
    ensures
        r == spec_clamp(v as int, lo as int, hi as int),
{
    if v < lo {
        lo
    } else if v > hi {
        hi
    } else {
        v
    }
}

/// Division truncated toward zero, for a positive divisor; agrees with the
/// mathematical quotient on non-negative dividends.
pub open spec fn sdiv(a: int, b: int) -> int
    recommends
        b > 0,
{
    if a >= 0 {
        a / b
    } else {
        -((-a) / b)
    }
}

/// Truncated division of a possibly negative dividend by a positive divisor.
pub fn div_trunc(a: i64, b: i64) -> (r: i64)
    requires
        b > 0,
        a != i64::MIN,
    ensures
        r == sdiv(a as int, b as int),
{
    if a >= 0 {
        let q = (a as u64) / (b as u64);
        q as i64
    } else {
        let m = (-a) as u64;
        let q = m / (b as u64);
        -(q as i64)
    }
}

/// The magnitude of a truncated quotient never exceeds the magnitude of the
/// dividend divided by the (positive) divisor.
pub proof fn lemma_sdiv_bound(a: int, b: int, m: int)
    requires
        b > 0,
        -m <= a <= m,
        0 <= m,
    ensures
        -(m / b) <= sdiv(a, b) <= m / b,
{
    if a >= 0 {
        vstd::arithmetic::div_mod::lemma_div_is_ordered(a, m, b);
        assert(a / b >= 0) by (nonlinear_arith)
            requires
                a >= 0,
                b > 0,
        ;
    } else {
        vstd::arithmetic::div_mod::lemma_div_is_ordered(-a, m, b);
        assert((-a) / b >= 0) by (nonlinear_arith)
            requires
                a < 0,
                b > 0,
        ;
    }
}

/// Bounds a product by the product of the bounds.
pub proof fn lemma_mul_bound(a: int, b: int, ma: int, mb: int)
    requires
        -ma <= a <= ma,
        -mb <= b <= mb,
    ensures
        -(ma * mb) <= a * b <= ma * mb,
{
    assert(-(ma * mb) <= a * b <= ma * mb) by (nonlinear_arith)
        requires
            -ma <= a <= ma,
            -mb <= b <= mb,
    ;
}

/// The integer square root: the largest `r` with `r * r <= n`.
pub open spec fn sqrt_floor(n: nat) -> nat
    decreases n,
{
    if n == 0 {
        0
    } else {
        let p = sqrt_floor((n - 1) as nat);
        if (p + 1) * (p + 1) <= n {
            p + 1
        } else {
            p
        }
    }
}

/// `sqrt_floor(n)` really is the rounded-down square root of `n`.
pub proof fn lemma_sqrt_floor_bounds(n: nat)
    ensures
        (sqrt_floor(n) as int) * (sqrt_floor(n) as int) <= n,
        n < (sqrt_floor(n) as int + 1) * (sqrt_floor(n) as int + 1),
    decreases n,
{
    if n == 0 {
        assert(sqrt_floor(n) == 0);
        assert((sqrt_floor(n) as int) * (sqrt_floor(n) as int) <= n);
    } else {
        lemma_sqrt_floor_bounds((n - 1) as nat);
        let p = sqrt_floor((n - 1) as nat) as int;
        assert(p * p <= n - 1);
        assert((n - 1) < (p + 1) * (p + 1));
        if (p + 1) * (p + 1) <= n {
            assert(sqrt_floor(n) == p + 1);
            assert((sqrt_floor(n) as int) * (sqrt_floor(n) as int) == (p + 1) * (p + 1));
            assert((sqrt_floor(n) as int) * (sqrt_floor(n) as int) <= n);
            assert((p + 1 + 1) * (p + 1 + 1) > n) by (nonlinear_arith)
                requires
                    n >= 1,
                    0 <= p,
                    (n - 1) < (p + 1) * (p + 1),
            ;
        } else {
            assert(sqrt_floor(n) == p);
            assert((sqrt_floor(n) as int) * (sqrt_floor(n) as int) == p * p);
            assert((sqrt_floor(n) as int) * (sqrt_floor(n) as int) <= n);
        }
    }
}

/// Any `r` squeezed between the same squares equals `sqrt_floor(n)`.
pub proof fn lemma_sqrt_floor_unique(n: nat, r: int)
    requires
        0 <= r,
        r * r <= n,
        n < (r + 1) * (r + 1),
    ensures
        r == sqrt_floor(n),
{
    lemma_sqrt_floor_bounds(n);
    let s = sqrt_floor(n) as int;
    assert(r == s) by (nonlinear_arith)
        requires
            r * r <= n < (r + 1) * (r + 1),
            s * s <= n < (s + 1) * (s + 1),
            0 <= r,
            0 <= s,
    ;
}

/// The square root of a perfect square.
pub proof fn lemma_sqrt_floor_square(x: int)
    requires
        0 <= x,
    ensures
        sqrt_floor((x * x) as nat) == x,
{
    assert(x * x >= 0 && x * x < (x + 1) * (x + 1)) by (nonlinear_arith)
        requires
            0 <= x,
    ;
    lemma_sqrt_floor_unique((x * x) as nat, x);
}

/// `sqrt_floor` is monotone.
pub proof fn lemma_sqrt_floor_monotone(m: nat, n: nat)
    requires
        m <= n,
    ensures
        sqrt_floor(m) <= sqrt_floor(n),
{
    lemma_sqrt_floor_bounds(m);
    lemma_sqrt_floor_bounds(n);
    let a = sqrt_floor(m) as int;
    let b = sqrt_floor(n) as int;
    assert(a <= b) by (nonlinear_arith)
        requires
            a * a <= m,
            m <= n,
            n < (b + 1) * (b + 1),
            0 <= a,
            0 <= b,
    ;
}

/// Computes `sqrt_floor` by binary search.
pub fn isqrt_u64(n: u64) -> (r: u64)
    ensures
        r == sqrt_floor(n as nat),
        r * r <= n,
        n < (r + 1) * (r + 1),
{
    let mut lo: u64 = 0;
    let mut hi: u64 = 4_294_967_296;
    proof {
        assert((4_294_967_296int) * (4_294_967_296int) > u64::MAX) by (nonlinear_arith);
    }
    while lo + 1 < hi
        invariant
            lo < hi <= 4_294_967_296,
            (lo as int) * (lo as int) <= n,
            (hi as int) * (hi as int) > n,
        decreases hi - lo,
    {
        let mid = lo + (hi - lo) / 2;
        assert(lo < mid < hi);
        assert((mid as int) * (mid as int) <= (4_294_967_295int) * (4_294_967_295int))
            by (nonlinear_arith)
            requires
                0 <= mid <= 4_294_967_295int,
        ;
        assert((4_294_967_295int) * (4_294_967_295int) <= u64::MAX) by (nonlinear_arith);
        let sq = mid * mid;
        if sq <= n {
            lo = mid;
        } else {
            hi = mid;
        }
    }
    proof {
        lemma_sqrt_floor_unique(n as nat, lo as int);
    }
    lo
}

/// The fixed-point half-turn sine: a parabola through the half turn's
/// endpoints peaking at `SCALE`, evaluated at `a` milli-radians.
pub open spec fn sin_half_mr(a: int) -> int
    recommends
        0 <= a <= PI_MR,
{
    (4 * SCALE * a * (PI_MR - a)) / (PI_MR * PI_MR)
}

/// The fixed-point sine of `a` milli-radians, for `a` in one full turn:
/// the half-turn parabola, mirrored and negated on the second half.
pub open spec fn sin_full_mr(a: int) -> int
    recommends
        0 <= a < TWO_PI_MR,
{
    if a <= PI_MR {
        sin_half_mr(a)
    } else {
        -sin_half_mr(a - PI_MR)
    }
}

/// The half-turn parabola stays within `[0, SCALE]`, and its numerator is
/// small enough for 64-bit arithmetic.
pub proof fn lemma_sin_half_bounds(a: int)
    requires
        0 <= a <= PI_MR,
    ensures
        0 <= sin_half_mr(a) <= SCALE,
        0 <= 4 * SCALE * a * (PI_MR - a) <= 9_865_881_000,
{
    let num = 4 * SCALE * a * (PI_MR - a);
    assert(0 <= 4 * 1000 * a * (3141 - a) <= 9_865_881_000) by (nonlinear_arith)
        requires
            0 <= a <= 3141,
    ;
    assert(num == 4 * 1000 * a * (3141 - a));
    vstd::arithmetic::div_mod::lemma_div_pos_is_pos(num, 9_865_881);
    vstd::arithmetic::div_mod::lemma_div_is_ordered(num, 9_865_881_000, 9_865_881);
    vstd::arithmetic::div_mod::lemma_div_multiples_vanish(1000, 9_865_881);
    assert(9_865_881_000int / 9_865_881 == 1000);
    assert(num / 9_865_881 <= 1000);
    assert(sin_half_mr(a) == num / 9_865_881);
}

/// The full-turn sine stays within `[-SCALE, SCALE]`.
pub proof fn lemma_sin_full_bounds(a: int)
    requires
        0 <= a < TWO_PI_MR,
    ensures
        -SCALE <= sin_full_mr(a) <= SCALE,
{
    if a <= PI_MR {
        lemma_sin_half_bounds(a);
    } else {
        lemma_sin_half_bounds(a - PI_MR);
    }
}

/// Computes the fixed-point sine of `a` milli-radians.
pub fn sin_mr(a: i64) -> (r: i64)
    requires
        0 <= a < TWO_PI_MR,
    ensures
        r == sin_full_mr(a as int),
        -SCALE <= r <= SCALE,
{
    if a <= PI_MR {
        proof {
            lemma_sin_half_bounds(a as int);
        }
        let num = 4 * SCALE * a * (PI_MR - a);
        let q = div_trunc(num, PI_MR * PI_MR);
        q
    } else {
        let b = a - PI_MR;
        proof {
            lemma_sin_half_bounds(b as int);
        }
        let num = 4 * SCALE * b * (PI_MR - b);
        let q = div_trunc(num, PI_MR * PI_MR);
        -q
    }
}

/// The fixed-point cosine of `a` milli-radians, as the sine shifted by a
/// quarter turn.
pub open spec fn cos_full_mr(a: int) -> int
    recommends
        0 <= a < TWO_PI_MR,
{
    sin_full_mr((a + HALF_PI_MR) % (TWO_PI_MR as int))
}

/// Computes the fixed-point cosine of `a` milli-radians.
pub fn cos_mr(a: i64) -> (r: i64)
    requires
        0 <= a < TWO_PI_MR,
    ensures
        r == cos_full_mr(a as int),
        -SCALE <= r <= SCALE,
{
    let shifted = (((a + HALF_PI_MR) as u64) % (TWO_PI_MR as u64)) as i64;
    sin_mr(shifted)
}

/// Reduces any milli-radian angle into one full turn.
pub fn norm_angle_mr(a: i64) -> (r: i64)
    requires
        a != i64::MIN,
    ensures
        0 <= r < TWO_PI_MR,
        r == (a as int) % (TWO_PI_MR as int),
{
    let t = TWO_PI_MR;
    if a >= 0 {
        let m = (a as u64) % (t as u64);
        m as i64
    } else {
        let neg = -a;
        let m64 = (neg as u64) % (t as u64);
        let m = m64 as i64;
        let r = if m == 0 {
            0i64
        } else {
            t - m
        };
        proof {
            let ti = t as int;
            let ai = a as int;
            vstd::arithmetic::div_mod::lemma_fundamental_div_mod(-ai, ti);
            let q = (-ai) / ti;
            if m == 0 {
                assert(ai == (-q) * ti + 0) by (nonlinear_arith)
                    requires
                        -ai == ti * q + m,
                        m == 0,
                ;
                vstd::arithmetic::div_mod::lemma_fundamental_div_mod_converse_mod(ai, ti, -q, 0);
            } else {
                assert(ai == (-q - 1) * ti + (ti - m)) by (nonlinear_arith)
                    requires
                        -ai == ti * q + m,
                ;
                vstd::arithmetic::div_mod::lemma_fundamental_div_mod_converse_mod(
                    ai,
                    ti,
                    -q - 1,
                    ti - m,
                );
            }
        }
        r
    }
}

} // verus!
