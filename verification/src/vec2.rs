//! Fixed-point 2D vectors.
//!
//! Components are milli-units (`fixed::SCALE` per world unit).  A unit
//! direction vector has components in `[-SCALE, SCALE]`; the zero vector
//! normalizes to itself, so no operation here can divide by zero.

use vstd::prelude::*;

use crate::fixed::{
    cos_full_mr, cos_mr, div_trunc, lemma_mul_bound, lemma_sdiv_bound, lemma_sqrt_floor_monotone,
    lemma_sqrt_floor_square, norm_angle_mr, sdiv, sin_full_mr, sin_mr, spec_clamp, sqrt_floor,
    clamp_i64, isqrt_u64, SCALE, TWO_PI_MR,
};

verus! {

/// The magnitude of `a`.
pub open spec fn abs_i(a: int) -> int {
    if a >= 0 {
        a
    } else {
        -a
    }
}

/// A 2D vector with fixed-point components.
#[derive(Clone, Copy, PartialEq, Eq, Structural, Debug)]
pub struct Vec2 {
    pub x: i64,
    pub y: i64,
}

impl Vec2 {
    /// Both components lie in `[-m, m]`.
    pub open spec fn in_bounds(self, m: int) -> bool {
        -m <= self.x <= m && -m <= self.y <= m
    }

    /// The squared Euclidean length.
    pub open spec fn norm2(self) -> int {
        (self.x as int) * (self.x as int) + (self.y as int) * (self.y as int)
    }

    /// The rounded-down Euclidean length.
    pub open spec fn spec_len(self) -> int {
        sqrt_floor(self.norm2() as nat) as int
    }

    /// The vector scaled to length `SCALE` (rounded toward zero), or zero for
    /// the zero vector.
    pub open spec fn spec_normalize(self) -> Vec2 {
        if self.x == 0 && self.y == 0 {
            Vec2 { x: 0, y: 0 }
        } else {
            Vec2 {
                x: sdiv((self.x as int) * (SCALE as int), self.spec_len()) as i64,
                y: sdiv((self.y as int) * (SCALE as int), self.spec_len()) as i64,
            }
        }
    }

    /// The zero vector.
    pub fn zero() -> (r: Vec2)
        ensures
            r == (Vec2 { x: 0i64, y: 0i64 }),
    {
        Vec2 { x: 0, y: 0 }
    }

    /// Builds a vector from its components.
    pub fn new(x: i64, y: i64) -> (r: Vec2)
        ensures
            r == (Vec2 { x, y }),
    {
        Vec2 { x, y }
    }

    /// Whether this is the zero vector.
    pub fn is_zero(&self) -> (r: bool)
        ensures
            r == (self.x == 0 && self.y == 0),
    {
        self.x == 0 && self.y == 0
    }

    /// The componentwise sum, as a spec value.
    pub open spec fn add_spec(self, o: Vec2) -> Vec2
        recommends
            self.in_bounds(2_000_000_000),
            o.in_bounds(2_000_000_000),
    {
        Vec2 { x: (self.x + o.x) as i64, y: (self.y + o.y) as i64 }
    }

    /// The componentwise difference, as a spec value.
    pub open spec fn sub_spec(self, o: Vec2) -> Vec2
        recommends
            self.in_bounds(2_000_000_000),
            o.in_bounds(2_000_000_000),
    {
        Vec2 { x: (self.x - o.x) as i64, y: (self.y - o.y) as i64 }
    }

    /// Componentwise sum.
    pub fn add(self, o: Vec2) -> (r: Vec2)
        requires
            self.in_bounds(2_000_000_000),
            o.in_bounds(2_000_000_000),
        ensures
            r.x == self.x + o.x,
            r.y == self.y + o.y,
            r == self.add_spec(o),
    {
        Vec2 { x: self.x + o.x, y: self.y + o.y }
    }

    /// Componentwise difference.
    pub fn sub(self, o: Vec2) -> (r: Vec2)
        requires
            self.in_bounds(2_000_000_000),
            o.in_bounds(2_000_000_000),
        ensures
            r.x == self.x - o.x,
            r.y == self.y - o.y,
            r == self.sub_spec(o),
    {
        Vec2 { x: self.x - o.x, y: self.y - o.y }
    }

    /// The squared length and its 64-bit bound.
    proof fn lemma_norm2_bounds(self)
        requires
            self.in_bounds(2_000_000_000),
        ensures
            0 <= self.norm2() <= 8_000_000_000_000_000_000,
            0 <= (self.x as int) * (self.x as int) <= 4_000_000_000_000_000_000,
            0 <= (self.y as int) * (self.y as int) <= 4_000_000_000_000_000_000,
            abs_i(self.x as int) <= self.spec_len(),
            abs_i(self.y as int) <= self.spec_len(),
    {
        let x = self.x as int;
        let y = self.y as int;
        assert(0 <= x * x <= 4_000_000_000_000_000_000 && 0 <= y * y
            <= 4_000_000_000_000_000_000 && abs_i(x) * abs_i(x) == x * x && abs_i(y) * abs_i(y)
            == y * y) by (nonlinear_arith)
            requires
                -2_000_000_000 <= x <= 2_000_000_000,
                -2_000_000_000 <= y <= 2_000_000_000,
        ;
        lemma_sqrt_floor_square(abs_i(x));
        lemma_sqrt_floor_monotone((x * x) as nat, self.norm2() as nat);
        lemma_sqrt_floor_square(abs_i(y));
        lemma_sqrt_floor_monotone((y * y) as nat, self.norm2() as nat);
    }

    /// Computes the rounded-down Euclidean length.
    pub fn length(self) -> (r: i64)
        requires
            self.in_bounds(2_000_000_000),
        ensures
            r == self.spec_len(),
            0 <= r <= 3_000_000_000,
    {
        proof {
            self.lemma_norm2_bounds();
        }
        let xx = self.x * self.x;
        let yy = self.y * self.y;
        let n2 = xx + yy;
        let root = isqrt_u64(n2 as u64);
        proof {
            let r = sqrt_floor(n2 as nat) as int;
            assert(r <= 3_000_000_000) by (nonlinear_arith)
                requires
                    0 <= r,
                    r * r <= 8_000_000_000_000_000_000,
            ;
        }
        root as i64
    }

    /// Scales the vector to length `SCALE`; the zero vector stays zero.
    pub fn normalize(self) -> (r: Vec2)
        requires
            self.in_bounds(2_000_000_000),
        ensures
            r == self.spec_normalize(),
            r.in_bounds(SCALE as int),
    {
        if self.x == 0 && self.y == 0 {
            Vec2 { x: 0, y: 0 }
        } else {
            proof {
                self.lemma_norm2_bounds();
                assert(self.norm2() >= 1) by (nonlinear_arith)
                    requires
                        self.norm2() == (self.x as int) * (self.x as int) + (self.y as int) * (
                        self.y as int),
                        !(self.x == 0 && self.y == 0),
                ;
                crate::fixed::lemma_sqrt_floor_bounds(self.norm2() as nat);
                let s = sqrt_floor(self.norm2() as nat) as int;
                assert(s >= 1) by (nonlinear_arith)
                    requires
                        (s + 1) * (s + 1) > 1,
                        s >= 0,
                ;
            }
            let len = self.length();
            let nx = div_trunc(self.x * 1000, len);
            let ny = div_trunc(self.y * 1000, len);
            proof {
                let l = len as int;
                let x = self.x as int;
                let y = self.y as int;
                assert(abs_i(x) * 1000 <= l * 1000 && abs_i(y) * 1000 <= l * 1000);
                vstd::arithmetic::div_mod::lemma_div_is_ordered(abs_i(x) * 1000, l * 1000, l);
                vstd::arithmetic::div_mod::lemma_div_is_ordered(abs_i(y) * 1000, l * 1000, l);
                vstd::arithmetic::div_mod::lemma_div_multiples_vanish(1000, l);
                assert(abs_i(x * 1000) == abs_i(x) * 1000 && abs_i(y * 1000) == abs_i(y) * 1000);
                lemma_sdiv_bound(x * 1000, l, abs_i(x) * 1000);
                lemma_sdiv_bound(y * 1000, l, abs_i(y) * 1000);
                vstd::arithmetic::div_mod::lemma_div_pos_is_pos(abs_i(x) * 1000, l);
                vstd::arithmetic::div_mod::lemma_div_pos_is_pos(abs_i(y) * 1000, l);
            }
            Vec2 { x: nx, y: ny }
        }
    }

    /// The dot product, as a spec value.
    pub open spec fn spec_dot(self, o: Vec2) -> int {
        (self.x as int) * (o.x as int) + (self.y as int) * (o.y as int)
    }

    /// The dot product.
    pub fn dot(self, o: Vec2) -> (r: i64)
        requires
            self.in_bounds(2_000_000_000),
            o.in_bounds(1_000_000_000),
        ensures
            r == self.spec_dot(o),
    {
        proof {
            lemma_mul_bound(self.x as int, o.x as int, 2_000_000_000, 1_000_000_000);
            lemma_mul_bound(self.y as int, o.y as int, 2_000_000_000, 1_000_000_000);
        }
        self.x * o.x + self.y * o.y
    }

    /// `(v * k) / d` rounded toward zero, componentwise.
    pub open spec fn spec_scale_div(self, k: int, d: int) -> Vec2 {
        Vec2 {
            x: sdiv((self.x as int) * k, d) as i64,
            y: sdiv((self.y as int) * k, d) as i64,
        }
    }

    /// Scales by `k` and divides by `d`, rounding toward zero.
    pub fn scale_div(self, k: i64, d: i64) -> (r: Vec2)
        requires
            d > 0,
            self.in_bounds(2_000_000_000),
            -2_000_000_000 <= k <= 2_000_000_000,
        ensures
            r == self.spec_scale_div(k as int, d as int),
            r.in_bounds(4_000_000_000_000_000_000),
    {
        proof {
            lemma_mul_bound(self.x as int, k as int, 2_000_000_000, 2_000_000_000);
            lemma_mul_bound(self.y as int, k as int, 2_000_000_000, 2_000_000_000);
            lemma_sdiv_bound((self.x as int) * (k as int), d as int, 4_000_000_000_000_000_000);
            lemma_sdiv_bound((self.y as int) * (k as int), d as int, 4_000_000_000_000_000_000);
            vstd::arithmetic::div_mod::lemma_div_is_ordered(
                4_000_000_000_000_000_000,
                4_000_000_000_000_000_000,
                d as int,
            );
            vstd::arithmetic::div_mod::lemma_div_nonincreasing(4_000_000_000_000_000_000, d as int);
            vstd::arithmetic::div_mod::lemma_div_pos_is_pos(4_000_000_000_000_000_000, d as int);
        }
        let rx = div_trunc(self.x * k, d);
        let ry = div_trunc(self.y * k, d);
        Vec2 { x: rx, y: ry }
    }

    /// A unit-ish direction scaled by `k` and brought back to plain units:
    /// `(dir * k) / SCALE`, with the result bounded by `|k|`.
    pub fn dir_scale(self, k: i64) -> (r: Vec2)
        requires
            self.in_bounds(SCALE as int),
            -1_000_000_000_000_000 <= k <= 1_000_000_000_000_000,
        ensures
            r == self.spec_scale_div(k as int, SCALE as int),
            r.in_bounds(abs_i(k as int)),
    {
        proof {
            lemma_mul_bound(self.x as int, k as int, 1000, 1_000_000_000_000_000);
            lemma_mul_bound(self.y as int, k as int, 1000, 1_000_000_000_000_000);
            let ka = abs_i(k as int);
            assert(abs_i((self.x as int) * (k as int)) <= 1000 * ka && abs_i(
                (self.y as int) * (k as int),
            ) <= 1000 * ka) by (nonlinear_arith)
                requires
                    -1000 <= self.x <= 1000,
                    -1000 <= self.y <= 1000,
                    ka == abs_i(k as int),
                    0 <= ka,
            ;
            lemma_sdiv_bound((self.x as int) * (k as int), 1000, 1000 * ka);
            lemma_sdiv_bound((self.y as int) * (k as int), 1000, 1000 * ka);
            vstd::arithmetic::div_mod::lemma_div_multiples_vanish(ka, 1000);
        }
        let rx = div_trunc(self.x * k, 1000);
        let ry = div_trunc(self.y * k, 1000);
        Vec2 { x: rx, y: ry }
    }

    /// The vector rotated by `a` milli-radians: a whole number of full
    /// turns is exact, anything else goes through the fixed-point sine and
    /// is clamped back into unit bounds.
    pub open spec fn spec_rotate(self, a: int) -> Vec2 {
        if a % (TWO_PI_MR as int) == 0 {
            self
        } else {
            self.spec_rotate_approx(a)
        }
    }

    /// The fixed-point rotation formula for a non-trivial angle.
    pub open spec fn spec_rotate_approx(self, a: int) -> Vec2 {
        let c = cos_full_mr(a % (TWO_PI_MR as int));
        let s = sin_full_mr(a % (TWO_PI_MR as int));
        Vec2 {
            x: spec_clamp(
                sdiv((self.x as int) * c - (self.y as int) * s, SCALE as int),
                -(SCALE as int),
                SCALE as int,
            ) as i64,
            y: spec_clamp(
                sdiv((self.x as int) * s + (self.y as int) * c, SCALE as int),
                -(SCALE as int),
                SCALE as int,
            ) as i64,
        }
    }

    /// Rotates a unit-ish vector by `a` milli-radians.
    pub fn rotate(self, a: i64) -> (r: Vec2)
        requires
            self.in_bounds(SCALE as int),
            a != i64::MIN,
        ensures
            r == self.spec_rotate(a as int),
            r.in_bounds(SCALE as int),
    {
        let an = norm_angle_mr(a);
        if an == 0 {
            return self;
        }
        let c = cos_mr(an);
        let s = sin_mr(an);
        proof {
            lemma_mul_bound(self.x as int, c as int, 1000, 1000);
            lemma_mul_bound(self.y as int, s as int, 1000, 1000);
            lemma_mul_bound(self.x as int, s as int, 1000, 1000);
            lemma_mul_bound(self.y as int, c as int, 1000, 1000);
            lemma_sdiv_bound(
                (self.x as int) * (c as int) - (self.y as int) * (s as int),
                1000,
                2_000_000,
            );
            lemma_sdiv_bound(
                (self.x as int) * (s as int) + (self.y as int) * (c as int),
                1000,
                2_000_000,
            );
        }
        let xr = div_trunc(self.x * c - self.y * s, 1000);
        let yr = div_trunc(self.x * s + self.y * c, 1000);
        let rx = clamp_i64(xr, -1000, 1000);
        let ry = clamp_i64(yr, -1000, 1000);
        Vec2 { x: rx, y: ry }
    }
}

} // verus!
