//! Three-component fixed-point vectors and colors.

use vstd::prelude::*;
use crate::fixed::ONE;
use crate::fixed::COORD_LIMIT;
use crate::fixed::div_q_i128;
use crate::fixed::fmul;
use crate::fixed::fdiv;
use crate::fixed::mul_q;
use crate::fixed::quot_q;
use crate::fixed::isqrt_u128;
use crate::fixed::sqrt_floor;
use crate::fixed::lemma_div_range;
use crate::fixed::sin_deg;
use crate::fixed::cos_deg;
use crate::fixed::DEG360;
use crate::rng::Randomizer;
use crate::rng::random;
use crate::rng::random_interval;

verus! {

/// A point or direction in space, Q47.16 fixed point per component.
#[derive(Clone, Copy, PartialEq, Eq, Structural, Debug)]
pub struct Vector {
    pub x: i64,
    pub y: i64,
    pub z: i64,
}

/// Every component within `b` in magnitude.
pub open spec fn in_range(v: Vector, b: int) -> bool {
    &&& -b <= v.x <= b
    &&& -b <= v.y <= b
    &&& -b <= v.z <= b
}

/// The fixed-point dot product.
pub open spec fn dot_spec(a: Vector, b: Vector) -> int {
    (a.x * b.x + a.y * b.y + a.z * b.z) / (ONE as int)
}

/// The squared length before rescaling; `sqrt` of this is the fixed-point
/// length.
pub open spec fn norm2_spec(v: Vector) -> int {
    v.x * v.x + v.y * v.y + v.z * v.z
}

/// The fixed-point length.
pub open spec fn len_spec(v: Vector) -> int {
    sqrt_floor(norm2_spec(v))
}

/// One component of the fixed-point cross product.
pub open spec fn cross_term(a: int, b: int, c: int, d: int) -> int {
    (a * b - c * d) / (ONE as int)
}

/// The fixed-point cross product as a vector.
pub open spec fn cross_vec(u: Vector, v: Vector) -> Vector {
    Vector {
        x: cross_spec(u, v).0 as i64,
        y: cross_spec(u, v).1 as i64,
        z: cross_spec(u, v).2 as i64,
    }
}

/// The mirror image about a normal: `v - 2 (v . n) n`, componentwise in
/// fixed point.
pub open spec fn reflect_spec(v: Vector, n: Vector) -> Vector {
    Vector {
        x: (v.x - mul_q(2 * dot_spec(v, n), n.x as int)) as i64,
        y: (v.y - mul_q(2 * dot_spec(v, n), n.y as int)) as i64,
        z: (v.z - mul_q(2 * dot_spec(v, n), n.z as int)) as i64,
    }
}

/// The fixed-point cross product.
pub open spec fn cross_spec(u: Vector, v: Vector) -> (int, int, int) {
    (
        cross_term(u.y as int, v.z as int, u.z as int, v.y as int),
        cross_term(u.z as int, v.x as int, u.x as int, v.z as int),
        cross_term(u.x as int, v.y as int, u.y as int, v.x as int),
    )
}

/// Products of coordinates below `COORD_LIMIT` stay far inside the machine
/// range, before and after the rescaling division.
proof fn lemma_coord_product_bound(a: int, b: int)
    requires
        -COORD_LIMIT <= a <= COORD_LIMIT,
        -COORD_LIMIT <= b <= COORD_LIMIT,
    ensures
        -0x1000_0000_0000_0000_0000 <= a * b <= 0x1000_0000_0000_0000_0000,
{
    assert(-0x1000_0000_0000_0000_0000 <= a * b <= 0x1000_0000_0000_0000_0000)
        by (nonlinear_arith)
        requires
            -COORD_LIMIT <= a <= COORD_LIMIT,
            -COORD_LIMIT <= b <= COORD_LIMIT,
    ;
}

impl Vector {
    /// The origin.
    pub fn zero() -> (v: Vector)
        ensures
            v == (Vector { x: 0, y: 0, z: 0 }),
    {
        Vector { x: 0, y: 0, z: 0 }
    }

    pub fn new(x: i64, y: i64, z: i64) -> (v: Vector)
        ensures
            v == (Vector { x, y, z }),
    {
        Vector { x, y, z }
    }

    /// Componentwise sum.
    pub fn add(self, other: Vector) -> (r: Vector)
        requires
            i64::MIN <= self.x + other.x <= i64::MAX,
            i64::MIN <= self.y + other.y <= i64::MAX,
            i64::MIN <= self.z + other.z <= i64::MAX,
        ensures
            r.x == self.x + other.x,
            r.y == self.y + other.y,
            r.z == self.z + other.z,
    {
        Vector { x: self.x + other.x, y: self.y + other.y, z: self.z + other.z }
    }

    /// Componentwise difference.
    pub fn sub(self, other: Vector) -> (r: Vector)
        requires
            i64::MIN <= self.x - other.x <= i64::MAX,
            i64::MIN <= self.y - other.y <= i64::MAX,
            i64::MIN <= self.z - other.z <= i64::MAX,
        ensures
            r.x == self.x - other.x,
            r.y == self.y - other.y,
            r.z == self.z - other.z,
    {
        Vector { x: self.x - other.x, y: self.y - other.y, z: self.z - other.z }
    }

    /// Componentwise negation.
    pub fn neg(self) -> (r: Vector)
        requires
            self.x != i64::MIN,
            self.y != i64::MIN,
            self.z != i64::MIN,
        ensures
            r.x == -self.x,
            r.y == -self.y,
            r.z == -self.z,
    {
        Vector { x: -self.x, y: -self.y, z: -self.z }
    }

    /// Componentwise (Hadamard) fixed-point product.
    pub fn mul(self, other: Vector) -> (r: Vector)
        requires
            in_range(self, COORD_LIMIT as int),
            in_range(other, COORD_LIMIT as int),
        ensures
            r.x == mul_q(self.x as int, other.x as int),
            r.y == mul_q(self.y as int, other.y as int),
            r.z == mul_q(self.z as int, other.z as int),
    {
        proof {
            lemma_coord_product_bound(self.x as int, other.x as int);
            lemma_coord_product_bound(self.y as int, other.y as int);
            lemma_coord_product_bound(self.z as int, other.z as int);
            lemma_div_range(self.x as int * other.x, ONE as int, 0x1000_0000_0000_0000_0000);
            lemma_div_range(self.y as int * other.y, ONE as int, 0x1000_0000_0000_0000_0000);
            lemma_div_range(self.z as int * other.z, ONE as int, 0x1000_0000_0000_0000_0000);
        }
        Vector { x: fmul(self.x, other.x), y: fmul(self.y, other.y), z: fmul(self.z, other.z) }
    }

    /// Fixed-point scaling by a scalar.
    pub fn scale(self, t: i64) -> (r: Vector)
        requires
            in_range(self, COORD_LIMIT as int),
            -COORD_LIMIT <= t <= COORD_LIMIT,
        ensures
            r.x == mul_q(self.x as int, t as int),
            r.y == mul_q(self.y as int, t as int),
            r.z == mul_q(self.z as int, t as int),
    {
        proof {
            lemma_coord_product_bound(self.x as int, t as int);
            lemma_coord_product_bound(self.y as int, t as int);
            lemma_coord_product_bound(self.z as int, t as int);
            lemma_div_range(self.x as int * t, ONE as int, 0x1000_0000_0000_0000_0000);
            lemma_div_range(self.y as int * t, ONE as int, 0x1000_0000_0000_0000_0000);
            lemma_div_range(self.z as int * t, ONE as int, 0x1000_0000_0000_0000_0000);
        }
        Vector { x: fmul(self.x, t), y: fmul(self.y, t), z: fmul(self.z, t) }
    }

    /// Fixed-point division by a scalar.
    pub fn div(self, t: i64) -> (r: Vector)
        requires
            t != 0,
            in_range(self, COORD_LIMIT as int),
            i64::MIN <= quot_q(self.x as int, t as int) <= i64::MAX,
            i64::MIN <= quot_q(self.y as int, t as int) <= i64::MAX,
            i64::MIN <= quot_q(self.z as int, t as int) <= i64::MAX,
        ensures
            r.x == quot_q(self.x as int, t as int),
            r.y == quot_q(self.y as int, t as int),
            r.z == quot_q(self.z as int, t as int),
    {
        Vector { x: fdiv(self.x, t), y: fdiv(self.y, t), z: fdiv(self.z, t) }
    }

    /// The fixed-point dot product.
    pub fn dot(&self, other: Vector) -> (r: i64)
        requires
            in_range(*self, COORD_LIMIT as int),
            in_range(other, COORD_LIMIT as int),
        ensures
            r == dot_spec(*self, other),
            -0x3000_0000_0000_0001 <= r <= 0x3000_0000_0000_0000,
    {
        proof {
            lemma_coord_product_bound(self.x as int, other.x as int);
            lemma_coord_product_bound(self.y as int, other.y as int);
            lemma_coord_product_bound(self.z as int, other.z as int);
            lemma_div_range(
                self.x as int * other.x + self.y as int * other.y + self.z as int * other.z,
                ONE as int,
                0x3000_0000_0000_0000_0000,
            );
        }
        let n: i128 = (self.x as i128) * (other.x as i128) + (self.y as i128) * (other.y as i128)
            + (self.z as i128) * (other.z as i128);
        let q = div_q_i128(n, ONE as i128);
        q as i64
    }

    /// The fixed-point squared length.
    pub fn len_squared(&self) -> (r: i64)
        requires
            in_range(*self, COORD_LIMIT as int),
        ensures
            r == dot_spec(*self, *self),
            0 <= r <= 0x3000_0000_0000_0000,
    {
        let copy = *self;
        let r = self.dot(copy);
        proof {
            assert(self.x as int * self.x >= 0) by (nonlinear_arith);
            assert(self.y as int * self.y >= 0) by (nonlinear_arith);
            assert(self.z as int * self.z >= 0) by (nonlinear_arith);
            vstd::arithmetic::div_mod::lemma_div_pos_is_pos(
                self.x as int * self.x + self.y as int * self.y + self.z as int * self.z,
                ONE as int,
            );
        }
        r
    }

    /// The fixed-point length: the square root of the unscaled squared
    /// length.
    pub fn len(&self) -> (r: i64)
        requires
            in_range(*self, COORD_LIMIT as int),
        ensures
            r == len_spec(*self),
            crate::fixed::is_sqrt_floor(norm2_spec(*self), r as int),
            0 <= r <= 0x2000_0000_0000,
    {
        proof {
            lemma_coord_product_bound(self.x as int, self.x as int);
            lemma_coord_product_bound(self.y as int, self.y as int);
            lemma_coord_product_bound(self.z as int, self.z as int);
            assert(self.x as int * self.x >= 0) by (nonlinear_arith);
            assert(self.y as int * self.y >= 0) by (nonlinear_arith);
            assert(self.z as int * self.z >= 0) by (nonlinear_arith);
        }
        let n: i128 = (self.x as i128) * (self.x as i128) + (self.y as i128) * (self.y as i128)
            + (self.z as i128) * (self.z as i128);
        assert(0 <= n <= 0x3000_0000_0000_0000_0000);
        let nu: u128 = n as u128;
        let s = isqrt_u128(nu);
        proof {
            assert(nu as int == n as int);
            assert((s as int) <= 0x2000_0000_0000) by (nonlinear_arith)
                requires
                    (s as int) * (s as int) <= (nu as int),
                    (nu as int) <= 0x3000_0000_0000_0000_0000,
                    0 <= (s as int),
            ;
        }
        s as i64
    }

    /// The fixed-point cross product.
    pub fn cross(&self, other: Vector) -> (r: Vector)
        requires
            in_range(*self, COORD_LIMIT as int),
            in_range(other, COORD_LIMIT as int),
        ensures
            r == cross_vec(*self, other),
            r.x == cross_spec(*self, other).0,
            r.y == cross_spec(*self, other).1,
            r.z == cross_spec(*self, other).2,
    {
        proof {
            lemma_coord_product_bound(self.y as int, other.z as int);
            lemma_coord_product_bound(self.z as int, other.y as int);
            lemma_coord_product_bound(self.z as int, other.x as int);
            lemma_coord_product_bound(self.x as int, other.z as int);
            lemma_coord_product_bound(self.x as int, other.y as int);
            lemma_coord_product_bound(self.y as int, other.x as int);
            lemma_div_range(
                self.y as int * other.z - self.z as int * other.y,
                ONE as int,
                0x2000_0000_0000_0000_0000,
            );
            lemma_div_range(
                self.z as int * other.x - self.x as int * other.z,
                ONE as int,
                0x2000_0000_0000_0000_0000,
            );
            lemma_div_range(
                self.x as int * other.y - self.y as int * other.x,
                ONE as int,
                0x2000_0000_0000_0000_0000,
            );
        }
        let nx: i128 = (self.y as i128) * (other.z as i128) - (self.z as i128) * (other.y as i128);
        let ny: i128 = (self.z as i128) * (other.x as i128) - (self.x as i128) * (other.z as i128);
        let nz: i128 = (self.x as i128) * (other.y as i128) - (self.y as i128) * (other.x as i128);
        Vector {
            x: div_q_i128(nx, ONE as i128) as i64,
            y: div_q_i128(ny, ONE as i128) as i64,
            z: div_q_i128(nz, ONE as i128) as i64,
        }
    }

    /// The direction rescaled to unit length.
    pub fn unit_vector(&self) -> (r: Vector)
        requires
            in_range(*self, COORD_LIMIT as int),
            norm2_spec(*self) >= 1,
        ensures
            r.x == quot_q(self.x as int, len_spec(*self)),
            r.y == quot_q(self.y as int, len_spec(*self)),
            r.z == quot_q(self.z as int, len_spec(*self)),
            in_range(r, ONE as int),
    {
        let l = self.len();
        proof {
            let n2 = norm2_spec(*self);
            let l_ = len_spec(*self);
            assert(crate::fixed::is_sqrt_floor(n2, l as int));
            assert(l_ * l_ <= n2 < (l_ + 1) * (l_ + 1));
            assert(self.x as int * self.x <= n2) by (nonlinear_arith)
                requires
                    n2 == self.x as int * self.x + self.y as int * self.y + self.z as int
                        * self.z,
            ;
            assert(self.y as int * self.y <= n2) by (nonlinear_arith)
                requires
                    n2 == self.x as int * self.x + self.y as int * self.y + self.z as int
                        * self.z,
            ;
            assert(self.z as int * self.z <= n2) by (nonlinear_arith)
                requires
                    n2 == self.x as int * self.x + self.y as int * self.y + self.z as int
                        * self.z,
            ;
            assert(-l_ <= self.x as int <= l_ && -l_ <= self.y as int <= l_ && -l_
                <= self.z as int <= l_) by (nonlinear_arith)
                requires
                    self.x as int * self.x <= n2,
                    self.y as int * self.y <= n2,
                    self.z as int * self.z <= n2,
                    n2 < (l_ + 1) * (l_ + 1),
                    0 <= l_,
            ;
            lemma_unit_component(self.x as int, l_);
            lemma_unit_component(self.y as int, l_);
            lemma_unit_component(self.z as int, l_);
        }
        Vector { x: fdiv(self.x, l), y: fdiv(self.y, l), z: fdiv(self.z, l) }
    }

    /// True when every component is smaller than one fixed-point step.
    pub fn near_zero(&self) -> (r: bool)
        ensures
            r == (self.x == 0 && self.y == 0 && self.z == 0),
    {
        self.x == 0 && self.y == 0 && self.z == 0
    }

    /// The mirror image about a normal: `v - 2 (v . n) n`.
    pub fn reflect(&self, normal: Vector) -> (r: Vector)
        requires
            in_range(*self, 0x10_0000_0000),
            in_range(normal, 4 * ONE as int),
        ensures
            r == reflect_spec(*self, normal),
            r.x == self.x - mul_q(2 * dot_spec(*self, normal), normal.x as int),
            r.y == self.y - mul_q(2 * dot_spec(*self, normal), normal.y as int),
            r.z == self.z - mul_q(2 * dot_spec(*self, normal), normal.z as int),
            in_range(r, 0x900_0000_0000_0000),
    {
        proof {
            lemma_coord_product_bound(self.x as int, normal.x as int);
            lemma_coord_product_bound(self.y as int, normal.y as int);
            lemma_coord_product_bound(self.z as int, normal.z as int);
        }
        let d = self.dot(normal);
        proof {
            assert(-0xC0_0000_0000_0000_0000 <= self.x as int * normal.x + self.y as int
                * normal.y + self.z as int * normal.z <= 0xC0_0000_0000_0000_0000)
                by (nonlinear_arith)
                requires
                    in_range(*self, 0x10_0000_0000),
                    in_range(normal, 4 * ONE as int),
            ;
            lemma_div_range(
                self.x as int * normal.x + self.y as int * normal.y + self.z as int * normal.z,
                ONE as int,
                0xC0_0000_0000_0000_0000,
            );
            assert(-0xC0_0000_0000_0001 <= dot_spec(*self, normal) <= 0xC0_0000_0000_0000);
            lemma_coord_scaled_product(2 * dot_spec(*self, normal), normal.x as int);
            lemma_coord_scaled_product(2 * dot_spec(*self, normal), normal.y as int);
            lemma_coord_scaled_product(2 * dot_spec(*self, normal), normal.z as int);
        }
        let dx = div_q_i128(2 * (d as i128) * (normal.x as i128), ONE as i128) as i64;
        let dy = div_q_i128(2 * (d as i128) * (normal.y as i128), ONE as i128) as i64;
        let dz = div_q_i128(2 * (d as i128) * (normal.z as i128), ONE as i128) as i64;
        Vector { x: self.x - dx, y: self.y - dy, z: self.z - dz }
    }

    /// One coordinate, selected by axis index.
    pub fn axis(&self, n: u64) -> (r: i64)
        ensures
            n == 0 ==> r == self.x,
            n == 1 ==> r == self.y,
            n != 0 && n != 1 ==> r == self.z,
    {
        if n == 0 {
            self.x
        } else if n == 1 {
            self.y
        } else {
            self.z
        }
    }
}

/// A component no larger than the length, divided by the length, stays
/// within one unit.
proof fn lemma_unit_component(c: int, l: int)
    requires
        1 <= l,
        -l <= c <= l,
    ensures
        -(ONE as int) <= quot_q(c, l) <= ONE as int,
        i64::MIN <= quot_q(c, l) <= i64::MAX,
{
    vstd::arithmetic::div_mod::lemma_div_is_ordered(c * ONE, l * ONE, l);
    vstd::arithmetic::div_mod::lemma_div_is_ordered(-l * (ONE as int), c * ONE, l);
    assert(c * ONE <= l * ONE && -l * (ONE as int) <= c * ONE) by (nonlinear_arith)
        requires
            -l <= c <= l,
            1 <= l,
    ;
    assert(l * (ONE as int) == (ONE as int) * l && -l * (ONE as int) == (-(ONE as int)) * l)
        by (nonlinear_arith);
    vstd::arithmetic::div_mod::lemma_div_multiples_vanish(ONE as int, l);
    vstd::arithmetic::div_mod::lemma_div_multiples_vanish(-(ONE as int), l);
}

/// A product of a doubled dot value and a near-unit normal stays in the
/// machine range before and after rescaling.
proof fn lemma_coord_scaled_product(d2: int, c: int)
    requires
        -0x200_0000_0000_0000 <= d2 <= 0x200_0000_0000_0000,
        -4 * (ONE as int) <= c <= 4 * ONE as int,
    ensures
        -0x800_0000_0000_0000_0000 <= d2 * c <= 0x800_0000_0000_0000_0000,
        -0x800_0000_0000_0001 <= (d2 * c) / (ONE as int) <= 0x800_0000_0000_0000,
{
    assert(-0x800_0000_0000_0000_0000 <= d2 * c <= 0x800_0000_0000_0000_0000)
        by (nonlinear_arith)
        requires
            -0x200_0000_0000_0000 <= d2 <= 0x200_0000_0000_0000,
            -4 * (ONE as int) <= c <= 4 * ONE as int,
    ;
    lemma_div_range(d2 * c, ONE as int, 0x800_0000_0000_0000_0000);
}


/// The refracted direction by Snell's law, mirrored step for step in the
/// executable code: clamp the incident cosine, build the perpendicular
/// part, then the parallel part from the leftover length.
pub open spec fn refract_spec(uv: Vector, n: Vector, eta: int) -> (int, int, int) {
    let c0 = -dot_spec(uv, n);
    let c = if c0 > ONE {
        ONE as int
    } else {
        c0
    };
    let ix = uv.x + mul_q(n.x as int, c);
    let iy = uv.y + mul_q(n.y as int, c);
    let iz = uv.z + mul_q(n.z as int, c);
    let px = mul_q(ix, eta);
    let py = mul_q(iy, eta);
    let pz = mul_q(iz, eta);
    let ls = (px * px + py * py + pz * pz) / (ONE as int);
    let w = if ONE - ls >= 0 {
        ONE - ls
    } else {
        ls - ONE
    };
    let s = sqrt_floor(w * ONE);
    (px - mul_q(n.x as int, s), py - mul_q(n.y as int, s), pz - mul_q(n.z as int, s))
}

impl Vector {
    /// The refracted direction of a near-unit incident vector about a
    /// near-unit normal, with relative index of refraction `eta`.
    pub fn refract(&self, normal: Vector, eta: i64) -> (r: Vector)
        requires
            in_range(*self, 2 * ONE as int),
            in_range(normal, 2 * ONE as int),
            0 <= eta <= 8 * ONE,
        ensures
            r.x == refract_spec(*self, normal, eta as int).0,
            r.y == refract_spec(*self, normal, eta as int).1,
            r.z == refract_spec(*self, normal, eta as int).2,
            in_range(r, 0x8000_0000),
    {
        let d = self.dot(normal);
        proof {
            assert(-12 * (ONE as int) * ONE <= self.x as int * normal.x + self.y as int
                * normal.y + self.z as int * normal.z <= 12 * (ONE as int) * ONE)
                by (nonlinear_arith)
                requires
                    in_range(*self, 2 * ONE as int),
                    in_range(normal, 2 * ONE as int),
            ;
            crate::fixed::lemma_div_range(
                self.x as int * normal.x + self.y as int * normal.y + self.z as int * normal.z,
                crate::fixed::ONE as int,
                12 * (ONE as int) * ONE,
            );
        }
        let c: i64 = if -d > ONE {
            ONE
        } else {
            -d
        };
        proof {
            crate::fixed::lemma_mul_q_bound(normal.x as int, c as int, 2 * ONE as int, 13 * ONE as int);
            crate::fixed::lemma_mul_q_bound(normal.y as int, c as int, 2 * ONE as int, 13 * ONE as int);
            crate::fixed::lemma_mul_q_bound(normal.z as int, c as int, 2 * ONE as int, 13 * ONE as int);
        }
        let inner = self.add(normal.scale(c));
        proof {
            crate::fixed::lemma_mul_q_bound(inner.x as int, eta as int, 29 * ONE as int, 8 * ONE as int);
            crate::fixed::lemma_mul_q_bound(inner.y as int, eta as int, 29 * ONE as int, 8 * ONE as int);
            crate::fixed::lemma_mul_q_bound(inner.z as int, eta as int, 29 * ONE as int, 8 * ONE as int);
        }
        let perp = inner.scale(eta);
        proof {
            assert(0 <= perp.x as int * perp.x + perp.y as int * perp.y + perp.z as int
                * perp.z <= 693517050445827) by (nonlinear_arith)
                requires
                    in_range(perp, 15204353),
            ;
            crate::fixed::lemma_div_range(
                perp.x as int * perp.x + perp.y as int * perp.y + perp.z as int * perp.z,
                ONE as int,
                693517050445827,
            );
        }
        let ls = perp.len_squared();
        let w: i64 = if ONE - ls >= 0 {
            ONE - ls
        } else {
            ls - ONE
        };
        let sq = crate::fixed::sqrt_fp(w);
        proof {
            let w_ = w as int;
            assert((sq as int) * sq <= w_ * ONE < ((sq as int) + 1) * ((sq as int) + 1));
            assert(w_ <= 10582230384);
            assert((sq as int) <= 26334712) by (nonlinear_arith)
                requires
                    (sq as int) * sq <= w_ * (ONE as int),
                    w_ <= 10582230384,
                    0 <= (sq as int),
            ;
            crate::fixed::lemma_mul_q_bound(normal.x as int, sq as int, 2 * ONE as int, 26334712);
            crate::fixed::lemma_mul_q_bound(normal.y as int, sq as int, 2 * ONE as int, 26334712);
            crate::fixed::lemma_mul_q_bound(normal.z as int, sq as int, 2 * ONE as int, 26334712);
        }
        let par = normal.scale(sq);
        perp.sub(par)
    }

    /// A vector whose components are independent samples in `[0, 1)`.
    pub fn random(rng: &mut Randomizer) -> (v: Vector)
        ensures
            in_range(v, ONE as int),
    {
        let x = random(rng);
        let y = random(rng);
        let z = random(rng);
        Vector { x, y, z }
    }

    /// A vector whose components are independent samples in `[min, max)`.
    pub fn random_interval(rng: &mut Randomizer, min: i64, max: i64) -> (v: Vector)
        requires
            min < max,
        ensures
            in_range(v, if -min > max { -(min as int) } else { max as int }),
    {
        let x = random_interval(rng, min, max);
        let y = random_interval(rng, min, max);
        let z = random_interval(rng, min, max);
        Vector { x, y, z }
    }

    /// A direction of near-unit length, sampled uniformly: a uniform
    /// height on the axis and a uniform angle around it.
    pub fn random_unit_vector(rng: &mut Randomizer) -> (v: Vector)
        ensures
            in_range(v, ONE as int),
    {
        let z = random_interval(rng, -ONE, ONE);
        proof {
            crate::fixed::lemma_mul_q_unit(z as int, z as int);
            assert((z as int) * z >= 0) by (nonlinear_arith);
            vstd::arithmetic::div_mod::lemma_div_pos_is_pos((z as int) * z, ONE as int);
        }
        let zz = fmul(z, z);
        let rad = crate::fixed::sqrt_fp(ONE - zz);
        proof {
            assert((rad as int) <= ONE) by (nonlinear_arith)
                requires
                    (rad as int) * rad <= ((ONE - zz) as int) * ONE,
                    0 <= (rad as int),
                    0 <= (ONE - zz) as int <= ONE,
            ;
            assert(((ONE - zz) as int) * ONE <= (ONE as int) * ONE) by (nonlinear_arith)
                requires
                    0 <= (ONE - zz) as int <= ONE,
            ;
        }
        let theta = random_interval(rng, 0, DEG360);
        let c = cos_deg(theta);
        let si = sin_deg(theta);
        proof {
            crate::fixed::lemma_mul_q_unit(rad as int, c as int);
            crate::fixed::lemma_mul_q_unit(rad as int, si as int);
        }
        let x = fmul(rad, c);
        let y = fmul(rad, si);
        Vector { x, y, z }
    }

    /// A near-unit direction on the hemisphere around a normal.
    pub fn random_on_hemisphere(rng: &mut Randomizer, normal: Vector) -> (v: Vector)
        requires
            in_range(normal, COORD_LIMIT as int),
        ensures
            in_range(v, ONE as int),
    {
        let u = Vector::random_unit_vector(rng);
        let d = u.dot(normal);
        if d > 0 {
            u
        } else {
            u.neg()
        }
    }

    /// A point on the rim of the unit disk.
    pub fn random_in_unit_disk(rng: &mut Randomizer) -> (v: Vector)
        ensures
            in_range(v, ONE as int),
            v.z == 0,
    {
        let theta = random_interval(rng, 0, DEG360);
        let c = cos_deg(theta);
        let si = sin_deg(theta);
        Vector { x: c, y: si, z: 0 }
    }
}

/// A linear RGB radiance or reflectance value, fixed point per channel.
#[derive(Clone, Copy, PartialEq, Eq, Structural, Debug)]
pub struct Color {
    pub r: i64,
    pub g: i64,
    pub b: i64,
}

/// Every channel non-negative: a physically meaningful radiance.
pub open spec fn color_non_neg(c: Color) -> bool {
    c.r >= 0 && c.g >= 0 && c.b >= 0
}

/// Every channel within `b` in magnitude.
pub open spec fn color_in_range(c: Color, b: int) -> bool {
    &&& -b <= c.r <= b
    &&& -b <= c.g <= b
    &&& -b <= c.b <= b
}

/// One channel of the final pixel: gamma correction by square root,
/// clamped just under one, then quantized to a byte.
pub open spec fn pixel_channel_spec(l: int) -> int {
    let g = if l > 0 {
        sqrt_floor(l * ONE)
    } else {
        0
    };
    let cl = if g > 65470 {
        65470
    } else {
        g
    };
    (256 * cl) / (ONE as int)
}

impl Color {
    pub fn new(r: i64, g: i64, b: i64) -> (c: Color)
        ensures
            c == (Color { r, g, b }),
    {
        Color { r, g, b }
    }

    pub fn black() -> (c: Color)
        ensures
            c == (Color { r: 0, g: 0, b: 0 }),
    {
        Color { r: 0, g: 0, b: 0 }
    }

    pub fn white() -> (c: Color)
        ensures
            c == (Color { r: ONE as i64, g: ONE as i64, b: ONE as i64 }),
    {
        Color { r: ONE, g: ONE, b: ONE }
    }

    pub fn red() -> (c: Color)
        ensures
            c == (Color { r: ONE as i64, g: 0, b: 0 }),
    {
        Color { r: ONE, g: 0, b: 0 }
    }

    pub fn green() -> (c: Color)
        ensures
            c == (Color { r: 0, g: ONE as i64, b: 0 }),
    {
        Color { r: 0, g: ONE, b: 0 }
    }

    pub fn blue() -> (c: Color)
        ensures
            c == (Color { r: 0, g: 0, b: ONE as i64 }),
    {
        Color { r: 0, g: 0, b: ONE }
    }

    pub fn cyan() -> (c: Color)
        ensures
            c == (Color { r: 0, g: ONE as i64, b: ONE as i64 }),
    {
        Color { r: 0, g: ONE, b: ONE }
    }

    /// A color from the components of a direction.
    pub fn from_unit_vector(unit_vector: Vector) -> (c: Color)
        ensures
            c == (Color { r: unit_vector.x, g: unit_vector.y, b: unit_vector.z }),
    {
        Color { r: unit_vector.x, g: unit_vector.y, b: unit_vector.z }
    }

    /// Channelwise sum.
    pub fn add(self, other: Color) -> (c: Color)
        requires
            i64::MIN <= self.r + other.r <= i64::MAX,
            i64::MIN <= self.g + other.g <= i64::MAX,
            i64::MIN <= self.b + other.b <= i64::MAX,
        ensures
            c.r == self.r + other.r,
            c.g == self.g + other.g,
            c.b == self.b + other.b,
    {
        Color { r: self.r + other.r, g: self.g + other.g, b: self.b + other.b }
    }

    /// Channelwise fixed-point product.
    pub fn mul(self, other: Color) -> (c: Color)
        requires
            color_in_range(self, COORD_LIMIT as int),
            color_in_range(other, COORD_LIMIT as int),
        ensures
            c.r == mul_q(self.r as int, other.r as int),
            c.g == mul_q(self.g as int, other.g as int),
            c.b == mul_q(self.b as int, other.b as int),
    {
        proof {
            lemma_coord_product_bound(self.r as int, other.r as int);
            lemma_coord_product_bound(self.g as int, other.g as int);
            lemma_coord_product_bound(self.b as int, other.b as int);
            lemma_div_range(self.r as int * other.r, ONE as int, 0x1000_0000_0000_0000_0000);
            lemma_div_range(self.g as int * other.g, ONE as int, 0x1000_0000_0000_0000_0000);
            lemma_div_range(self.b as int * other.b, ONE as int, 0x1000_0000_0000_0000_0000);
        }
        Color { r: fmul(self.r, other.r), g: fmul(self.g, other.g), b: fmul(self.b, other.b) }
    }

    /// Fixed-point scaling by a scalar.
    pub fn scale(self, t: i64) -> (c: Color)
        requires
            color_in_range(self, COORD_LIMIT as int),
            -COORD_LIMIT <= t <= COORD_LIMIT,
        ensures
            c.r == mul_q(self.r as int, t as int),
            c.g == mul_q(self.g as int, t as int),
            c.b == mul_q(self.b as int, t as int),
    {
        proof {
            lemma_coord_product_bound(self.r as int, t as int);
            lemma_coord_product_bound(self.g as int, t as int);
            lemma_coord_product_bound(self.b as int, t as int);
            lemma_div_range(self.r as int * t, ONE as int, 0x1000_0000_0000_0000_0000);
            lemma_div_range(self.g as int * t, ONE as int, 0x1000_0000_0000_0000_0000);
            lemma_div_range(self.b as int * t, ONE as int, 0x1000_0000_0000_0000_0000);
        }
        Color { r: fmul(self.r, t), g: fmul(self.g, t), b: fmul(self.b, t) }
    }

    /// Gamma correction of one linear channel.
    fn linear_to_gamma(linear: i64) -> (r: i64)
        ensures
            r == (if linear > 0 {
                sqrt_floor(linear * ONE)
            } else {
                0
            }),
            r >= 0,
    {
        if linear > 0 {
            crate::fixed::sqrt_fp(linear)
        } else {
            0
        }
    }

    /// The quantized byte triple of a sample-averaged color.
    pub fn as_pixel(&self) -> (p: (u8, u8, u8))
        ensures
            p.0 == pixel_channel_spec(self.r as int),
            p.1 == pixel_channel_spec(self.g as int),
            p.2 == pixel_channel_spec(self.b as int),
    {
        (
            Self::pixel_channel(self.r),
            Self::pixel_channel(self.g),
            Self::pixel_channel(self.b),
        )
    }

    /// One channel of `as_pixel`.
    fn pixel_channel(l: i64) -> (p: u8)
        ensures
            p == pixel_channel_spec(l as int),
    {
        let g = Self::linear_to_gamma(l);
        let cl: i64 = if g > 65470 {
            65470
        } else {
            g
        };
        proof {
            vstd::arithmetic::div_mod::lemma_div_pos_is_pos(256 * (cl as int), ONE as int);
            vstd::arithmetic::div_mod::lemma_div_is_ordered(256 * (cl as int), 256 * 65470int, ONE as int);
        }
        ((256 * cl) / ONE) as u8
    }

    /// A color with channels sampled in `[0, 1)`.
    pub fn random(rng: &mut Randomizer) -> (c: Color)
        ensures
            color_non_neg(c),
            color_in_range(c, ONE as int),
    {
        let r = random(rng);
        let g = random(rng);
        let b = random(rng);
        Color { r, g, b }
    }

    /// A color with channels sampled in `[min, max)`.
    pub fn random_interval(rng: &mut Randomizer, min: i64, max: i64) -> (c: Color)
        requires
            min < max,
        ensures
            min <= c.r < max,
            min <= c.g < max,
            min <= c.b < max,
    {
        let r = random_interval(rng, min, max);
        let g = random_interval(rng, min, max);
        let b = random_interval(rng, min, max);
        Color { r, g, b }
    }
}

} // verus!
