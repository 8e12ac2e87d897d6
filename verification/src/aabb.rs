//! Axis-aligned bounding boxes and the exact slab test.
//!
//! The slab test here is specified exactly: it returns true precisely when
//! some integer parametric distance strictly inside the query range puts
//! the ray inside the box.  That exactness is what lets the BVH traversal
//! be proved equivalent to a brute-force scan.

use vstd::prelude::*;
use crate::fixed::ONE;
use crate::fixed::T_LIMIT;
use crate::fixed::div_q_i128;
use crate::fixed::lemma_div_ge_iff;
use crate::fixed::lemma_mul_ge_iff;
use crate::fixed::lemma_mul_le_iff;
use crate::interval::Interval;
use crate::interval::ivl_bounded;
use crate::vector::Vector;
use crate::vector::in_range;
use crate::ray::Ray;
use crate::ray::at_coord;

verus! {

/// Minimum axis width; narrower axes are padded so flat geometry still has
/// a box of positive volume.
pub const PAD_DELTA: i64 = 7;

/// A box as three coordinate ranges.
#[derive(Clone, Copy, PartialEq, Eq, Structural, Debug)]
pub struct AABB {
    pub x: Interval,
    pub y: Interval,
    pub z: Interval,
}

/// An axis padded to at least the minimum width when too narrow.
pub open spec fn pad_ivl(i: Interval) -> Interval {
    if i.max - i.min < PAD_DELTA {
        Interval { min: (i.min - 4) as i64, max: (i.max + 4) as i64 }
    } else {
        i
    }
}

/// The smallest interval containing two intervals.
pub open spec fn union_ivl(a: Interval, b: Interval) -> Interval {
    Interval {
        min: if a.min <= b.min { a.min } else { b.min },
        max: if a.max >= b.max { a.max } else { b.max },
    }
}

/// The padded box spanned by two corner points, as `new_from_vector`
/// builds it.
pub open spec fn from_vectors_spec(a: Vector, b: Vector) -> AABB {
    AABB {
        x: pad_ivl(Interval {
            min: if a.x <= b.x { a.x } else { b.x },
            max: if a.x >= b.x { a.x } else { b.x },
        }),
        y: pad_ivl(Interval {
            min: if a.y <= b.y { a.y } else { b.y },
            max: if a.y >= b.y { a.y } else { b.y },
        }),
        z: pad_ivl(Interval {
            min: if a.z <= b.z { a.z } else { b.z },
            max: if a.z >= b.z { a.z } else { b.z },
        }),
    }
}

/// The smallest box containing two boxes.
pub open spec fn union_spec(a: AABB, b: AABB) -> AABB {
    AABB { x: union_ivl(a.x, b.x), y: union_ivl(a.y, b.y), z: union_ivl(a.z, b.z) }
}

/// Pointwise box membership.
pub open spec fn box_contains_point(b: AABB, px: int, py: int, pz: int) -> bool {
    &&& b.x.min <= px <= b.x.max
    &&& b.y.min <= py <= b.y.max
    &&& b.z.min <= pz <= b.z.max
}

/// The box contains the point the ray reaches at distance `t`.
pub open spec fn box_contains_at(b: AABB, ray: Ray, t: int) -> bool {
    box_contains_point(
        b,
        at_coord(ray.origin.x as int, ray.direction.x as int, t),
        at_coord(ray.origin.y as int, ray.direction.y as int, t),
        at_coord(ray.origin.z as int, ray.direction.z as int, t),
    )
}

/// Some distance strictly inside the query range puts the ray inside the
/// box.
pub open spec fn box_hit_spec(b: AABB, ray: Ray, tmin: int, tmax: int) -> bool {
    exists|t: int| tmin < t < tmax && #[trigger] box_contains_at(b, ray, t)
}

/// One interval covers another.
pub open spec fn ivl_covers(outer: Interval, inner: Interval) -> bool {
    outer.min <= inner.min && inner.max <= outer.max
}

/// One box covers another.
pub open spec fn box_covers(outer: AABB, inner: AABB) -> bool {
    ivl_covers(outer.x, inner.x) && ivl_covers(outer.y, inner.y) && ivl_covers(outer.z, inner.z)
}

/// The union of two boxes contains every point of either box.
pub proof fn lemma_union_contains(a: AABB, b: AABB, px: int, py: int, pz: int)
    requires
        box_contains_point(a, px, py, pz) || box_contains_point(b, px, py, pz),
    ensures
        box_contains_point(union_spec(a, b), px, py, pz),
{
}

/// The union of two boxes covers both.
pub proof fn lemma_union_covers(a: AABB, b: AABB)
    ensures
        box_covers(union_spec(a, b), a),
        box_covers(union_spec(a, b), b),
{
}

/// Covering is transitive along rays: a point inside the inner box is
/// inside the outer one.
pub proof fn lemma_covers_at(outer: AABB, inner: AABB, ray: Ray, t: int)
    requires
        box_covers(outer, inner),
        box_contains_at(inner, ray, t),
    ensures
        box_contains_at(outer, ray, t),
{
}

impl AABB {
    /// A box from three axis ranges, each padded to the minimum width.
    pub fn new(x: Interval, y: Interval, z: Interval) -> (r: AABB)
        requires
            ivl_bounded(x, 0x2000_0000_0000_0000),
            ivl_bounded(y, 0x2000_0000_0000_0000),
            ivl_bounded(z, 0x2000_0000_0000_0000),
        ensures
            r == (AABB { x: pad_ivl(x), y: pad_ivl(y), z: pad_ivl(z) }),
    {
        AABB { x: Self::pad_axis(x), y: Self::pad_axis(y), z: Self::pad_axis(z) }
    }

    /// One padded axis.
    fn pad_axis(i: Interval) -> (r: Interval)
        requires
            ivl_bounded(i, 0x2000_0000_0000_0000),
        ensures
            r == pad_ivl(i),
    {
        if i.max - i.min < PAD_DELTA {
            Interval { min: i.min - 4, max: i.max + 4 }
        } else {
            i
        }
    }

    /// The padded box spanned by two corner points.
    pub fn new_from_vector(a: Vector, b: Vector) -> (r: AABB)
        requires
            in_range(a, 0x2000_0000_0000_0000),
            in_range(b, 0x2000_0000_0000_0000),
        ensures
            r == from_vectors_spec(a, b),
    {
        let ix = Interval {
            min: if a.x <= b.x { a.x } else { b.x },
            max: if a.x >= b.x { a.x } else { b.x },
        };
        let iy = Interval {
            min: if a.y <= b.y { a.y } else { b.y },
            max: if a.y >= b.y { a.y } else { b.y },
        };
        let iz = Interval {
            min: if a.z <= b.z { a.z } else { b.z },
            max: if a.z >= b.z { a.z } else { b.z },
        };
        Self::new(ix, iy, iz)
    }

    /// The exact (unpadded) union of two boxes.
    pub fn new_from_aabb(box1: &AABB, box2: &AABB) -> (r: AABB)
        ensures
            r == union_spec(*box1, *box2),
    {
        AABB {
            x: Interval::new_from_interval(box1.x, box2.x),
            y: Interval::new_from_interval(box1.y, box2.y),
            z: Interval::new_from_interval(box1.z, box2.z),
        }
    }

    /// The axis range selected by index; any index past the last axis
    /// selects the first, as the axis indices cycle through `x`.
    pub fn axis_interval(&self, n: u64) -> (r: Interval)
        ensures
            n == 1 ==> r == self.y,
            n == 2 ==> r == self.z,
            n != 1 && n != 2 ==> r == self.x,
    {
        if n == 1 {
            self.y
        } else if n == 2 {
            self.z
        } else {
            self.x
        }
    }

    /// The index of the widest axis, the BVH split heuristic.
    pub fn longest_axis(&self) -> (r: u64)
        requires
            ivl_bounded(self.x, 0x2000_0000_0000_0000),
            ivl_bounded(self.y, 0x2000_0000_0000_0000),
            ivl_bounded(self.z, 0x2000_0000_0000_0000),
        ensures
            r == (if self.x.max - self.x.min > self.y.max - self.y.min {
                if self.x.max - self.x.min > self.z.max - self.z.min {
                    0int
                } else {
                    2int
                }
            } else {
                if self.y.max - self.y.min > self.z.max - self.z.min {
                    1int
                } else {
                    2int
                }
            }),
    {
        let sx = self.x.max - self.x.min;
        let sy = self.y.max - self.y.min;
        let sz = self.z.max - self.z.min;
        if sx > sy {
            if sx > sz {
                0
            } else {
                2
            }
        } else {
            if sy > sz {
                1
            } else {
                2
            }
        }
    }

    /// The empty box.
    pub fn empty() -> (r: AABB)
        ensures
            r == (AABB {
                x: pad_ivl(Interval { min: T_LIMIT as i64, max: -T_LIMIT as i64 }),
                y: pad_ivl(Interval { min: T_LIMIT as i64, max: -T_LIMIT as i64 }),
                z: pad_ivl(Interval { min: T_LIMIT as i64, max: -T_LIMIT as i64 }),
            }),
    {
        AABB::new(Interval::empty(), Interval::empty(), Interval::empty())
    }

    /// The box of all representable space.
    pub fn universe() -> (r: AABB)
        ensures
            r == (AABB {
                x: Interval { min: -T_LIMIT as i64, max: T_LIMIT as i64 },
                y: Interval { min: -T_LIMIT as i64, max: T_LIMIT as i64 },
                z: Interval { min: -T_LIMIT as i64, max: T_LIMIT as i64 },
            }),
    {
        AABB::new(Interval::universe(), Interval::universe(), Interval::universe())
    }

    pub fn x(&self) -> (r: Interval)
        ensures
            r == self.x,
    {
        self.x
    }

    pub fn y(&self) -> (r: Interval)
        ensures
            r == self.y,
    {
        self.y
    }

    pub fn z(&self) -> (r: Interval)
        ensures
            r == self.z,
    {
        self.z
    }

    /// The box translated by an offset.
    pub fn shift(&self, offset: Vector) -> (r: AABB)
        requires
            ivl_bounded(self.x, 0x2000_0000_0000_0000),
            ivl_bounded(self.y, 0x2000_0000_0000_0000),
            ivl_bounded(self.z, 0x2000_0000_0000_0000),
            in_range(offset, 0x2000_0000_0000_0000),
        ensures
            r.x.min == self.x.min + offset.x,
            r.x.max == self.x.max + offset.x,
            r.y.min == self.y.min + offset.y,
            r.y.max == self.y.max + offset.y,
            r.z.min == self.z.min + offset.z,
            r.z.max == self.z.max + offset.z,
    {
        AABB {
            x: self.x.shift(offset.x),
            y: self.y.shift(offset.y),
            z: self.z.shift(offset.z),
        }
    }

    /// The exact set of distances at which the ray is inside one axis
    /// range: empty, everything, or the integer interval `[lo, hi]`.
    fn axis_range(iv: Interval, o: i64, d: i64) -> (r: (bool, i128, i128))
        ensures
            r.0 ==> forall|t: int|
                -0x1_0000_0000_0000_0000 <= t <= 0x1_0000_0000_0000_0000 ==> !axis_contains(
                    iv,
                    o as int,
                    d as int,
                    t,
                ),
            !r.0 ==> forall|t: int|
                -0x1_0000_0000_0000_0000 <= t <= 0x1_0000_0000_0000_0000 ==> (#[trigger] axis_contains(
                    iv,
                    o as int,
                    d as int,
                    t,
                ) <==> r.1 <= t <= r.2),
            -0x10_0000_0000_0000_0000_0000_0000 <= r.1 <= 0x10_0000_0000_0000_0000_0000_0000,
            -0x10_0000_0000_0000_0000_0000_0000 <= r.2 <= 0x10_0000_0000_0000_0000_0000_0000,
    {
        if d == 0 {
            if iv.min <= o && o <= iv.max {
                proof {
                    assert forall|t: int|
                        -0x1_0000_0000_0000_0000 <= t <= 0x1_0000_0000_0000_0000 implies (
                    #[trigger] axis_contains(iv, o as int, d as int, t) <==> (
                    -0x10_0000_0000_0000_0000_0000_0000 <= t
                        <= 0x10_0000_0000_0000_0000_0000_0000)) by {
                        assert(t * (d as int) == 0) by (nonlinear_arith)
                            requires
                                d == 0,
                        ;
                        assert(at_coord(o as int, d as int, t) == o);
                    };
                }
                (false, -0x10_0000_0000_0000_0000_0000_0000, 0x10_0000_0000_0000_0000_0000_0000)
            } else {
                proof {
                    assert forall|t: int|
                        -0x1_0000_0000_0000_0000 <= t <= 0x1_0000_0000_0000_0000 implies
                        !axis_contains(iv, o as int, d as int, t) by {
                        assert(t * (d as int) == 0) by (nonlinear_arith)
                            requires
                                d == 0,
                        ;
                        assert(at_coord(o as int, d as int, t) == o);
                    };
                }
                (true, 0, 0)
            }
        } else {
            let a: i128 = (iv.min as i128) - (o as i128);
            let b: i128 = (iv.max as i128) - (o as i128);
            proof {
                assert(-0x1000_0000_0000_0000_0000_0000 <= (a as int) * (ONE as int)
                    <= 0x1000_0000_0000_0000_0000_0000) by (nonlinear_arith)
                    requires
                        -0x2_0000_0000_0000_0000 <= (a as int) <= 0x2_0000_0000_0000_0000,
                ;
                assert(-0x1000_0000_0000_0000_0000_0000 <= ((b as int) + 1) * (ONE as int)
                    <= 0x1000_0000_0000_0000_0000_0000) by (nonlinear_arith)
                    requires
                        -0x2_0000_0000_0000_0000 <= (b as int) <= 0x2_0000_0000_0000_0000,
                ;
            }
            let a_s: i128 = a * (ONE as i128);
            let bs1: i128 = (b + 1) * (ONE as i128) - 1;
            let lo: i128;
            let hi: i128;
            if d > 0 {
                lo = div_q_i128(a_s + (d as i128) - 1, d as i128);
                hi = div_q_i128(bs1, d as i128);
            } else {
                let e: i128 = -(d as i128);
                lo = div_q_i128(-bs1 + e - 1, e);
                hi = div_q_i128(-a_s, e);
            }
            proof {
                assert forall|t: int|
                    -0x1_0000_0000_0000_0000 <= t <= 0x1_0000_0000_0000_0000 implies (
                #[trigger] axis_contains(iv, o as int, d as int, t) <==> (lo as int <= t
                    <= hi as int)) by {
                    let td = t * (d as int);
                    lemma_div_ge_iff(td, a as int, ONE as int);
                    lemma_div_ge_iff(td, (b as int) + 1, ONE as int);
                    assert(axis_contains(iv, o as int, d as int, t) <==> (td >= a_s && td
                        <= bs1));
                    if d > 0 {
                        lemma_mul_ge_iff(t, a_s as int, d as int);
                        lemma_mul_le_iff(t, bs1 as int, d as int);
                    } else {
                        let e = -(d as int);
                        assert(t * (d as int) == -(t * e)) by (nonlinear_arith)
                            requires
                                e == -(d as int),
                        ;
                        lemma_mul_le_iff(t, -(a_s as int), e);
                        lemma_mul_ge_iff(t, -(bs1 as int), e);
                    }
                };
            }
            (false, lo, hi)
        }
    }

    /// The exact slab test: true when some distance strictly inside
    /// `(tmin, tmax)` puts the ray inside the box.
    pub fn hit(&self, ray: &Ray, tmin: i64, tmax: i64) -> (r: bool)
        ensures
            r == box_hit_spec(*self, *ray, tmin as int, tmax as int),
    {
        let (ex, lox, hix) = Self::axis_range(self.x, ray.origin.x, ray.direction.x);
        let (ey, loy, hiy) = Self::axis_range(self.y, ray.origin.y, ray.direction.y);
        let (ez, loz, hiz) = Self::axis_range(self.z, ray.origin.z, ray.direction.z);
        if ex || ey || ez {
            proof {
                assert forall|t: int| (tmin as int) < t < (tmax as int) implies !box_contains_at(
                    *self,
                    *ray,
                    t,
                ) by {
                    assert(-0x1_0000_0000_0000_0000 <= t <= 0x1_0000_0000_0000_0000);
                    if box_contains_at(*self, *ray, t) {
                        assert(axis_contains(self.x, ray.origin.x as int, ray.direction.x as int, t));
                        assert(axis_contains(self.y, ray.origin.y as int, ray.direction.y as int, t));
                        assert(axis_contains(self.z, ray.origin.z as int, ray.direction.z as int, t));
                    }
                };
            }
            return false;
        }
        let mut lo: i128 = lox;
        if loy > lo {
            lo = loy;
        }
        if loz > lo {
            lo = loz;
        }
        let t0: i128 = (tmin as i128) + 1;
        if t0 > lo {
            lo = t0;
        }
        let mut hi: i128 = hix;
        if hiy < hi {
            hi = hiy;
        }
        if hiz < hi {
            hi = hiz;
        }
        let t1: i128 = (tmax as i128) - 1;
        if t1 < hi {
            hi = t1;
        }
        let ans = lo <= hi;
        proof {
            if ans {
                let w = lo as int;
                assert(-0x1_0000_0000_0000_0000 <= w <= 0x1_0000_0000_0000_0000);
                assert(axis_contains(self.x, ray.origin.x as int, ray.direction.x as int, w));
                assert(axis_contains(self.y, ray.origin.y as int, ray.direction.y as int, w));
                assert(axis_contains(self.z, ray.origin.z as int, ray.direction.z as int, w));
                assert(box_contains_at(*self, *ray, w));
                assert((tmin as int) < w < (tmax as int));
            } else {
                assert forall|t: int| (tmin as int) < t < (tmax as int) implies !box_contains_at(
                    *self,
                    *ray,
                    t,
                ) by {
                    assert(-0x1_0000_0000_0000_0000 <= t <= 0x1_0000_0000_0000_0000);
                    if box_contains_at(*self, *ray, t) {
                        assert(axis_contains(self.x, ray.origin.x as int, ray.direction.x as int, t));
                        assert(axis_contains(self.y, ray.origin.y as int, ray.direction.y as int, t));
                        assert(axis_contains(self.z, ray.origin.z as int, ray.direction.z as int, t));
                        assert(lox <= t <= hix);
                        assert(loy <= t <= hiy);
                        assert(loz <= t <= hiz);
                    }
                };
            }
        }
        ans
    }
}

/// The axis range selected by index, as the executable selector picks it.
pub open spec fn spec_axis_of(b: AABB, n: int) -> Interval {
    if n == 1 {
        b.y
    } else if n == 2 {
        b.z
    } else {
        b.x
    }
}

/// One axis range contains the ray's coordinate at distance `t`.
pub open spec fn axis_contains(iv: Interval, o: int, d: int, t: int) -> bool {
    iv.min <= at_coord(o, d, t) <= iv.max
}

} // verus!
