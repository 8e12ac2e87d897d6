//! Geometric primitives: spheres and quadrilaterals, with translation,
//! axis rotation and an optional constant-density medium.
//!
//! Every hit function is specified exactly over the integers.  A hit
//! test first checks that its inputs are inside the band the fixed-point
//! arithmetic is exact for, and a successful hit is checked to lie inside
//! the primitive's own bounding box; both checks are part of the
//! specification, which is what makes the BVH traversal provably
//! equivalent to a linear scan.

use vstd::prelude::*;
use crate::fixed::ONE;
use crate::fixed::T_LIMIT;
use crate::fixed::COORD_LIMIT;
use crate::fixed::div_q;
use crate::fixed::mul_q;
use crate::fixed::quot_q;
use crate::fixed::div_q_i128;
use crate::fixed::sqrt_floor;
use crate::fixed::isqrt_u128;
use crate::fixed::lemma_div_range;
use crate::fixed::sin_deg;
use crate::fixed::cos_deg;
use crate::vector::Vector;
use crate::vector::Color;
use crate::vector::in_range;
use crate::vector::dot_spec;
use crate::vector::norm2_spec;
use crate::aabb::AABB;
use crate::aabb::box_contains_at;
use crate::ray::Ray;
use crate::ray::at_coord;
use crate::material::Material;
use crate::material::material_wf;
use crate::material::HitRecord;
use crate::texture::Texture;
use crate::rng::Randomizer;
use crate::rng::random;
use crate::rng::random_index;

verus! {

/// Coordinates a hit test works on must stay inside this band for the
/// fixed-point arithmetic to stay in machine range.
pub const GEOM_LIMIT: i64 = 0x8_0000_0000;

/// Minimum gap between the two boundary crossings of a medium.
pub const MEDIUM_EPS: i64 = 7;

/// The geometric kind of a primitive.
#[derive(Clone, Copy)]
pub enum HittableType {
    Sphere { center: Ray, radius: i64 },
    Quad { q: Vector, u: Vector, v: Vector, w: Vector, normal: Vector, d: i64, area: i64 },
}

/// A translation plus the cached sine and cosine of a rotation about the
/// vertical axis.
#[derive(Clone, Copy, PartialEq, Eq, Structural, Debug)]
pub struct Transform {
    pub offset: Vector,
    pub sin_theta: i64,
    pub cos_theta: i64,
}

/// A participating volume: the negative inverse density and the phase
/// function used when the ray scatters inside.
pub struct ConstantMedium {
    pub neg_inv_density: i64,
    pub phase_function: Material,
}

/// A primitive with its transform, optional medium, material and cached
/// bounding box.
pub struct Hittable {
    pub hittable: HittableType,
    pub transform: Transform,
    pub medium: ConstantMedium,
    pub is_medium: bool,
    pub material: Material,
    pub bbox: AABB,
}

/// A coordinate rotated into object space.
pub open spec fn rot_fwd_x(c: int, s: int, x: int, z: int) -> int {
    (c * x - s * z) / (ONE as int)
}

pub open spec fn rot_fwd_z(c: int, s: int, x: int, z: int) -> int {
    (s * x + c * z) / (ONE as int)
}

/// A coordinate rotated back into world space.
pub open spec fn rot_back_x(c: int, s: int, x: int, z: int) -> int {
    (c * x + s * z) / (ONE as int)
}

pub open spec fn rot_back_z(c: int, s: int, x: int, z: int) -> int {
    (-s * x + c * z) / (ONE as int)
}

/// A vector rotated into object space about the vertical axis.
pub open spec fn rot_fwd_vec(c: int, s: int, v: Vector) -> Vector {
    Vector {
        x: rot_fwd_x(c, s, v.x as int, v.z as int) as i64,
        y: v.y,
        z: rot_fwd_z(c, s, v.x as int, v.z as int) as i64,
    }
}

/// A vector rotated back into world space.
pub open spec fn rot_back_vec(c: int, s: int, v: Vector) -> Vector {
    Vector {
        x: rot_back_x(c, s, v.x as int, v.z as int) as i64,
        y: v.y,
        z: rot_back_z(c, s, v.x as int, v.z as int) as i64,
    }
}

/// The band check every hit test performs before doing arithmetic: the
/// ray, the transform and the primitive's defining values must be inside
/// `GEOM_LIMIT`, and the time inside one exposure.
pub open spec fn hit_guard(h: Hittable, ray: Ray) -> bool {
    &&& in_range(ray.origin, GEOM_LIMIT as int)
    &&& in_range(ray.direction, GEOM_LIMIT as int)
    &&& 0 <= ray.time <= ONE
    &&& hittable_geom_wf(h)
}

/// The primitive's own values inside the exactness band.
pub open spec fn hittable_geom_wf(h: Hittable) -> bool {
    &&& in_range(h.transform.offset, GEOM_LIMIT as int)
    &&& -ONE <= h.transform.sin_theta <= ONE
    &&& -ONE <= h.transform.cos_theta <= ONE
    &&& match h.hittable {
        HittableType::Sphere { center, radius } => {
            &&& in_range(center.origin, GEOM_LIMIT as int)
            &&& in_range(center.direction, GEOM_LIMIT as int)
            &&& 1 <= radius <= GEOM_LIMIT
        },
        HittableType::Quad { q, u, v, w, normal, d, area } => {
            &&& in_range(q, GEOM_LIMIT as int)
            &&& in_range(u, GEOM_LIMIT as int)
            &&& in_range(v, GEOM_LIMIT as int)
            &&& in_range(w, 0x2_0000_0000)
            &&& in_range(normal, 2 * ONE as int)
            &&& -0x1_0000_0000_0000 <= d <= 0x1_0000_0000_0000
        },
    }
}

/// A primitive the renderer can hold in a scene: geometry in band, a
/// well-formed material, a meaningful medium, and a bounded cached box.
pub open spec fn hittable_wf(h: Hittable) -> bool {
    &&& hittable_geom_wf(h)
    &&& material_wf(h.material)
    &&& h.is_medium ==> material_wf(h.medium.phase_function) && h.medium.neg_inv_density <= 0
    &&& crate::interval::ivl_bounded(h.bbox.x, 0x200_0000_0000)
    &&& crate::interval::ivl_bounded(h.bbox.y, 0x200_0000_0000)
    &&& crate::interval::ivl_bounded(h.bbox.z, 0x200_0000_0000)
}

/// The hit of an untransformed sphere against a (possibly rotated) ray,
/// on the open parametric range.
pub open spec fn sphere_hit_spec(
    center: Ray,
    radius: i64,
    ray: Ray,
    tmin: int,
    tmax: int,
) -> Option<HitRecord> {
    let cc = Vector {
        x: at_coord(center.origin.x as int, center.direction.x as int, ray.time as int) as i64,
        y: at_coord(center.origin.y as int, center.direction.y as int, ray.time as int) as i64,
        z: at_coord(center.origin.z as int, center.direction.z as int, ray.time as int) as i64,
    };
    let oc = Vector {
        x: (cc.x - ray.origin.x) as i64,
        y: (cc.y - ray.origin.y) as i64,
        z: (cc.z - ray.origin.z) as i64,
    };
    let a = dot_spec(ray.direction, ray.direction);
    let h = dot_spec(ray.direction, oc);
    let c = dot_spec(oc, oc) - mul_q(radius as int, radius as int);
    let disc = h * h - a * c;
    if a <= 0 || disc < 0 {
        None
    } else {
        let sq = sqrt_floor(disc);
        let r1 = div_q((h - sq) * ONE, a);
        let r2 = div_q((h + sq) * ONE, a);
        let root_opt: Option<int> = if tmin < r1 < tmax {
            Some(r1)
        } else if tmin < r2 < tmax {
            Some(r2)
        } else {
            None
        };
        if root_opt is None {
            None
        } else {
            let root = root_opt->Some_0;
            let px = at_coord(ray.origin.x as int, ray.direction.x as int, root);
            let py = at_coord(ray.origin.y as int, ray.direction.y as int, root);
            let pz = at_coord(ray.origin.z as int, ray.direction.z as int, root);
            if -0x20_0000_0000 <= px <= 0x20_0000_0000 && -0x20_0000_0000 <= py
                <= 0x20_0000_0000 && -0x20_0000_0000 <= pz <= 0x20_0000_0000 {
                let ox = quot_q(px - cc.x, radius as int);
                let oy = quot_q(py - cc.y, radius as int);
                let oz = quot_q(pz - cc.z, radius as int);
                if -2 * ONE <= ox <= 2 * ONE && -2 * ONE <= oy <= 2 * ONE && -2 * ONE <= oz <= 2
                    * ONE {
                    let outward = Vector { x: ox as i64, y: oy as i64, z: oz as i64 };
                    let front = dot_spec(ray.direction, outward) < 0;
                    let normal = if front {
                        outward
                    } else {
                        Vector { x: (-ox) as i64, y: (-oy) as i64, z: (-oz) as i64 }
                    };
                    Some(HitRecord {
                        p: Vector { x: px as i64, y: py as i64, z: pz as i64 },
                        t: root as i64,
                        normal,
                        front_face: front,
                        u: sphere_u_spec(outward) as i64,
                        v: sphere_v_spec(outward) as i64,
                    })
                } else {
                    None
                }
            } else {
                None
            }
        }
    }
}

/// The azimuthal surface coordinate of a point on the unit sphere: a
/// diamond-angle parametrization of `atan2`, monotone around the equator
/// and exact on the axes.
pub open spec fn sphere_u_spec(p: Vector) -> int {
    let dx = p.x as int;
    let dy = -(p.z as int);
    if dx == 0 && dy == 0 {
        0
    } else {
        let s = (if dx >= 0 {
            dx
        } else {
            -dx
        }) + (if dy >= 0 {
            dy
        } else {
            -dy
        });
        let t = quot_q(dy, s);
        let diamond = if dx >= 0 && dy >= 0 {
            t
        } else if dx < 0 {
            2 * ONE - t
        } else {
            4 * ONE + t
        };
        diamond / 4
    }
}

/// The polar surface coordinate: the linear chord of `acos(-y) / pi`,
/// exact at the poles and the equator.
pub open spec fn sphere_v_spec(p: Vector) -> int {
    let y = if p.y > ONE {
        ONE as int
    } else if p.y < -ONE {
        -(ONE as int)
    } else {
        p.y as int
    };
    (ONE + y) / 2
}

/// The hit of an untransformed quadrilateral against a ray, on the open
/// parametric range.
pub open spec fn quad_hit_spec(
    q: Vector,
    u: Vector,
    v: Vector,
    w: Vector,
    normal: Vector,
    d: i64,
    ray: Ray,
    tmin: int,
    tmax: int,
) -> Option<HitRecord> {
    let denom = dot_spec(normal, ray.direction);
    if denom == 0 {
        None
    } else {
        let t = div_q((d - dot_spec(normal, ray.origin)) * ONE, denom);
        if !(tmin < t < tmax) {
            None
        } else {
            let px = at_coord(ray.origin.x as int, ray.direction.x as int, t);
            let py = at_coord(ray.origin.y as int, ray.direction.y as int, t);
            let pz = at_coord(ray.origin.z as int, ray.direction.z as int, t);
            if -0x20_0000_0000 <= px <= 0x20_0000_0000 && -0x20_0000_0000 <= py
                <= 0x20_0000_0000 && -0x20_0000_0000 <= pz <= 0x20_0000_0000 {
                let hx = px - q.x;
                let hy = py - q.y;
                let hz = pz - q.z;
                let cax = hy * (v.z as int) - hz * (v.y as int);
                let cay = hz * (v.x as int) - hx * (v.z as int);
                let caz = hx * (v.y as int) - hy * (v.x as int);
                let alpha = div_q(
                    (w.x * cax + w.y * cay + w.z * caz),
                    (ONE as int) * ONE,
                );
                let cbx = (u.y as int) * hz - (u.z as int) * hy;
                let cby = (u.z as int) * hx - (u.x as int) * hz;
                let cbz = (u.x as int) * hy - (u.y as int) * hx;
                let beta = div_q(
                    (w.x * cbx + w.y * cby + w.z * cbz),
                    (ONE as int) * ONE,
                );
                if 0 <= alpha <= ONE && 0 <= beta <= ONE {
                    let front = dot_spec(ray.direction, normal) < 0;
                    let nrm = if front {
                        normal
                    } else {
                        Vector {
                            x: (-normal.x) as i64,
                            y: (-normal.y) as i64,
                            z: (-normal.z) as i64,
                        }
                    };
                    Some(HitRecord {
                        p: Vector { x: px as i64, y: py as i64, z: pz as i64 },
                        t: t as i64,
                        normal: nrm,
                        front_face: front,
                        u: alpha as i64,
                        v: beta as i64,
                    })
                } else {
                    None
                }
            } else {
                None
            }
        }
    }
}

/// The world ray carried into the primitive's object space: translated
/// against the offset, then rotated by the inverse of the cached
/// rotation.
pub open spec fn object_space_ray(h: Hittable, ray: Ray) -> Ray {
    let c = h.transform.cos_theta as int;
    let s = h.transform.sin_theta as int;
    let o1 = Vector {
        x: (ray.origin.x - h.transform.offset.x) as i64,
        y: (ray.origin.y - h.transform.offset.y) as i64,
        z: (ray.origin.z - h.transform.offset.z) as i64,
    };
    Ray {
        origin: rot_fwd_vec(c, s, o1),
        direction: rot_fwd_vec(c, s, ray.direction),
        time: ray.time,
    }
}

/// The object-space hit of the primitive's untransformed surface.
pub open spec fn inner_hit_spec(h: Hittable, rr: Ray, tmin: int, tmax: int) -> Option<
    HitRecord,
> {
    match h.hittable {
        HittableType::Sphere { center, radius } => sphere_hit_spec(center, radius, rr, tmin, tmax),
        HittableType::Quad { q, u, v, w, normal, d, area } => quad_hit_spec(
            q,
            u,
            v,
            w,
            normal,
            d,
            rr,
            tmin,
            tmax,
        ),
    }
}

/// An object-space hit record carried back to world space: the point and
/// normal rotated forward and translated, everything else unchanged.
pub open spec fn carried_back_record(h: Hittable, rec0: HitRecord) -> HitRecord {
    let c = h.transform.cos_theta as int;
    let s = h.transform.sin_theta as int;
    let p1 = rot_back_vec(c, s, rec0.p);
    HitRecord {
        p: Vector {
            x: (p1.x + h.transform.offset.x) as i64,
            y: (p1.y + h.transform.offset.y) as i64,
            z: (p1.z + h.transform.offset.z) as i64,
        },
        t: rec0.t,
        normal: rot_back_vec(c, s, rec0.normal),
        front_face: rec0.front_face,
        u: rec0.u,
        v: rec0.v,
    }
}

/// The carried-back record is accepted: point and normal in band and the
/// world-space point inside the cached box.
pub open spec fn carry_guards(h: Hittable, ray: Ray, rec0: HitRecord) -> bool {
    let rec = carried_back_record(h, rec0);
    &&& in_range(rec.p, COORD_LIMIT as int)
    &&& in_range(rec.normal, 2 * ONE as int)
    &&& box_contains_at(h.bbox, ray, rec0.t as int)
}

/// The hit of a primitive's solid surface: the ray is carried into object
/// space, the untransformed surface is intersected, and the hit is
/// carried back and checked against the cached bounding box.
pub open spec fn object_hit_spec(h: Hittable, ray: Ray, tmin: int, tmax: int) -> Option<
    HitRecord,
> {
    if !hit_guard(h, ray) {
        None
    } else {
        match inner_hit_spec(h, object_space_ray(h, ray), tmin, tmax) {
            None => None,
            Some(rec0) => if carry_guards(h, ray, rec0) {
                Some(carried_back_record(h, rec0))
            } else {
                None
            },
        }
    }
}

/// The rotation and translation round trip: testing a transformed
/// primitive against a world ray answers exactly as testing the
/// untransformed surface against the ray carried into object space, with
/// the same parametric distance and the hit point and normal carried
/// back by the forward rotation and the offset.
pub proof fn lemma_rotation_round_trip(h: Hittable, ray: Ray, t0: int, t1: int)
    requires
        hit_guard(h, ray),
    ensures
        object_hit_spec(h, ray, t0, t1) == (match inner_hit_spec(
            h,
            object_space_ray(h, ray),
            t0,
            t1,
        ) {
            None => None::<HitRecord>,
            Some(rec0) => if carry_guards(h, ray, rec0) {
                Some(carried_back_record(h, rec0))
            } else {
                None
            },
        }),
        object_hit_spec(h, ray, t0, t1) matches Some(rec) ==> (inner_hit_spec(
            h,
            object_space_ray(h, ray),
            t0,
            t1,
        ) matches Some(rec0) && rec == carried_back_record(h, rec0) && rec.t == rec0.t),
{
}


/// Rotated coordinates keep twice the magnitude bound of their inputs.
pub proof fn lemma_rot_bound(c: int, s: int, x: int, z: int, b: int)
    requires
        -ONE <= c <= ONE,
        -ONE <= s <= ONE,
        -b <= x <= b,
        -b <= z <= b,
        0 <= b,
    ensures
        -(2 * b) - 1 <= rot_fwd_x(c, s, x, z) <= 2 * b,
        -(2 * b) - 1 <= rot_fwd_z(c, s, x, z) <= 2 * b,
        -(2 * b) - 1 <= rot_back_x(c, s, x, z) <= 2 * b,
        -(2 * b) - 1 <= rot_back_z(c, s, x, z) <= 2 * b,
{
    assert(-((ONE as int) * (2 * b)) <= c * x - s * z <= (ONE as int) * (2 * b) && -((
    ONE as int) * (2 * b)) <= s * x + c * z <= (ONE as int) * (2 * b) && -((ONE as int) * (2
        * b)) <= c * x + s * z <= (ONE as int) * (2 * b) && -((ONE as int) * (2 * b)) <= -s * x
        + c * z <= (ONE as int) * (2 * b)) by (nonlinear_arith)
        requires
            -ONE <= c <= ONE,
            -ONE <= s <= ONE,
            -b <= x <= b,
            -b <= z <= b,
            0 <= b,
    ;
    lemma_div_range(c * x - s * z, ONE as int, (ONE as int) * (2 * b));
    lemma_div_range(s * x + c * z, ONE as int, (ONE as int) * (2 * b));
    lemma_div_range(c * x + s * z, ONE as int, (ONE as int) * (2 * b));
    lemma_div_range(-s * x + c * z, ONE as int, (ONE as int) * (2 * b));
    vstd::arithmetic::div_mod::lemma_div_multiples_vanish(2 * b, ONE as int);
    assert((ONE as int) * (2 * b) == (ONE as int) * (2 * b)) by (nonlinear_arith);
}

/// One coordinate pair rotated into object space.
fn rot_fwd_exec(c: i64, s: i64, v: Vector) -> (r: Vector)
    requires
        -ONE <= c <= ONE,
        -ONE <= s <= ONE,
        in_range(v, 0x1000_0000_0000),
    ensures
        r == rot_fwd_vec(c as int, s as int, v),
        in_range(r, 0x2000_0000_0001),
{
    proof {
        assert(-0x4000_0000_0000_0000_0000_0000_0000_0000 <= (c as int) * (v.x as int)
            <= 0x4000_0000_0000_0000_0000_0000_0000_0000 && -0x4000_0000_0000_0000_0000_0000_0000_0000
            <= (s as int) * (v.z as int) <= 0x4000_0000_0000_0000_0000_0000_0000_0000
            && -0x4000_0000_0000_0000_0000_0000_0000_0000 <= (s as int) * (v.x as int)
            <= 0x4000_0000_0000_0000_0000_0000_0000_0000 && -0x4000_0000_0000_0000_0000_0000_0000_0000
            <= (c as int) * (v.z as int) <= 0x4000_0000_0000_0000_0000_0000_0000_0000)
            by (nonlinear_arith)
            requires
                -0x8000_0000_0000_0000 <= (c as int) <= 0x8000_0000_0000_0000,
                -0x8000_0000_0000_0000 <= (s as int) <= 0x8000_0000_0000_0000,
                -0x8000_0000_0000_0000 <= (v.x as int) <= 0x8000_0000_0000_0000,
                -0x8000_0000_0000_0000 <= (v.z as int) <= 0x8000_0000_0000_0000,
        ;
        lemma_rot_bound(c as int, s as int, v.x as int, v.z as int, 0x1000_0000_0000);
    }
    let nx: i128 = (c as i128) * (v.x as i128) - (s as i128) * (v.z as i128);
    let nz: i128 = (s as i128) * (v.x as i128) + (c as i128) * (v.z as i128);
    let x = div_q_i128(nx, ONE as i128) as i64;
    let z = div_q_i128(nz, ONE as i128) as i64;
    Vector { x, y: v.y, z }
}

/// One coordinate pair rotated back into world space.
fn rot_back_exec(c: i64, s: i64, v: Vector) -> (r: Vector)
    requires
        -ONE <= c <= ONE,
        -ONE <= s <= ONE,
        in_range(v, 0x1000_0000_0000),
    ensures
        r == rot_back_vec(c as int, s as int, v),
        in_range(r, 0x2000_0000_0001),
{
    proof {
        assert(-0x4000_0000_0000_0000_0000_0000_0000_0000 <= (c as int) * (v.x as int)
            <= 0x4000_0000_0000_0000_0000_0000_0000_0000 && -0x4000_0000_0000_0000_0000_0000_0000_0000
            <= (s as int) * (v.z as int) <= 0x4000_0000_0000_0000_0000_0000_0000_0000
            && -0x4000_0000_0000_0000_0000_0000_0000_0000 <= (s as int) * (v.x as int)
            <= 0x4000_0000_0000_0000_0000_0000_0000_0000 && -0x4000_0000_0000_0000_0000_0000_0000_0000
            <= (c as int) * (v.z as int) <= 0x4000_0000_0000_0000_0000_0000_0000_0000)
            by (nonlinear_arith)
            requires
                -0x8000_0000_0000_0000 <= (c as int) <= 0x8000_0000_0000_0000,
                -0x8000_0000_0000_0000 <= (s as int) <= 0x8000_0000_0000_0000,
                -0x8000_0000_0000_0000 <= (v.x as int) <= 0x8000_0000_0000_0000,
                -0x8000_0000_0000_0000 <= (v.z as int) <= 0x8000_0000_0000_0000,
        ;
        lemma_rot_bound(c as int, s as int, v.x as int, v.z as int, 0x1000_0000_0000);
    }
    let nx: i128 = (c as i128) * (v.x as i128) + (s as i128) * (v.z as i128);
    let nz: i128 = -(s as i128) * (v.x as i128) + (c as i128) * (v.z as i128);
    let x = div_q_i128(nx, ONE as i128) as i64;
    let z = div_q_i128(nz, ONE as i128) as i64;
    Vector { x, y: v.y, z }
}

/// Whether the point the ray reaches at `t` lies inside the box, computed
/// exactly.
fn box_contains_at_exec(b: &AABB, ray: &Ray, t: i64) -> (r: bool)
    ensures
        r == box_contains_at(*b, *ray, t as int),
{
    proof {
        assert(-0x4000_0000_0000_0000_0000_0000_0000_0000 <= (t as int) * (ray.direction.x as int)
            <= 0x4000_0000_0000_0000_0000_0000_0000_0000 && -0x4000_0000_0000_0000_0000_0000_0000_0000
            <= (t as int) * (ray.direction.y as int) <= 0x4000_0000_0000_0000_0000_0000_0000_0000
            && -0x4000_0000_0000_0000_0000_0000_0000_0000 <= (t as int) * (ray.direction.z as int)
            <= 0x4000_0000_0000_0000_0000_0000_0000_0000) by (nonlinear_arith)
            requires
                -0x8000_0000_0000_0000 <= (t as int) <= 0x8000_0000_0000_0000,
                -0x8000_0000_0000_0000 <= (ray.direction.x as int) <= 0x8000_0000_0000_0000,
                -0x8000_0000_0000_0000 <= (ray.direction.y as int) <= 0x8000_0000_0000_0000,
                -0x8000_0000_0000_0000 <= (ray.direction.z as int) <= 0x8000_0000_0000_0000,
        ;
        crate::fixed::lemma_div_range(
            (t as int) * (ray.direction.x as int),
            ONE as int,
            0x4000_0000_0000_0000_0000_0000_0000_0000,
        );
        crate::fixed::lemma_div_range(
            (t as int) * (ray.direction.y as int),
            ONE as int,
            0x4000_0000_0000_0000_0000_0000_0000_0000,
        );
        crate::fixed::lemma_div_range(
            (t as int) * (ray.direction.z as int),
            ONE as int,
            0x4000_0000_0000_0000_0000_0000_0000_0000,
        );
    }
    let px: i128 = (ray.origin.x as i128) + div_q_i128(
        (t as i128) * (ray.direction.x as i128),
        ONE as i128,
    );
    let py: i128 = (ray.origin.y as i128) + div_q_i128(
        (t as i128) * (ray.direction.y as i128),
        ONE as i128,
    );
    let pz: i128 = (ray.origin.z as i128) + div_q_i128(
        (t as i128) * (ray.direction.z as i128),
        ONE as i128,
    );
    (b.x.min as i128) <= px && px <= (b.x.max as i128) && (b.y.min as i128) <= py && py
        <= (b.y.max as i128) && (b.z.min as i128) <= pz && pz <= (b.z.max as i128)
}

impl Hittable {
    /// The untransformed sphere intersection: the stable half-angle
    /// quadratic, smaller root first.
    fn hit_sphere(center: Ray, radius: i64, rr: &Ray, tmin: i64, tmax: i64) -> (r: Option<
        HitRecord,
    >)
        requires
            in_range(rr.origin, 0x20_0000_0001),
            in_range(rr.direction, 0x10_0000_0001),
            0 <= rr.time <= ONE,
            in_range(center.origin, GEOM_LIMIT as int),
            in_range(center.direction, GEOM_LIMIT as int),
            1 <= radius <= GEOM_LIMIT,
        ensures
            r == sphere_hit_spec(center, radius, *rr, tmin as int, tmax as int),
    {
        proof {
            assert(0 <= (rr.time as int) * center.direction.x
                <= (ONE as int) * GEOM_LIMIT || 0 >= (rr.time as int) * center.direction.x
                >= -((ONE as int) * GEOM_LIMIT)) by (nonlinear_arith)
                requires
                    0 <= rr.time <= ONE,
                    -GEOM_LIMIT <= center.direction.x <= GEOM_LIMIT,
            ;
            assert(0 <= (rr.time as int) * center.direction.y
                <= (ONE as int) * GEOM_LIMIT || 0 >= (rr.time as int) * center.direction.y
                >= -((ONE as int) * GEOM_LIMIT)) by (nonlinear_arith)
                requires
                    0 <= rr.time <= ONE,
                    -GEOM_LIMIT <= center.direction.y <= GEOM_LIMIT,
            ;
            assert(0 <= (rr.time as int) * center.direction.z
                <= (ONE as int) * GEOM_LIMIT || 0 >= (rr.time as int) * center.direction.z
                >= -((ONE as int) * GEOM_LIMIT)) by (nonlinear_arith)
                requires
                    0 <= rr.time <= ONE,
                    -GEOM_LIMIT <= center.direction.z <= GEOM_LIMIT,
            ;
            lemma_div_range(
                (rr.time as int) * center.direction.x,
                ONE as int,
                (ONE as int) * GEOM_LIMIT,
            );
            lemma_div_range(
                (rr.time as int) * center.direction.y,
                ONE as int,
                (ONE as int) * GEOM_LIMIT,
            );
            lemma_div_range(
                (rr.time as int) * center.direction.z,
                ONE as int,
                (ONE as int) * GEOM_LIMIT,
            );
            vstd::arithmetic::div_mod::lemma_div_multiples_vanish(GEOM_LIMIT as int, ONE as int);
        }
        let cc = center.at(rr.time);
        let oc = cc.sub(rr.origin);
        let a = rr.direction.len_squared();
        let h = rr.direction.dot(oc);
        proof {
            assert(0 <= (radius as int) * radius <= (GEOM_LIMIT as int) * GEOM_LIMIT)
                by (nonlinear_arith)
                requires
                    1 <= radius <= GEOM_LIMIT,
            ;
            lemma_div_range((radius as int) * radius, ONE as int, (GEOM_LIMIT as int) * GEOM_LIMIT);
            vstd::arithmetic::div_mod::lemma_div_pos_is_pos((radius as int) * radius, ONE as int);
        }
        let rad2 = crate::fixed::fmul(radius, radius);
        let cval = oc.len_squared() - rad2;
        proof {
            assert(0 <= (h as int) * h <= 0x1000_0000_0000_0000_0000_0000_0000_0000)
                by (nonlinear_arith)
                requires
                    -0x3000_0000_0000_0001 <= (h as int) <= 0x3000_0000_0000_0000,
            ;
            assert(-0x1000_0000_0000_0000_0000_0000_0000_0000 <= (a as int) * cval
                <= 0x1000_0000_0000_0000_0000_0000_0000_0000) by (nonlinear_arith)
                requires
                    0 <= (a as int) <= 0x3000_0000_0000_0000,
                    -0x3000_0000_0000_0001 <= (cval as int) <= 0x3000_0000_0000_0000,
            ;
        }
        let disc: i128 = (h as i128) * (h as i128) - (a as i128) * (cval as i128);
        if a <= 0 || disc < 0 {
            return None;
        }
        let sq = isqrt_u128(disc as u128);
        proof {
            assert((sq as int) <= 0x1_0000_0000_0000_0000) by (nonlinear_arith)
                requires
                    (sq as int) * sq <= (disc as int),
                    (disc as int) <= 0x2000_0000_0000_0000_0000_0000_0000_0000,
                    0 <= (sq as int),
            ;
        }
        let sqi: i128 = sq as i128;
        proof {
            assert(-0x4000_0000_0000_0000_0000_0000_0000_0000 <= ((h as int) - sqi) * ONE
                <= 0x4000_0000_0000_0000_0000_0000_0000_0000
                && -0x4000_0000_0000_0000_0000_0000_0000_0000 <= ((h as int) + sqi) * ONE
                <= 0x4000_0000_0000_0000_0000_0000_0000_0000) by (nonlinear_arith)
                requires
                    -0x3000_0000_0000_0001 <= (h as int) <= 0x3000_0000_0000_0000,
                    0 <= (sqi as int) <= 0x1_0000_0000_0000_0000,
                    ONE == 65536,
            ;
        }
        let r1 = div_q_i128(((h as i128) - sqi) * (ONE as i128), a as i128);
        let r2 = div_q_i128(((h as i128) + sqi) * (ONE as i128), a as i128);
        let root: i128 = if (tmin as i128) < r1 && r1 < (tmax as i128) {
            r1
        } else if (tmin as i128) < r2 && r2 < (tmax as i128) {
            r2
        } else {
            return None;
        };
        proof {
            assert(-0x4000_0000_0000_0000_0000_0000_0000_0000 <= (root as int) * (
            rr.direction.x as int) <= 0x4000_0000_0000_0000_0000_0000_0000_0000
                && -0x4000_0000_0000_0000_0000_0000_0000_0000 <= (root as int) * (
            rr.direction.y as int) <= 0x4000_0000_0000_0000_0000_0000_0000_0000
                && -0x4000_0000_0000_0000_0000_0000_0000_0000 <= (root as int) * (
            rr.direction.z as int) <= 0x4000_0000_0000_0000_0000_0000_0000_0000)
                by (nonlinear_arith)
                requires
                    -0x8000_0000_0000_0000 <= (root as int) <= 0x8000_0000_0000_0000,
                    in_range(rr.direction, 0x10_0000_0001),
            ;
            lemma_div_range(
                (root as int) * (rr.direction.x as int),
                ONE as int,
                0x4000_0000_0000_0000_0000_0000_0000_0000,
            );
            lemma_div_range(
                (root as int) * (rr.direction.y as int),
                ONE as int,
                0x4000_0000_0000_0000_0000_0000_0000_0000,
            );
            lemma_div_range(
                (root as int) * (rr.direction.z as int),
                ONE as int,
                0x4000_0000_0000_0000_0000_0000_0000_0000,
            );
        }
        let px: i128 = (rr.origin.x as i128) + div_q_i128(
            root * (rr.direction.x as i128),
            ONE as i128,
        );
        let py: i128 = (rr.origin.y as i128) + div_q_i128(
            root * (rr.direction.y as i128),
            ONE as i128,
        );
        let pz: i128 = (rr.origin.z as i128) + div_q_i128(
            root * (rr.direction.z as i128),
            ONE as i128,
        );
        if !(-0x20_0000_0000 <= px && px <= 0x20_0000_0000 && -0x20_0000_0000 <= py && py
            <= 0x20_0000_0000 && -0x20_0000_0000 <= pz && pz <= 0x20_0000_0000) {
            return None;
        }
        let ox = div_q_i128((px - (cc.x as i128)) * (ONE as i128), radius as i128);
        let oy = div_q_i128((py - (cc.y as i128)) * (ONE as i128), radius as i128);
        let oz = div_q_i128((pz - (cc.z as i128)) * (ONE as i128), radius as i128);
        if !(-2 * (ONE as i128) <= ox && ox <= 2 * (ONE as i128) && -2 * (ONE as i128) <= oy
            && oy <= 2 * (ONE as i128) && -2 * (ONE as i128) <= oz && oz <= 2 * (
        ONE as i128)) {
            return None;
        }
        let outward = Vector { x: ox as i64, y: oy as i64, z: oz as i64 };
        let front = rr.direction.dot(outward) < 0;
        let normal = if front {
            outward
        } else {
            outward.neg()
        };
        let (su, sv) = Self::sphere_uv(outward);
        Some(
            HitRecord {
                p: Vector { x: px as i64, y: py as i64, z: pz as i64 },
                t: root as i64,
                normal,
                front_face: front,
                u: su,
                v: sv,
            },
        )
    }

    /// The surface coordinates of a point on the unit sphere.
    fn sphere_uv(outward: Vector) -> (r: (i64, i64))
        requires
            in_range(outward, 2 * ONE as int),
        ensures
            r.0 == sphere_u_spec(outward),
            r.1 == sphere_v_spec(outward),
            0 <= r.0 <= ONE,
            0 <= r.1 <= ONE,
    {
        let dx = outward.x;
        let dy = -outward.z;
        let su: i64;
        if dx == 0 && dy == 0 {
            su = 0;
        } else {
            let adx = if dx >= 0 {
                dx
            } else {
                -dx
            };
            let ady = if dy >= 0 {
                dy
            } else {
                -dy
            };
            let sm = adx + ady;
            proof {
                assert(-(sm as int) * ONE <= (dy as int) * ONE <= (sm as int) * ONE)
                    by (nonlinear_arith)
                    requires
                        -(sm as int) <= dy <= sm,
                        0 < sm,
                ;
                vstd::arithmetic::div_mod::lemma_div_is_ordered(
                    (dy as int) * ONE,
                    (sm as int) * ONE,
                    sm as int,
                );
                vstd::arithmetic::div_mod::lemma_div_is_ordered(
                    -(sm as int) * ONE,
                    (dy as int) * ONE,
                    sm as int,
                );
                assert((sm as int) * ONE == (sm as int) * (ONE as int)) by (nonlinear_arith);
                assert(-(sm as int) * ONE == (sm as int) * (-(ONE as int))) by (nonlinear_arith);
                vstd::arithmetic::div_mod::lemma_div_multiples_vanish(ONE as int, sm as int);
                vstd::arithmetic::div_mod::lemma_div_multiples_vanish(-(ONE as int), sm as int);
                if dy >= 0 {
                    vstd::arithmetic::div_mod::lemma_div_pos_is_pos((dy as int) * ONE, sm as int);
                } else {
                    vstd::arithmetic::div_mod::lemma_div_is_ordered((dy as int) * ONE, 0, sm as int);
                    vstd::arithmetic::div_mod::lemma_div_basics_1(sm as int);
                }
            }
            let t = crate::fixed::fdiv(dy, sm);
            let diamond: i64 = if dx >= 0 && dy >= 0 {
                t
            } else if dx < 0 {
                2 * ONE - t
            } else {
                4 * ONE + t
            };
            su = diamond / 4;
        }
        let yc: i64 = if outward.y > ONE {
            ONE
        } else if outward.y < -ONE {
            -ONE
        } else {
            outward.y
        };
        let sv = (ONE + yc) / 2;
        (su, sv)
    }
}


impl Hittable {
    /// The untransformed quadrilateral intersection: plane crossing, then
    /// the two planar coordinates against the unit square.
    fn hit_quad(
        q: Vector,
        u: Vector,
        v: Vector,
        w: Vector,
        normal: Vector,
        d: i64,
        rr: &Ray,
        tmin: i64,
        tmax: i64,
    ) -> (r: Option<HitRecord>)
        requires
            in_range(rr.origin, 0x20_0000_0001),
            in_range(rr.direction, 0x10_0000_0001),
            in_range(q, GEOM_LIMIT as int),
            in_range(u, GEOM_LIMIT as int),
            in_range(v, GEOM_LIMIT as int),
            in_range(w, 0x2_0000_0000),
            in_range(normal, 2 * ONE as int),
            -0x1_0000_0000_0000 <= d <= 0x1_0000_0000_0000,
        ensures
            r == quad_hit_spec(q, u, v, w, normal, d, *rr, tmin as int, tmax as int),
    {
        let denom = normal.dot(rr.direction);
        if denom == 0 {
            return None;
        }
        let dn = normal.dot(rr.origin);
        let t128 = div_q_i128(((d as i128) - (dn as i128)) * (ONE as i128), denom as i128);
        if !((tmin as i128) < t128 && t128 < (tmax as i128)) {
            return None;
        }
        proof {
            assert(-0x4000_0000_0000_0000_0000_0000_0000_0000 <= (t128 as int) * (
            rr.direction.x as int) <= 0x4000_0000_0000_0000_0000_0000_0000_0000
                && -0x4000_0000_0000_0000_0000_0000_0000_0000 <= (t128 as int) * (
            rr.direction.y as int) <= 0x4000_0000_0000_0000_0000_0000_0000_0000
                && -0x4000_0000_0000_0000_0000_0000_0000_0000 <= (t128 as int) * (
            rr.direction.z as int) <= 0x4000_0000_0000_0000_0000_0000_0000_0000)
                by (nonlinear_arith)
                requires
                    -0x8000_0000_0000_0000 <= (t128 as int) <= 0x8000_0000_0000_0000,
                    in_range(rr.direction, 0x10_0000_0001),
            ;
            lemma_div_range(
                (t128 as int) * (rr.direction.x as int),
                ONE as int,
                0x4000_0000_0000_0000_0000_0000_0000_0000,
            );
            lemma_div_range(
                (t128 as int) * (rr.direction.y as int),
                ONE as int,
                0x4000_0000_0000_0000_0000_0000_0000_0000,
            );
            lemma_div_range(
                (t128 as int) * (rr.direction.z as int),
                ONE as int,
                0x4000_0000_0000_0000_0000_0000_0000_0000,
            );
        }
        let px: i128 = (rr.origin.x as i128) + div_q_i128(
            t128 * (rr.direction.x as i128),
            ONE as i128,
        );
        let py: i128 = (rr.origin.y as i128) + div_q_i128(
            t128 * (rr.direction.y as i128),
            ONE as i128,
        );
        let pz: i128 = (rr.origin.z as i128) + div_q_i128(
            t128 * (rr.direction.z as i128),
            ONE as i128,
        );
        if !(-0x20_0000_0000 <= px && px <= 0x20_0000_0000 && -0x20_0000_0000 <= py && py
            <= 0x20_0000_0000 && -0x20_0000_0000 <= pz && pz <= 0x20_0000_0000) {
            return None;
        }
        let hx: i128 = px - (q.x as i128);
        let hy: i128 = py - (q.y as i128);
        let hz: i128 = pz - (q.z as i128);
        proof {
            assert forall|a: int, b: int|
                -0x40_0000_0000 <= a <= 0x40_0000_0000 && -0x40_0000_0000 <= b
                    <= 0x40_0000_0000 implies -0x1000_0000_0000_0000_0000 <= #[trigger] (a * b)
                <= 0x1000_0000_0000_0000_0000 by {
                assert(-0x1000_0000_0000_0000_0000 <= a * b <= 0x1000_0000_0000_0000_0000)
                    by (nonlinear_arith)
                    requires
                        -0x40_0000_0000 <= a <= 0x40_0000_0000,
                        -0x40_0000_0000 <= b <= 0x40_0000_0000,
                ;
            };
        }
        let cax: i128 = hy * (v.z as i128) - hz * (v.y as i128);
        let cay: i128 = hz * (v.x as i128) - hx * (v.z as i128);
        let caz: i128 = hx * (v.y as i128) - hy * (v.x as i128);
        let cbx: i128 = (u.y as i128) * hz - (u.z as i128) * hy;
        let cby: i128 = (u.z as i128) * hx - (u.x as i128) * hz;
        let cbz: i128 = (u.x as i128) * hy - (u.y as i128) * hx;
        proof {
            assert forall|a: int, b: int|
                -0x2_0000_0000 <= a <= 0x2_0000_0000 && -0x2000_0000_0000_0000_0000 <= b
                    <= 0x2000_0000_0000_0000_0000 implies -0x4_0000_0000_0000_0000_0000_0000_0000
                <= #[trigger] (a * b) <= 0x4_0000_0000_0000_0000_0000_0000_0000 by {
                assert(-0x4_0000_0000_0000_0000_0000_0000_0000 <= a * b
                    <= 0x4_0000_0000_0000_0000_0000_0000_0000) by (nonlinear_arith)
                    requires
                        -0x2_0000_0000 <= a <= 0x2_0000_0000,
                        -0x2000_0000_0000_0000_0000 <= b <= 0x2000_0000_0000_0000_0000,
                ;
            };
            assert((ONE as int) * ONE == 0x1_0000_0000) by (nonlinear_arith)
                requires
                    ONE == 65536,
            ;
        }
        let alpha = div_q_i128(
            (w.x as i128) * cax + (w.y as i128) * cay + (w.z as i128) * caz,
            0x1_0000_0000,
        );
        let beta = div_q_i128(
            (w.x as i128) * cbx + (w.y as i128) * cby + (w.z as i128) * cbz,
            0x1_0000_0000,
        );
        if !(0 <= alpha && alpha <= (ONE as i128) && 0 <= beta && beta <= (ONE as i128)) {
            return None;
        }
        let front = rr.direction.dot(normal) < 0;
        let nrm = if front {
            normal
        } else {
            normal.neg()
        };
        Some(
            HitRecord {
                p: Vector { x: px as i64, y: py as i64, z: pz as i64 },
                t: t128 as i64,
                normal: nrm,
                front_face: front,
                u: alpha as i64,
                v: beta as i64,
            },
        )
    }

    /// Whether this primitive and ray are inside the exactness band.
    fn hit_guard_exec(&self, ray: &Ray) -> (b: bool)
        ensures
            b == hit_guard(*self, *ray),
    {
        let ray_ok = ray.origin.x >= -GEOM_LIMIT && ray.origin.x <= GEOM_LIMIT && ray.origin.y
            >= -GEOM_LIMIT && ray.origin.y <= GEOM_LIMIT && ray.origin.z >= -GEOM_LIMIT
            && ray.origin.z <= GEOM_LIMIT && ray.direction.x >= -GEOM_LIMIT && ray.direction.x
            <= GEOM_LIMIT && ray.direction.y >= -GEOM_LIMIT && ray.direction.y <= GEOM_LIMIT
            && ray.direction.z >= -GEOM_LIMIT && ray.direction.z <= GEOM_LIMIT && ray.time >= 0
            && ray.time <= ONE;
        let tr_ok = self.transform.offset.x >= -GEOM_LIMIT && self.transform.offset.x
            <= GEOM_LIMIT && self.transform.offset.y >= -GEOM_LIMIT && self.transform.offset.y
            <= GEOM_LIMIT && self.transform.offset.z >= -GEOM_LIMIT && self.transform.offset.z
            <= GEOM_LIMIT && self.transform.sin_theta >= -ONE && self.transform.sin_theta <= ONE
            && self.transform.cos_theta >= -ONE && self.transform.cos_theta <= ONE;
        let kind_ok = match &self.hittable {
            HittableType::Sphere { center, radius } => {
                center.origin.x >= -GEOM_LIMIT && center.origin.x <= GEOM_LIMIT
                    && center.origin.y >= -GEOM_LIMIT && center.origin.y <= GEOM_LIMIT
                    && center.origin.z >= -GEOM_LIMIT && center.origin.z <= GEOM_LIMIT
                    && center.direction.x >= -GEOM_LIMIT && center.direction.x <= GEOM_LIMIT
                    && center.direction.y >= -GEOM_LIMIT && center.direction.y <= GEOM_LIMIT
                    && center.direction.z >= -GEOM_LIMIT && center.direction.z <= GEOM_LIMIT
                    && *radius >= 1 && *radius <= GEOM_LIMIT
            },
            HittableType::Quad { q, u, v, w, normal, d, area } => {
                q.x >= -GEOM_LIMIT && q.x <= GEOM_LIMIT && q.y >= -GEOM_LIMIT && q.y
                    <= GEOM_LIMIT && q.z >= -GEOM_LIMIT && q.z <= GEOM_LIMIT && u.x
                    >= -GEOM_LIMIT && u.x <= GEOM_LIMIT && u.y >= -GEOM_LIMIT && u.y
                    <= GEOM_LIMIT && u.z >= -GEOM_LIMIT && u.z <= GEOM_LIMIT && v.x
                    >= -GEOM_LIMIT && v.x <= GEOM_LIMIT && v.y >= -GEOM_LIMIT && v.y
                    <= GEOM_LIMIT && v.z >= -GEOM_LIMIT && v.z <= GEOM_LIMIT && w.x
                    >= -0x2_0000_0000 && w.x <= 0x2_0000_0000 && w.y >= -0x2_0000_0000 && w.y
                    <= 0x2_0000_0000 && w.z >= -0x2_0000_0000 && w.z <= 0x2_0000_0000
                    && normal.x >= -2 * ONE && normal.x <= 2 * ONE && normal.y >= -2 * ONE
                    && normal.y <= 2 * ONE && normal.z >= -2 * ONE && normal.z <= 2 * ONE && *d
                    >= -0x1_0000_0000_0000 && *d <= 0x1_0000_0000_0000
            },
        };
        ray_ok && tr_ok && kind_ok
    }

    /// The solid-surface hit: object-space intersection carried back to
    /// world space, checked against the cached box.
    pub fn hit_object(&self, ray: &Ray, tmin: i64, tmax: i64) -> (r: Option<HitRecord>)
        ensures
            r == object_hit_spec(*self, *ray, tmin as int, tmax as int),
    {
        if !self.hit_guard_exec(ray) {
            return None;
        }
        let c = self.transform.cos_theta;
        let s = self.transform.sin_theta;
        let o1 = ray.origin.sub(self.transform.offset);
        let ro = rot_fwd_exec(c, s, o1);
        let rd = rot_fwd_exec(c, s, ray.direction);
        proof {
            lemma_rot_bound(c as int, s as int, o1.x as int, o1.z as int, 0x10_0000_0000);
            lemma_rot_bound(
                c as int,
                s as int,
                ray.direction.x as int,
                ray.direction.z as int,
                0x8_0000_0000,
            );
        }
        let rr = Ray { origin: ro, direction: rd, time: ray.time };
        let inner = match &self.hittable {
            HittableType::Sphere { center, radius } => Self::hit_sphere(
                *center,
                *radius,
                &rr,
                tmin,
                tmax,
            ),
            HittableType::Quad { q, u, v, w, normal, d, area } => Self::hit_quad(
                *q,
                *u,
                *v,
                *w,
                *normal,
                *d,
                &rr,
                tmin,
                tmax,
            ),
        };
        let rec0 = match inner {
            None => {
                return None;
            },
            Some(rec0) => rec0,
        };
        proof {
            match self.hittable {
                HittableType::Sphere { center, radius } => {
                    lemma_sphere_hit_shape(center, radius, rr, tmin as int, tmax as int);
                },
                HittableType::Quad { q, u, v, w, normal, d, area } => {
                    lemma_quad_hit_shape(q, u, v, w, normal, d, rr, tmin as int, tmax as int);
                },
            }
        }
        let p1 = rot_back_exec(c, s, rec0.p);
        let p = p1.add(self.transform.offset);
        let n = rot_back_exec(c, s, rec0.normal);
        let p_ok = p.x >= -COORD_LIMIT && p.x <= COORD_LIMIT && p.y >= -COORD_LIMIT && p.y
            <= COORD_LIMIT && p.z >= -COORD_LIMIT && p.z <= COORD_LIMIT;
        let n_ok = n.x >= -2 * ONE && n.x <= 2 * ONE && n.y >= -2 * ONE && n.y <= 2 * ONE && n.z
            >= -2 * ONE && n.z <= 2 * ONE;
        if p_ok && n_ok && box_contains_at_exec(&self.bbox, ray, rec0.t) {
            Some(
                HitRecord {
                    p,
                    t: rec0.t,
                    normal: n,
                    front_face: rec0.front_face,
                    u: rec0.u,
                    v: rec0.v,
                },
            )
        } else {
            None
        }
    }
}

/// The sphere's surface coordinates stay inside the unit square.
pub proof fn lemma_sphere_uv_bounds(p: Vector)
    requires
        in_range(p, 2 * ONE as int),
    ensures
        0 <= sphere_u_spec(p) <= ONE,
        0 <= sphere_v_spec(p) <= ONE,
{
    let dx = p.x as int;
    let dy = -(p.z as int);
    if !(dx == 0 && dy == 0) {
        let sm = (if dx >= 0 {
            dx
        } else {
            -dx
        }) + (if dy >= 0 {
            dy
        } else {
            -dy
        });
        let t = quot_q(dy, sm);
        assert(-sm * (ONE as int) <= dy * ONE <= sm * (ONE as int)) by (nonlinear_arith)
            requires
                -sm <= dy <= sm,
                0 < sm,
        ;
        vstd::arithmetic::div_mod::lemma_div_is_ordered(dy * ONE, sm * (ONE as int), sm);
        vstd::arithmetic::div_mod::lemma_div_is_ordered(-sm * (ONE as int), dy * ONE, sm);
        assert(sm * (ONE as int) == sm * (ONE as int)) by (nonlinear_arith);
        assert(-sm * (ONE as int) == sm * (-(ONE as int))) by (nonlinear_arith);
        vstd::arithmetic::div_mod::lemma_div_multiples_vanish(ONE as int, sm);
        vstd::arithmetic::div_mod::lemma_div_multiples_vanish(-(ONE as int), sm);
        if dy >= 0 {
            vstd::arithmetic::div_mod::lemma_div_pos_is_pos(dy * ONE, sm);
        } else {
            vstd::arithmetic::div_mod::lemma_div_is_ordered(dy * ONE, 0, sm);
            vstd::arithmetic::div_mod::lemma_div_basics_1(sm);
        }
        assert(-(ONE as int) <= t <= ONE);
        let diamond = if dx >= 0 && dy >= 0 {
            t
        } else if dx < 0 {
            2 * ONE - t
        } else {
            4 * ONE + t
        };
        assert(0 <= diamond <= 4 * ONE);
        vstd::arithmetic::div_mod::lemma_div_pos_is_pos(diamond, 4);
        vstd::arithmetic::div_mod::lemma_div_is_ordered(diamond, 4 * ONE as int, 4);
        vstd::arithmetic::div_mod::lemma_div_multiples_vanish(ONE as int, 4);
        assert(4 * (ONE as int) == 4 * (ONE as int)) by (nonlinear_arith);
    }
    let y = if p.y > ONE {
        ONE as int
    } else if p.y < -ONE {
        -(ONE as int)
    } else {
        p.y as int
    };
    vstd::arithmetic::div_mod::lemma_div_pos_is_pos(ONE + y, 2);
    vstd::arithmetic::div_mod::lemma_div_is_ordered(ONE + y, 2 * ONE as int, 2);
    vstd::arithmetic::div_mod::lemma_div_multiples_vanish(ONE as int, 2);
    assert(2 * (ONE as int) == 2 * (ONE as int)) by (nonlinear_arith);
}

/// A sphere hit stays inside the query band: the distance strictly inside
/// the range, the point and normal inside their guards.
pub proof fn lemma_sphere_hit_shape(center: Ray, radius: i64, rr: Ray, tmin: int, tmax: int)
    requires
        -0x8000_0000_0000_0000 <= tmin,
        tmax <= 0x8000_0000_0000_0000,
    ensures
        sphere_hit_spec(center, radius, rr, tmin, tmax) matches Some(rec) ==> {
            &&& tmin < rec.t < tmax
            &&& in_range(rec.p, 0x20_0000_0000)
            &&& in_range(rec.normal, 2 * ONE as int)
            &&& 0 <= rec.u <= ONE
            &&& 0 <= rec.v <= ONE
        },
{
    if sphere_hit_spec(center, radius, rr, tmin, tmax) is Some {
        let cc = Vector {
            x: at_coord(center.origin.x as int, center.direction.x as int, rr.time as int)
                as i64,
            y: at_coord(center.origin.y as int, center.direction.y as int, rr.time as int)
                as i64,
            z: at_coord(center.origin.z as int, center.direction.z as int, rr.time as int)
                as i64,
        };
        let oc = Vector {
            x: (cc.x - rr.origin.x) as i64,
            y: (cc.y - rr.origin.y) as i64,
            z: (cc.z - rr.origin.z) as i64,
        };
        let a = dot_spec(rr.direction, rr.direction);
        let h = dot_spec(rr.direction, oc);
        let c = dot_spec(oc, oc) - mul_q(radius as int, radius as int);
        let disc = h * h - a * c;
        let sq = sqrt_floor(disc);
        let r1 = div_q((h - sq) * ONE, a);
        let r2 = div_q((h + sq) * ONE, a);
        let root_opt: Option<int> = if tmin < r1 < tmax {
            Some(r1)
        } else if tmin < r2 < tmax {
            Some(r2)
        } else {
            None
        };
        let root = root_opt->Some_0;
        let px = at_coord(rr.origin.x as int, rr.direction.x as int, root);
        let py = at_coord(rr.origin.y as int, rr.direction.y as int, root);
        let pz = at_coord(rr.origin.z as int, rr.direction.z as int, root);
        let ox = quot_q(px - cc.x, radius as int);
        let oy = quot_q(py - cc.y, radius as int);
        let oz = quot_q(pz - cc.z, radius as int);
        let outward = Vector { x: ox as i64, y: oy as i64, z: oz as i64 };
        if -2 * ONE <= ox <= 2 * ONE && -2 * ONE <= oy <= 2 * ONE && -2 * ONE <= oz <= 2
            * ONE {
            lemma_sphere_uv_bounds(outward);
        }
    }
}

/// A quad hit stays inside the query band.
pub proof fn lemma_quad_hit_shape(
    q: Vector,
    u: Vector,
    v: Vector,
    w: Vector,
    normal: Vector,
    d: i64,
    rr: Ray,
    tmin: int,
    tmax: int,
)
    requires
        -0x8000_0000_0000_0000 <= tmin,
        tmax <= 0x8000_0000_0000_0000,
        in_range(normal, 2 * ONE as int),
    ensures
        quad_hit_spec(q, u, v, w, normal, d, rr, tmin, tmax) matches Some(rec) ==> {
            &&& tmin < rec.t < tmax
            &&& in_range(rec.p, 0x20_0000_0000)
            &&& in_range(rec.normal, 2 * ONE as int)
            &&& 0 <= rec.u <= ONE
            &&& 0 <= rec.v <= ONE
        },
{
}


/// The smaller of two scalars.
fn min2(a: i64, b: i64) -> (r: i64)
    ensures
        r == if a <= b {
            a
        } else {
            b
        },
{
    if a <= b {
        a
    } else {
        b
    }
}

/// The larger of two scalars.
fn max2(a: i64, b: i64) -> (r: i64)
    ensures
        r == if a >= b {
            a
        } else {
            b
        },
{
    if a >= b {
        a
    } else {
        b
    }
}

impl Hittable {
    /// A stationary sphere.
    pub fn new_sphere(center: Vector, radius: i64, material: Material) -> (h: Hittable)
        requires
            in_range(center, 0x4_0000_0000),
            1 <= radius <= 0x4_0000_0000,
            material_wf(material),
        ensures
            hittable_wf(h),
            h.hittable matches HittableType::Sphere { center: c, radius: r } && c == (Ray {
                origin: center,
                direction: Vector { x: 0, y: 0, z: 0 },
                time: 0,
            }) && r == radius,
            h.bbox == sphere_bbox_spec(center, radius),
            !h.is_medium,
            h.material == material,
            h.transform == identity_transform(),
    {
        let rvec = Vector { x: radius, y: radius, z: radius };
        let bbox = AABB::new_from_vector(center.sub(rvec), center.add(rvec));
        Hittable {
            hittable: HittableType::Sphere {
                center: Ray::new(center, Vector::zero()),
                radius,
            },
            transform: Transform {
                offset: Vector { x: 0, y: 0, z: 0 },
                sin_theta: 0,
                cos_theta: ONE,
            },
            medium: ConstantMedium {
                neg_inv_density: 0,
                phase_function: Material::new_dielectric(ONE),
            },
            is_medium: false,
            material,
            bbox,
        }
    }

    /// A sphere whose center moves linearly over the exposure.
    pub fn new_moving_sphere(
        center1: Vector,
        center2: Vector,
        radius: i64,
        material: Material,
    ) -> (h: Hittable)
        requires
            in_range(center1, 0x4_0000_0000),
            in_range(center2, 0x4_0000_0000),
            1 <= radius <= 0x4_0000_0000,
            material_wf(material),
        ensures
            hittable_wf(h),
            h.hittable matches HittableType::Sphere { center: c, radius: r } && c == (Ray {
                origin: center1,
                direction: (Vector {
                    x: (center2.x - center1.x) as i64,
                    y: (center2.y - center1.y) as i64,
                    z: (center2.z - center1.z) as i64,
                }),
                time: 0,
            }) && r == radius,
            h.bbox == crate::aabb::union_spec(
                sphere_bbox_spec(center1, radius),
                sphere_bbox_spec(center2, radius),
            ),
            !h.is_medium,
            h.material == material,
            h.transform == identity_transform(),
    {
        let rvec = Vector { x: radius, y: radius, z: radius };
        let bbox1 = AABB::new_from_vector(center1.sub(rvec), center1.add(rvec));
        let bbox2 = AABB::new_from_vector(center2.sub(rvec), center2.add(rvec));
        Hittable {
            hittable: HittableType::Sphere {
                center: Ray::new(center1, center2.sub(center1)),
                radius,
            },
            transform: Transform {
                offset: Vector { x: 0, y: 0, z: 0 },
                sin_theta: 0,
                cos_theta: ONE,
            },
            medium: ConstantMedium {
                neg_inv_density: 0,
                phase_function: Material::new_dielectric(ONE),
            },
            is_medium: false,
            material,
            bbox: AABB::new_from_aabb(&bbox1, &bbox2),
        }
    }

    /// A quadrilateral spanned by two edge vectors from a corner.
    #[verifier::rlimit(100)]
    pub fn new_quad(q: Vector, u: Vector, v: Vector, material: Material) -> (h: Hittable)
        requires
            in_range(q, GEOM_LIMIT as int),
            in_range(u, 0x400_0000),
            in_range(v, 0x400_0000),
            material_wf(material),
        ensures
            hittable_wf(h),
            h.hittable matches HittableType::Quad { q: q_, u: u_, v: v_, w: w_, normal: n_, d: d_, area: a_ }
                && q_ == q && u_ == u && v_ == v && n_ == quad_normal_spec(u, v) && w_
                == quad_w_spec(u, v) && d_ == quad_d_spec(q, u, v) && a_ == quad_area_spec(
                u,
                v,
            ),
            h.bbox == quad_bbox_spec(q, u, v),
            !h.is_medium,
            h.material == material,
            h.transform == identity_transform(),
    {
        let s1 = q.add(u);
        let s2 = s1.add(v);
        let bbox_d1 = AABB::new_from_vector(q, s2);
        let bbox_d2 = AABB::new_from_vector(s1, q.add(v));
        let n = u.cross(v);
        proof {
            assert forall|a: int, b: int, e: int, f: int|
                -0x400_0000 <= a <= 0x400_0000 && -0x400_0000 <= b <= 0x400_0000
                    && -0x400_0000 <= e <= 0x400_0000 && -0x400_0000 <= f
                    <= 0x400_0000 implies -0x20_0000_0000_0000 <= #[trigger] (a * b - e * f)
                <= 0x20_0000_0000_0000 by {
                assert(-0x20_0000_0000_0000 <= a * b - e * f <= 0x20_0000_0000_0000)
                    by (nonlinear_arith)
                    requires
                        -0x400_0000 <= a <= 0x400_0000,
                        -0x400_0000 <= b <= 0x400_0000,
                        -0x400_0000 <= e <= 0x400_0000,
                        -0x400_0000 <= f <= 0x400_0000,
                ;
            };
            lemma_div_range(
                (u.y as int) * v.z - (u.z as int) * v.y,
                ONE as int,
                0x20_0000_0000_0000,
            );
            lemma_div_range(
                (u.z as int) * v.x - (u.x as int) * v.z,
                ONE as int,
                0x20_0000_0000_0000,
            );
            lemma_div_range(
                (u.x as int) * v.y - (u.y as int) * v.x,
                ONE as int,
                0x20_0000_0000_0000,
            );
            assert(in_range(n, COORD_LIMIT as int));
        }
        let normal: Vector;
        if n.near_zero() {
            normal = Vector { x: 0, y: 0, z: ONE };
        } else {
            proof {
                assert(norm2_spec(n) >= 1) by (nonlinear_arith)
                    requires
                        !(n.x == 0 && n.y == 0 && n.z == 0),
                        norm2_spec(n) == n.x as int * n.x + n.y as int * n.y + n.z as int
                            * n.z,
                ;
            }
            normal = n.unit_vector();
        }
        let d = normal.dot(q);
        proof {
            assert(-3 * (ONE as int) * (GEOM_LIMIT as int) <= normal.x as int * q.x
                + normal.y as int * q.y + normal.z as int * q.z <= 3 * (ONE as int) * (
            GEOM_LIMIT as int)) by (nonlinear_arith)
                requires
                    in_range(normal, ONE as int),
                    in_range(q, GEOM_LIMIT as int),
            ;
            lemma_div_range(
                normal.x as int * q.x + normal.y as int * q.y + normal.z as int * q.z,
                ONE as int,
                3 * (ONE as int) * (GEOM_LIMIT as int),
            );
        }
        let nn = n.len_squared();
        let w: Vector;
        if nn == 0 {
            w = Vector { x: 0, y: 0, z: 0 };
        } else {
            proof {
                crate::fixed::lemma_quot_q_fits(n.x as int, nn as int, 0x40_0000_0000);
                crate::fixed::lemma_quot_q_fits(n.y as int, nn as int, 0x40_0000_0000);
                crate::fixed::lemma_quot_q_fits(n.z as int, nn as int, 0x40_0000_0000);
            }
            let wv = n.div(nn);
            if wv.x >= -0x2_0000_0000 && wv.x <= 0x2_0000_0000 && wv.y >= -0x2_0000_0000
                && wv.y <= 0x2_0000_0000 && wv.z >= -0x2_0000_0000 && wv.z <= 0x2_0000_0000 {
                w = wv;
            } else {
                w = Vector { x: 0, y: 0, z: 0 };
            }
        }
        let area = n.len();
        Hittable {
            hittable: HittableType::Quad { q, u, v, w, normal, d, area },
            transform: Transform {
                offset: Vector { x: 0, y: 0, z: 0 },
                sin_theta: 0,
                cos_theta: ONE,
            },
            medium: ConstantMedium {
                neg_inv_density: 0,
                phase_function: Material::new_dielectric(ONE),
            },
            is_medium: false,
            material,
            bbox: AABB::new_from_aabb(&bbox_d1, &bbox_d2),
        }
    }

    /// Caches the rotation's sine and cosine and replaces the box by the
    /// rotated extrema of its corners.
    #[verifier::rlimit(100)]
    pub fn rotate_y(&mut self, theta: i64)
        requires
            hittable_wf(*old(self)),
            -0x100_0000_0000 <= theta <= 0x100_0000_0000,
            crate::interval::ivl_bounded(old(self).bbox.x, 0x80_0000_0000),
            crate::interval::ivl_bounded(old(self).bbox.y, 0x80_0000_0000),
            crate::interval::ivl_bounded(old(self).bbox.z, 0x80_0000_0000),
        ensures
            hittable_wf(*final(self)),
            final(self).transform.sin_theta == crate::fixed::sin_deg_spec(theta as int),
            final(self).transform.cos_theta == crate::fixed::cos_deg_spec(theta as int),
            final(self).transform.offset == old(self).transform.offset,
            final(self).bbox == rotated_hull_spec(
                crate::fixed::cos_deg_spec(theta as int),
                crate::fixed::sin_deg_spec(theta as int),
                old(self).bbox,
            ),
            final(self).hittable == old(self).hittable,
            final(self).material == old(self).material,
            final(self).medium == old(self).medium,
            final(self).is_medium == old(self).is_medium,
    {
        let c = cos_deg(theta);
        let st = sin_deg(theta);
        let bx = self.bbox.x;
        let by = self.bbox.y;
        let bz = self.bbox.z;
        proof {
            lemma_rot_bound(c as int, st as int, bx.min as int, bz.min as int, 0x80_0000_0000);
            lemma_rot_bound(c as int, st as int, bx.min as int, bz.max as int, 0x80_0000_0000);
            lemma_rot_bound(c as int, st as int, bx.max as int, bz.min as int, 0x80_0000_0000);
            lemma_rot_bound(c as int, st as int, bx.max as int, bz.max as int, 0x80_0000_0000);
        }
        let c0 = rot_back_exec(c, st, Vector { x: bx.min, y: by.min, z: bz.min });
        let c1 = rot_back_exec(c, st, Vector { x: bx.min, y: by.min, z: bz.max });
        let c2 = rot_back_exec(c, st, Vector { x: bx.min, y: by.max, z: bz.min });
        let c3 = rot_back_exec(c, st, Vector { x: bx.min, y: by.max, z: bz.max });
        let c4 = rot_back_exec(c, st, Vector { x: bx.max, y: by.min, z: bz.min });
        let c5 = rot_back_exec(c, st, Vector { x: bx.max, y: by.min, z: bz.max });
        let c6 = rot_back_exec(c, st, Vector { x: bx.max, y: by.max, z: bz.min });
        let c7 = rot_back_exec(c, st, Vector { x: bx.max, y: by.max, z: bz.max });
        let mnx = min2(
            min2(min2(c0.x, c1.x), min2(c2.x, c3.x)),
            min2(min2(c4.x, c5.x), min2(c6.x, c7.x)),
        );
        let mny = min2(
            min2(min2(c0.y, c1.y), min2(c2.y, c3.y)),
            min2(min2(c4.y, c5.y), min2(c6.y, c7.y)),
        );
        let mnz = min2(
            min2(min2(c0.z, c1.z), min2(c2.z, c3.z)),
            min2(min2(c4.z, c5.z), min2(c6.z, c7.z)),
        );
        let mxx = max2(
            max2(max2(c0.x, c1.x), max2(c2.x, c3.x)),
            max2(max2(c4.x, c5.x), max2(c6.x, c7.x)),
        );
        let mxy = max2(
            max2(max2(c0.y, c1.y), max2(c2.y, c3.y)),
            max2(max2(c4.y, c5.y), max2(c6.y, c7.y)),
        );
        let mxz = max2(
            max2(max2(c0.z, c1.z), max2(c2.z, c3.z)),
            max2(max2(c4.z, c5.z), max2(c6.z, c7.z)),
        );
        self.bbox = AABB::new_from_vector(
            Vector { x: mnx, y: mny, z: mnz },
            Vector { x: mxx, y: mxy, z: mxz },
        );
        self.transform.cos_theta = c;
        self.transform.sin_theta = st;
    }

    /// Sets the translation offset and shifts the cached box.
    pub fn translate(&mut self, offset: Vector)
        requires
            hittable_wf(*old(self)),
            in_range(offset, GEOM_LIMIT as int),
            crate::interval::ivl_bounded(old(self).bbox.x, 0x100_0000_0000),
            crate::interval::ivl_bounded(old(self).bbox.y, 0x100_0000_0000),
            crate::interval::ivl_bounded(old(self).bbox.z, 0x100_0000_0000),
        ensures
            hittable_wf(*final(self)),
            final(self).transform.offset == offset,
            final(self).transform.sin_theta == old(self).transform.sin_theta,
            final(self).transform.cos_theta == old(self).transform.cos_theta,
            final(self).bbox == shifted_bbox_spec(old(self).bbox, offset),
            final(self).hittable == old(self).hittable,
            final(self).material == old(self).material,
            final(self).medium == old(self).medium,
            final(self).is_medium == old(self).is_medium,
    {
        self.transform.offset = offset;
        self.bbox = self.bbox.shift(offset);
    }

    /// Turns the primitive into a constant-density volume with an
    /// isotropic phase function.
    pub fn add_medium(&mut self, density: i64, albedo: Color)
        requires
            hittable_wf(*old(self)),
            1 <= density <= COORD_LIMIT,
            crate::vector::color_non_neg(albedo),
            crate::vector::color_in_range(albedo, COORD_LIMIT as int),
        ensures
            hittable_wf(*final(self)),
            final(self).is_medium,
            final(self).hittable == old(self).hittable,
            final(self).material == old(self).material,
            final(self).transform == old(self).transform,
            final(self).bbox == old(self).bbox,
    {
        proof {
            crate::fixed::lemma_quot_q_abs(ONE as int, density as int);
            vstd::arithmetic::div_mod::lemma_div_pos_is_pos((ONE as int) * ONE, density as int);
        }
        let inv = crate::fixed::fdiv(ONE, density);
        self.medium = ConstantMedium {
            neg_inv_density: -inv,
            phase_function: Material::new_isotropic(Texture::new_solid(albedo)),
        };
        self.is_medium = true;
    }

    /// The cached bounding box.
    pub fn bounding_box(&self) -> (b: AABB)
        ensures
            b == self.bbox,
    {
        self.bbox
    }

    /// The surface coordinates of a point on the unit sphere.
    pub fn get_sphere_uv(&self, p: Vector, u: &mut i64, v: &mut i64)
        requires
            in_range(p, 2 * ONE as int),
        ensures
            *final(u) == sphere_u_spec(p),
            *final(v) == sphere_v_spec(p),
    {
        let (su, sv) = Self::sphere_uv(p);
        *u = su;
        *v = sv;
    }
}

/// The plane normal a quad stores: the unit cross product of its edges,
/// with a fixed fallback for degenerate edges.
pub open spec fn quad_normal_spec(u: Vector, v: Vector) -> Vector {
    let n = crate::vector::cross_vec(u, v);
    if n.x == 0 && n.y == 0 && n.z == 0 {
        Vector { x: 0, y: 0, z: ONE as i64 }
    } else {
        crate::material::unit_of(n)
    }
}

/// The planar-coordinate basis vector a quad stores: the cross product
/// over its own squared length, zeroed when degenerate or out of band.
pub open spec fn quad_w_spec(u: Vector, v: Vector) -> Vector {
    let n = crate::vector::cross_vec(u, v);
    let nn = dot_spec(n, n);
    if nn == 0 {
        Vector { x: 0, y: 0, z: 0 }
    } else {
        let wv = Vector {
            x: quot_q(n.x as int, nn) as i64,
            y: quot_q(n.y as int, nn) as i64,
            z: quot_q(n.z as int, nn) as i64,
        };
        if in_range(wv, 0x2_0000_0000) {
            wv
        } else {
            Vector { x: 0, y: 0, z: 0 }
        }
    }
}

/// The plane offset a quad stores.
pub open spec fn quad_d_spec(q: Vector, u: Vector, v: Vector) -> int {
    dot_spec(quad_normal_spec(u, v), q)
}

/// The area scale a quad stores: the length of the edge cross product.
pub open spec fn quad_area_spec(u: Vector, v: Vector) -> int {
    crate::vector::len_spec(crate::vector::cross_vec(u, v))
}

/// The cached box a quad stores: the union of the padded boxes of its
/// two corner diagonals.
pub open spec fn quad_bbox_spec(q: Vector, u: Vector, v: Vector) -> AABB {
    crate::aabb::union_spec(
        crate::aabb::from_vectors_spec(
            q,
            Vector {
                x: (q.x + u.x + v.x) as i64,
                y: (q.y + u.y + v.y) as i64,
                z: (q.z + u.z + v.z) as i64,
            },
        ),
        crate::aabb::from_vectors_spec(
            Vector { x: (q.x + u.x) as i64, y: (q.y + u.y) as i64, z: (q.z + u.z) as i64 },
            Vector { x: (q.x + v.x) as i64, y: (q.y + v.y) as i64, z: (q.z + v.z) as i64 },
        ),
    )
}

/// The cached box a sphere stores: the padded box of center plus and
/// minus the radius.
pub open spec fn sphere_bbox_spec(center: Vector, radius: i64) -> AABB {
    crate::aabb::from_vectors_spec(
        Vector {
            x: (center.x - radius) as i64,
            y: (center.y - radius) as i64,
            z: (center.z - radius) as i64,
        },
        Vector {
            x: (center.x + radius) as i64,
            y: (center.y + radius) as i64,
            z: (center.z + radius) as i64,
        },
    )
}

/// A cached box translated by an offset, axis by axis.
pub open spec fn shifted_bbox_spec(b: AABB, offset: Vector) -> AABB {
    AABB {
        x: crate::interval::Interval {
            min: (b.x.min + offset.x) as i64,
            max: (b.x.max + offset.x) as i64,
        },
        y: crate::interval::Interval {
            min: (b.y.min + offset.y) as i64,
            max: (b.y.max + offset.y) as i64,
        },
        z: crate::interval::Interval {
            min: (b.z.min + offset.z) as i64,
            max: (b.z.max + offset.z) as i64,
        },
    }
}

/// The smaller of two mathematical integers.
pub open spec fn smin(a: int, b: int) -> int {
    if a <= b {
        a
    } else {
        b
    }
}

/// The larger of two mathematical integers.
pub open spec fn smax(a: int, b: int) -> int {
    if a >= b {
        a
    } else {
        b
    }
}

/// The padded axis-aligned hull of a box's eight corners rotated about
/// the vertical axis: the extrema of the rotated corner coordinates, as
/// `rotate_y` computes them.
pub open spec fn rotated_hull_spec(c: int, s: int, b: AABB) -> AABB {
    let x00 = rot_back_x(c, s, b.x.min as int, b.z.min as int);
    let x01 = rot_back_x(c, s, b.x.min as int, b.z.max as int);
    let x10 = rot_back_x(c, s, b.x.max as int, b.z.min as int);
    let x11 = rot_back_x(c, s, b.x.max as int, b.z.max as int);
    let z00 = rot_back_z(c, s, b.x.min as int, b.z.min as int);
    let z01 = rot_back_z(c, s, b.x.min as int, b.z.max as int);
    let z10 = rot_back_z(c, s, b.x.max as int, b.z.min as int);
    let z11 = rot_back_z(c, s, b.x.max as int, b.z.max as int);
    crate::aabb::from_vectors_spec(
        Vector {
            x: smin(smin(x00, x01), smin(x10, x11)) as i64,
            y: smin(b.y.min as int, b.y.max as int) as i64,
            z: smin(smin(z00, z01), smin(z10, z11)) as i64,
        },
        Vector {
            x: smax(smax(x00, x01), smax(x10, x11)) as i64,
            y: smax(b.y.min as int, b.y.max as int) as i64,
            z: smax(smax(z00, z01), smax(z10, z11)) as i64,
        },
    )
}

/// The solid-angle density a quad induces at an origin for a direction,
/// exactly as the executable computes it: squared distance over the
/// projected area, each intermediate clamped into its working band, and
/// zero whenever the probe ray misses, the primitive is not a quad, or a
/// denominator degenerates.
pub open spec fn pdf_value_spec(h: Hittable, origin: Vector, direction: Vector) -> int {
    match h.hittable {
        HittableType::Quad { area, .. } => {
            let probe = Ray { origin, direction, time: 0 };
            match object_hit_spec(h, probe, 66, T_LIMIT as int) {
                None => 0,
                Some(rec) => {
                    let dt0 = (rec.t * rec.t) / (ONE as int);
                    let dt = if dt0 > 0x100_0000_0000_0000 {
                        0x100_0000_0000_0000
                    } else {
                        dt0
                    };
                    let len2 = dot_spec(direction, direction);
                    let d20 = (dt * len2) / (ONE as int);
                    let d2 = if d20 > 0x1000_0000_0000_0000 {
                        0x1000_0000_0000_0000
                    } else {
                        d20
                    };
                    let dv = dot_spec(direction, rec.normal);
                    let adv = if dv >= 0 {
                        dv
                    } else {
                        -dv
                    };
                    let len = crate::vector::len_spec(direction);
                    if len == 0 {
                        0
                    } else {
                        let cos0 = (adv * ONE) / len;
                        let cos = if cos0 > 0x4_0000 {
                            0x4_0000
                        } else {
                            cos0
                        };
                        let denom = (cos * area) / (ONE as int);
                        if denom <= 0 {
                            0
                        } else {
                            let res = (d2 * ONE) / denom;
                            if res < 0 {
                                0
                            } else if res > COORD_LIMIT {
                                COORD_LIMIT as int
                            } else {
                                res
                            }
                        }
                    }
                },
            }
        },
        _ => 0,
    }
}

/// The direction a primitive's surface sampler answers with, for the two
/// unit draws it consumed: a point of the quad spanned by the draws,
/// minus the origin; a fixed axis for any other primitive.
pub open spec fn random_toward_spec(
    h: Hittable,
    origin: Vector,
    res: Vector,
    r1: i64,
    r2: i64,
) -> bool {
    match h.hittable {
        HittableType::Quad { q, u, v, .. } => {
            &&& res.x == q.x + mul_q(u.x as int, r1 as int) + mul_q(v.x as int, r2 as int)
                - origin.x
            &&& res.y == q.y + mul_q(u.y as int, r1 as int) + mul_q(v.y as int, r2 as int)
                - origin.y
            &&& res.z == q.z + mul_q(u.z as int, r1 as int) + mul_q(v.z as int, r2 as int)
                - origin.z
        },
        _ => res == (Vector { x: ONE as i64, y: 0, z: 0 }),
    }
}

/// The corner and edge vectors of face `k` of the axis-aligned box with
/// the given opposite corners, in the order the box builder emits them.
pub open spec fn box_face_spec(a: Vector, b: Vector, k: int) -> (Vector, Vector, Vector) {
    let minx = smin(a.x as int, b.x as int);
    let miny = smin(a.y as int, b.y as int);
    let minz = smin(a.z as int, b.z as int);
    let maxx = smax(a.x as int, b.x as int);
    let maxy = smax(a.y as int, b.y as int);
    let maxz = smax(a.z as int, b.z as int);
    let dx = Vector { x: (maxx - minx) as i64, y: 0, z: 0 };
    let dy = Vector { x: 0, y: (maxy - miny) as i64, z: 0 };
    let dz = Vector { x: 0, y: 0, z: (maxz - minz) as i64 };
    let ndx = Vector { x: (minx - maxx) as i64, y: 0, z: 0 };
    let ndz = Vector { x: 0, y: 0, z: (minz - maxz) as i64 };
    if k == 0 {
        (Vector { x: minx as i64, y: miny as i64, z: maxz as i64 }, dx, dy)
    } else if k == 1 {
        (Vector { x: maxx as i64, y: miny as i64, z: maxz as i64 }, ndz, dy)
    } else if k == 2 {
        (Vector { x: maxx as i64, y: miny as i64, z: minz as i64 }, ndx, dy)
    } else if k == 3 {
        (Vector { x: minx as i64, y: miny as i64, z: minz as i64 }, dz, dy)
    } else if k == 4 {
        (Vector { x: minx as i64, y: maxy as i64, z: maxz as i64 }, dx, ndz)
    } else {
        (Vector { x: minx as i64, y: miny as i64, z: minz as i64 }, dx, dz)
    }
}

/// The rotated-corner hull is a conservative world-space box: every
/// point of the original box, carried through the same rotation, lands
/// inside the hull.  The rotated coordinate is linear in the point, so
/// its extrema over a box are taken at corners, exactly, before and
/// after the rescaling division.
pub proof fn lemma_rotated_hull_contains(c: int, s: int, b: AABB, px: int, py: int, pz: int)
    requires
        crate::aabb::box_contains_point(b, px, py, pz),
        -ONE <= c <= ONE,
        -ONE <= s <= ONE,
        crate::interval::ivl_bounded(b.x, 0x80_0000_0000),
        crate::interval::ivl_bounded(b.y, 0x80_0000_0000),
        crate::interval::ivl_bounded(b.z, 0x80_0000_0000),
    ensures
        crate::aabb::box_contains_point(
            rotated_hull_spec(c, s, b),
            rot_back_x(c, s, px, pz),
            py,
            rot_back_z(c, s, px, pz),
        ),
{
    let x0 = b.x.min as int;
    let x1 = b.x.max as int;
    let z0 = b.z.min as int;
    let z1 = b.z.max as int;
    assert((c * x0 <= c * px <= c * x1) || (c * x1 <= c * px <= c * x0)) by (nonlinear_arith)
        requires
            x0 <= px <= x1,
    ;
    assert((s * z0 <= s * pz <= s * z1) || (s * z1 <= s * pz <= s * z0)) by (nonlinear_arith)
        requires
            z0 <= pz <= z1,
    ;
    assert(((-s) * x0 <= (-s) * px <= (-s) * x1) || ((-s) * x1 <= (-s) * px <= (-s) * x0))
        by (nonlinear_arith)
        requires
            x0 <= px <= x1,
    ;
    assert((c * z0 <= c * pz <= c * z1) || (c * z1 <= c * pz <= c * z0)) by (nonlinear_arith)
        requires
            z0 <= pz <= z1,
    ;
    assert forall|a: int, e: int|
        -ONE <= a <= ONE && -0x80_0000_0000 <= e <= 0x80_0000_0000 implies
        -0x8_0000_0000_0000_0000 <= #[trigger] (a * e) <= 0x8_0000_0000_0000_0000 by {
        assert(-0x8_0000_0000_0000_0000 <= a * e <= 0x8_0000_0000_0000_0000)
            by (nonlinear_arith)
            requires
                -ONE <= a <= ONE,
                -0x80_0000_0000 <= e <= 0x80_0000_0000,
                ONE == 65536,
        ;
    };
    crate::fixed::lemma_div_range(c * x0 + s * z0, ONE as int, 0x10_0000_0000_0000_0000);
    crate::fixed::lemma_div_range(c * x0 + s * z1, ONE as int, 0x10_0000_0000_0000_0000);
    crate::fixed::lemma_div_range(c * x1 + s * z0, ONE as int, 0x10_0000_0000_0000_0000);
    crate::fixed::lemma_div_range(c * x1 + s * z1, ONE as int, 0x10_0000_0000_0000_0000);
    crate::fixed::lemma_div_range(-s * x0 + c * z0, ONE as int, 0x10_0000_0000_0000_0000);
    crate::fixed::lemma_div_range(-s * x0 + c * z1, ONE as int, 0x10_0000_0000_0000_0000);
    crate::fixed::lemma_div_range(-s * x1 + c * z0, ONE as int, 0x10_0000_0000_0000_0000);
    crate::fixed::lemma_div_range(-s * x1 + c * z1, ONE as int, 0x10_0000_0000_0000_0000);
    let nx = c * px + s * pz;
    let nz = -s * px + c * pz;
    lemma_corner_quotient_band(c * x0 + s * z0, c * x0 + s * z1, c * x1 + s * z0, c * x1 + s * z1, nx);
    lemma_corner_quotient_band(
        -s * x0 + c * z0,
        -s * x0 + c * z1,
        -s * x1 + c * z0,
        -s * x1 + c * z1,
        nz,
    );
}

/// A value between the four corner numerators divides into the band of
/// the corner quotients.
proof fn lemma_corner_quotient_band(n00: int, n01: int, n10: int, n11: int, n: int)
    requires
        smin(smin(n00, n01), smin(n10, n11)) <= n <= smax(smax(n00, n01), smax(n10, n11)),
    ensures
        smin(
            smin(n00 / (ONE as int), n01 / (ONE as int)),
            smin(n10 / (ONE as int), n11 / (ONE as int)),
        ) <= n / (ONE as int) <= smax(
            smax(n00 / (ONE as int), n01 / (ONE as int)),
            smax(n10 / (ONE as int), n11 / (ONE as int)),
        ),
{
    if n00 <= n {
        vstd::arithmetic::div_mod::lemma_div_is_ordered(n00, n, ONE as int);
    } else {
        vstd::arithmetic::div_mod::lemma_div_is_ordered(n, n00, ONE as int);
    }
    if n01 <= n {
        vstd::arithmetic::div_mod::lemma_div_is_ordered(n01, n, ONE as int);
    } else {
        vstd::arithmetic::div_mod::lemma_div_is_ordered(n, n01, ONE as int);
    }
    if n10 <= n {
        vstd::arithmetic::div_mod::lemma_div_is_ordered(n10, n, ONE as int);
    } else {
        vstd::arithmetic::div_mod::lemma_div_is_ordered(n, n10, ONE as int);
    }
    if n11 <= n {
        vstd::arithmetic::div_mod::lemma_div_is_ordered(n11, n, ONE as int);
    } else {
        vstd::arithmetic::div_mod::lemma_div_is_ordered(n, n11, ONE as int);
    }
}

/// The identity transform: no offset, no rotation.
pub open spec fn identity_transform() -> Transform {
    Transform { offset: Vector { x: 0, y: 0, z: 0 }, sin_theta: 0, cos_theta: ONE as i64 }
}


/// A solid hit lies strictly inside the query range, inside the cached
/// box, with its point and normal inside their guards.
pub proof fn lemma_object_hit_shape(h: Hittable, ray: Ray, t0: int, t1: int)
    requires
        -0x8000_0000_0000_0000 <= t0,
        t1 <= 0x8000_0000_0000_0000,
    ensures
        object_hit_spec(h, ray, t0, t1) matches Some(rec) ==> {
            &&& t0 < rec.t < t1
            &&& in_range(rec.p, COORD_LIMIT as int)
            &&& in_range(rec.normal, 2 * ONE as int)
            &&& box_contains_at(h.bbox, ray, rec.t as int)
            &&& 0 <= rec.u <= ONE
            &&& 0 <= rec.v <= ONE
        },
{
    if object_hit_spec(h, ray, t0, t1) is Some {
        let c = h.transform.cos_theta as int;
        let s = h.transform.sin_theta as int;
        let o1 = Vector {
            x: (ray.origin.x - h.transform.offset.x) as i64,
            y: (ray.origin.y - h.transform.offset.y) as i64,
            z: (ray.origin.z - h.transform.offset.z) as i64,
        };
        let rr = Ray {
            origin: rot_fwd_vec(c, s, o1),
            direction: rot_fwd_vec(c, s, ray.direction),
            time: ray.time,
        };
        match h.hittable {
            HittableType::Sphere { center, radius } => {
                lemma_sphere_hit_shape(center, radius, rr, t0, t1);
            },
            HittableType::Quad { q, u, v, w, normal, d, area } => {
                lemma_quad_hit_shape(q, u, v, w, normal, d, rr, t0, t1);
            },
        }
    }
}

/// Shrinking the far end of the query range keeps exactly the hits that
/// fall before the new end: the heart of the nearest-hit argument.
pub proof fn lemma_object_hit_monotone(h: Hittable, ray: Ray, t0: int, t1: int, t1b: int)
    requires
        t1b <= t1,
        -0x8000_0000_0000_0000 <= t0,
        t1 <= 0x8000_0000_0000_0000,
    ensures
        object_hit_spec(h, ray, t0, t1b) == (match object_hit_spec(h, ray, t0, t1) {
            Some(rec) => if (rec.t as int) < t1b {
                Some(rec)
            } else {
                None
            },
            None => None::<HitRecord>,
        }),
{
    if hit_guard(h, ray) {
        let c = h.transform.cos_theta as int;
        let s = h.transform.sin_theta as int;
        let o1 = Vector {
            x: (ray.origin.x - h.transform.offset.x) as i64,
            y: (ray.origin.y - h.transform.offset.y) as i64,
            z: (ray.origin.z - h.transform.offset.z) as i64,
        };
        let rr = Ray {
            origin: rot_fwd_vec(c, s, o1),
            direction: rot_fwd_vec(c, s, ray.direction),
            time: ray.time,
        };
        match h.hittable {
            HittableType::Sphere { center, radius } => {
                lemma_sphere_hit_monotone(center, radius, rr, t0, t1, t1b);
                lemma_sphere_hit_shape(center, radius, rr, t0, t1);
                lemma_sphere_hit_shape(center, radius, rr, t0, t1b);
            },
            HittableType::Quad { q, u, v, w, normal, d, area } => {
                lemma_quad_hit_monotone(q, u, v, w, normal, d, rr, t0, t1, t1b);
                lemma_quad_hit_shape(q, u, v, w, normal, d, rr, t0, t1);
                lemma_quad_hit_shape(q, u, v, w, normal, d, rr, t0, t1b);
            },
        }
    }
}

/// The sphere hit filters under a shrunk far end.
proof fn lemma_sphere_hit_monotone(
    center: Ray,
    radius: i64,
    rr: Ray,
    t0: int,
    t1: int,
    t1b: int,
)
    requires
        t1b <= t1,
        -0x8000_0000_0000_0000 <= t0,
        t1 <= 0x8000_0000_0000_0000,
    ensures
        sphere_hit_spec(center, radius, rr, t0, t1b) == (match sphere_hit_spec(
            center,
            radius,
            rr,
            t0,
            t1,
        ) {
            Some(rec) => if (rec.t as int) < t1b {
                Some(rec)
            } else {
                None
            },
            None => None::<HitRecord>,
        }),
{
    let cc = Vector {
        x: at_coord(center.origin.x as int, center.direction.x as int, rr.time as int) as i64,
        y: at_coord(center.origin.y as int, center.direction.y as int, rr.time as int) as i64,
        z: at_coord(center.origin.z as int, center.direction.z as int, rr.time as int) as i64,
    };
    let oc = Vector {
        x: (cc.x - rr.origin.x) as i64,
        y: (cc.y - rr.origin.y) as i64,
        z: (cc.z - rr.origin.z) as i64,
    };
    let a = dot_spec(rr.direction, rr.direction);
    let h = dot_spec(rr.direction, oc);
    let c = dot_spec(oc, oc) - mul_q(radius as int, radius as int);
    let disc = h * h - a * c;
    if !(a <= 0 || disc < 0) {
        crate::fixed::lemma_sqrt_floor_exists(disc);
        let sq = sqrt_floor(disc);
        assert((h - sq) * ONE <= (h + sq) * ONE) by (nonlinear_arith)
            requires
                0 <= sq,
                ONE == 65536,
        ;
        vstd::arithmetic::div_mod::lemma_div_is_ordered((h - sq) * ONE, (h + sq) * ONE, a);
        let r1 = div_q((h - sq) * ONE, a);
        let r2 = div_q((h + sq) * ONE, a);
        assert(r1 <= r2);
    }
}

/// The quad hit filters under a shrunk far end.
proof fn lemma_quad_hit_monotone(
    q: Vector,
    u: Vector,
    v: Vector,
    w: Vector,
    normal: Vector,
    d: i64,
    rr: Ray,
    t0: int,
    t1: int,
    t1b: int,
)
    requires
        t1b <= t1,
        -0x8000_0000_0000_0000 <= t0,
        t1 <= 0x8000_0000_0000_0000,
    ensures
        quad_hit_spec(q, u, v, w, normal, d, rr, t0, t1b) == (match quad_hit_spec(
            q,
            u,
            v,
            w,
            normal,
            d,
            rr,
            t0,
            t1,
        ) {
            Some(rec) => if (rec.t as int) < t1b {
                Some(rec)
            } else {
                None
            },
            None => None::<HitRecord>,
        }),
{
}

/// The scatter distance inside a constant-density medium, as a function
/// of the two boundary crossings, the query range, the ray's direction
/// length, the stored negative inverse density and the unit sample that
/// drives the free flight: clip the crossings to the query range, clamp
/// the entry to the ray's start, and accept the sampled flight distance
/// only when it fits inside the clipped span.
pub open spec fn medium_scatter_t_spec(
    t1r: i64,
    t2r: i64,
    tmin: i64,
    tmax: i64,
    len: i64,
    neg_inv: i64,
    u: i64,
) -> Option<i64> {
    let t1a: i64 = if t1r < tmin {
        tmin
    } else {
        t1r
    };
    let t2: i64 = if t2r > tmax {
        tmax
    } else {
        t2r
    };
    if t1a >= t2 {
        None
    } else if t1a < 0 && 0 >= t2 {
        None
    } else {
        let t1: i64 = if t1a < 0 {
            0
        } else {
            t1a
        };
        if len == 0 || neg_inv == i64::MIN {
            None
        } else {
            let dist = ((t2 - t1) * len) / (ONE as int);
            let hd = ((-neg_inv) * crate::fixed::neg_log_spec(u as int)) / (ONE as int);
            if hd < 0 || hd > dist {
                None
            } else {
                let dt = (hd * ONE) / (len as int);
                if t1 + dt > t2 {
                    None
                } else {
                    Some((t1 + dt) as i64)
                }
            }
        }
    }
}

impl Hittable {
    /// The scatter distance inside a constant-density medium; exactly its
    /// specification, so concrete draws can be checked against it.
    pub fn medium_scatter_t(
        t1r: i64,
        t2r: i64,
        tmin: i64,
        tmax: i64,
        len: i64,
        neg_inv: i64,
        u: i64,
    ) -> (r: Option<i64>)
        requires
            1 <= u <= ONE,
            0 <= len <= 0x2000_0000_0000,
            -0x1000_0000_0000_0000 <= t1r <= 0x1000_0000_0000_0000,
            -0x1000_0000_0000_0000 <= t2r <= 0x1000_0000_0000_0000,
        ensures
            r == medium_scatter_t_spec(t1r, t2r, tmin, tmax, len, neg_inv, u),
    {
        let t1a: i64 = if t1r < tmin {
            tmin
        } else {
            t1r
        };
        let t2: i64 = if t2r > tmax {
            tmax
        } else {
            t2r
        };
        if t1a >= t2 {
            return None;
        }
        if t1a < 0 && 0 >= t2 {
            return None;
        }
        let t1: i64 = if t1a < 0 {
            0
        } else {
            t1a
        };
        if len == 0 || neg_inv == i64::MIN {
            return None;
        }
        proof {
            assert forall|a: int, b: int|
                -0x1_0000_0000_0000_0000 <= a <= 0x1_0000_0000_0000_0000
                    && -0x2000_0000_0000 <= b <= 0x2000_0000_0000 implies
                -0x2000_0000_0000_0000_0000_0000_0000 <= #[trigger] (a * b)
                <= 0x2000_0000_0000_0000_0000_0000_0000 by {
                assert(-0x2000_0000_0000_0000_0000_0000_0000 <= a * b
                    <= 0x2000_0000_0000_0000_0000_0000_0000) by (nonlinear_arith)
                    requires
                        -0x1_0000_0000_0000_0000 <= a <= 0x1_0000_0000_0000_0000,
                        -0x2000_0000_0000 <= b <= 0x2000_0000_0000,
                ;
            };
            crate::fixed::lemma_div_range(
                ((t2 - t1) as int) * (len as int),
                ONE as int,
                0x2000_0000_0000_0000_0000_0000_0000,
            );
        }
        let dist: i128 = div_q_i128(((t2 - t1) as i128) * (len as i128), ONE as i128);
        let nl = crate::fixed::neg_log(u);
        proof {
            crate::fixed::lemma_div_range(
                ((-neg_inv) as int) * (nl as int),
                ONE as int,
                0x2000_0000_0000_0000_0000_0000_0000,
            );
        }
        let hd: i128 = div_q_i128(((-neg_inv) as i128) * (nl as i128), ONE as i128);
        if hd < 0 || hd > dist {
            return None;
        }
        proof {
            assert(0 <= (hd as int) * ONE <= 0x2000_0000_0000_0000_0000_0000_0000_0000)
                by (nonlinear_arith)
                requires
                    0 <= hd <= 0x2000_0000_0000_0000_0000_0000_0000,
                    ONE == 65536,
            ;
            vstd::arithmetic::div_mod::lemma_div_pos_is_pos((hd as int) * ONE, len as int);
            vstd::arithmetic::div_mod::lemma_div_is_ordered(
                (hd as int) * ONE,
                (dist as int) * ONE,
                len as int,
            );
            assert((hd as int) * ONE <= (dist as int) * ONE) by (nonlinear_arith)
                requires
                    hd <= dist,
                    ONE == 65536,
            ;
        }
        let dt: i128 = div_q_i128(hd * (ONE as i128), len as i128);
        let tt: i128 = (t1 as i128) + dt;
        if tt > (t2 as i128) {
            return None;
        }
        Some(tt as i64)
    }

    /// The full hit test.  A solid surface reports exactly its
    /// specification; a constant-density medium may scatter the ray at a
    /// sampled distance between its two boundary crossings.
    pub fn hit<'a>(&'a self, ray: &Ray, tmin: i64, tmax: i64, rng: &mut Randomizer) -> (r:
        Option<(HitRecord, &'a Material)>)
        ensures
            !self.is_medium ==> (match r {
                None => object_hit_spec(*self, *ray, tmin as int, tmax as int) is None,
                Some(pair) => object_hit_spec(*self, *ray, tmin as int, tmax as int) == Some(
                    pair.0,
                ) && pair.1 == self.material,
            }),
            r matches Some(pair) ==> {
                &&& tmin <= pair.0.t <= tmax
                &&& in_range(pair.0.p, COORD_LIMIT as int)
                &&& in_range(pair.0.normal, 2 * ONE as int)
            },
            self.is_medium ==> (r matches Some(pair) ==> pair.1 == self.medium.phase_function
                && pair.0.front_face),
            hittable_wf(*self) ==> (r matches Some(pair) ==> material_wf(*pair.1)),
    {
        if !self.is_medium {
            proof {
                lemma_object_hit_shape(*self, *ray, tmin as int, tmax as int);
            }
            return match self.hit_object(ray, tmin, tmax) {
                None => None,
                Some(rec) => Some((rec, &self.material)),
            };
        }
        let r1 = match self.hit_object(ray, -T_LIMIT, T_LIMIT) {
            None => {
                return None;
            },
            Some(rec) => rec,
        };
        proof {
            lemma_object_hit_shape(*self, *ray, -T_LIMIT as int, T_LIMIT as int);
        }
        let r2 = match self.hit_object(ray, r1.t + MEDIUM_EPS, T_LIMIT) {
            None => {
                return None;
            },
            Some(rec) => rec,
        };
        proof {
            lemma_object_hit_shape(*self, *ray, r1.t + MEDIUM_EPS as int, T_LIMIT as int);
        }
        if !self.hit_guard_exec(ray) {
            return None;
        }
        let len = ray.direction.len();
        let uu = random(rng) + 1;
        let t = match Self::medium_scatter_t(
            r1.t,
            r2.t,
            tmin,
            tmax,
            len,
            self.medium.neg_inv_density,
            uu,
        ) {
            None => {
                return None;
            },
            Some(t) => t,
        };
        proof {
            assert forall|a: int, b: int|
                -0x8000_0000_0000_0000 <= a <= 0x8000_0000_0000_0000
                    && -0x8000_0000_0000_0000 <= b <= 0x8000_0000_0000_0000 implies
                -0x4000_0000_0000_0000_0000_0000_0000_0000 <= #[trigger] (a * b)
                <= 0x4000_0000_0000_0000_0000_0000_0000_0000 by {
                assert(-0x4000_0000_0000_0000_0000_0000_0000_0000 <= a * b
                    <= 0x4000_0000_0000_0000_0000_0000_0000_0000) by (nonlinear_arith)
                    requires
                        -0x8000_0000_0000_0000 <= a <= 0x8000_0000_0000_0000,
                        -0x8000_0000_0000_0000 <= b <= 0x8000_0000_0000_0000,
                ;
            };
            crate::fixed::lemma_div_range(
                (t as int) * (ray.direction.x as int),
                ONE as int,
                0x4000_0000_0000_0000_0000_0000_0000_0000,
            );
            crate::fixed::lemma_div_range(
                (t as int) * (ray.direction.y as int),
                ONE as int,
                0x4000_0000_0000_0000_0000_0000_0000_0000,
            );
            crate::fixed::lemma_div_range(
                (t as int) * (ray.direction.z as int),
                ONE as int,
                0x4000_0000_0000_0000_0000_0000_0000_0000,
            );
        }
        let px: i128 = (ray.origin.x as i128) + div_q_i128(
            (t as i128) * (ray.direction.x as i128),
            ONE as i128,
        );
        let py: i128 = (ray.origin.y as i128) + div_q_i128(
            (t as i128) * (ray.direction.y as i128),
            ONE as i128,
        );
        let pz: i128 = (ray.origin.z as i128) + div_q_i128(
            (t as i128) * (ray.direction.z as i128),
            ONE as i128,
        );
        if !(-COORD_LIMIT as i128 <= px && px <= COORD_LIMIT as i128 && -COORD_LIMIT as i128
            <= py && py <= COORD_LIMIT as i128 && -COORD_LIMIT as i128 <= pz && pz
            <= COORD_LIMIT as i128) {
            return None;
        }
        let rec = HitRecord {
            p: Vector { x: px as i64, y: py as i64, z: pz as i64 },
            t,
            normal: Vector { x: ONE, y: 0, z: 0 },
            front_face: true,
            u: 0,
            v: 0,
        };
        Some((rec, &self.medium.phase_function))
    }
}


impl Hittable {
    /// A random point toward the primitive, as a direction from `origin`:
    /// for a quad, a uniform point on its surface.
    pub fn random(&self, origin: Vector, rng: &mut Randomizer) -> (r: Vector)
        requires
            hittable_geom_wf(*self),
            in_range(origin, COORD_LIMIT as int),
        ensures
            in_range(r, 0x100_0000_0000),
            exists|r1: i64, r2: i64|
                0 <= r1 < ONE && 0 <= r2 < ONE && #[trigger] random_toward_spec(
                    *self,
                    origin,
                    r,
                    r1,
                    r2,
                ),
    {
        match &self.hittable {
            HittableType::Quad { q, u, v, .. } => {
                let r1 = random(rng);
                let r2 = random(rng);
                proof {
                    crate::fixed::lemma_mul_q_bound(
                        u.x as int,
                        r1 as int,
                        0x8_0000_0000,
                        65536,
                    );
                    crate::fixed::lemma_mul_q_bound(
                        u.y as int,
                        r1 as int,
                        0x8_0000_0000,
                        65536,
                    );
                    crate::fixed::lemma_mul_q_bound(
                        u.z as int,
                        r1 as int,
                        0x8_0000_0000,
                        65536,
                    );
                    crate::fixed::lemma_mul_q_bound(
                        v.x as int,
                        r2 as int,
                        0x8_0000_0000,
                        65536,
                    );
                    crate::fixed::lemma_mul_q_bound(
                        v.y as int,
                        r2 as int,
                        0x8_0000_0000,
                        65536,
                    );
                    crate::fixed::lemma_mul_q_bound(
                        v.z as int,
                        r2 as int,
                        0x8_0000_0000,
                        65536,
                    );
                }
                let su = u.scale(r1);
                let sv = v.scale(r2);
                let res = q.add(su).add(sv).sub(origin);
                proof {
                    assert(random_toward_spec(*self, origin, res, r1, r2));
                }
                res
            },
            _ => {
                let res = Vector { x: ONE, y: 0, z: 0 };
                proof {
                    assert(random_toward_spec(*self, origin, res, 0, 0));
                }
                res
            },
        }
    }

    /// The solid-angle density this primitive induces at `origin` for the
    /// given direction: for a quad, squared distance over projected area.
    pub fn pdf_value(&self, origin: Vector, direction: Vector, rng: &mut Randomizer) -> (r:
        i64)
        requires
            in_range(origin, COORD_LIMIT as int),
            in_range(direction, COORD_LIMIT as int),
        ensures
            0 <= r <= COORD_LIMIT,
            !self.is_medium ==> r == pdf_value_spec(*self, origin, direction),
    {
        let area: i64 = match &self.hittable {
            HittableType::Quad { area, .. } => *area,
            _ => {
                return 0;
            },
        };
        let ray = Ray::new_time(origin, direction, 0);
        let hit = self.hit(&ray, 66, T_LIMIT, rng);
        let (rec, _m) = match hit {
            None => {
                return 0;
            },
            Some(pair) => pair,
        };
        let len2 = direction.len_squared();
        proof {
            assert(0 <= (rec.t as int) * (rec.t as int)
                <= 0x4000_0000_0000_0000_0000_0000_0000_0000) by (nonlinear_arith)
                requires
                    -0x8000_0000_0000_0000 <= (rec.t as int) <= 0x8000_0000_0000_0000,
            ;
            vstd::arithmetic::div_mod::lemma_div_pos_is_pos(
                (rec.t as int) * (rec.t as int),
                ONE as int,
            );
        }
        let mut dt: i128 = div_q_i128((rec.t as i128) * (rec.t as i128), ONE as i128);
        if dt > 0x100_0000_0000_0000 {
            dt = 0x100_0000_0000_0000;
        }
        proof {
            assert(0 <= (dt as int) * (len2 as int)
                <= 0x4000_0000_0000_0000_0000_0000_0000_0000) by (nonlinear_arith)
                requires
                    0 <= (dt as int) <= 0x100_0000_0000_0000,
                    0 <= (len2 as int) <= 0x3000_0000_0000_0000,
            ;
            vstd::arithmetic::div_mod::lemma_div_pos_is_pos((dt as int) * (len2 as int), ONE as int);
        }
        let mut d2: i128 = div_q_i128(dt * (len2 as i128), ONE as i128);
        if d2 > 0x1000_0000_0000_0000 {
            d2 = 0x1000_0000_0000_0000;
        }
        let dv = direction.dot(rec.normal);
        let adv: i128 = if dv >= 0 {
            dv as i128
        } else {
            -(dv as i128)
        };
        let len = direction.len();
        if len == 0 {
            return 0;
        }
        proof {
            assert(0 <= (adv as int) * ONE <= 0x4000_0000_0000_0000_0000_0000_0000_0000)
                by (nonlinear_arith)
                requires
                    0 <= (adv as int) <= 0x3000_0000_0000_0001,
                    ONE == 65536,
            ;
            vstd::arithmetic::div_mod::lemma_div_pos_is_pos((adv as int) * ONE, len as int);
        }
        let mut cos: i128 = div_q_i128(adv * (ONE as i128), len as i128);
        if cos > 0x4_0000 {
            cos = 0x4_0000;
        }
        proof {
            assert(0 <= (cos as int) * (area as int)
                <= 0x4000_0000_0000_0000_0000_0000_0000_0000 || (area as int) < 0)
                by (nonlinear_arith)
                requires
                    0 <= (cos as int) <= 0x4_0000,
                    -0x8000_0000_0000_0000 <= (area as int) <= 0x8000_0000_0000_0000,
            ;
            assert((cos as int) * (area as int) >= -0x4000_0000_0000_0000_0000_0000_0000_0000)
                by (nonlinear_arith)
                requires
                    0 <= (cos as int) <= 0x4_0000,
                    -0x8000_0000_0000_0000 <= (area as int) <= 0x8000_0000_0000_0000,
            ;
            assert((cos as int) * (area as int) <= 0x4000_0000_0000_0000_0000_0000_0000_0000)
                by (nonlinear_arith)
                requires
                    0 <= (cos as int) <= 0x4_0000,
                    -0x8000_0000_0000_0000 <= (area as int) <= 0x8000_0000_0000_0000,
            ;
        }
        let denom: i128 = div_q_i128(cos * (area as i128), ONE as i128);
        if denom <= 0 {
            return 0;
        }
        proof {
            assert(0 <= (d2 as int) * ONE <= 0x4000_0000_0000_0000_0000_0000_0000_0000)
                by (nonlinear_arith)
                requires
                    0 <= (d2 as int) <= 0x1000_0000_0000_0000,
                    ONE == 65536,
            ;
            vstd::arithmetic::div_mod::lemma_div_pos_is_pos((d2 as int) * ONE, denom as int);
        }
        let res: i128 = div_q_i128(d2 * (ONE as i128), denom);
        if res < 0 {
            return 0;
        }
        if res > COORD_LIMIT as i128 {
            return COORD_LIMIT;
        }
        res as i64
    }
}

/// Every primitive in a scene slice is a solid surface.
pub open spec fn all_solid(prims: Seq<Hittable>) -> bool {
    forall|i: int| 0 <= i < prims.len() ==> !(#[trigger] prims[i]).is_medium
}

/// Every primitive in a scene slice is well formed.
pub open spec fn all_wf(prims: Seq<Hittable>) -> bool {
    forall|i: int| 0 <= i < prims.len() ==> hittable_wf(#[trigger] prims[i])
}

/// No primitive of the slice hits the ray inside the open range.
pub open spec fn no_hit(prims: Seq<Hittable>, ray: Ray, t0: int, t1: int) -> bool {
    forall|i: int| 0 <= i < prims.len() ==> object_hit_spec(#[trigger] prims[i], ray, t0, t1)
        is None
}

/// `rec` is the hit of some primitive of the slice, carrying that
/// primitive's material, and no other primitive hits strictly closer.
pub open spec fn nearest_hit(
    prims: Seq<Hittable>,
    ray: Ray,
    t0: int,
    t1: int,
    rec: HitRecord,
    mat: Material,
) -> bool {
    &&& exists|i: int|
        0 <= i < prims.len() && object_hit_spec(#[trigger] prims[i], ray, t0, t1) == Some(rec)
            && prims[i].material == mat
    &&& forall|i: int|
        0 <= i < prims.len() ==> (object_hit_spec(#[trigger] prims[i], ray, t0, t1) matches Some(
            r2,
        ) ==> rec.t <= r2.t)
}

/// A flat scene: the primitive list itself.
pub struct HittableObjects {
    pub objects: Vec<Hittable>,
}

impl HittableObjects {
    /// An empty scene.
    pub fn new() -> (s: HittableObjects)
        ensures
            s.objects@.len() == 0,
    {
        HittableObjects { objects: Vec::new() }
    }

    /// Appends one primitive.
    pub fn add(&mut self, hittable: Hittable)
        ensures
            final(self).objects@ == old(self).objects@.push(hittable),
    {
        self.objects.push(hittable);
    }

    /// Appends every primitive of another scene.
    pub fn add_hittables(&mut self, hittables: HittableObjects)
        ensures
            final(self).objects@ == old(self).objects@ + hittables.objects@,
    {
        let mut other = hittables;
        self.objects.append(&mut other.objects);
    }

    /// Removes every primitive.
    pub fn clear(&mut self)
        ensures
            final(self).objects@.len() == 0,
    {
        self.objects.clear();
    }

    /// The nearest hit over all primitives: a linear scan that shrinks
    /// the far end of the range to the best distance found so far.
    pub fn hit<'a>(&'a self, ray: &Ray, tmin: i64, tmax: i64, rng: &mut Randomizer) -> (r:
        Option<(HitRecord, &'a Material)>)
        ensures
            all_solid(self.objects@) ==> (match r {
                None => no_hit(self.objects@, *ray, tmin as int, tmax as int),
                Some(pair) => nearest_hit(
                    self.objects@,
                    *ray,
                    tmin as int,
                    tmax as int,
                    pair.0,
                    *pair.1,
                ),
            }),
            r matches Some(pair) ==> {
                &&& tmin <= pair.0.t <= tmax
                &&& in_range(pair.0.p, COORD_LIMIT as int)
                &&& in_range(pair.0.normal, 2 * ONE as int)
            },
            all_wf(self.objects@) ==> (r matches Some(pair) ==> material_wf(*pair.1)),
    {
        let ghost t1_orig = tmax as int;
        let mut closest: i64 = tmax;
        let mut best: Option<HitRecord> = None;
        let mut best_idx: usize = 0;
        let mut i: usize = 0;
        while i < self.objects.len()
            invariant
                0 <= i <= self.objects@.len(),
                best is None ==> closest == tmax,
                best matches Some(rec) ==> {
                    &&& best_idx < i
                    &&& closest == rec.t
                    &&& tmin <= rec.t <= tmax
                    &&& in_range(rec.p, COORD_LIMIT as int)
                    &&& in_range(rec.normal, 2 * ONE as int)
                    &&& all_wf(self.objects@) ==> material_wf(
                        self.objects@[best_idx as int].material,
                    )
                },
                all_solid(self.objects@) ==> (match best {
                    None => forall|j: int|
                        0 <= j < i ==> object_hit_spec(
                            #[trigger] self.objects@[j],
                            *ray,
                            tmin as int,
                            tmax as int,
                        ) is None,
                    Some(rec) => {
                        &&& object_hit_spec(
                            self.objects@[best_idx as int],
                            *ray,
                            tmin as int,
                            tmax as int,
                        ) == Some(rec)
                        &&& forall|j: int|
                            0 <= j < i ==> (object_hit_spec(
                                #[trigger] self.objects@[j],
                                *ray,
                                tmin as int,
                                tmax as int,
                            ) matches Some(r2) ==> rec.t <= r2.t)
                    },
                }),
            decreases self.objects@.len() - i,
        {
            let cur = self.objects[i].hit(ray, tmin, closest, rng);
            proof {
                if all_solid(self.objects@) {
                    lemma_object_hit_monotone(
                        self.objects@[i as int],
                        *ray,
                        tmin as int,
                        tmax as int,
                        closest as int,
                    );
                    lemma_object_hit_shape(
                        self.objects@[i as int],
                        *ray,
                        tmin as int,
                        tmax as int,
                    );
                }
            }
            match cur {
                None => {},
                Some(pair) => {
                    best = Some(pair.0);
                    best_idx = i;
                    closest = pair.0.t;
                },
            }
            i = i + 1;
        }
        match best {
            None => None,
            Some(rec) => Some((rec, &self.objects[best_idx].material)),
        }
    }
}


/// How one primitive relates to its rotated self: the cached sine and
/// cosine replaced by the angle's, the box replaced by the rotated hull,
/// everything else unchanged.
pub open spec fn rotated_elem(before: Hittable, after: Hittable, theta: i64) -> bool {
    &&& after.transform.sin_theta == crate::fixed::sin_deg_spec(theta as int)
    &&& after.transform.cos_theta == crate::fixed::cos_deg_spec(theta as int)
    &&& after.transform.offset == before.transform.offset
    &&& after.bbox == rotated_hull_spec(
        crate::fixed::cos_deg_spec(theta as int),
        crate::fixed::sin_deg_spec(theta as int),
        before.bbox,
    )
    &&& after.hittable == before.hittable
    &&& after.material == before.material
    &&& after.medium == before.medium
    &&& after.is_medium == before.is_medium
}

/// How one primitive relates to its translated self: the offset replaced
/// and the box shifted, everything else unchanged.
pub open spec fn translated_elem(before: Hittable, after: Hittable, offset: Vector) -> bool {
    &&& after.transform.offset == offset
    &&& after.transform.sin_theta == before.transform.sin_theta
    &&& after.transform.cos_theta == before.transform.cos_theta
    &&& after.bbox == shifted_bbox_spec(before.bbox, offset)
    &&& after.hittable == before.hittable
    &&& after.material == before.material
    &&& after.medium == before.medium
    &&& after.is_medium == before.is_medium
}

/// Every cached box of the slice is bounded by `b`.
pub open spec fn all_bbox_bounded(prims: Seq<Hittable>, b: int) -> bool {
    forall|i: int|
        0 <= i < prims.len() ==> {
            &&& crate::interval::ivl_bounded((#[trigger] prims[i]).bbox.x, b)
            &&& crate::interval::ivl_bounded(prims[i].bbox.y, b)
            &&& crate::interval::ivl_bounded(prims[i].bbox.z, b)
        }
}

impl HittableObjects {
    /// The six faces of an axis-aligned box between two corners.
    #[verifier::rlimit(100)]
    pub fn new_box(a: Vector, b: Vector, material: Material) -> (s: HittableObjects)
        requires
            in_range(a, GEOM_LIMIT as int),
            in_range(b, GEOM_LIMIT as int),
            -0x400_0000 <= b.x - a.x <= 0x400_0000,
            -0x400_0000 <= b.y - a.y <= 0x400_0000,
            -0x400_0000 <= b.z - a.z <= 0x400_0000,
            material_wf(material),
        ensures
            s.objects@.len() == 6,
            all_wf(s.objects@),
            all_solid(s.objects@),
            forall|k: int|
                0 <= k < 6 ==> ((#[trigger] s.objects@[k]).hittable matches HittableType::Quad {
                    q, u, v, .. } && q == box_face_spec(a, b, k).0 && u == box_face_spec(
                    a,
                    b,
                    k,
                ).1 && v == box_face_spec(a, b, k).2),
            forall|k: int|
                0 <= k < 6 ==> (#[trigger] s.objects@[k]).transform == identity_transform()
                    && (crate::material::material_plain(material) ==> s.objects@[k].material
                    == material),
    {
        let mut sides = Self::new();
        let minx = min2(a.x, b.x);
        let miny = min2(a.y, b.y);
        let minz = min2(a.z, b.z);
        let maxx = max2(a.x, b.x);
        let maxy = max2(a.y, b.y);
        let maxz = max2(a.z, b.z);
        let dx = Vector { x: maxx - minx, y: 0, z: 0 };
        let dy = Vector { x: 0, y: maxy - miny, z: 0 };
        let dz = Vector { x: 0, y: 0, z: maxz - minz };
        let ndx = Vector { x: minx - maxx, y: 0, z: 0 };
        let ndz = Vector { x: 0, y: 0, z: minz - maxz };
        sides.add(
            Hittable::new_quad(
                Vector { x: minx, y: miny, z: maxz },
                dx,
                dy,
                material.clone(),
            ),
        );
        sides.add(
            Hittable::new_quad(
                Vector { x: maxx, y: miny, z: maxz },
                ndz,
                dy,
                material.clone(),
            ),
        );
        sides.add(
            Hittable::new_quad(
                Vector { x: maxx, y: miny, z: minz },
                ndx,
                dy,
                material.clone(),
            ),
        );
        sides.add(
            Hittable::new_quad(
                Vector { x: minx, y: miny, z: minz },
                dz,
                dy,
                material.clone(),
            ),
        );
        sides.add(
            Hittable::new_quad(
                Vector { x: minx, y: maxy, z: maxz },
                dx,
                ndz,
                material.clone(),
            ),
        );
        sides.add(
            Hittable::new_quad(Vector { x: minx, y: miny, z: minz }, dx, dz, material),
        );
        sides
    }

    /// Rotates every primitive about the vertical axis.
    pub fn rotate_y(&mut self, theta: i64)
        requires
            all_wf(old(self).objects@),
            all_bbox_bounded(old(self).objects@, 0x80_0000_0000),
            -0x100_0000_0000 <= theta <= 0x100_0000_0000,
        ensures
            final(self).objects@.len() == old(self).objects@.len(),
            all_wf(final(self).objects@),
            forall|i: int|
                0 <= i < final(self).objects@.len() ==> rotated_elem(
                    old(self).objects@[i],
                    #[trigger] final(self).objects@[i],
                    theta,
                ),
    {
        let mut i: usize = 0;
        while i < self.objects.len()
            invariant
                0 <= i <= self.objects@.len(),
                self.objects@.len() == old(self).objects@.len(),
                all_wf(self.objects@),
                all_bbox_bounded(old(self).objects@, 0x80_0000_0000),
                -0x100_0000_0000 <= theta <= 0x100_0000_0000,
                forall|j: int|
                    i <= j < self.objects@.len() ==> #[trigger] self.objects@[j] == old(self).objects@[j],
                forall|j: int|
                    0 <= j < i ==> rotated_elem(
                        old(self).objects@[j],
                        #[trigger] self.objects@[j],
                        theta,
                    ),
            decreases self.objects@.len() - i,
        {
            let mut h = self.objects.remove(i);
            h.rotate_y(theta);
            self.objects.insert(i, h);
            i = i + 1;
        }
    }

    /// Translates every primitive.
    pub fn translate(&mut self, offset: Vector)
        requires
            all_wf(old(self).objects@),
            all_bbox_bounded(old(self).objects@, 0x100_0000_0000),
            in_range(offset, GEOM_LIMIT as int),
        ensures
            final(self).objects@.len() == old(self).objects@.len(),
            all_wf(final(self).objects@),
            forall|i: int|
                0 <= i < final(self).objects@.len() ==> translated_elem(
                    old(self).objects@[i],
                    #[trigger] final(self).objects@[i],
                    offset,
                ),
    {
        let mut i: usize = 0;
        while i < self.objects.len()
            invariant
                0 <= i <= self.objects@.len(),
                self.objects@.len() == old(self).objects@.len(),
                all_wf(self.objects@),
                all_bbox_bounded(old(self).objects@, 0x100_0000_0000),
                in_range(offset, GEOM_LIMIT as int),
                forall|j: int|
                    i <= j < self.objects@.len() ==> #[trigger] self.objects@[j] == old(self).objects@[j],
                forall|j: int|
                    0 <= j < i ==> translated_elem(
                        old(self).objects@[j],
                        #[trigger] self.objects@[j],
                        offset,
                    ),
            decreases self.objects@.len() - i,
        {
            let mut h = self.objects.remove(i);
            h.translate(offset);
            self.objects.insert(i, h);
            i = i + 1;
        }
    }

    /// A direction toward a uniformly chosen primitive.
    pub fn random(&self, origin: Vector, rng: &mut Randomizer) -> (r: Vector)
        requires
            all_wf(self.objects@),
            in_range(origin, COORD_LIMIT as int),
        ensures
            in_range(r, 0x100_0000_0000),
            self.objects@.len() == 0 ==> r == (Vector { x: ONE as i64, y: 0, z: 0 }),
            self.objects@.len() > 0 ==> exists|i: int, r1: i64, r2: i64|
                0 <= i < self.objects@.len() && 0 <= r1 < ONE && 0 <= r2 < ONE
                    && #[trigger] random_toward_spec(self.objects@[i], origin, r, r1, r2),
    {
        if self.objects.len() == 0 {
            return Vector { x: ONE, y: 0, z: 0 };
        }
        let i = random_index(rng, self.objects.len());
        self.objects[i].random(origin, rng)
    }

    /// The solid-angle density of a uniformly chosen primitive; a small
    /// positive floor when the scene holds none.
    pub fn pdf_value(&self, origin: Vector, direction: Vector, rng: &mut Randomizer) -> (r:
        i64)
        requires
            in_range(origin, COORD_LIMIT as int),
            in_range(direction, COORD_LIMIT as int),
        ensures
            0 <= r <= COORD_LIMIT,
            self.objects@.len() == 0 ==> r == 66,
            self.objects@.len() > 0 ==> exists|i: int|
                0 <= i < self.objects@.len() && (!(#[trigger] self.objects@[i]).is_medium
                    ==> r == pdf_value_spec(self.objects@[i], origin, direction)),
    {
        if self.objects.len() == 0 {
            return 66;
        }
        let i = random_index(rng, self.objects.len());
        self.objects[i].pdf_value(origin, direction, rng)
    }
}


impl Clone for ConstantMedium {
    /// A clone keeps the density and its phase function's soundness.
    fn clone(&self) -> (res: ConstantMedium)
        ensures
            res.neg_inv_density == self.neg_inv_density,
            material_wf(self.phase_function) ==> material_wf(res.phase_function),
    {
        ConstantMedium {
            neg_inv_density: self.neg_inv_density,
            phase_function: self.phase_function.clone(),
        }
    }
}

impl Clone for Hittable {
    /// A clone intersects rays exactly as the original: the geometry,
    /// transform and cached box carry over unchanged, and soundness is
    /// kept.
    fn clone(&self) -> (res: Hittable)
        ensures
            res.hittable == self.hittable,
            res.transform == self.transform,
            res.bbox == self.bbox,
            res.is_medium == self.is_medium,
            res.medium.neg_inv_density == self.medium.neg_inv_density,
            hittable_wf(*self) ==> hittable_wf(res),
            forall|ray: Ray, t0: int, t1: int|
                #[trigger] object_hit_spec(res, ray, t0, t1) == object_hit_spec(
                    *self,
                    ray,
                    t0,
                    t1,
                ),
    {
        let res = Hittable {
            hittable: self.hittable,
            transform: self.transform,
            medium: self.medium.clone(),
            is_medium: self.is_medium,
            material: self.material.clone(),
            bbox: self.bbox,
        };
        proof {
            assert forall|ray: Ray, t0: int, t1: int| #[trigger] object_hit_spec(
                res,
                ray,
                t0,
                t1,
            ) == object_hit_spec(*self, ray, t0, t1) by {
                assert(hit_guard(res, ray) == hit_guard(*self, ray));
            };
        }
        res
    }
}

impl Clone for HittableObjects {
    /// A clone of a scene intersects rays exactly as the original.
    fn clone(&self) -> (res: HittableObjects)
        ensures
            res.objects@.len() == self.objects@.len(),
            all_wf(self.objects@) ==> all_wf(res.objects@),
            all_solid(self.objects@) ==> all_solid(res.objects@),
            forall|i: int, ray: Ray, t0: int, t1: int|
                0 <= i < self.objects@.len() ==> #[trigger] object_hit_spec(
                    res.objects@[i],
                    ray,
                    t0,
                    t1,
                ) == object_hit_spec(self.objects@[i], ray, t0, t1),
    {
        let mut objects: Vec<Hittable> = Vec::new();
        let mut i: usize = 0;
        while i < self.objects.len()
            invariant
                0 <= i <= self.objects@.len(),
                objects@.len() == i,
                forall|j: int|
                    0 <= j < i ==> hittable_wf(self.objects@[j]) ==> hittable_wf(
                        #[trigger] objects@[j],
                    ),
                forall|j: int|
                    0 <= j < i ==> (#[trigger] objects@[j]).is_medium
                        == self.objects@[j].is_medium,
                forall|j: int, ray: Ray, t0: int, t1: int|
                    0 <= j < i ==> #[trigger] object_hit_spec(objects@[j], ray, t0, t1)
                        == object_hit_spec(self.objects@[j], ray, t0, t1),
            decreases self.objects@.len() - i,
        {
            let h = self.objects[i].clone();
            objects.push(h);
            i = i + 1;
        }
        HittableObjects { objects }
    }
}

} // verus!
