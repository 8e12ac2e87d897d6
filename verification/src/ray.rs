//! Rays: an origin, a direction and a time for motion blur.

use vstd::prelude::*;
use crate::fixed::ONE;
use crate::fixed::COORD_LIMIT;
use crate::fixed::T_LIMIT;
use crate::vector::Vector;
use crate::vector::Color;
use crate::vector::color_non_neg;
use crate::vector::color_in_range;

verus! {

/// A ray cast through the scene; `time` interpolates moving geometry.
#[derive(Clone, Copy, PartialEq, Eq, Structural, Debug)]
pub struct Ray {
    pub origin: Vector,
    pub direction: Vector,
    pub time: i64,
}

/// One coordinate of the point a ray reaches at parametric distance `t`.
pub open spec fn at_coord(o: int, d: int, t: int) -> int {
    o + (t * d) / (ONE as int)
}

impl Ray {
    /// A ray at time zero.
    pub fn new(origin: Vector, direction: Vector) -> (r: Ray)
        ensures
            r == (Ray { origin, direction, time: 0 }),
    {
        Ray { origin, direction, time: 0 }
    }

    /// A ray stamped with a time.
    pub fn new_time(origin: Vector, direction: Vector, time: i64) -> (r: Ray)
        ensures
            r == (Ray { origin, direction, time }),
    {
        Ray { origin, direction, time }
    }

    pub fn origin(&self) -> (v: Vector)
        ensures
            v == self.origin,
    {
        self.origin
    }

    pub fn direction(&self) -> (v: Vector)
        ensures
            v == self.direction,
    {
        self.direction
    }

    pub fn time(&self) -> (t: i64)
        ensures
            t == self.time,
    {
        self.time
    }

    /// The point reached at parametric distance `t`.
    pub fn at(&self, t: i64) -> (p: Vector)
        requires
            i64::MIN <= at_coord(self.origin.x as int, self.direction.x as int, t as int)
                <= i64::MAX,
            i64::MIN <= at_coord(self.origin.y as int, self.direction.y as int, t as int)
                <= i64::MAX,
            i64::MIN <= at_coord(self.origin.z as int, self.direction.z as int, t as int)
                <= i64::MAX,
        ensures
            p.x == at_coord(self.origin.x as int, self.direction.x as int, t as int),
            p.y == at_coord(self.origin.y as int, self.direction.y as int, t as int),
            p.z == at_coord(self.origin.z as int, self.direction.z as int, t as int),
    {
        let x = Self::at_axis(self.origin.x, self.direction.x, t);
        let y = Self::at_axis(self.origin.y, self.direction.y, t);
        let z = Self::at_axis(self.origin.z, self.direction.z, t);
        Vector { x, y, z }
    }

    /// One coordinate of `at`.
    fn at_axis(o: i64, d: i64, t: i64) -> (r: i64)
        requires
            i64::MIN <= at_coord(o as int, d as int, t as int) <= i64::MAX,
        ensures
            r == at_coord(o as int, d as int, t as int),
    {
        proof {
            assert(-0x4000_0000_0000_0000_0000_0000_0000_0000 <= (t as int) * d
                <= 0x4000_0000_0000_0000_0000_0000_0000_0000) by (nonlinear_arith)
                requires
                    -0x8000_0000_0000_0000 <= (t as int) <= 0x8000_0000_0000_0000,
                    -0x8000_0000_0000_0000 <= (d as int) <= 0x8000_0000_0000_0000,
            ;
            crate::fixed::lemma_div_range(
                (t as int) * d,
                ONE as int,
                0x4000_0000_0000_0000_0000_0000_0000_0000,
            );
        }
        let n: i128 = (t as i128) * (d as i128);
        let q = crate::fixed::div_q_i128(n, ONE as i128);
        (o as i128 + q) as i64
    }
}


/// The quotient of a non-negative scattering density by a positive
/// mixture density is defined and non-negative: with the near-zero guard
/// in force, no sample can poison a pixel.
pub proof fn lemma_energy_ratio_non_negative(spdf: int, mpdf: int)
    requires
        spdf >= 0,
        mpdf >= 1,
    ensures
        crate::fixed::quot_q(spdf, mpdf) >= 0,
{
    vstd::arithmetic::div_mod::lemma_div_pos_is_pos(spdf * ONE, mpdf);
    assert(spdf * ONE >= 0) by (nonlinear_arith)
        requires
            spdf >= 0,
            ONE == 65536,
    ;
}

/// One channel of the scatter contribution: density-weighted attenuation
/// times the recursive sample, divided by the mixture density, clamped
/// into the radiance band.  Always defined and non-negative.
fn contribution_channel(spdf: i64, att: i64, sample: i64, pdfv: i64) -> (r: i64)
    requires
        0 <= spdf <= 0x1_0000_0000,
        0 <= att <= COORD_LIMIT,
        0 <= sample <= COORD_LIMIT,
        1 <= pdfv <= COORD_LIMIT,
    ensures
        0 <= r <= COORD_LIMIT,
{
    proof {
        assert(0 <= (spdf as int) * att <= 0x40_0000_0000_0000_0000) by (nonlinear_arith)
            requires
                0 <= spdf <= 0x1_0000_0000,
                0 <= att <= 0x40_0000_0000,
        ;
        vstd::arithmetic::div_mod::lemma_div_pos_is_pos((spdf as int) * att, ONE as int);
        crate::fixed::lemma_div_range((spdf as int) * att, ONE as int, 0x40_0000_0000_0000_0000);
    }
    let t1: i128 = crate::fixed::div_q_i128((spdf as i128) * (att as i128), ONE as i128);
    proof {
        assert(0 <= (t1 as int) * sample <= 0x100_0000_0000_0000_0000_0000_0000)
            by (nonlinear_arith)
            requires
                0 <= t1 <= 0x40_0000_0000_0000,
                0 <= sample <= 0x40_0000_0000,
        ;
        vstd::arithmetic::div_mod::lemma_div_pos_is_pos((t1 as int) * sample, ONE as int);
        crate::fixed::lemma_div_range(
            (t1 as int) * sample,
            ONE as int,
            0x100_0000_0000_0000_0000_0000_0000,
        );
    }
    let t2: i128 = crate::fixed::div_q_i128(t1 * (sample as i128), ONE as i128);
    proof {
        assert(0 <= (t2 as int) * ONE <= 0x1000_0000_0000_0000_0000_0000_0000)
            by (nonlinear_arith)
            requires
                0 <= t2 <= 0x100_0000_0000_0000_0000_0000,
                ONE == 65536,
        ;
        vstd::arithmetic::div_mod::lemma_div_pos_is_pos((t2 as int) * ONE, pdfv as int);
    }
    let t3: i128 = crate::fixed::div_q_i128(t2 * (ONE as i128), pdfv as i128);
    if t3 > COORD_LIMIT as i128 {
        COORD_LIMIT
    } else {
        t3 as i64
    }
}

/// The sum of two radiance channels, clamped into the radiance band.
fn add_clamped(a: i64, b: i64) -> (r: i64)
    requires
        0 <= a <= COORD_LIMIT,
        0 <= b <= COORD_LIMIT,
    ensures
        0 <= r <= COORD_LIMIT,
{
    if a + b > COORD_LIMIT {
        COORD_LIMIT
    } else {
        a + b
    }
}

/// The product of an attenuation channel and a radiance channel, clamped
/// into the radiance band.
pub open spec fn mul_clamp_spec(a: int, b: int) -> int {
    let p = crate::fixed::mul_q(a, b);
    if p > COORD_LIMIT {
        COORD_LIMIT as int
    } else {
        p
    }
}

/// The product of an attenuation channel and a radiance channel, clamped
/// into the radiance band.
fn mul_clamped(a: i64, b: i64) -> (r: i64)
    requires
        0 <= a <= COORD_LIMIT,
        0 <= b <= COORD_LIMIT,
    ensures
        0 <= r <= COORD_LIMIT,
        r == mul_clamp_spec(a as int, b as int),
{
    proof {
        assert(0 <= (a as int) * b <= 0x1000_0000_0000_0000_0000) by (nonlinear_arith)
            requires
                0 <= a <= 0x40_0000_0000,
                0 <= b <= 0x40_0000_0000,
        ;
        vstd::arithmetic::div_mod::lemma_div_pos_is_pos((a as int) * b, ONE as int);
        crate::fixed::lemma_div_range((a as int) * b, ONE as int, 0x1000_0000_0000_0000_0000);
    }
    let p: i128 = crate::fixed::div_q_i128((a as i128) * (b as i128), ONE as i128);
    if p > COORD_LIMIT as i128 {
        COORD_LIMIT
    } else {
        p as i64
    }
}

impl Ray {
    /// The recursive radiance estimate along this ray, querying the
    /// scene through its bounding-volume hierarchy: emitted light plus
    /// density-weighted scattered light, black at depth zero, the
    /// background on a miss.  Every channel of the answer is non-negative
    /// and inside the radiance band; a mixture density at or below zero
    /// contributes nothing rather than dividing by it.  For a sound tree
    /// of solid primitives, a miss yields exactly the background, and the
    /// record struck is a nearest hit of the tree's primitives; when that
    /// hit is a pure emitter, the answer is exactly its emitted radiance.
    pub fn color(
        &self,
        depth: u32,
        world: &crate::bvh::BvhNode,
        background: Color,
        lights: &crate::hittable::HittableObjects,
        rng: &mut crate::rng::Randomizer,
    ) -> (c: Color)
        requires
            crate::hittable::all_wf(world.prims()),
            crate::hittable::all_wf(lights.objects@),
            color_non_neg(background),
            color_in_range(background, COORD_LIMIT as int),
        ensures
            depth == 0 ==> c == (Color { r: 0, g: 0, b: 0 }),
            color_non_neg(c),
            color_in_range(c, COORD_LIMIT as int),
            (depth > 0 && world.wf() && crate::hittable::all_solid(world.prims())
                && crate::hittable::no_hit(world.prims(), *self, 66, T_LIMIT as int)) ==> c
                == background,
            (depth > 0 && world.wf() && crate::hittable::all_solid(world.prims())
                && !crate::hittable::no_hit(world.prims(), *self, 66, T_LIMIT as int))
                ==> exists|rec: crate::material::HitRecord, mat: crate::material::Material|
                {
                    &&& #[trigger] crate::hittable::nearest_hit(
                        world.prims(),
                        *self,
                        66,
                        T_LIMIT as int,
                        rec,
                        mat,
                    )
                    &&& (mat.material is DiffuseLight ==> c == crate::material::emitted_spec(
                        mat,
                        rec,
                    ))
                    &&& (mat.material matches crate::material::MaterialType::Metal {
                        albedo,
                        ..
                    } ==> exists|sub: Color|
                        color_non_neg(sub) && color_in_range(sub, COORD_LIMIT as int) && c == (
                        Color {
                            r: mul_clamp_spec(albedo.r as int, sub.r as int) as i64,
                            g: mul_clamp_spec(albedo.g as int, sub.g as int) as i64,
                            b: mul_clamp_spec(albedo.b as int, sub.b as int) as i64,
                        }))
                },
        decreases depth,
    {
        if depth == 0 {
            return Color::black();
        }
        let pair = world.hit(self, 66, T_LIMIT, rng);
        let (rec, mat) = match pair {
            None => {
                return background;
            },
            Some(p) => p,
        };
        proof {
            if world.wf() && crate::hittable::all_solid(world.prims()) {
                assert(crate::hittable::nearest_hit(
                    world.prims(),
                    *self,
                    66,
                    T_LIMIT as int,
                    rec,
                    *mat,
                ));
                crate::bvh::lemma_nearest_hit_not_none(
                    world.prims(),
                    *self,
                    66,
                    T_LIMIT as int,
                    rec,
                    *mat,
                );
            }
        }
        let emitted = mat.emitted(self, &rec);
        if !(self.direction.x >= -COORD_LIMIT && self.direction.x <= COORD_LIMIT
            && self.direction.y >= -COORD_LIMIT && self.direction.y <= COORD_LIMIT
            && self.direction.z >= -COORD_LIMIT && self.direction.z <= COORD_LIMIT) {
            return emitted;
        }
        let sr = match mat.scatter(self, &rec, rng) {
            None => {
                return emitted;
            },
            Some(sr) => sr,
        };
        if sr.skip_pdf {
            let sub = sr.skip_pdf_ray.color(depth - 1, world, background, lights, rng);
            return Color {
                r: mul_clamped(sr.attenuation.r, sub.r),
                g: mul_clamped(sr.attenuation.g, sub.g),
                b: mul_clamped(sr.attenuation.b, sub.b),
            };
        }
        let mut mix = crate::pdf::PDF::new_mix();
        let ghost mat_pdf = sr.pdf;
        mix.add_to_mix(sr.pdf);
        let light_pdf = crate::pdf::PDF::new_lights(lights, rec.p);
        let ghost light_pdf_g = light_pdf;
        mix.add_to_mix(light_pdf);
        proof {
            let pdfs = mix.pdf_type->MixPdfs_pdfs;
            assert(pdfs@ =~= seq![mat_pdf, light_pdf_g]);
            assert(crate::pdf::pdf_wf_all(pdfs, 0));
            assert(crate::pdf::pdf_wf_all(pdfs, 1));
            assert(crate::pdf::pdf_wf_all(pdfs, 2));
        }
        let gen = mix.generate(rng);
        if !(gen.x >= -COORD_LIMIT && gen.x <= COORD_LIMIT && gen.y >= -COORD_LIMIT && gen.y
            <= COORD_LIMIT && gen.z >= -COORD_LIMIT && gen.z <= COORD_LIMIT) {
            return emitted;
        }
        let scattered = Ray::new_time(rec.p, gen, self.time);
        let pdf_val = mix.value(gen, rng);
        if pdf_val <= 0 {
            return emitted;
        }
        let spdf = mat.scattering_pdf(self, &rec, &scattered);
        let sample = scattered.color(depth - 1, world, background, lights, rng);
        let cr = contribution_channel(spdf, sr.attenuation.r, sample.r, pdf_val);
        let cg = contribution_channel(spdf, sr.attenuation.g, sample.g, pdf_val);
        let cb = contribution_channel(spdf, sr.attenuation.b, sample.b, pdf_val);
        Color {
            r: add_clamped(emitted.r, cr),
            g: add_clamped(emitted.g, cg),
            b: add_clamped(emitted.b, cb),
        }
    }
}

} // verus!
