//! Materials: scattering and emission behavior per surface kind.

use vstd::prelude::*;
use crate::fixed::ONE;
use crate::fixed::HALF;
use crate::fixed::PI_FP;
use crate::fixed::COORD_LIMIT;
use crate::fixed::fmul;
use crate::fixed::fdiv;
use crate::fixed::mul_q;
use crate::fixed::quot_q;
use crate::fixed::lemma_mul_q_bound;
use crate::fixed::lemma_mul_q_unit;
use crate::vector::Vector;
use crate::vector::Color;
use crate::vector::in_range;
use crate::vector::dot_spec;
use crate::vector::norm2_spec;
use crate::vector::color_non_neg;
use crate::vector::color_in_range;
use crate::texture::Texture;
use crate::texture::texture_wf;
use crate::ray::Ray;
use crate::rng::Randomizer;

verus! {

/// The transient result of an intersection: where the ray hit, how far
/// along it, the outward-consistent normal, and surface coordinates.
/// The material at the hit travels alongside, by reference to the
/// primitive that produced it.
#[derive(Clone, Copy, PartialEq, Eq, Structural, Debug)]
pub struct HitRecord {
    pub p: Vector,
    pub t: i64,
    pub normal: Vector,
    pub front_face: bool,
    pub u: i64,
    pub v: i64,
}

impl HitRecord {
    /// Orients the stored normal against the incoming ray and records
    /// which side was struck.
    pub fn set_face_normal(&mut self, r: Ray, outward_normal: Vector)
        requires
            in_range(r.direction, COORD_LIMIT as int),
            in_range(outward_normal, COORD_LIMIT as int),
        ensures
            final(self).front_face == (dot_spec(r.direction, outward_normal) < 0),
            final(self).normal == if dot_spec(r.direction, outward_normal) < 0 {
                outward_normal
            } else {
                (Vector {
                    x: (-outward_normal.x) as i64,
                    y: (-outward_normal.y) as i64,
                    z: (-outward_normal.z) as i64,
                })
            },
            final(self).p == old(self).p,
            final(self).t == old(self).t,
            final(self).u == old(self).u,
            final(self).v == old(self).v,
    {
        let d = r.direction;
        let front = d.dot(outward_normal) < 0;
        self.front_face = front;
        if front {
            self.normal = outward_normal;
        } else {
            self.normal = outward_normal.neg();
        }
    }
}

/// An orthonormal-style frame aligned to a surface normal, used to map
/// canonical samples into world space.
#[derive(Clone, Copy, PartialEq, Eq, Structural, Debug)]
pub struct ONB {
    pub axis_u: Vector,
    pub axis_v: Vector,
    pub axis_w: Vector,
}

/// Frame vectors small enough for further fixed-point sums.
pub open spec fn onb_wf(o: ONB) -> bool {
    &&& in_range(o.axis_u, 4 * ONE as int)
    &&& in_range(o.axis_v, 4 * ONE as int)
    &&& in_range(o.axis_w, 4 * ONE as int)
}

/// The helper axis `ONB::new` measures the normal against: the second
/// world axis when the normal runs close to the first, else the first.
pub open spec fn onb_pick_spec(w: Vector) -> Vector {
    if w.x > 58982 || w.x < -58982 {
        Vector { x: 0, y: ONE as i64, z: 0 }
    } else {
        Vector { x: ONE as i64, y: 0, z: 0 }
    }
}

/// The frame `ONB::new` builds: the third axis follows the unit normal,
/// the second is the unit cross with a helper axis, the first closes the
/// frame; degenerate inputs fall back to the world axes.
pub open spec fn onb_spec(n: Vector) -> ONB {
    if n.x == 0 && n.y == 0 && n.z == 0 {
        ONB {
            axis_u: Vector { x: ONE as i64, y: 0, z: 0 },
            axis_v: Vector { x: 0, y: ONE as i64, z: 0 },
            axis_w: Vector { x: 0, y: 0, z: ONE as i64 },
        }
    } else {
        let w = unit_of(n);
        let c = crate::vector::cross_vec(w, onb_pick_spec(w));
        if c.x == 0 && c.y == 0 && c.z == 0 {
            ONB {
                axis_u: Vector { x: ONE as i64, y: 0, z: 0 },
                axis_v: Vector { x: 0, y: ONE as i64, z: 0 },
                axis_w: w,
            }
        } else {
            ONB {
                axis_u: crate::vector::cross_vec(w, unit_of(c)),
                axis_v: unit_of(c),
                axis_w: w,
            }
        }
    }
}

/// One component of a frame transform: the sample's coordinates blended
/// along the frame's axes.
pub open spec fn onb_mix(a: int, ua: int, b: int, va: int, c: int, wa: int) -> int {
    mul_q(a, ua) + mul_q(b, va) + mul_q(c, wa)
}

impl ONB {
    /// A frame whose third axis follows the given direction.  Degenerate
    /// inputs fall back to the world axes.
    pub fn new(n: Vector) -> (o: ONB)
        requires
            in_range(n, COORD_LIMIT as int),
        ensures
            o == onb_spec(n),
            !(n.x == 0 && n.y == 0 && n.z == 0) ==> o.axis_w == unit_of(n),
            onb_wf(o),
    {
        if n.near_zero() {
            return ONB {
                axis_u: Vector { x: ONE, y: 0, z: 0 },
                axis_v: Vector { x: 0, y: ONE, z: 0 },
                axis_w: Vector { x: 0, y: 0, z: ONE },
            };
        }
        proof {
            assert(norm2_spec(n) >= 1) by (nonlinear_arith)
                requires
                    !(n.x == 0 && n.y == 0 && n.z == 0),
                    norm2_spec(n) == n.x as int * n.x + n.y as int * n.y + n.z as int * n.z,
            ;
        }
        let w = n.unit_vector();
        let a = if w.x > 58982 || w.x < -58982 {
            Vector { x: 0, y: ONE, z: 0 }
        } else {
            Vector { x: ONE, y: 0, z: 0 }
        };
        let c = w.cross(a);
        proof {
            crate::fixed::lemma_div_range(
                w.y as int * a.z - w.z as int * a.y,
                ONE as int,
                2 * (ONE as int) * ONE,
            );
            assert(-2 * (ONE as int) * ONE <= w.y as int * a.z - w.z as int * a.y <= 2 * (
            ONE as int) * ONE) by (nonlinear_arith)
                requires
                    in_range(w, ONE as int),
                    in_range(a, ONE as int),
            ;
            assert(-2 * (ONE as int) * ONE <= w.z as int * a.x - w.x as int * a.z <= 2 * (
            ONE as int) * ONE) by (nonlinear_arith)
                requires
                    in_range(w, ONE as int),
                    in_range(a, ONE as int),
            ;
            assert(-2 * (ONE as int) * ONE <= w.x as int * a.y - w.y as int * a.x <= 2 * (
            ONE as int) * ONE) by (nonlinear_arith)
                requires
                    in_range(w, ONE as int),
                    in_range(a, ONE as int),
            ;
            crate::fixed::lemma_div_range(
                w.z as int * a.x - w.x as int * a.z,
                ONE as int,
                2 * (ONE as int) * ONE,
            );
            crate::fixed::lemma_div_range(
                w.x as int * a.y - w.y as int * a.x,
                ONE as int,
                2 * (ONE as int) * ONE,
            );
        }
        if c.near_zero() {
            return ONB {
                axis_u: Vector { x: ONE, y: 0, z: 0 },
                axis_v: Vector { x: 0, y: ONE, z: 0 },
                axis_w: w,
            };
        }
        proof {
            assert(norm2_spec(c) >= 1) by (nonlinear_arith)
                requires
                    !(c.x == 0 && c.y == 0 && c.z == 0),
                    norm2_spec(c) == c.x as int * c.x + c.y as int * c.y + c.z as int * c.z,
            ;
        }
        let v = c.unit_vector();
        let u = w.cross(v);
        proof {
            assert(-2 * (ONE as int) * ONE <= w.y as int * v.z - w.z as int * v.y <= 2 * (
            ONE as int) * ONE) by (nonlinear_arith)
                requires
                    in_range(w, ONE as int),
                    in_range(v, ONE as int),
            ;
            assert(-2 * (ONE as int) * ONE <= w.z as int * v.x - w.x as int * v.z <= 2 * (
            ONE as int) * ONE) by (nonlinear_arith)
                requires
                    in_range(w, ONE as int),
                    in_range(v, ONE as int),
            ;
            assert(-2 * (ONE as int) * ONE <= w.x as int * v.y - w.y as int * v.x <= 2 * (
            ONE as int) * ONE) by (nonlinear_arith)
                requires
                    in_range(w, ONE as int),
                    in_range(v, ONE as int),
            ;
            crate::fixed::lemma_div_range(
                w.y as int * v.z - w.z as int * v.y,
                ONE as int,
                2 * (ONE as int) * ONE,
            );
            crate::fixed::lemma_div_range(
                w.z as int * v.x - w.x as int * v.z,
                ONE as int,
                2 * (ONE as int) * ONE,
            );
            crate::fixed::lemma_div_range(
                w.x as int * v.y - w.y as int * v.x,
                ONE as int,
                2 * (ONE as int) * ONE,
            );
        }
        ONB { axis_u: u, axis_v: v, axis_w: w }
    }

    pub fn u(&self) -> (r: Vector)
        ensures
            r == self.axis_u,
    {
        self.axis_u
    }

    pub fn v(&self) -> (r: Vector)
        ensures
            r == self.axis_v,
    {
        self.axis_v
    }

    pub fn w(&self) -> (r: Vector)
        ensures
            r == self.axis_w,
    {
        self.axis_w
    }

    /// Maps a canonical sample into the frame.
    pub fn transform(&self, s: Vector) -> (r: Vector)
        requires
            onb_wf(*self),
            in_range(s, 2 * ONE as int),
        ensures
            r.x == onb_mix(
                s.x as int,
                self.axis_u.x as int,
                s.y as int,
                self.axis_v.x as int,
                s.z as int,
                self.axis_w.x as int,
            ),
            r.y == onb_mix(
                s.x as int,
                self.axis_u.y as int,
                s.y as int,
                self.axis_v.y as int,
                s.z as int,
                self.axis_w.y as int,
            ),
            r.z == onb_mix(
                s.x as int,
                self.axis_u.z as int,
                s.y as int,
                self.axis_v.z as int,
                s.z as int,
                self.axis_w.z as int,
            ),
            in_range(r, 27 * ONE as int),
    {
        proof {
            lemma_mul_q_bound(s.x as int, self.axis_u.x as int, 131072, 262144);
            lemma_mul_q_bound(s.y as int, self.axis_v.x as int, 131072, 262144);
            lemma_mul_q_bound(s.z as int, self.axis_w.x as int, 131072, 262144);
            lemma_mul_q_bound(s.x as int, self.axis_u.y as int, 131072, 262144);
            lemma_mul_q_bound(s.y as int, self.axis_v.y as int, 131072, 262144);
            lemma_mul_q_bound(s.z as int, self.axis_w.y as int, 131072, 262144);
            lemma_mul_q_bound(s.x as int, self.axis_u.z as int, 131072, 262144);
            lemma_mul_q_bound(s.y as int, self.axis_v.z as int, 131072, 262144);
            lemma_mul_q_bound(s.z as int, self.axis_w.z as int, 131072, 262144);
        }
        let x = fmul(s.x, self.axis_u.x) + fmul(s.y, self.axis_v.x) + fmul(s.z, self.axis_w.x);
        let y = fmul(s.x, self.axis_u.y) + fmul(s.y, self.axis_v.y) + fmul(s.z, self.axis_w.y);
        let z = fmul(s.x, self.axis_u.z) + fmul(s.y, self.axis_v.z) + fmul(s.z, self.axis_w.z);
        Vector { x, y, z }
    }
}

/// The closed set of material kinds.
pub enum MaterialType {
    Lambertian { texture: Texture },
    Metal { albedo: Color, fuzz: i64 },
    Dielectric { refraction_index: i64 },
    DiffuseLight { texture: Texture },
    Isotropic { texture: Texture },
}

/// A material: pure value semantics, stateless evaluation.
pub struct Material {
    pub material: MaterialType,
}

/// Stored parameters in physical range.
pub open spec fn material_wf(m: Material) -> bool {
    match m.material {
        MaterialType::Lambertian { texture } => texture_wf(texture),
        MaterialType::Metal { albedo, fuzz } => color_non_neg(albedo) && color_in_range(
            albedo,
            COORD_LIMIT as int,
        ) && 0 <= fuzz <= ONE,
        MaterialType::Dielectric { refraction_index } => HALF <= refraction_index <= 8 * ONE,
        MaterialType::DiffuseLight { texture } => texture_wf(texture),
        MaterialType::Isotropic { texture } => texture_wf(texture),
    }
}

/// The density the material itself assigns to a scattered direction: the
/// cosine lobe for diffuse surfaces, the uniform sphere for isotropic
/// media, and a neutral constant for specular kinds that bypass sampling.
pub open spec fn scattering_pdf_spec(m: Material, rec: HitRecord, scattered: Ray) -> int {
    match m.material {
        MaterialType::Lambertian { .. } => {
            if norm2_spec(scattered.direction) == 0 {
                0
            } else {
                let unit = unit_of(scattered.direction);
                let c = quot_q(dot_spec(rec.normal, unit), PI_FP as int);
                if c < 0 {
                    0
                } else {
                    c
                }
            }
        },
        MaterialType::Isotropic { .. } => quot_q(ONE as int, 4 * PI_FP as int),
        _ => ONE as int,
    }
}

/// The unit-rescaled direction, as `Vector::unit_vector` computes it.
pub open spec fn unit_of(v: Vector) -> Vector {
    Vector {
        x: quot_q(v.x as int, crate::vector::len_spec(v)) as i64,
        y: quot_q(v.y as int, crate::vector::len_spec(v)) as i64,
        z: quot_q(v.z as int, crate::vector::len_spec(v)) as i64,
    }
}

impl Material {
    pub fn new_lambertian(texture: Texture) -> (m: Material)
        requires
            texture_wf(texture),
        ensures
            m.material matches MaterialType::Lambertian { texture: t } && t == texture,
            material_wf(m),
    {
        Material { material: MaterialType::Lambertian { texture } }
    }

    pub fn new_diffuse_light(texture: Texture) -> (m: Material)
        requires
            texture_wf(texture),
        ensures
            m.material matches MaterialType::DiffuseLight { texture: t } && t == texture,
            material_wf(m),
    {
        Material { material: MaterialType::DiffuseLight { texture } }
    }

    /// A mirror-like surface; fuzz above one is clamped down to one.
    /// Fuzz is required non-negative: a negative perturbation radius has
    /// no physical reading and the float original never passed one.
    pub fn new_metal(albedo: Color, fuzz: i64) -> (m: Material)
        requires
            color_non_neg(albedo),
            color_in_range(albedo, COORD_LIMIT as int),
            0 <= fuzz,
        ensures
            m.material matches MaterialType::Metal { albedo: a, fuzz: f } && a == albedo && f
                == if fuzz > ONE {
                ONE as i64
            } else {
                fuzz
            },
            material_wf(m),
    {
        let f = if fuzz > ONE {
            ONE
        } else {
            fuzz
        };
        Material { material: MaterialType::Metal { albedo, fuzz: f } }
    }

    /// A glass-like surface.  The index is kept between one half and
    /// eight: the physically meaningful range, and the band the
    /// fixed-point Snell and Schlick arithmetic is proved exact for.
    pub fn new_dielectric(refraction_index: i64) -> (m: Material)
        requires
            HALF <= refraction_index <= 8 * ONE,
        ensures
            m.material matches MaterialType::Dielectric { refraction_index: ri } && ri
                == refraction_index,
            material_wf(m),
    {
        Material { material: MaterialType::Dielectric { refraction_index } }
    }

    pub fn new_isotropic(texture: Texture) -> (m: Material)
        requires
            texture_wf(texture),
        ensures
            m.material matches MaterialType::Isotropic { texture: t } && t == texture,
            material_wf(m),
    {
        Material { material: MaterialType::Isotropic { texture } }
    }

    /// The density the material assigns to a scattered direction; never
    /// negative.
    pub fn scattering_pdf(&self, ray_in: &Ray, rec: &HitRecord, scattered: &Ray) -> (r: i64)
        requires
            in_range(rec.normal, 2 * ONE as int),
            in_range(scattered.direction, COORD_LIMIT as int),
        ensures
            r == scattering_pdf_spec(*self, *rec, *scattered),
            r >= 0,
            r <= 0x1_0000_0000,
    {
        match &self.material {
            MaterialType::Lambertian { .. } => {
                let d = scattered.direction;
                if d.x == 0 && d.y == 0 && d.z == 0 {
                    proof {
                        assert(norm2_spec(d) == 0);
                    }
                    return 0;
                }
                proof {
                    assert(norm2_spec(d) >= 1) by (nonlinear_arith)
                        requires
                            !(d.x == 0 && d.y == 0 && d.z == 0),
                            norm2_spec(d) == d.x as int * d.x + d.y as int * d.y + d.z as int
                                * d.z,
                    ;
                }
                let unit = d.unit_vector();
                let cos = rec.normal.dot(unit);
                proof {
                    assert(-6 * (ONE as int) * ONE <= rec.normal.x as int * unit.x
                        + rec.normal.y as int * unit.y + rec.normal.z as int * unit.z <= 6 * (
                    ONE as int) * ONE) by (nonlinear_arith)
                        requires
                            in_range(rec.normal, 2 * ONE as int),
                            in_range(unit, ONE as int),
                    ;
                    crate::fixed::lemma_div_range(
                        rec.normal.x as int * unit.x + rec.normal.y as int * unit.y
                            + rec.normal.z as int * unit.z,
                        ONE as int,
                        6 * (ONE as int) * ONE,
                    );
                    crate::fixed::lemma_div_range(
                        (cos as int) * ONE,
                        PI_FP as int,
                        (6 * (ONE as int) + 1) * ONE,
                    );
                }
                let c = fdiv(cos, PI_FP);
                if c < 0 {
                    0
                } else {
                    c
                }
            },
            MaterialType::Isotropic { .. } => {
                proof {
                    vstd::arithmetic::div_mod::lemma_div_pos_is_pos(
                        (ONE as int) * ONE,
                        4 * PI_FP as int,
                    );
                    vstd::arithmetic::div_mod::lemma_div_basics_5(
                        (ONE as int) * ONE,
                        4 * PI_FP as int,
                    );
                }
                fdiv(ONE, 4 * PI_FP)
            },
            _ => ONE,
        }
    }

    /// Emitted radiance: the light texture's value on the front face of a
    /// diffuse light, black everywhere else.
    pub fn emitted(&self, ray_in: &Ray, rec: &HitRecord) -> (c: Color)
        requires
            material_wf(*self),
            in_range(rec.p, COORD_LIMIT as int),
        ensures
            color_non_neg(c),
            color_in_range(c, COORD_LIMIT as int),
            self.material is DiffuseLight ==> c == emitted_spec(*self, *rec),
            !(self.material is DiffuseLight) || !rec.front_face ==> c == (Color {
                r: 0,
                g: 0,
                b: 0,
            }),
    {
        match &self.material {
            MaterialType::DiffuseLight { texture } => {
                if rec.front_face {
                    texture.value(rec.u, rec.v, rec.p)
                } else {
                    Color::black()
                }
            },
            _ => Color::black(),
        }
    }
}

/// The emitted radiance of a material at a hit: the light texture's value
/// on the front face of a diffuse light, black everywhere else.
pub open spec fn emitted_spec(m: Material, rec: HitRecord) -> Color {
    match m.material {
        MaterialType::DiffuseLight { texture } => {
            if rec.front_face {
                texture_color_at(texture, rec.u as int, rec.v as int, rec.p)
            } else {
                Color { r: 0, g: 0, b: 0 }
            }
        },
        _ => Color { r: 0, g: 0, b: 0 },
    }
}

/// Whether a perfectly sharp mirror scatter leaves the surface: the
/// incident direction is usable, its reflection stays in the working
/// band, and the reflected direction points out of the surface.
pub open spec fn metal_mirror_succeeds(d: Vector, normal: Vector) -> bool {
    &&& !(d.x == 0 && d.y == 0 && d.z == 0)
    &&& {
        let refl = crate::vector::reflect_spec(unit_of(d), normal);
        &&& in_range(refl, COORD_LIMIT as int)
        &&& !(refl.x == 0 && refl.y == 0 && refl.z == 0)
        &&& dot_spec(unit_of(refl), normal) > 0
    }
}

/// The two directions a dielectric can emit: the reflection and the
/// refraction of the unit incident direction, for the relative index the
/// face side selects.
pub open spec fn dielectric_candidates(
    d: Vector,
    normal: Vector,
    front_face: bool,
    refraction_index: int,
) -> (Vector, Vector) {
    let ri = if front_face {
        quot_q(ONE as int, refraction_index)
    } else {
        refraction_index
    };
    let u = unit_of(d);
    let refr = crate::vector::refract_spec(u, normal, ri);
    (
        crate::vector::reflect_spec(u, normal),
        Vector { x: refr.0 as i64, y: refr.1 as i64, z: refr.2 as i64 },
    )
}

/// Materials whose stored data is plain enough that a clone is provably
/// identical: scalar kinds, and texture kinds without heap-backed tables.
pub open spec fn material_plain(m: Material) -> bool {
    match m.material {
        MaterialType::Lambertian { texture } => texture.texture is SolidColor || texture.texture
            is CheckerTexture,
        MaterialType::Metal { .. } => true,
        MaterialType::Dielectric { .. } => true,
        MaterialType::DiffuseLight { texture } => texture.texture is SolidColor
            || texture.texture is CheckerTexture,
        MaterialType::Isotropic { texture } => texture.texture is SolidColor || texture.texture
            is CheckerTexture,
    }
}

/// The color a well-formed texture yields, for the kinds whose value is a
/// function of the lookup alone.
pub open spec fn texture_color_at(t: Texture, u: int, v: int, p: Vector) -> Color {
    match t.texture {
        crate::texture::TextureType::SolidColor { color } => color,
        crate::texture::TextureType::CheckerTexture { inv_scale, even, odd } => {
            if crate::texture::checker_even(inv_scale as int, p) {
                even
            } else {
                odd
            }
        },
        crate::texture::TextureType::ImageTexture { image } => {
            let ij = crate::texture::image_uv_spec(image, u, v);
            let px = crate::texture::image_pixel_spec(image, ij.0, ij.1);
            Color { r: px.0 as i64, g: px.1 as i64, b: px.2 as i64 }
        },
        crate::texture::TextureType::NoiseTexture { noise, scale } => {
            let val = crate::texture::noise_value_spec(noise, scale, p) as i64;
            Color { r: val, g: val, b: val }
        },
    }
}


impl Clone for Material {
    /// A clone keeps the material's kind and well-formedness.
    fn clone(&self) -> (res: Material)
        ensures
            material_wf(*self) ==> material_wf(res),
            material_plain(*self) ==> res == *self,
            res.material is Lambertian <==> self.material is Lambertian,
            res.material is Metal <==> self.material is Metal,
            res.material is Dielectric <==> self.material is Dielectric,
            res.material is DiffuseLight <==> self.material is DiffuseLight,
            res.material is Isotropic <==> self.material is Isotropic,
    {
        match &self.material {
            MaterialType::Lambertian { texture } => Material {
                material: MaterialType::Lambertian { texture: texture.clone() },
            },
            MaterialType::Metal { albedo, fuzz } => Material {
                material: MaterialType::Metal { albedo: *albedo, fuzz: *fuzz },
            },
            MaterialType::Dielectric { refraction_index } => Material {
                material: MaterialType::Dielectric { refraction_index: *refraction_index },
            },
            MaterialType::DiffuseLight { texture } => Material {
                material: MaterialType::DiffuseLight { texture: texture.clone() },
            },
            MaterialType::Isotropic { texture } => Material {
                material: MaterialType::Isotropic { texture: texture.clone() },
            },
        }
    }
}


/// The transient result of a scatter: the attenuation, and either a
/// sampling distribution or a single deterministic bypass ray for
/// mirror-like materials.
pub struct ScatterRecord {
    pub attenuation: Color,
    pub pdf: crate::pdf::PDF,
    pub skip_pdf: bool,
    pub skip_pdf_ray: Ray,
}

/// Schlick's polynomial approximation of the Fresnel reflectance,
/// mirrored step for step.
pub open spec fn reflectance_spec(cosine: int, ri: int) -> int {
    let q = quot_q(ONE - ri, ONE + ri);
    let r0 = mul_q(q, q);
    let omc = ONE - cosine;
    let p2 = mul_q(omc, omc);
    let p4 = mul_q(p2, p2);
    let p5 = mul_q(p4, omc);
    r0 + mul_q(ONE - r0, p5)
}

impl Material {
    /// Schlick reflectance for a clamped cosine and relative index.
    fn reflectance(cosine: i64, ri: i64) -> (r: i64)
        requires
            0 <= cosine <= ONE,
            0 <= ri <= 8 * ONE,
        ensures
            r == reflectance_spec(cosine as int, ri as int),
    {
        proof {
            assert(-458752 * (ONE as int) <= ((ONE - ri) as int) * ONE <= 458752 * (
            ONE as int)) by (nonlinear_arith)
                requires
                    -458752 <= (ONE - ri) as int <= 65536,
                    ONE == 65536,
            ;
            crate::fixed::lemma_div_range(
                ((ONE - ri) as int) * ONE,
                (ONE + ri) as int,
                458752 * (ONE as int),
            );
            vstd::arithmetic::div_mod::lemma_div_is_ordered_by_denominator(
                458752 * (ONE as int),
                ONE as int,
                (ONE + ri) as int,
            );
            vstd::arithmetic::div_mod::lemma_div_multiples_vanish(458752, ONE as int);
            assert(458752 * (ONE as int) == (ONE as int) * 458752) by (nonlinear_arith);
        }
        let q = fdiv(ONE - ri, ONE + ri);
        proof {
            lemma_mul_q_bound(q as int, q as int, 458753, 458753);
        }
        let r0 = fmul(q, q);
        let omc = ONE - cosine;
        proof {
            lemma_mul_q_unit(omc as int, omc as int);
            assert((omc as int) * omc >= 0) by (nonlinear_arith);
            vstd::arithmetic::div_mod::lemma_div_pos_is_pos((omc as int) * omc, ONE as int);
        }
        let p2 = fmul(omc, omc);
        proof {
            lemma_mul_q_unit(p2 as int, p2 as int);
            assert((p2 as int) * p2 >= 0) by (nonlinear_arith);
            vstd::arithmetic::div_mod::lemma_div_pos_is_pos((p2 as int) * p2, ONE as int);
        }
        let p4 = fmul(p2, p2);
        proof {
            lemma_mul_q_unit(p4 as int, omc as int);
            assert((p4 as int) * omc >= 0) by (nonlinear_arith)
                requires
                    p4 >= 0,
                    omc >= 0,
            ;
            vstd::arithmetic::div_mod::lemma_div_pos_is_pos((p4 as int) * omc, ONE as int);
        }
        let p5 = fmul(p4, omc);
        proof {
            lemma_mul_q_bound((ONE - r0) as int, p5 as int, 3276816, 65536);
        }
        r0 + fmul(ONE - r0, p5)
    }

    /// Asks the material to scatter an incoming ray at a hit: a sampling
    /// distribution for diffuse kinds, a deterministic bypass ray for
    /// specular kinds, nothing for pure emitters.
    pub fn scatter(&self, ray_in: &Ray, rec: &HitRecord, rng: &mut Randomizer) -> (r: Option<
        ScatterRecord,
    >)
        requires
            material_wf(*self),
            in_range(rec.p, COORD_LIMIT as int),
            in_range(rec.normal, 2 * ONE as int),
            in_range(ray_in.direction, COORD_LIMIT as int),
        ensures
            self.material is DiffuseLight ==> r is None,
            r matches Some(sr) ==> {
                &&& color_non_neg(sr.attenuation)
                &&& color_in_range(sr.attenuation, COORD_LIMIT as int)
                &&& crate::pdf::pdf_wf(sr.pdf)
                &&& (sr.skip_pdf ==> sr.skip_pdf_ray.origin == rec.p
                    && sr.skip_pdf_ray.time == ray_in.time && in_range(
                    sr.skip_pdf_ray.direction,
                    0x1000_0000_0000,
                ))
            },
            self.material matches MaterialType::Lambertian { texture } ==> (r matches Some(sr)
                && !sr.skip_pdf && (sr.pdf.pdf_type matches crate::pdf::PDFType::Cosine { uvw }
                && uvw == onb_spec(rec.normal)) && crate::pdf::pdf_deterministic(sr.pdf)
                && sr.attenuation == texture_color_at(texture, rec.u as int, rec.v as int, rec.p)),
            self.material matches MaterialType::Isotropic { texture } ==> (r matches Some(sr)
                && !sr.skip_pdf && sr.pdf.pdf_type is Sphere && sr.attenuation
                == texture_color_at(texture, rec.u as int, rec.v as int, rec.p)),
            self.material matches MaterialType::Metal { albedo, fuzz } ==> (r matches Some(sr)
                ==> sr.skip_pdf && sr.attenuation == albedo),
            self.material matches MaterialType::Metal { albedo, fuzz } ==> (fuzz == 0 ==> (r
                is Some <==> metal_mirror_succeeds(ray_in.direction, rec.normal))),
            self.material is Dielectric ==> (r matches Some(sr) ==> sr.skip_pdf
                && sr.attenuation == (Color { r: ONE as i64, g: ONE as i64, b: ONE as i64 })),
            self.material matches MaterialType::Dielectric { refraction_index } ==> {
                let cand = dielectric_candidates(
                    ray_in.direction,
                    rec.normal,
                    rec.front_face,
                    refraction_index as int,
                );
                &&& ((!(ray_in.direction.x == 0 && ray_in.direction.y == 0
                    && ray_in.direction.z == 0) && in_range(cand.0, 0x1000_0000_0000)
                    && in_range(cand.1, 0x1000_0000_0000)) ==> r is Some)
                &&& (r is None ==> ((ray_in.direction.x == 0 && ray_in.direction.y == 0
                    && ray_in.direction.z == 0) || !in_range(cand.0, 0x1000_0000_0000)
                    || !in_range(cand.1, 0x1000_0000_0000)))
            },
    {
        match &self.material {
            MaterialType::Lambertian { texture } => {
                let attenuation = texture.value(rec.u, rec.v, rec.p);
                Some(
                    ScatterRecord {
                        attenuation,
                        pdf: crate::pdf::PDF::new_cosine(rec.normal),
                        skip_pdf: false,
                        skip_pdf_ray: Ray::new(
                            Vector { x: 0, y: 0, z: 0 },
                            Vector { x: 0, y: 0, z: 0 },
                        ),
                    },
                )
            },
            MaterialType::Isotropic { texture } => {
                let attenuation = texture.value(rec.u, rec.v, rec.p);
                Some(
                    ScatterRecord {
                        attenuation,
                        pdf: crate::pdf::PDF::new_sphere(),
                        skip_pdf: false,
                        skip_pdf_ray: Ray::new(
                            Vector { x: 0, y: 0, z: 0 },
                            Vector { x: 0, y: 0, z: 0 },
                        ),
                    },
                )
            },
            MaterialType::Metal { albedo, fuzz } => {
                let d = ray_in.direction;
                if d.x == 0 && d.y == 0 && d.z == 0 {
                    return None;
                }
                proof {
                    assert(norm2_spec(d) >= 1) by (nonlinear_arith)
                        requires
                            !(d.x == 0 && d.y == 0 && d.z == 0),
                            norm2_spec(d) == d.x as int * d.x + d.y as int * d.y + d.z as int
                                * d.z,
                    ;
                }
                let unit_d = d.unit_vector();
                let reflected = unit_d.reflect(rec.normal);
                if !(reflected.x >= -COORD_LIMIT && reflected.x <= COORD_LIMIT && reflected.y
                    >= -COORD_LIMIT && reflected.y <= COORD_LIMIT && reflected.z
                    >= -COORD_LIMIT && reflected.z <= COORD_LIMIT) {
                    return None;
                }
                if reflected.x == 0 && reflected.y == 0 && reflected.z == 0 {
                    return None;
                }
                proof {
                    assert(norm2_spec(reflected) >= 1) by (nonlinear_arith)
                        requires
                            !(reflected.x == 0 && reflected.y == 0 && reflected.z == 0),
                            norm2_spec(reflected) == reflected.x as int * reflected.x
                                + reflected.y as int * reflected.y + reflected.z as int
                                * reflected.z,
                    ;
                }
                let runit = reflected.unit_vector();
                let fv = Vector::random_unit_vector(rng);
                proof {
                    crate::fixed::lemma_mul_q_unit(fv.x as int, *fuzz as int);
                    crate::fixed::lemma_mul_q_unit(fv.y as int, *fuzz as int);
                    crate::fixed::lemma_mul_q_unit(fv.z as int, *fuzz as int);
                }
                let fuzzed = fv.scale(*fuzz);
                let dir = runit.add(fuzzed);
                let dp = dir.dot(rec.normal);
                if dp <= 0 {
                    return None;
                }
                Some(
                    ScatterRecord {
                        attenuation: *albedo,
                        pdf: crate::pdf::PDF::new_sphere(),
                        skip_pdf: true,
                        skip_pdf_ray: Ray::new_time(rec.p, dir, ray_in.time),
                    },
                )
            },
            MaterialType::Dielectric { refraction_index } => {
                let ri: i64 = if rec.front_face {
                    proof {
                        assert((ONE as int) * ONE == 4294967296) by (nonlinear_arith)
                            requires
                                ONE == 65536,
                        ;
                        vstd::arithmetic::div_mod::lemma_div_pos_is_pos(
                            (ONE as int) * ONE,
                            *refraction_index as int,
                        );
                        vstd::arithmetic::div_mod::lemma_div_is_ordered_by_denominator(
                            4294967296,
                            32768,
                            *refraction_index as int,
                        );
                    }
                    fdiv(ONE, *refraction_index)
                } else {
                    *refraction_index
                };
                let d = ray_in.direction;
                if d.x == 0 && d.y == 0 && d.z == 0 {
                    return None;
                }
                proof {
                    assert(norm2_spec(d) >= 1) by (nonlinear_arith)
                        requires
                            !(d.x == 0 && d.y == 0 && d.z == 0),
                            norm2_spec(d) == d.x as int * d.x + d.y as int * d.y + d.z as int
                                * d.z,
                    ;
                }
                let unit_direction = d.unit_vector();
                let dd = unit_direction.dot(rec.normal);
                proof {
                    assert(-6 * (ONE as int) * ONE <= unit_direction.x as int * rec.normal.x
                        + unit_direction.y as int * rec.normal.y + unit_direction.z as int
                        * rec.normal.z <= 6 * (ONE as int) * ONE) by (nonlinear_arith)
                        requires
                            in_range(unit_direction, ONE as int),
                            in_range(rec.normal, 2 * ONE as int),
                    ;
                    crate::fixed::lemma_div_range(
                        unit_direction.x as int * rec.normal.x + unit_direction.y as int
                            * rec.normal.y + unit_direction.z as int * rec.normal.z,
                        ONE as int,
                        6 * (ONE as int) * ONE,
                    );
                }
                let c0 = -dd;
                let cos_theta: i64 = if c0 > ONE {
                    ONE
                } else if c0 < 0 {
                    0
                } else {
                    c0
                };
                proof {
                    lemma_mul_q_bound(cos_theta as int, cos_theta as int, 393217, 393217);
                }
                let c2 = fmul(cos_theta, cos_theta);
                let s2: i64 = if ONE - c2 >= 0 {
                    ONE - c2
                } else {
                    0
                };
                let sin_theta = crate::fixed::sqrt_fp(s2);
                proof {
                    assert((sin_theta as int) <= ONE) by (nonlinear_arith)
                        requires
                            (sin_theta as int) * sin_theta <= (s2 as int) * ONE,
                            0 <= (sin_theta as int),
                            0 <= s2 <= ONE,
                            ONE == 65536,
                    ;
                    lemma_mul_q_bound(ri as int, sin_theta as int, 524288, 65536);
                }
                let cannot_refract = fmul(ri, sin_theta) > ONE;
                let refl = Self::reflectance(cos_theta, ri);
                let rnd = crate::rng::random(rng);
                let direction: Vector;
                if cannot_refract || refl > rnd {
                    direction = unit_direction.reflect(rec.normal);
                } else {
                    direction = unit_direction.refract(rec.normal, ri);
                }
                if !(direction.x >= -0x1000_0000_0000 && direction.x <= 0x1000_0000_0000
                    && direction.y >= -0x1000_0000_0000 && direction.y <= 0x1000_0000_0000
                    && direction.z >= -0x1000_0000_0000 && direction.z
                    <= 0x1000_0000_0000) {
                    return None;
                }
                Some(
                    ScatterRecord {
                        attenuation: Color { r: ONE, g: ONE, b: ONE },
                        pdf: crate::pdf::PDF::new_sphere(),
                        skip_pdf: true,
                        skip_pdf_ray: Ray::new_time(rec.p, direction, ray_in.time),
                    },
                )
            },
            MaterialType::DiffuseLight { .. } => None,
        }
    }
}

} // verus!
