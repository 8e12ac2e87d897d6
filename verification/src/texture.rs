//! Textures: solid colors, checkerboards, decoded images and coherent
//! noise.
//!
//! Image pixels arrive already decoded as plain bytes; reading and
//! decoding files is the caller's business.

use vstd::prelude::*;
use crate::fixed::ONE;
use crate::fixed::HALF;
use crate::fixed::PI_FP;
use crate::fixed::DEG180;
use crate::fixed::COORD_LIMIT;
use crate::fixed::fmul;
use crate::fixed::fdiv;
use crate::fixed::mul_q;
use crate::fixed::quot_q;
use crate::fixed::div_q_i128;
use crate::fixed::sin_deg;
use crate::fixed::lemma_div_range;
use crate::fixed::lemma_mul_q_bound;
use crate::fixed::lemma_mul_q_unit;
use crate::vector::Vector;
use crate::vector::Color;
use crate::vector::in_range;
use crate::vector::dot_spec;
use crate::vector::color_non_neg;
use crate::vector::color_in_range;
use crate::rng::Randomizer;
use crate::rng::random_index;

verus! {

/// A decoded RGB24 raster: three bytes per texel, row-major.
pub struct ImageData {
    pub data: Vec<u8>,
    pub width: u32,
    pub height: u32,
}

/// The byte buffer holds exactly the advertised raster.
pub open spec fn image_wf(d: ImageData) -> bool {
    d.data@.len() == 3 * d.width * d.height
}

/// A byte reflectance rescaled to a fixed-point fraction of one.
pub open spec fn texel_channel(v: u8) -> int {
    (v * ONE) / 255
}

/// The color of the texel at clamped raster coordinates.
pub open spec fn image_pixel_spec(d: ImageData, i: int, j: int) -> (int, int, int) {
    let x = if i >= d.width { d.width - 1 } else { i };
    let y = if j >= d.height { d.height - 1 } else { j };
    let idx = 3 * (y * d.width + x);
    (
        texel_channel(d.data@[idx]),
        texel_channel(d.data@[idx + 1]),
        texel_channel(d.data@[idx + 2]),
    )
}

impl ImageData {
    /// Wraps an already decoded raster.
    pub fn new(width: u32, height: u32, data: Vec<u8>) -> (r: ImageData)
        requires
            data@.len() == 3 * width * height,
            width > 0,
            height > 0,
        ensures
            r.data@ == data@,
            r.width == width,
            r.height == height,
            image_wf(r),
            r.width > 0,
            r.height > 0,
    {
        ImageData { data, width, height }
    }

    pub fn width(&self) -> (r: u32)
        ensures
            r == self.width,
    {
        self.width
    }

    pub fn height(&self) -> (r: u32)
        ensures
            r == self.height,
    {
        self.height
    }

    /// The texel at raster coordinates, clamped to the raster's edge.
    pub fn pixel_data(&self, i: u32, j: u32) -> (c: Color)
        requires
            image_wf(*self),
            self.width > 0,
            self.height > 0,
        ensures
            c.r == image_pixel_spec(*self, i as int, j as int).0,
            c.g == image_pixel_spec(*self, i as int, j as int).1,
            c.b == image_pixel_spec(*self, i as int, j as int).2,
            color_non_neg(c),
            color_in_range(c, ONE as int),
    {
        let x: u32 = if i >= self.width {
            self.width - 1
        } else {
            i
        };
        let y: u32 = if j >= self.height {
            self.height - 1
        } else {
            j
        };
        let len = self.data.len();
        proof {
            assert(0 <= (y as int) * self.width && 3 * ((y as int) * self.width + x) + 2
                < self.data@.len()) by (nonlinear_arith)
                requires
                    self.data@.len() == 3 * self.width * self.height,
                    0 <= (x as int) < self.width,
                    0 <= (y as int) < self.height,
            ;
            assert(self.data@.len() == len);
        }
        let idx: usize = 3 * ((y as usize) * (self.width as usize) + (x as usize));
        let r = Self::channel(self.data[idx]);
        let g = Self::channel(self.data[idx + 1]);
        let b = Self::channel(self.data[idx + 2]);
        Color { r, g, b }
    }

    /// One byte channel rescaled to `[0, ONE]`.
    fn channel(v: u8) -> (r: i64)
        ensures
            r == texel_channel(v),
            0 <= r <= ONE,
    {
        proof {
            vstd::arithmetic::div_mod::lemma_div_pos_is_pos(255 * (v as int), 255);
            vstd::arithmetic::div_mod::lemma_div_is_ordered((v as int) * ONE, 255 * 65536int, 255);
        }
        ((v as i64) * ONE) / 255
    }
}

/// The number of lattice points of the coherent-noise field.
pub const POINT_COUNT: usize = 256;

/// Coherent gradient noise over a permuted integer lattice.
pub struct PerlinNoise {
    pub rand_float: Vec<Vector>,
    pub perm_x: Vec<u32>,
    pub perm_y: Vec<u32>,
    pub perm_z: Vec<u32>,
}

/// Full tables with in-range gradients and lattice indices.
pub open spec fn perlin_wf(p: PerlinNoise) -> bool {
    &&& p.rand_float@.len() == POINT_COUNT
    &&& p.perm_x@.len() == POINT_COUNT
    &&& p.perm_y@.len() == POINT_COUNT
    &&& p.perm_z@.len() == POINT_COUNT
    &&& forall|i: int| 0 <= i < POINT_COUNT ==> in_range(#[trigger] p.rand_float@[i], ONE as int)
    &&& forall|i: int| 0 <= i < POINT_COUNT ==> (#[trigger] p.perm_x@[i]) < POINT_COUNT
    &&& forall|i: int| 0 <= i < POINT_COUNT ==> (#[trigger] p.perm_y@[i]) < POINT_COUNT
    &&& forall|i: int| 0 <= i < POINT_COUNT ==> (#[trigger] p.perm_z@[i]) < POINT_COUNT
}

/// The fractional lattice offset of one coordinate.
pub open spec fn fract_spec(x: i64) -> int {
    (x as int) % (ONE as int)
}

/// The lattice cell of one coordinate, reduced to the table period.
pub open spec fn lattice_spec(x: i64) -> int {
    ((x as int) / (ONE as int)) % 256
}

/// The gradient index for a lattice cell: one permutation entry per
/// axis, combined by exclusive or.
pub open spec fn lookup_spec(p: PerlinNoise, i: int, j: int, k: int) -> int {
    ((p.perm_x@[i % 256] ^ p.perm_y@[j % 256]) ^ p.perm_z@[k % 256]) as int
}

/// Hermite smoothing of a unit fraction, clamped into the unit band.
pub open spec fn smooth_spec(u: i64) -> int {
    let s = mul_q(mul_q(u as int, u as int), 3 * ONE - 2 * (u as int));
    if s < 0 {
        0
    } else if s > ONE {
        ONE as int
    } else {
        s
    }
}

/// The blend `a b + (1 - a)(1 - b)` of two unit fractions.
pub open spec fn crossmult_spec(a: i64, b: i64) -> int {
    mul_q(a as int, b as int) + mul_q(ONE - a as int, ONE - b as int)
}

/// One corner's contribution to the trilinear gradient blend.
pub open spec fn noise_term_spec(
    p: PerlinNoise,
    i: i64,
    j: i64,
    k: i64,
    u: i64,
    v: i64,
    w: i64,
    uu: i64,
    vv: i64,
    ww: i64,
    di: i64,
    dj: i64,
    dk: i64,
) -> int {
    let g = p.rand_float@[lookup_spec(p, i + di, j + dj, k + dk)];
    let wt = Vector {
        x: (u - di * ONE) as i64,
        y: (v - dj * ONE) as i64,
        z: (w - dk * ONE) as i64,
    };
    let d = dot_spec(g, wt);
    let fu = crossmult_spec(if di == 0 { 0i64 } else { ONE }, uu);
    let fv = crossmult_spec(if dj == 0 { 0i64 } else { ONE }, vv);
    let fw = crossmult_spec(if dk == 0 { 0i64 } else { ONE }, ww);
    mul_q(mul_q(mul_q(fu, fv as int), fw as int), d)
}

/// The smoothed gradient noise at a point: the eight corner terms of its
/// lattice cell, in traversal order.
pub open spec fn noise_spec(p: PerlinNoise, pt: Vector) -> int {
    let u = fract_spec(pt.x) as i64;
    let v = fract_spec(pt.y) as i64;
    let w = fract_spec(pt.z) as i64;
    let i = lattice_spec(pt.x) as i64;
    let j = lattice_spec(pt.y) as i64;
    let k = lattice_spec(pt.z) as i64;
    let uu = smooth_spec(u) as i64;
    let vv = smooth_spec(v) as i64;
    let ww = smooth_spec(w) as i64;
    noise_term_spec(p, i, j, k, u, v, w, uu, vv, ww, 0, 0, 0) + noise_term_spec(
        p,
        i,
        j,
        k,
        u,
        v,
        w,
        uu,
        vv,
        ww,
        0,
        0,
        1,
    ) + noise_term_spec(p, i, j, k, u, v, w, uu, vv, ww, 0, 1, 0) + noise_term_spec(
        p,
        i,
        j,
        k,
        u,
        v,
        w,
        uu,
        vv,
        ww,
        0,
        1,
        1,
    ) + noise_term_spec(p, i, j, k, u, v, w, uu, vv, ww, 1, 0, 0) + noise_term_spec(
        p,
        i,
        j,
        k,
        u,
        v,
        w,
        uu,
        vv,
        ww,
        1,
        0,
        1,
    ) + noise_term_spec(p, i, j, k, u, v, w, uu, vv, ww, 1, 1, 0) + noise_term_spec(
        p,
        i,
        j,
        k,
        u,
        v,
        w,
        uu,
        vv,
        ww,
        1,
        1,
        1,
    )
}

/// One octave step: each coordinate doubled while it stays inside the
/// working band, else left alone.
pub open spec fn double_guard_spec(p: Vector) -> Vector {
    Vector {
        x: if -0x800_0000_0000_0000 <= p.x && p.x <= 0x800_0000_0000_0000 {
            (2 * p.x) as i64
        } else {
            p.x
        },
        y: if -0x800_0000_0000_0000 <= p.y && p.y <= 0x800_0000_0000_0000 {
            (2 * p.y) as i64
        } else {
            p.y
        },
        z: if -0x800_0000_0000_0000 <= p.z && p.z <= 0x800_0000_0000_0000 {
            (2 * p.z) as i64
        } else {
            p.z
        },
    }
}

/// Turbulence: the absolute noise of each octave, weighted by a halving
/// factor, summed front to back.
pub open spec fn turb_spec(n: PerlinNoise, p: Vector, weight: i64, depth: int) -> int
    decreases depth,
{
    if depth <= 0 {
        0
    } else {
        let nv = noise_spec(n, p);
        let a = if nv >= 0 {
            nv
        } else {
            -nv
        };
        mul_q(weight as int, a) + turb_spec(n, double_guard_spec(p), (weight / 2) as i64, depth - 1)
    }
}

impl PerlinNoise {
    /// A shuffled identity table over the lattice indices.
    fn perlin_generate_perm(rng: &mut Randomizer) -> (perm: Vec<u32>)
        ensures
            perm@.len() == POINT_COUNT,
            forall|i: int| 0 <= i < POINT_COUNT ==> (#[trigger] perm@[i]) < POINT_COUNT,
    {
        let mut perm: Vec<u32> = Vec::new();
        let mut i: usize = 0;
        while i < POINT_COUNT
            invariant
                i <= POINT_COUNT,
                perm@.len() == i,
                forall|k: int| 0 <= k < i ==> (#[trigger] perm@[k]) < POINT_COUNT,
            decreases POINT_COUNT - i,
        {
            perm.push(i as u32);
            i = i + 1;
        }
        Self::permute(rng, &mut perm);
        perm
    }

    /// An in-place shuffle that keeps every entry in range.
    fn permute(rng: &mut Randomizer, perm: &mut Vec<u32>)
        requires
            old(perm)@.len() == POINT_COUNT,
            forall|k: int| 0 <= k < POINT_COUNT ==> (#[trigger] old(perm)@[k]) < POINT_COUNT,
        ensures
            final(perm)@.len() == POINT_COUNT,
            forall|k: int| 0 <= k < POINT_COUNT ==> (#[trigger] final(perm)@[k]) < POINT_COUNT,
    {
        let mut i: usize = 0;
        while i < POINT_COUNT
            invariant
                perm@.len() == POINT_COUNT,
                forall|k: int| 0 <= k < POINT_COUNT ==> (#[trigger] perm@[k]) < POINT_COUNT,
            decreases POINT_COUNT - i,
        {
            let j = random_index(rng, POINT_COUNT);
            let a = perm[i];
            let b = perm[j];
            perm.set(i, b);
            perm.set(j, a);
            i = i + 1;
        }
    }

    /// Fresh gradient and permutation tables drawn from the generator.
    pub fn new(rng: &mut Randomizer) -> (p: PerlinNoise)
        ensures
            perlin_wf(p),
    {
        let mut rand_float: Vec<Vector> = Vec::new();
        let mut i: usize = 0;
        while i < POINT_COUNT
            invariant
                i <= POINT_COUNT,
                rand_float@.len() == i,
                forall|k: int| 0 <= k < i ==> in_range(#[trigger] rand_float@[k], ONE as int),
            decreases POINT_COUNT - i,
        {
            let v = Vector::random_interval(rng, -ONE, ONE);
            rand_float.push(v);
            i = i + 1;
        }
        let perm_x = Self::perlin_generate_perm(rng);
        let perm_y = Self::perlin_generate_perm(rng);
        let perm_z = Self::perlin_generate_perm(rng);
        PerlinNoise { rand_float, perm_x, perm_y, perm_z }
    }

    /// One corner's contribution to the trilinear gradient blend.
    fn noise_term(
        &self,
        i: i64,
        j: i64,
        k: i64,
        u: i64,
        v: i64,
        w: i64,
        uu: i64,
        vv: i64,
        ww: i64,
        di: i64,
        dj: i64,
        dk: i64,
    ) -> (r: i64)
        requires
            perlin_wf(*self),
            0 <= u < ONE,
            0 <= v < ONE,
            0 <= w < ONE,
            0 <= uu <= ONE,
            0 <= vv <= ONE,
            0 <= ww <= ONE,
            0 <= i < 256,
            0 <= j < 256,
            0 <= k < 256,
            di == 0 || di == 1,
            dj == 0 || dj == 1,
            dk == 0 || dk == 1,
        ensures
            r == noise_term_spec(*self, i, j, k, u, v, w, uu, vv, ww, di, dj, dk),
            -25 * ONE <= r <= 25 * ONE,
    {
        let gi = self.lookup(i + di, j + dj, k + dk);
        let grad = self.rand_float[gi];
        let wx = u - di * ONE;
        let wy = v - dj * ONE;
        let wz = w - dk * ONE;
        let weight = Vector { x: wx, y: wy, z: wz };
        let d = grad.dot(weight);
        proof {
            assert(-3 * (ONE as int) * ONE <= grad.x as int * wx + grad.y as int * wy
                + grad.z as int * wz <= 3 * (ONE as int) * ONE) by (nonlinear_arith)
                requires
                    in_range(grad, ONE as int),
                    -ONE <= wx <= ONE,
                    -ONE <= wy <= ONE,
                    -ONE <= wz <= ONE,
            ;
            lemma_div_range(
                grad.x as int * wx + grad.y as int * wy + grad.z as int * wz,
                ONE as int,
                3 * (ONE as int) * ONE,
            );
        }
        let fu = Self::crossmult(if di == 0 { 0 } else { ONE }, uu);
        let fv = Self::crossmult(if dj == 0 { 0 } else { ONE }, vv);
        let fw = Self::crossmult(if dk == 0 { 0 } else { ONE }, ww);
        proof {
            lemma_mul_q_bound(fu as int, fv as int, 2 * ONE as int, 2 * ONE as int);
            assert((fu as int) * fv >= 0) by (nonlinear_arith)
                requires
                    fu >= 0,
                    fv >= 0,
            ;
            vstd::arithmetic::div_mod::lemma_div_pos_is_pos((fu as int) * fv, ONE as int);
        }
        let fuv = fmul(fu, fv);
        proof {
            lemma_mul_q_bound(fuv as int, fw as int, 4 * ONE as int, 2 * ONE as int);
            assert((fuv as int) * fw >= 0) by (nonlinear_arith)
                requires
                    fuv >= 0,
                    fw >= 0,
            ;
            vstd::arithmetic::div_mod::lemma_div_pos_is_pos((fuv as int) * fw, ONE as int);
        }
        let fuvw = fmul(fuv, fw);
        proof {
            lemma_mul_q_bound(fuvw as int, d as int, 8 * ONE as int, 196609);
        }
        fmul(fuvw, d)
    }

    /// The smoothed gradient noise at a point: exactly its specification,
    /// a pure function of the stored tables and the point.
    pub fn noise(&self, p: Vector) -> (r: i64)
        requires
            perlin_wf(*self),
            in_range(p, 0x1000_0000_0000_0000),
        ensures
            r == noise_spec(*self, p),
            -200 * (ONE as int) <= r <= 200 * (ONE as int),
    {
        let u = Self::fract(p.x);
        let v = Self::fract(p.y);
        let w = Self::fract(p.z);
        let i = Self::lattice(p.x);
        let j = Self::lattice(p.y);
        let k = Self::lattice(p.z);
        let uu = Self::smooth(u);
        let vv = Self::smooth(v);
        let ww = Self::smooth(w);
        let t0 = self.noise_term(i, j, k, u, v, w, uu, vv, ww, 0, 0, 0);
        let t1 = self.noise_term(i, j, k, u, v, w, uu, vv, ww, 0, 0, 1);
        let t2 = self.noise_term(i, j, k, u, v, w, uu, vv, ww, 0, 1, 0);
        let t3 = self.noise_term(i, j, k, u, v, w, uu, vv, ww, 0, 1, 1);
        let t4 = self.noise_term(i, j, k, u, v, w, uu, vv, ww, 1, 0, 0);
        let t5 = self.noise_term(i, j, k, u, v, w, uu, vv, ww, 1, 0, 1);
        let t6 = self.noise_term(i, j, k, u, v, w, uu, vv, ww, 1, 1, 0);
        let t7 = self.noise_term(i, j, k, u, v, w, uu, vv, ww, 1, 1, 1);
        t0 + t1 + t2 + t3 + t4 + t5 + t6 + t7
    }

    /// The fractional lattice offset of a coordinate, in `[0, ONE)`.
    fn fract(x: i64) -> (r: i64)
        ensures
            0 <= r < ONE,
            r == (x as int) % (ONE as int),
    {
        let q = div_q_i128(x as i128, ONE as i128);
        proof {
            vstd::arithmetic::div_mod::lemma_fundamental_div_mod(x as int, ONE as int);
            vstd::arithmetic::div_mod::lemma_mod_bound(x as int, ONE as int);
        }
        (x as i128 - q * (ONE as i128)) as i64
    }

    /// The lattice cell of a coordinate, reduced to the table's period.
    fn lattice(x: i64) -> (r: i64)
        ensures
            0 <= r < 256,
            r == lattice_spec(x),
    {
        let q = div_q_i128(x as i128, ONE as i128);
        proof {
            vstd::arithmetic::div_mod::lemma_fundamental_div_mod(q as int, 256);
            vstd::arithmetic::div_mod::lemma_mod_bound(q as int, 256);
        }
        let m = div_q_i128(q, 256);
        (q - m * 256) as i64
    }

    /// The gradient index for a lattice cell, through the three
    /// permutation tables.
    fn lookup(&self, i: i64, j: i64, k: i64) -> (r: usize)
        requires
            perlin_wf(*self),
            0 <= i < 512,
            0 <= j < 512,
            0 <= k < 512,
        ensures
            r < POINT_COUNT,
            r == lookup_spec(*self, i as int, j as int, k as int),
    {
        proof {
            assert(0 <= i < 512 ==> (i & 255) == i % 256) by (bit_vector);
            assert(0 <= j < 512 ==> (j & 255) == j % 256) by (bit_vector);
            assert(0 <= k < 512 ==> (k & 255) == k % 256) by (bit_vector);
        }
        proof {
            assert((i & 255) < 256 && (i & 255) >= 0) by (bit_vector);
            assert((j & 255) < 256 && (j & 255) >= 0) by (bit_vector);
            assert((k & 255) < 256 && (k & 255) >= 0) by (bit_vector);
        }
        let a = self.perm_x[(i & 255) as usize];
        let b = self.perm_y[(j & 255) as usize];
        let c = self.perm_z[(k & 255) as usize];
        let x = a ^ b ^ c;
        proof {
            assert(a < 256 && b < 256 && c < 256 ==> (a ^ b ^ c) < 256) by (bit_vector);
        }
        x as usize
    }

    /// Hermite smoothing of a fractional offset, clamped into `[0, ONE]`.
    fn smooth(u: i64) -> (r: i64)
        requires
            0 <= u <= ONE,
        ensures
            0 <= r <= ONE,
            r == smooth_spec(u),
    {
        proof {
            lemma_mul_q_unit(u as int, u as int);
            vstd::arithmetic::div_mod::lemma_div_pos_is_pos((u as int) * u, ONE as int);
            assert((u as int) * u >= 0) by (nonlinear_arith);
            lemma_mul_q_bound(mul_q(u as int, u as int), 3 * (ONE as int) - 2 * u, ONE as int, 3 * (ONE as int));
        }
        let u2 = fmul(u, u);
        let s = fmul(u2, 3 * ONE - 2 * u);
        if s < 0 {
            0
        } else if s > ONE {
            ONE
        } else {
            s
        }
    }

    /// The blend `a b + (1 - a)(1 - b)` of two unit fractions.
    fn crossmult(a: i64, b: i64) -> (r: i64)
        requires
            0 <= a <= ONE,
            0 <= b <= ONE,
        ensures
            0 <= r <= 2 * ONE,
            r == crossmult_spec(a, b),
    {
        proof {
            lemma_mul_q_unit(a as int, b as int);
            lemma_mul_q_unit((ONE - a) as int, (ONE - b) as int);
            assert((a as int) * b >= 0) by (nonlinear_arith)
                requires
                    a >= 0,
                    b >= 0,
            ;
            assert(((ONE - a) as int) * (ONE - b) >= 0) by (nonlinear_arith)
                requires
                    a <= ONE,
                    b <= ONE,
            ;
            vstd::arithmetic::div_mod::lemma_div_pos_is_pos((a as int) * b, ONE as int);
            vstd::arithmetic::div_mod::lemma_div_pos_is_pos(
                ((ONE - a) as int) * (ONE - b),
                ONE as int,
            );
        }
        fmul(a, b) + fmul(ONE - a, ONE - b)
    }

    /// Turbulence: octaves of noise at doubling frequency and halving
    /// weight.
    pub fn turb(&self, p: Vector, depth: u32) -> (r: i64)
        requires
            perlin_wf(*self),
            in_range(p, 0x1000_0000_0000_0000),
            depth <= 16,
        ensures
            r == turb_spec(*self, p, ONE, depth as int),
            0 <= r <= 400 * (ONE as int),
    {
        let mut accum: i64 = 0;
        let mut temp = p;
        let mut weight: i64 = ONE;
        let mut level: u32 = 0;
        while level < depth
            invariant
                perlin_wf(*self),
                0 <= weight <= ONE,
                level <= depth,
                depth <= 16,
                0 <= accum,
                accum + 400 * weight <= 400 * (ONE as int),
                in_range(temp, 0x1000_0000_0000_0000),
                turb_spec(*self, p, ONE, depth as int) == accum + turb_spec(
                    *self,
                    temp,
                    weight,
                    depth - level,
                ),
            decreases depth - level,
        {
            let n = self.noise(temp);
            let a = if n >= 0 {
                n
            } else {
                -n
            };
            proof {
                lemma_mul_q_bound(weight as int, a as int, ONE as int, 200 * (ONE as int));
                assert((weight as int) * a >= 0) by (nonlinear_arith)
                    requires
                        weight >= 0,
                        a >= 0,
                ;
                vstd::arithmetic::div_mod::lemma_div_pos_is_pos((weight as int) * a, ONE as int);
                assert((weight as int) * a <= (weight as int) * (200 * ONE)) by (nonlinear_arith)
                    requires
                        0 <= weight,
                        a <= 200 * ONE,
                ;
                vstd::arithmetic::div_mod::lemma_div_is_ordered(
                    (weight as int) * a,
                    (weight as int) * (200 * ONE),
                    ONE as int,
                );
                assert((weight as int) * (200 * ONE) == (200 * (weight as int)) * (ONE as int))
                    by (nonlinear_arith);
                vstd::arithmetic::div_mod::lemma_div_multiples_vanish(
                    200 * (weight as int),
                    ONE as int,
                );
            }
            accum = accum + fmul(weight, a);
            weight = weight / 2;
            let tx = if -0x800_0000_0000_0000 <= temp.x && temp.x <= 0x800_0000_0000_0000 {
                2 * temp.x
            } else {
                temp.x
            };
            let ty = if -0x800_0000_0000_0000 <= temp.y && temp.y <= 0x800_0000_0000_0000 {
                2 * temp.y
            } else {
                temp.y
            };
            let tz = if -0x800_0000_0000_0000 <= temp.z && temp.z <= 0x800_0000_0000_0000 {
                2 * temp.z
            } else {
                temp.z
            };
            temp = Vector { x: tx, y: ty, z: tz };
            level = level + 1;
        }
        accum
    }
}


/// The noise texture's channel value: a turbulence-modulated sinusoid of
/// the coherent-noise field, exactly as the executable computes it.
pub open spec fn noise_value_spec(n: PerlinNoise, scale: i64, p: Vector) -> int {
    let t = turb_spec(n, p, ONE, 7);
    let phase = mul_q(scale as int, p.z as int) + 10 * t;
    let ph = phase % (2 * PI_FP as int);
    let deg = (ph * DEG180) / (PI_FP as int);
    mul_q(ONE + crate::fixed::sin_deg_spec(deg), HALF as int)
}

/// The closed set of texture kinds.
pub enum TextureType {
    SolidColor { color: Color },
    CheckerTexture { inv_scale: i64, even: Color, odd: Color },
    ImageTexture { image: ImageData },
    NoiseTexture { noise: PerlinNoise, scale: i64 },
}

/// A texture: a color field over surface coordinates and hit points.
pub struct Texture {
    pub texture: TextureType,
}

/// Stored data in range: colors non-negative, rasters full, noise tables
/// complete.
pub open spec fn texture_wf(t: Texture) -> bool {
    match t.texture {
        TextureType::SolidColor { color } => color_non_neg(color) && color_in_range(
            color,
            COORD_LIMIT as int,
        ),
        TextureType::CheckerTexture { inv_scale, even, odd } => {
            &&& -COORD_LIMIT <= inv_scale <= COORD_LIMIT
            &&& color_non_neg(even)
            &&& color_in_range(even, COORD_LIMIT as int)
            &&& color_non_neg(odd)
            &&& color_in_range(odd, COORD_LIMIT as int)
        },
        TextureType::ImageTexture { image } => image_wf(image) && image.width > 0
            && image.height > 0,
        TextureType::NoiseTexture { noise, scale } => perlin_wf(noise) && -COORD_LIMIT <= scale
            <= COORD_LIMIT,
    }
}

/// The lattice cell index of one coordinate of a checker texture.
pub open spec fn checker_cell(inv_scale: int, c: int) -> int {
    mul_q(inv_scale, c) / (ONE as int)
}

/// Whether a point falls on the even-colored half of the checkerboard.
pub open spec fn checker_even(inv_scale: int, p: Vector) -> bool {
    (checker_cell(inv_scale, p.x as int) + checker_cell(inv_scale, p.y as int) + checker_cell(
        inv_scale,
        p.z as int,
    )) % 2 == 0
}

/// The raster coordinates an image texture reads for surface coordinates
/// `(u, v)`: clamped to the unit square, with `v` flipped so row zero is
/// the top.
pub open spec fn image_uv_spec(d: ImageData, u: int, v: int) -> (int, int) {
    let cu = if u < 0 {
        0
    } else if u > ONE {
        ONE as int
    } else {
        u
    };
    let cv = if v < 0 {
        0
    } else if v > ONE {
        ONE as int
    } else {
        v
    };
    ((cu * d.width) / (ONE as int), (((ONE - cv)) * d.height) / (ONE as int))
}

impl Texture {
    /// Wraps one texture kind.
    fn new(texture: TextureType) -> (t: Texture)
        ensures
            t.texture == texture,
    {
        Texture { texture }
    }

    /// A texture of one constant color.
    pub fn new_solid(color: Color) -> (t: Texture)
        requires
            color_non_neg(color),
            color_in_range(color, COORD_LIMIT as int),
        ensures
            t.texture == (TextureType::SolidColor { color }),
            texture_wf(t),
    {
        Self::new(TextureType::SolidColor { color })
    }

    /// A checkerboard of two colors with the given cell scale.
    pub fn new_checker(inv_scale: i64, even: Color, odd: Color) -> (t: Texture)
        requires
            inv_scale != 0,
            color_non_neg(even),
            color_in_range(even, COORD_LIMIT as int),
            color_non_neg(odd),
            color_in_range(odd, COORD_LIMIT as int),
        ensures
            t.texture == (TextureType::CheckerTexture {
                inv_scale: crate::fixed::quot_q(ONE as int, inv_scale as int) as i64,
                even,
                odd,
            }),
            texture_wf(t),
    {
        proof {
            crate::fixed::lemma_quot_q_abs(ONE as int, inv_scale as int);
        }
        let stored = fdiv(ONE, inv_scale);
        Self::new(TextureType::CheckerTexture { inv_scale: stored, even, odd })
    }

    /// A texture backed by a decoded raster.
    pub fn new_image(image: ImageData) -> (t: Texture)
        requires
            image_wf(image),
            image.width > 0,
            image.height > 0,
        ensures
            t.texture matches TextureType::ImageTexture { image: im } && im.data@ == image.data@
                && im.width == image.width && im.height == image.height,
            texture_wf(t),
    {
        Self::new(TextureType::ImageTexture { image })
    }

    /// A turbulence-modulated procedural noise texture.
    pub fn new_perlin(scale: i64, rng: &mut Randomizer) -> (t: Texture)
        requires
            -COORD_LIMIT <= scale <= COORD_LIMIT,
        ensures
            texture_wf(t),
            t.texture is NoiseTexture,
    {
        let noise = PerlinNoise::new(rng);
        Self::new(TextureType::NoiseTexture { noise, scale })
    }

    /// The texture's color at surface coordinates `(u, v)` and hit point
    /// `p`.
    pub fn value(&self, u: i64, v: i64, p: Vector) -> (c: Color)
        requires
            texture_wf(*self),
            in_range(p, COORD_LIMIT as int),
        ensures
            color_non_neg(c),
            color_in_range(c, COORD_LIMIT as int),
            self.texture matches TextureType::SolidColor { color } ==> c == color,
            self.texture matches TextureType::CheckerTexture { inv_scale, even, odd } ==> c == (
            if checker_even(inv_scale as int, p) {
                even
            } else {
                odd
            }),
            self.texture matches TextureType::ImageTexture { image } ==> {
                let ij = image_uv_spec(image, u as int, v as int);
                let px = image_pixel_spec(image, ij.0, ij.1);
                c.r == px.0 && c.g == px.1 && c.b == px.2
            },
            self.texture matches TextureType::NoiseTexture { noise, scale } ==> c.r
                == noise_value_spec(noise, scale, p) && c.g == noise_value_spec(noise, scale, p)
                && c.b == noise_value_spec(noise, scale, p),
    {
        match &self.texture {
            TextureType::SolidColor { color } => *color,
            TextureType::CheckerTexture { .. } => self.value_checker_texture(u, v, p),
            TextureType::ImageTexture { .. } => self.value_image_texture(u, v, p),
            TextureType::NoiseTexture { .. } => self.value_noise_texture(u, v, p),
        }
    }

    /// Checker lookup: parity of the summed lattice cell indices.
    fn value_checker_texture(&self, u: i64, v: i64, p: Vector) -> (c: Color)
        requires
            texture_wf(*self),
            self.texture is CheckerTexture,
            in_range(p, COORD_LIMIT as int),
        ensures
            self.texture matches TextureType::CheckerTexture { inv_scale, even, odd } ==> c == (
            if checker_even(inv_scale as int, p) {
                even
            } else {
                odd
            }),
            color_non_neg(c),
            color_in_range(c, COORD_LIMIT as int),
    {
        let (inv_scale, even, odd) = match &self.texture {
            TextureType::CheckerTexture { inv_scale, even, odd } => (*inv_scale, *even, *odd),
            _ => (0, Color::black(), Color::black()),
        };
        let xi = Self::cell(inv_scale, p.x);
        let yi = Self::cell(inv_scale, p.y);
        let zi = Self::cell(inv_scale, p.z);
        let sum = xi + yi + zi;
        let h = div_q_i128(sum as i128, 2);
        proof {
            vstd::arithmetic::div_mod::lemma_fundamental_div_mod(sum as int, 2);
            vstd::arithmetic::div_mod::lemma_mod_bound(sum as int, 2);
        }
        let m = (sum as i128) - 2 * h;
        if m == 0 {
            even
        } else {
            odd
        }
    }

    /// One lattice cell index of the checkerboard.
    fn cell(inv_scale: i64, c: i64) -> (r: i64)
        requires
            -COORD_LIMIT <= inv_scale <= COORD_LIMIT,
            -COORD_LIMIT <= c <= COORD_LIMIT,
        ensures
            r == checker_cell(inv_scale as int, c as int),
            -0x1_0000_0000_0000 <= r <= 0x1_0000_0000_0000,
    {
        proof {
            crate::fixed::lemma_mul_q_bound(
                inv_scale as int,
                c as int,
                COORD_LIMIT as int,
                COORD_LIMIT as int,
            );
            crate::fixed::lemma_div_range(
                mul_q(inv_scale as int, c as int),
                ONE as int,
                0x1000_0000_0000_0001,
            );
        }
        let s = fmul(inv_scale, c);
        let q = div_q_i128(s as i128, ONE as i128);
        q as i64
    }

    /// Image lookup: clamp, flip, and read the nearest texel.
    fn value_image_texture(&self, u: i64, v: i64, p: Vector) -> (c: Color)
        requires
            texture_wf(*self),
            self.texture is ImageTexture,
        ensures
            self.texture matches TextureType::ImageTexture { image } ==> {
                let ij = image_uv_spec(image, u as int, v as int);
                let px = image_pixel_spec(image, ij.0, ij.1);
                c.r == px.0 && c.g == px.1 && c.b == px.2
            },
            color_non_neg(c),
            color_in_range(c, ONE as int),
    {
        let image = match &self.texture {
            TextureType::ImageTexture { image } => image,
            _ => unreached(),
        };
        let cu: i64 = if u < 0 {
            0
        } else if u > ONE {
            ONE
        } else {
            u
        };
        let cv: i64 = if v < 0 {
            0
        } else if v > ONE {
            ONE
        } else {
            v
        };
        proof {
            vstd::arithmetic::div_mod::lemma_div_pos_is_pos((cu as int) * image.width, ONE as int);
            vstd::arithmetic::div_mod::lemma_div_pos_is_pos(
                ((ONE - cv) as int) * image.height,
                ONE as int,
            );
            assert((cu as int) * image.width <= (ONE as int) * 0x1_0000_0000
                && ((ONE - cv) as int) * image.height <= (ONE as int) * 0x1_0000_0000)
                by (nonlinear_arith)
                requires
                    0 <= cu <= ONE,
                    0 <= (ONE - cv) as int <= ONE,
                    image.width < 0x1_0000_0000,
                    image.height < 0x1_0000_0000,
            ;
            assert((cu as int) * image.width <= (ONE as int) * (image.width as int)
                && ((ONE - cv) as int) * image.height <= (ONE as int) * (image.height as int))
                by (nonlinear_arith)
                requires
                    0 <= cu <= ONE,
                    0 <= (ONE - cv) as int <= ONE,
                    0 <= image.width,
                    0 <= image.height,
            ;
            vstd::arithmetic::div_mod::lemma_div_is_ordered(
                (cu as int) * image.width,
                (ONE as int) * (image.width as int),
                ONE as int,
            );
            vstd::arithmetic::div_mod::lemma_div_is_ordered(
                ((ONE - cv) as int) * image.height,
                (ONE as int) * (image.height as int),
                ONE as int,
            );
            vstd::arithmetic::div_mod::lemma_div_multiples_vanish(
                image.width as int,
                ONE as int,
            );
            vstd::arithmetic::div_mod::lemma_div_multiples_vanish(
                image.height as int,
                ONE as int,
            );
            assert((ONE as int) * (image.width as int) == (ONE as int) * image.width);
            assert((ONE as int) * (image.height as int) == (ONE as int) * image.height);
        }
        let i = div_q_i128((cu as i128) * (image.width as i128), ONE as i128);
        let j = div_q_i128(((ONE - cv) as i128) * (image.height as i128), ONE as i128);
        image.pixel_data(i as u32, j as u32)
    }

    /// Noise lookup: a turbulence-modulated sinusoid, always within
    /// `[0, ONE]` per channel.
    fn value_noise_texture(&self, u: i64, v: i64, p: Vector) -> (c: Color)
        requires
            texture_wf(*self),
            self.texture is NoiseTexture,
            in_range(p, COORD_LIMIT as int),
        ensures
            self.texture matches TextureType::NoiseTexture { noise, scale } ==> c.r
                == noise_value_spec(noise, scale, p) && c.g == noise_value_spec(noise, scale, p)
                && c.b == noise_value_spec(noise, scale, p),
            color_non_neg(c),
            color_in_range(c, ONE as int),
    {
        let (noise, scale) = match &self.texture {
            TextureType::NoiseTexture { noise, scale } => (noise, *scale),
            _ => unreached(),
        };
        proof {
            crate::fixed::lemma_mul_q_bound(
                scale as int,
                p.z as int,
                COORD_LIMIT as int,
                COORD_LIMIT as int,
            );
        }
        let t = noise.turb(p, 7);
        let phase = fmul(scale, p.z) + 10 * t;
        let period: i64 = 2 * PI_FP;
        let qq = div_q_i128(phase as i128, period as i128);
        proof {
            vstd::arithmetic::div_mod::lemma_fundamental_div_mod(phase as int, period as int);
            vstd::arithmetic::div_mod::lemma_mod_bound(phase as int, period as int);
        }
        let ph: i64 = ((phase as i128) - (period as i128) * qq) as i64;
        proof {
            vstd::arithmetic::div_mod::lemma_div_pos_is_pos((ph as int) * DEG180, PI_FP as int);
            vstd::arithmetic::div_mod::lemma_div_is_ordered(
                (ph as int) * DEG180,
                411774 * (DEG180 as int),
                PI_FP as int,
            );
        }
        let deg = div_q_i128((ph as i128) * (DEG180 as i128), PI_FP as i128);
        let s = sin_deg(deg as i64);
        proof {
            crate::fixed::lemma_mul_q_bound(
                (ONE + s) as int,
                HALF as int,
                2 * ONE as int,
                HALF as int,
            );
            assert(((ONE + s) as int) * HALF >= 0) by (nonlinear_arith)
                requires
                    ONE + s >= 0,
            ;
            vstd::arithmetic::div_mod::lemma_div_pos_is_pos(((ONE + s) as int) * HALF, ONE as int);
        }
        let val = fmul(ONE + s, HALF);
        Color { r: val, g: val, b: val }
    }
}


impl Clone for ImageData {
    /// A clone carries the same raster.
    fn clone(&self) -> (res: ImageData)
        ensures
            res.data@ == self.data@,
            res.width == self.width,
            res.height == self.height,
    {
        let data = self.data.clone();
        proof {
            assert forall|i: int| 0 <= i < self.data@.len() implies data@[i] == self.data@[i] by {
                assert(vstd::pervasive::cloned::<u8>(self.data@[i], data@[i]));
            };
            assert(data@ =~= self.data@);
        }
        ImageData { data, width: self.width, height: self.height }
    }
}

impl Clone for PerlinNoise {
    /// A clone carries the same tables.
    fn clone(&self) -> (res: PerlinNoise)
        ensures
            res.rand_float@ == self.rand_float@,
            res.perm_x@ == self.perm_x@,
            res.perm_y@ == self.perm_y@,
            res.perm_z@ == self.perm_z@,
            perlin_wf(*self) ==> perlin_wf(res),
    {
        let rand_float = self.rand_float.clone();
        let perm_x = self.perm_x.clone();
        let perm_y = self.perm_y.clone();
        let perm_z = self.perm_z.clone();
        proof {
            assert forall|i: int|
                0 <= i < self.rand_float@.len() implies rand_float@[i]
                == self.rand_float@[i] by {
                assert(vstd::pervasive::cloned::<Vector>(self.rand_float@[i], rand_float@[i]));
            };
            assert(rand_float@ =~= self.rand_float@);
            assert forall|i: int| 0 <= i < self.perm_x@.len() implies perm_x@[i]
                == self.perm_x@[i] by {
                assert(vstd::pervasive::cloned::<u32>(self.perm_x@[i], perm_x@[i]));
            };
            assert(perm_x@ =~= self.perm_x@);
            assert forall|i: int| 0 <= i < self.perm_y@.len() implies perm_y@[i]
                == self.perm_y@[i] by {
                assert(vstd::pervasive::cloned::<u32>(self.perm_y@[i], perm_y@[i]));
            };
            assert(perm_y@ =~= self.perm_y@);
            assert forall|i: int| 0 <= i < self.perm_z@.len() implies perm_z@[i]
                == self.perm_z@[i] by {
                assert(vstd::pervasive::cloned::<u32>(self.perm_z@[i], perm_z@[i]));
            };
            assert(perm_z@ =~= self.perm_z@);
        }
        PerlinNoise { rand_float, perm_x, perm_y, perm_z }
    }
}

impl Clone for Texture {
    /// A clone evaluates the same everywhere the value is specified, and
    /// keeps well-formedness.
    fn clone(&self) -> (res: Texture)
        ensures
            texture_wf(*self) ==> texture_wf(res),
            self.texture is SolidColor ==> res == *self,
            self.texture is CheckerTexture ==> res == *self,
    {
        match &self.texture {
            TextureType::SolidColor { color } => Texture {
                texture: TextureType::SolidColor { color: *color },
            },
            TextureType::CheckerTexture { inv_scale, even, odd } => Texture {
                texture: TextureType::CheckerTexture {
                    inv_scale: *inv_scale,
                    even: *even,
                    odd: *odd,
                },
            },
            TextureType::ImageTexture { image } => Texture {
                texture: TextureType::ImageTexture { image: image.clone() },
            },
            TextureType::NoiseTexture { noise, scale } => Texture {
                texture: TextureType::NoiseTexture { noise: noise.clone(), scale: *scale },
            },
        }
    }
}

} // verus!
