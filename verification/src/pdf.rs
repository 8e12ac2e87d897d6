//! Direction-sampling distributions for importance sampling.
//!
//! Every distribution answers a density for a direction and draws a
//! direction.  The equal-weight mixture averages its components'
//! densities; for deterministic components the average is pinned down
//! exactly, which is what the integrator's variance-reduction argument
//! rests on.

use vstd::prelude::*;
use crate::fixed::ONE;
use crate::fixed::PI_FP;
use crate::fixed::COORD_LIMIT;
use crate::fixed::quot_q;
use crate::fixed::fdiv;
use crate::vector::Vector;
use crate::vector::in_range;
use crate::vector::dot_spec;
use crate::vector::norm2_spec;
use crate::material::ONB;
use crate::material::onb_wf;
use crate::material::unit_of;
use crate::hittable::HittableObjects;
use crate::hittable::all_wf;
use crate::rng::Randomizer;
use crate::rng::random_index;

verus! {

/// The closed set of sampling strategies.
pub enum PDFType {
    Sphere,
    Cosine { uvw: ONB },
    Lights { objects: HittableObjects, origin: Vector },
    MixPdfs { pdfs: Vec<PDF> },
}

/// A direction-sampling distribution.
pub struct PDF {
    pub pdf_type: PDFType,
}

/// The density a mixture's first `n` components sum to.
pub open spec fn pdf_sum_spec(pdfs: Vec<PDF>, n: int, direction: Vector) -> int
    decreases pdfs, n,
    when 0 <= n <= pdfs@.len()
    via pdf_sum_spec_decreases
{
    if n <= 0 {
        0
    } else {
        pdf_sum_spec(pdfs, n - 1, direction) + pdf_value_spec(pdfs@[n - 1], direction)
    }
}

#[via_fn]
proof fn pdf_sum_spec_decreases(pdfs: Vec<PDF>, n: int, direction: Vector) {
    broadcast use vstd::std_specs::vec::axiom_vec_index_decreases;

}

/// The density of a distribution for a direction; exact for every
/// deterministic kind.  A light-sampling distribution draws a random
/// light, so its density is specified only as non-negative.
pub open spec fn pdf_value_spec(p: PDF, direction: Vector) -> int
    decreases p, 1int,
{
    match p.pdf_type {
        PDFType::Sphere => quot_q(ONE as int, 4 * PI_FP as int),
        PDFType::Cosine { uvw } => {
            if norm2_spec(direction) == 0 {
                0
            } else {
                let c = quot_q(dot_spec(unit_of(direction), uvw.axis_w), PI_FP as int);
                if c < 0 {
                    0
                } else {
                    c
                }
            }
        },
        PDFType::Lights { .. } => 0,
        PDFType::MixPdfs { pdfs } => {
            if pdfs@.len() == 0 {
                66
            } else {
                pdf_sum_spec(pdfs, pdfs@.len() as int, direction) / (pdfs@.len() as int)
            }
        },
    }
}

/// Whether the density is a function of the direction alone.
pub open spec fn pdf_deterministic(p: PDF) -> bool
    decreases p, 1int,
{
    match p.pdf_type {
        PDFType::Sphere => true,
        PDFType::Cosine { .. } => true,
        PDFType::Lights { .. } => false,
        PDFType::MixPdfs { pdfs } => pdf_all_deterministic(pdfs, pdfs@.len() as int),
    }
}

/// The first `n` components are deterministic.
pub open spec fn pdf_all_deterministic(pdfs: Vec<PDF>, n: int) -> bool
    decreases pdfs, n,
    when 0 <= n <= pdfs@.len()
    via pdf_all_deterministic_decreases
{
    if n <= 0 {
        true
    } else {
        pdf_all_deterministic(pdfs, n - 1) && pdf_deterministic(pdfs@[n - 1])
    }
}

#[via_fn]
proof fn pdf_all_deterministic_decreases(pdfs: Vec<PDF>, n: int) {
    broadcast use vstd::std_specs::vec::axiom_vec_index_decreases;

}

/// Stored state sound enough to sample from.
pub open spec fn pdf_wf(p: PDF) -> bool
    decreases p, 1int,
{
    match p.pdf_type {
        PDFType::Sphere => true,
        PDFType::Cosine { uvw } => onb_wf(uvw),
        PDFType::Lights { objects, origin } => all_wf(objects.objects@) && in_range(
            origin,
            COORD_LIMIT as int,
        ),
        PDFType::MixPdfs { pdfs } => pdf_wf_all(pdfs, pdfs@.len() as int),
    }
}

/// The first `n` components are sound.
pub open spec fn pdf_wf_all(pdfs: Vec<PDF>, n: int) -> bool
    decreases pdfs, n,
    when 0 <= n <= pdfs@.len()
    via pdf_wf_all_decreases
{
    if n <= 0 {
        true
    } else {
        pdf_wf_all(pdfs, n - 1) && pdf_wf(pdfs@[n - 1])
    }
}

#[via_fn]
proof fn pdf_wf_all_decreases(pdfs: Vec<PDF>, n: int) {
    broadcast use vstd::std_specs::vec::axiom_vec_index_decreases;

}

impl PDF {
    /// Wraps one strategy.
    pub fn new(pdf_type: PDFType) -> (p: PDF)
        ensures
            p.pdf_type == pdf_type,
    {
        PDF { pdf_type }
    }

    /// The uniform sphere distribution.
    pub fn new_sphere() -> (p: PDF)
        ensures
            p.pdf_type is Sphere,
            pdf_wf(p),
            pdf_deterministic(p),
    {
        PDF { pdf_type: PDFType::Sphere }
    }

    /// The cosine lobe around a normal: its frame's third axis follows
    /// the unit normal, so the density it reports is pinned by the
    /// frame's specification.
    pub fn new_cosine(w: Vector) -> (p: PDF)
        requires
            in_range(w, COORD_LIMIT as int),
        ensures
            p.pdf_type matches PDFType::Cosine { uvw } && uvw == crate::material::onb_spec(w),
            pdf_wf(p),
            pdf_deterministic(p),
    {
        PDF { pdf_type: PDFType::Cosine { uvw: ONB::new(w) } }
    }

    /// An empty mixture.
    pub fn new_mix() -> (p: PDF)
        ensures
            p.pdf_type matches PDFType::MixPdfs { pdfs } && pdfs@.len() == 0,
            pdf_wf(p),
    {
        PDF { pdf_type: PDFType::MixPdfs { pdfs: Vec::new() } }
    }

    /// Adds one component to a mixture; anything else is unchanged.
    pub fn add_to_mix(&mut self, pdf: PDF)
        ensures
            old(self).pdf_type matches PDFType::MixPdfs { pdfs: ps0 } ==> (final(self).pdf_type
                matches PDFType::MixPdfs { pdfs: ps1 } && ps1@ == ps0@.push(pdf)),
            !(old(self).pdf_type is MixPdfs) ==> *final(self) == *old(self),
    {
        match &mut self.pdf_type {
            PDFType::MixPdfs { pdfs } => {
                pdfs.push(pdf);
            },
            _ => {},
        }
    }

    /// The light-importance distribution toward a set of emitters.
    pub fn new_lights(objects: &HittableObjects, origin: Vector) -> (p: PDF)
        requires
            in_range(origin, COORD_LIMIT as int),
        ensures
            p.pdf_type is Lights,
            all_wf(objects.objects@) ==> pdf_wf(p),
    {
        PDF { pdf_type: PDFType::Lights { objects: objects.clone(), origin } }
    }

    /// The density assigned to a direction: exact for deterministic
    /// kinds, non-negative for every kind.
    #[verifier::loop_isolation(false)]
    pub fn value(&self, direction: Vector, rng: &mut Randomizer) -> (r: i64)
        requires
            pdf_wf(*self),
            in_range(direction, COORD_LIMIT as int),
        ensures
            0 <= r <= COORD_LIMIT,
            pdf_deterministic(*self) ==> r == pdf_value_spec(*self, direction),
        decreases *self, 0int,
    {
        proof {
            broadcast use vstd::std_specs::vec::axiom_vec_index_decreases;

        }
        match &self.pdf_type {
            PDFType::Sphere => {
                proof {
                    vstd::arithmetic::div_mod::lemma_div_pos_is_pos(
                        (ONE as int) * ONE,
                        4 * PI_FP as int,
                    );
                    vstd::arithmetic::div_mod::lemma_div_basics_5(
                        (ONE as int) * ONE,
                        4 * PI_FP as int,
                    );
                }
                fdiv(ONE, 4 * PI_FP)
            },
            PDFType::Cosine { uvw } => {
                if direction.x == 0 && direction.y == 0 && direction.z == 0 {
                    proof {
                        assert(norm2_spec(direction) == 0);
                    }
                    return 0;
                }
                proof {
                    assert(norm2_spec(direction) >= 1) by (nonlinear_arith)
                        requires
                            !(direction.x == 0 && direction.y == 0 && direction.z == 0),
                            norm2_spec(direction) == direction.x as int * direction.x
                                + direction.y as int * direction.y + direction.z as int
                                * direction.z,
                    ;
                }
                let unit = direction.unit_vector();
                let cos = unit.dot(uvw.axis_w);
                proof {
                    assert(-12 * (ONE as int) * ONE <= unit.x as int * uvw.axis_w.x
                        + unit.y as int * uvw.axis_w.y + unit.z as int * uvw.axis_w.z <= 12 * (
                    ONE as int) * ONE) by (nonlinear_arith)
                        requires
                            in_range(unit, ONE as int),
                            in_range(uvw.axis_w, 4 * ONE as int),
                    ;
                    crate::fixed::lemma_div_range(
                        unit.x as int * uvw.axis_w.x + unit.y as int * uvw.axis_w.y
                            + unit.z as int * uvw.axis_w.z,
                        ONE as int,
                        12 * (ONE as int) * ONE,
                    );
                    crate::fixed::lemma_quot_q_fits(cos as int, PI_FP as int, 786433);
                }
                let c = fdiv(cos, PI_FP);
                if c < 0 {
                    0
                } else {
                    proof {
                        vstd::arithmetic::div_mod::lemma_div_is_ordered(
                            (cos as int) * ONE,
                            786433 * (ONE as int),
                            PI_FP as int,
                        );
                        assert((cos as int) * ONE <= 786433 * (ONE as int))
                            by (nonlinear_arith)
                            requires
                                cos <= 786433,
                                ONE == 65536,
                        ;
                        assert((786433 * (ONE as int)) / (PI_FP as int) <= COORD_LIMIT);
                    }
                    c
                }
            },
            PDFType::Lights { objects, origin } => objects.pdf_value(*origin, direction, rng),
            PDFType::MixPdfs { pdfs } => {
                let n = pdfs.len();
                if n == 0 {
                    return 66;
                }
                let mut acc: i128 = 0;
                let mut i: usize = 0;
                while i < n
                    invariant
                        n == pdfs@.len(),
                        0 < n,
                        0 <= i <= n,
                        pdf_wf_all(*pdfs, n as int),
                        in_range(direction, COORD_LIMIT as int),
                        0 <= acc <= (i as int) * COORD_LIMIT,
                        pdf_all_deterministic(*pdfs, n as int) ==> acc == pdf_sum_spec(
                            *pdfs,
                            i as int,
                            direction,
                        ),
                    decreases n - i,
                {
                    proof {
                        vstd::std_specs::vec::axiom_vec_index_decreases(*pdfs, i as int);
                        lemma_pdf_wf_all_index(*pdfs, n as int, i as int);
                        if pdf_all_deterministic(*pdfs, n as int) {
                            lemma_pdf_det_all_index(*pdfs, n as int, i as int);
                        }
                        assert(i * COORD_LIMIT + COORD_LIMIT <= n * COORD_LIMIT)
                            by (nonlinear_arith)
                            requires
                                (i as int) < (n as int),
                                COORD_LIMIT > 0,
                        ;
                        assert((n as int) * COORD_LIMIT <= 0x1000_0000_0000_0000_0000_0000_0000)
                            by (nonlinear_arith)
                            requires
                                0 <= (n as int) <= 0x1_0000_0000_0000_0000,
                                COORD_LIMIT == 0x40_0000_0000,
                        ;
                    }
                    let v = pdfs[i].value(direction, rng);
                    acc = acc + (v as i128);
                    i = i + 1;
                }
                proof {
                    vstd::arithmetic::div_mod::lemma_div_pos_is_pos(acc as int, n as int);
                    vstd::arithmetic::div_mod::lemma_div_is_ordered(
                        acc as int,
                        (n as int) * COORD_LIMIT,
                        n as int,
                    );
                    vstd::arithmetic::div_mod::lemma_div_multiples_vanish(
                        COORD_LIMIT as int,
                        n as int,
                    );
                    assert((i as int) * COORD_LIMIT == (n as int) * (COORD_LIMIT as int))
                        by (nonlinear_arith)
                        requires
                            i == n,
                    ;
                    assert((n as int) * COORD_LIMIT <= 0x1000_0000_0000_0000_0000_0000_0000)
                        by (nonlinear_arith)
                        requires
                            0 <= (n as int) <= 0x1_0000_0000_0000_0000,
                            COORD_LIMIT == 0x40_0000_0000,
                    ;
                }
                let q = crate::fixed::div_q_i128(acc, n as i128);
                q as i64
            },
        }
    }

    /// A drawn direction.
    pub fn generate(&self, rng: &mut Randomizer) -> (r: Vector)
        requires
            pdf_wf(*self),
        ensures
            in_range(r, 0x100_0000_0000),
        decreases *self, 0int,
    {
        proof {
            broadcast use vstd::std_specs::vec::axiom_vec_index_decreases;

        }
        match &self.pdf_type {
            PDFType::Sphere => Vector::random_unit_vector(rng),
            PDFType::Cosine { uvw } => {
                let s = Vector::random_unit_vector(rng);
                uvw.transform(s)
            },
            PDFType::Lights { objects, origin } => objects.random(*origin, rng),
            PDFType::MixPdfs { pdfs } => {
                let n = pdfs.len();
                if n == 0 {
                    return Vector { x: ONE, y: 0, z: 0 };
                }
                let idx = random_index(rng, n);
                proof {
                    vstd::std_specs::vec::axiom_vec_index_decreases(*pdfs, idx as int);
                    lemma_pdf_wf_all_index(*pdfs, n as int, idx as int);
                }
                pdfs[idx].generate(rng)
            },
        }
    }
}

/// Soundness of a mixture prefix gives soundness of each component.
proof fn lemma_pdf_wf_all_index(pdfs: Vec<PDF>, n: int, i: int)
    requires
        pdf_wf_all(pdfs, n),
        0 <= i < n,
        n <= pdfs@.len(),
    ensures
        pdf_wf(pdfs@[i]),
    decreases n,
{
    if i == n - 1 {
    } else {
        lemma_pdf_wf_all_index(pdfs, n - 1, i);
    }
}

/// Determinism of a mixture prefix gives determinism of each component.
proof fn lemma_pdf_det_all_index(pdfs: Vec<PDF>, n: int, i: int)
    requires
        pdf_all_deterministic(pdfs, n),
        0 <= i < n,
        n <= pdfs@.len(),
    ensures
        pdf_deterministic(pdfs@[i]),
    decreases n,
{
    if i == n - 1 {
    } else {
        lemma_pdf_det_all_index(pdfs, n - 1, i);
    }
}

/// The equal-weight mixture of two deterministic distributions that both
/// assign density `c` to a direction assigns exactly `c` to it: mixing
/// does not disturb an agreed density.
pub proof fn lemma_mixture_of_equal_densities(mix: PDF, p1: PDF, p2: PDF, direction: Vector, c: int)
    requires
        mix.pdf_type matches PDFType::MixPdfs { pdfs } && pdfs@ == seq![p1, p2],
        pdf_deterministic(p1),
        pdf_deterministic(p2),
        pdf_value_spec(p1, direction) == c,
        pdf_value_spec(p2, direction) == c,
    ensures
        pdf_deterministic(mix),
        pdf_value_spec(mix, direction) == c,
{
    let pdfs = mix.pdf_type->MixPdfs_pdfs;
    assert(pdfs@.len() == 2);
    assert(pdfs@[0] == p1);
    assert(pdfs@[1] == p2);
    assert(pdf_sum_spec(pdfs, 0, direction) == 0);
    assert(pdf_sum_spec(pdfs, 1, direction) == c);
    assert(pdf_sum_spec(pdfs, 2, direction) == c + c);
    assert(pdf_all_deterministic(pdfs, 0));
    assert(pdf_all_deterministic(pdfs, 1));
    assert(pdf_all_deterministic(pdfs, 2));
    assert(c + c == 2 * c) by (nonlinear_arith);
    vstd::arithmetic::div_mod::lemma_div_multiples_vanish(c, 2);
    assert(pdf_value_spec(mix, direction) == (2 * c) / 2);
}

} // verus!
