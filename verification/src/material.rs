//! Materials: diffuse, metal and dielectric scattering.
//!
//! `scatter` takes the incoming ray, the hit record and the pixel's sample
//! stream, and returns the scattered ray and attenuation color, or `None`
//! for full absorption.  The dielectric decision is pinned exactly to the
//! drawn value; the diffuse and metal directions depend on unit-ball
//! samples and are therefore stated through the candidate direction.

use vstd::prelude::*;
use vstd::arithmetic::div_mod::lemma_div_is_ordered_by_denominator;
use crate::fixed::{ONE, iabs, fmul, fdiv, fsqrt, mul_f, div_f, sqrt_f, lemma_fmul_cap, lemma_tdiv_mag};
use crate::vec3::{
    Vec3, Vm, vm, vcap, vadd, vneg, vscale, vdot, vdot_raw, vlensq, vunit, vreflect, vrefract,
    vnear_zero, unit_source, lemma_vdot_cap, lemma_unit_bounds,
};
use crate::ray::Ray;
use crate::hittable::HitRecord;
use crate::prng::{SampleRng, rng_next, rng_unit};

verus! {

/// Magnitude cap on hit points handed to `scatter` (and so on scattered ray
/// origins).
pub const P_CAP: i128 = 0x400_0000_0000;

/// Magnitude cap on shading normals handed to `scatter`: a unit-length
/// normal stays well below four.
pub const N_CAP: i128 = 0x4_0000;

/// Magnitude cap on scattered ray directions.
pub const D_CAP: i128 = 0x800_0000;

/// A diffuse surface: scatters near the normal, attenuated by its albedo.
#[derive(Clone, Copy, Debug)]
pub struct Lambertian {
    pub albedo: Vec3,
}

/// A reflective surface with a roughness perturbation.
#[derive(Clone, Copy, Debug)]
pub struct Metal {
    pub albedo: Vec3,
    pub fuzziness: i128,
}

/// A transparent surface refracting by its index of refraction.
#[derive(Clone, Copy, Debug)]
pub struct Dielectric {
    pub ir: i128,
}

/// The closed set of material variants, dispatched by pattern match.
#[derive(Clone, Copy, Debug)]
pub enum Material {
    Lambertian(Lambertian),
    Metal(Metal),
    Dielectric(Dielectric),
}

/// A color: all components within [0, ONE].
pub open spec fn color_ok(v: Vm) -> bool {
    0 <= v.x <= ONE && 0 <= v.y <= ONE && 0 <= v.z <= ONE
}

pub open spec fn mat_ok(m: Material) -> bool {
    match m {
        Material::Lambertian(l) => color_ok(l.albedo@),
        Material::Metal(t) => color_ok(t.albedo@) && 0 <= t.fuzziness <= ONE,
        Material::Dielectric(d) => crate::fixed::HALF <= d.ir <= 8 * ONE,
    }
}

impl Lambertian {
    /// Albedo components are colors in [0, 1].
    pub fn new(albedo: Vec3) -> (r: Lambertian)
        requires
            color_ok(albedo@),
        ensures
            r.albedo == albedo,
    {
        Lambertian { albedo }
    }

    /// Diffuse scattering: direction is the normal plus a unit sample,
    /// falling back to the normal itself when the two cancel.  Always
    /// scatters; attenuation is exactly the albedo.
    pub fn scatter(&self, _ray: &Ray, rec: &HitRecord, rng: &mut SampleRng) -> (r: Option<
        (Ray, Vec3),
    >)
        requires
            old(rng).wf(),
            vcap(rec.normal@, N_CAP as int),
            vcap(rec.p@, P_CAP as int),
        ensures
            final(rng).wf(),
            r matches Some(pair) && {
                let (sray, att) = pair;
                &&& att == self.albedo
                &&& sray@.origin == rec.p@
                &&& vcap(sray@.direction, D_CAP as int)
                &&& exists|p: Vm|
                    #[trigger] unit_source(p) && sray@.direction == (
                    if vnear_zero(vadd(rec.normal@, vunit(p))) {
                        rec.normal@
                    } else {
                        vadd(rec.normal@, vunit(p))
                    })
                &&& (vnear_zero(rec.normal@) || !vnear_zero(sray@.direction))
            },
    {
        let su: Vec3 = Vec3::random_unit_vector(rng);
        let sum: Vec3 = rec.normal.add_v(su);
        let scatter_direction: Vec3 = if sum.near_zero() {
            rec.normal
        } else {
            sum
        };
        proof {
            let p = choose|p: Vm| #[trigger] unit_source(p) && su@ == vunit(p);
            assert(unit_source(p) && scatter_direction@ == (if vnear_zero(
                vadd(rec.normal@, vunit(p)),
            ) {
                rec.normal@
            } else {
                vadd(rec.normal@, vunit(p))
            }));
        }
        Some((Ray::new(rec.p, scatter_direction), self.albedo))
    }
}

/// The metal absorption rule, applied to the already-perturbed candidate
/// direction: the ray survives exactly when the candidate points off the
/// surface, that is when its dot with the normal is positive.
pub fn metal_deflect(albedo: Vec3, p: Vec3, normal: Vec3, candidate: Vec3) -> (r: Option<
    (Ray, Vec3),
>)
    requires
        vcap(candidate@, D_CAP as int),
        vcap(normal@, N_CAP as int),
    ensures
        r is Some <==> vdot(candidate@, normal@) > 0,
        r matches Some(pair) ==> {
            let (sray, att) = pair;
            &&& att == albedo
            &&& sray@.origin == p@
            &&& sray@.direction == candidate@
        },
{
    let d: i128 = Vec3::dot(&candidate, &normal);
    if d > 0 {
        Some((Ray::new(p, candidate), albedo))
    } else {
        None
    }
}

impl Metal {
    /// Fuzziness is clamped to at most one, as in the roughness model.
    /// A negative fuzziness (meaningless as a roughness) is excluded by
    /// precondition rather than clamped.
    pub fn new(albedo: Vec3, fuzziness: i128) -> (r: Metal)
        requires
            color_ok(albedo@),
            0 <= fuzziness,
        ensures
            r.albedo == albedo,
            r.fuzziness == if fuzziness < ONE {
                fuzziness
            } else {
                ONE
            },
    {
        Metal { albedo, fuzziness: if fuzziness < ONE { fuzziness } else { ONE } }
    }

    /// Metal scattering: mirror reflection perturbed by fuzz times a
    /// unit-ball sample, absorbed (None) exactly when the perturbed
    /// direction does not point off the surface.
    pub fn scatter(&self, ray: &Ray, rec: &HitRecord, rng: &mut SampleRng) -> (r: Option<
        (Ray, Vec3),
    >)
        requires
            old(rng).wf(),
            mat_ok(Material::Metal(*self)),
            vcap(rec.normal@, N_CAP as int),
            vcap(rec.p@, P_CAP as int),
            vcap(ray@.direction, 0x1_0000_0000),
            vdot_raw(ray@.direction, ray@.direction) >= ONE as int,
        ensures
            final(rng).wf(),
            r matches Some(pair) ==> {
                let (sray, att) = pair;
                &&& att == self.albedo
                &&& sray@.origin == rec.p@
                &&& vdot(sray@.direction, rec.normal@) > 0
                &&& vcap(sray@.direction, D_CAP as int)
                &&& exists|samp: Vm|
                    {
                        &&& vcap(samp, ONE as int)
                        &&& #[trigger] vlensq(samp) < ONE as int
                        &&& sray@.direction == vadd(
                            vreflect(vunit(ray@.direction), rec.normal@),
                            vscale(self.fuzziness as int, samp),
                        )
                    }
            },
            r is None ==> exists|samp: Vm|
                {
                    &&& vcap(samp, ONE as int)
                    &&& vlensq(samp) < ONE as int
                    &&& vdot(
                        vadd(
                            vreflect(vunit(ray@.direction), rec.normal@),
                            vscale(self.fuzziness as int, samp),
                        ),
                        rec.normal@,
                    ) <= 0
                },
    {
        let unit: Vec3 = Vec3::unit_vector(&ray.direction());
        let reflected: Vec3 = Vec3::reflect(&unit, &rec.normal);
        proof {
            lemma_vdot_cap(unit@, rec.normal@, 2 * (ONE as int), N_CAP as int);
            lemma_fmul_cap(2 * vdot(unit@, rec.normal@), rec.normal@.x, 0x30_0000, N_CAP as int);
            lemma_fmul_cap(2 * vdot(unit@, rec.normal@), rec.normal@.y, 0x30_0000, N_CAP as int);
            lemma_fmul_cap(2 * vdot(unit@, rec.normal@), rec.normal@.z, 0x30_0000, N_CAP as int);
        }
        let sample: Vec3 = Vec3::random_in_unit_sphere(rng);
        proof {
            lemma_fmul_cap(self.fuzziness as int, sample@.x, ONE as int, ONE as int);
            lemma_fmul_cap(self.fuzziness as int, sample@.y, ONE as int, ONE as int);
            lemma_fmul_cap(self.fuzziness as int, sample@.z, ONE as int, ONE as int);
        }
        let candidate: Vec3 = reflected.add_v(sample.scale(self.fuzziness));
        let r: Option<(Ray, Vec3)> = metal_deflect(self.albedo, rec.p, rec.normal, candidate);
        proof {
            let w = sample@;
            if r is None {
                assert(vcap(w, ONE as int) && vlensq(w) < ONE as int && vdot(
                    vadd(
                        vreflect(vunit(ray@.direction), rec.normal@),
                        vscale(self.fuzziness as int, w),
                    ),
                    rec.normal@,
                ) <= 0);
            } else {
                assert(vcap(w, ONE as int) && vlensq(w) < ONE as int && candidate@ == vadd(
                    vreflect(vunit(ray@.direction), rec.normal@),
                    vscale(self.fuzziness as int, w),
                ));
            }
        }
        r
    }
}

/// The Schlick reflectance polynomial over fixed-point scalars, mirroring
/// `Dielectric::reflectance` exactly.
pub open spec fn schlick(cosine: int, ref_idx: int) -> int
    recommends
        ref_idx > -ONE,
{
    let q = fdiv(ONE - ref_idx, ONE + ref_idx);
    let r0 = fmul(q, q);
    let x = ONE - cosine;
    let x2 = fmul(x, x);
    let x4 = fmul(x2, x2);
    let x5 = fmul(x4, x);
    r0 + fmul(ONE - r0, x5)
}

/// The dielectric scatter direction as a function of the incoming
/// direction, the oriented normal, the refraction ratio and the one drawn
/// unit value: reflect on total internal reflection or a Schlick draw,
/// refract otherwise.
pub open spec fn dielectric_direction(dir: Vm, normal: Vm, ratio: int, drew: int) -> Vm {
    let unit = vunit(dir);
    let cos0 = vdot(vneg(unit), normal);
    let cos = if cos0 < ONE {
        cos0
    } else {
        ONE as int
    };
    let s2 = ONE - fmul(cos, cos);
    let s2c = if s2 > 0 {
        s2
    } else {
        0
    };
    let sin = fsqrt(s2c);
    let cannot_refract = fmul(ratio, sin) > ONE;
    if cannot_refract || schlick(cos, ratio) > drew {
        vreflect(unit, normal)
    } else {
        vrefract(unit, normal, ratio)
    }
}

impl Dielectric {
    /// The index of refraction must be a modest positive ratio (the usual
    /// physical range); zero or huge indices are excluded.
    pub fn new(ir: i128) -> (r: Dielectric)
        requires
            crate::fixed::HALF <= ir <= 8 * ONE,
        ensures
            r.ir == ir,
    {
        Dielectric { ir }
    }

    /// Schlick's approximation to the Fresnel reflection coefficient.
    pub fn reflectance(cosine: i128, ref_idx: i128) -> (r: i128)
        requires
            iabs(cosine as int) <= 0x40_0000,
            0 <= ref_idx <= 0x10_0000,
        ensures
            r as int == schlick(cosine as int, ref_idx as int),
    {
        let q: i128 = div_f(ONE - ref_idx, ONE + ref_idx);
        proof {
            lemma_tdiv_mag((ONE - ref_idx) * (ONE as int), ONE + ref_idx);
            assert(iabs((ONE - ref_idx) * (ONE as int)) <= 0x10_0000 * 65536int) by (nonlinear_arith)
                requires
                    0 <= ref_idx <= 0x10_0000,
            ;
            lemma_fmul_cap(q as int, q as int, 0x10_0000_0000, 0x10_0000_0000);
        }
        let r0: i128 = mul_f(q, q);
        let x: i128 = ONE - cosine;
        proof {
            lemma_fmul_cap(x as int, x as int, 0x80_0000, 0x80_0000);
        }
        let x2: i128 = mul_f(x, x);
        proof {
            lemma_fmul_cap(x2 as int, x2 as int, 0x4000_0000, 0x4000_0000);
        }
        let x4: i128 = mul_f(x2, x2);
        proof {
            lemma_fmul_cap(x4 as int, x as int, 0x10_0000_0000_0000, 0x80_0000);
        }
        let x5: i128 = mul_f(x4, x);
        proof {
            lemma_fmul_cap(ONE - (r0 as int), x5 as int, 0x200_0000_0000_0000, 0x800_0000_0000_0000);
        }
        r0 + mul_f(ONE - r0, x5)
    }

    /// Dielectric scattering: never absorbs, attenuation is exactly white,
    /// and the direction is pinned to `dielectric_direction` at the one
    /// value drawn from the stream.
    pub fn scatter(&self, ray_in: &Ray, rec: &HitRecord, rng: &mut SampleRng) -> (r: Option<
        (Ray, Vec3),
    >)
        requires
            old(rng).wf(),
            mat_ok(Material::Dielectric(*self)),
            vcap(rec.normal@, N_CAP as int),
            vcap(rec.p@, P_CAP as int),
            vcap(ray_in@.direction, 0x1_0000_0000),
            vdot_raw(ray_in@.direction, ray_in@.direction) >= ONE as int,
        ensures
            final(rng).wf(),
            final(rng).state as int == rng_next(old(rng).state as int),
            r matches Some(pair) && {
                let (sray, att) = pair;
                let ratio = if rec.front_face {
                    fdiv(ONE as int, self.ir as int)
                } else {
                    self.ir as int
                };
                &&& att@ == vm(ONE as int, ONE as int, ONE as int)
                &&& sray@.origin == rec.p@
                &&& sray@.direction == dielectric_direction(
                    ray_in@.direction,
                    rec.normal@,
                    ratio,
                    rng_unit(old(rng).state as int),
                )
                &&& vcap(sray@.direction, D_CAP as int)
            },
    {
        let attenuation: Vec3 = Vec3::new(ONE, ONE, ONE);
        let refraction_ratio: i128 = if rec.front_face {
            div_f(ONE, self.ir)
        } else {
            self.ir
        };
        proof {
            lemma_tdiv_mag((ONE as int) * (ONE as int), self.ir as int);
            lemma_div_is_ordered_by_denominator(
                (ONE as int) * (ONE as int),
                crate::fixed::HALF as int,
                self.ir as int,
            );
            assert(0 <= refraction_ratio <= 0x8_0000);
        }
        let unit_direction: Vec3 = Vec3::unit_vector(&ray_in.direction());
        proof {
            lemma_vdot_cap(vneg(unit_direction@), rec.normal@, 2 * (ONE as int), N_CAP as int);
        }
        let cos0: i128 = Vec3::dot(&unit_direction.neg_v(), &rec.normal);
        let cos_theta: i128 = if cos0 < ONE {
            cos0
        } else {
            ONE
        };
        proof {
            lemma_fmul_cap(cos_theta as int, cos_theta as int, 0x60_0000, 0x60_0000);
        }
        proof {
            assert((cos_theta as int) * (cos_theta as int) >= 0) by (nonlinear_arith);
            lemma_tdiv_mag((cos_theta as int) * (cos_theta as int), ONE as int);
        }
        let s2: i128 = ONE - mul_f(cos_theta, cos_theta);
        let s2c: i128 = if s2 > 0 {
            s2
        } else {
            0
        };
        let sin_theta: i128 = sqrt_f(s2c);
        proof {
            crate::fixed::lemma_sqf((s2c as int) * (ONE as int));
            assert(sin_theta <= 0x80_0000) by (nonlinear_arith)
                requires
                    (sin_theta as int) * (sin_theta as int) <= (s2c as int) * (ONE as int),
                    0 <= s2c <= 0x2400_0000,
                    sin_theta >= 0,
            ;
            lemma_fmul_cap(refraction_ratio as int, sin_theta as int, 0x8_0000, 0x80_0000);
        }
        let cannot_refract: bool = mul_f(refraction_ratio, sin_theta) > ONE;
        let drew: i128 = rng.next_unit();
        let direction: Vec3 = if cannot_refract || Dielectric::reflectance(cos_theta, refraction_ratio)
            > drew {
            proof {
                lemma_vdot_cap(unit_direction@, rec.normal@, 2 * (ONE as int), N_CAP as int);
                let dd = 2 * vdot(unit_direction@, rec.normal@);
                lemma_fmul_cap(dd, rec.normal@.x, 0x30_0000, N_CAP as int);
                lemma_fmul_cap(dd, rec.normal@.y, 0x30_0000, N_CAP as int);
                lemma_fmul_cap(dd, rec.normal@.z, 0x30_0000, N_CAP as int);
            }
            Vec3::reflect(&unit_direction, &rec.normal)
        } else {
            Vec3::refract(&unit_direction, &rec.normal, refraction_ratio)
        };
        Some((Ray::new(rec.p, direction), attenuation))
    }
}

impl Material {
    /// Scattering for whichever variant the surface carries.
    pub fn scatter(&self, ray: &Ray, rec: &HitRecord, rng: &mut SampleRng) -> (r: Option<
        (Ray, Vec3),
    >)
        requires
            old(rng).wf(),
            mat_ok(*self),
            vcap(rec.normal@, N_CAP as int),
            vcap(rec.p@, P_CAP as int),
            vcap(ray@.direction, 0x1_0000_0000),
            vdot_raw(ray@.direction, ray@.direction) >= ONE as int,
        ensures
            final(rng).wf(),
            r matches Some(pair) ==> {
                let (sray, att) = pair;
                &&& color_ok(att@)
                &&& sray@.origin == rec.p@
                &&& vcap(sray@.direction, D_CAP as int)
            },
            self is Lambertian ==> r is Some,
            self is Dielectric ==> r is Some && (r matches Some(pair) ==> pair.1@ == vm(
                ONE as int,
                ONE as int,
                ONE as int,
            )),
    {
        match self {
            Material::Lambertian(l) => l.scatter(ray, rec, rng),
            Material::Metal(m) => m.scatter(ray, rec, rng),
            Material::Dielectric(d) => d.scatter(ray, rec, rng),
        }
    }
}

} // verus!
