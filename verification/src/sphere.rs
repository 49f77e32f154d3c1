//! Spheres and the quadratic ray intersection, stated exactly.

use vstd::prelude::*;
use crate::fixed::{
    ONE, iabs, tdiv, fmul, fdiv, fsqrt, mul_f, div_f, sqrt_f, div_t, lemma_tdiv_mag,
    lemma_fmul_cap, lemma_sqf,
};
use crate::vec3::{Vec3, Vm, vcap, vsub, vneg, vdivs, vdot, vdot_raw, vlensq, lemma_vdot_cap};
use crate::ray::{Ray, Rm, ray_at};
use crate::material::{Material, mat_ok};
use crate::hittable::HitRecord;
use vstd::arithmetic::div_mod::lemma_div_is_ordered;

verus! {

/// The geometric outcome of a hit, as the spec functions state it.
pub ghost struct HitInfo {
    pub t: int,
    pub p: Vm,
    pub normal: Vm,
    pub front_face: bool,
}

/// The half-discriminant quadratic pieces for a ray/sphere intersection.
pub open spec fn sphere_a(r: Rm) -> int {
    vlensq(r.direction)
}

pub open spec fn sphere_half_b(center: Vm, r: Rm) -> int {
    vdot(vsub(r.origin, center), r.direction)
}

pub open spec fn sphere_c(center: Vm, radius: int, r: Rm) -> int {
    vlensq(vsub(r.origin, center)) - fmul(radius, radius)
}

pub open spec fn sphere_disc(center: Vm, radius: int, r: Rm) -> int {
    fmul(sphere_half_b(center, r), sphere_half_b(center, r)) - fmul(
        sphere_a(r),
        sphere_c(center, radius, r),
    )
}

/// The smaller and larger roots of the quadratic, at fixed-point precision.
pub open spec fn sphere_root1(center: Vm, radius: int, r: Rm) -> int {
    fdiv(-sphere_half_b(center, r) - fsqrt(sphere_disc(center, radius, r)), sphere_a(r))
}

pub open spec fn sphere_root2(center: Vm, radius: int, r: Rm) -> int {
    fdiv(-sphere_half_b(center, r) + fsqrt(sphere_disc(center, radius, r)), sphere_a(r))
}

/// The record built once a root is accepted: hit point, outward normal
/// scaled by the radius, and the normal flipped toward the ray when the
/// ray comes from inside.
pub open spec fn mk_hit(center: Vm, radius: int, r: Rm, root: int) -> HitInfo {
    let p = ray_at(r, root);
    let outward = vdivs(vsub(p, center), radius);
    let front = vdot(r.direction, outward) < 0;
    HitInfo {
        t: root,
        p,
        normal: if front {
            outward
        } else {
            vneg(outward)
        },
        front_face: front,
    }
}

/// The full intersection decision: none when the discriminant is negative
/// or both roots fall outside [t_min, t_max]; otherwise the record at the
/// smaller in-range root.
pub open spec fn sphere_hit(center: Vm, radius: int, r: Rm, t_min: int, t_max: int) -> Option<
    HitInfo,
> {
    let disc = sphere_disc(center, radius, r);
    let root1 = sphere_root1(center, radius, r);
    let root2 = sphere_root2(center, radius, r);
    if disc < 0 {
        None
    } else if t_min <= root1 && root1 <= t_max {
        Some(mk_hit(center, radius, r, root1))
    } else if t_min <= root2 && root2 <= t_max {
        Some(mk_hit(center, radius, r, root2))
    } else {
        None
    }
}

/// A sphere: center, positive radius, and its owned material.
#[derive(Clone, Copy)]
pub struct Sphere {
    pub center: Vec3,
    pub radius: i128,
    pub material: Material,
}

/// World bounds: center within coordinate range, radius positive and
/// bounded, material well formed.
pub open spec fn sphere_wf(s: Sphere) -> bool {
    &&& vcap(s.center@, 0x1_0000_0000)
    &&& 1 <= s.radius <= 0x1_0000_0000
    &&& mat_ok(s.material)
}

impl Sphere {
    pub fn new(center: Vec3, radius: i128, material: Material) -> (r: Sphere)
        requires
            vcap(center@, 0x1_0000_0000),
            1 <= radius <= 0x1_0000_0000,
            mat_ok(material),
        ensures
            r.center == center,
            r.radius == radius,
            r.material == material,
            sphere_wf(r),
    {
        Sphere { center, radius, material }
    }

    /// Ray intersection, exactly as `sphere_hit` states it.
    pub fn hit(&self, ray: &Ray, t_min: i128, t_max: i128) -> (r: Option<HitRecord>)
        requires
            sphere_wf(*self),
            vcap(ray@.origin, 0x400_0000_0000),
            vcap(ray@.direction, 0x1_0000_0000),
            vdot_raw(ray@.direction, ray@.direction) >= ONE as int,
            0 <= t_min <= t_max <= 0x100_0000_0000,
        ensures
            match r {
                None => sphere_hit(self.center@, self.radius as int, ray@, t_min as int, t_max as int)
                    is None,
                Some(rec) => {
                    &&& sphere_hit(
                        self.center@,
                        self.radius as int,
                        ray@,
                        t_min as int,
                        t_max as int,
                    ) == Some(rec.info())
                    &&& t_min <= rec.t <= t_max
                    &&& rec.material == self.material
                },
            },
    {
        let dirv: Vec3 = ray.direction();
        let oc: Vec3 = ray.origin().sub_v(self.center);
        proof {
            lemma_vdot_cap(ray@.direction, ray@.direction, 0x1_0000_0000, 0x1_0000_0000);
            lemma_div_is_ordered(ONE as int, vdot_raw(ray@.direction, ray@.direction), ONE as int);
        }
        let a: i128 = dirv.length_squared();
        proof {
            lemma_vdot_cap(oc@, ray@.direction, 0x410_0000_0000, 0x1_0000_0000);
        }
        let half_b: i128 = Vec3::dot(&oc, &dirv);
        proof {
            lemma_vdot_cap(oc@, oc@, 0x410_0000_0000, 0x410_0000_0000);
            lemma_fmul_cap(self.radius as int, self.radius as int, 0x1_0000_0000, 0x1_0000_0000);
        }
        let c: i128 = oc.length_squared() - mul_f(self.radius, self.radius);
        proof {
            lemma_fmul_cap(half_b as int, half_b as int, 0x2000_0000_0000_0000, 0x2000_0000_0000_0000);
            lemma_fmul_cap(a as int, c as int, 0x4_0000_0000_0000, 0x80_0000_0000_0000_0000);
        }
        let discriminant: i128 = mul_f(half_b, half_b) - mul_f(a, c);
        if discriminant < 0 {
            return None;
        }
        let sqrtd: i128 = sqrt_f(discriminant);
        proof {
            assert(sqrtd < 0x4000_0000_0000_0000) by (nonlinear_arith)
                requires
                    (sqrtd as int) * (sqrtd as int) <= (discriminant as int) * (ONE as int),
                    0 <= discriminant < 0x1000_0000_0000_0000_0000_0000_0000i128,
                    sqrtd >= 0,
            ;
        }
        let mut root: i128 = div_f(-half_b - sqrtd, a);
        proof {
            assert(root as int == sphere_root1(self.center@, self.radius as int, ray@));
        }
        if root < t_min || root > t_max {
            root = div_f(-half_b + sqrtd, a);
            proof {
                assert(root as int == sphere_root2(self.center@, self.radius as int, ray@));
            }
            if root < t_min || root > t_max {
                return None;
            }
        }
        proof {
            lemma_fmul_cap(root as int, ray@.direction.x, 0x100_0000_0000, 0x1_0000_0000);
            lemma_fmul_cap(root as int, ray@.direction.y, 0x100_0000_0000, 0x1_0000_0000);
            lemma_fmul_cap(root as int, ray@.direction.z, 0x100_0000_0000, 0x1_0000_0000);
        }
        let p: Vec3 = ray.at(root);
        let diff: Vec3 = p.sub_v(self.center);
        proof {
            assert(vcap(diff@, 0x200_0000_0000_0000));
            lemma_tdiv_mag(diff@.x * (ONE as int), self.radius as int);
            lemma_tdiv_mag(diff@.y * (ONE as int), self.radius as int);
            lemma_tdiv_mag(diff@.z * (ONE as int), self.radius as int);
            assert(iabs(diff@.x * (ONE as int)) <= 0x2000_0000_0000_0000_0000 && iabs(
                diff@.y * (ONE as int),
            ) <= 0x2000_0000_0000_0000_0000 && iabs(diff@.z * (ONE as int))
                <= 0x2000_0000_0000_0000_0000) by (nonlinear_arith)
                requires
                    vcap(diff@, 0x200_0000_0000_0000),
            ;
        }
        let outward_normal: Vec3 = diff.div_s(self.radius);
        proof {
            assert(vcap(outward_normal@, 0x2000_0000_0000_0000_0000));
            assert(iabs(ray@.direction.x * outward_normal@.x) <= 0x1_0000_0000
                * 0x2000_0000_0000_0000_0000 && iabs(ray@.direction.y * outward_normal@.y)
                <= 0x1_0000_0000 * 0x2000_0000_0000_0000_0000 && iabs(
                ray@.direction.z * outward_normal@.z,
            ) <= 0x1_0000_0000 * 0x2000_0000_0000_0000_0000) by (nonlinear_arith)
                requires
                    vcap(outward_normal@, 0x2000_0000_0000_0000_0000),
                    vcap(ray@.direction, 0x1_0000_0000),
            ;
        }
        let fr_raw: i128 = dirv.x() * outward_normal.x() + dirv.y() * outward_normal.y() + dirv.z()
            * outward_normal.z();
        let fr: i128 = div_t(fr_raw, ONE);
        proof {
            assert(fr as int == vdot(ray@.direction, outward_normal@));
        }
        let front_face: bool = fr < 0;
        let normal: Vec3 = if front_face {
            outward_normal
        } else {
            outward_normal.neg_v()
        };
        Some(
            HitRecord {
                t: root,
                p,
                normal,
                front_face,
                material: self.material,
            },
        )
    }
}

/// The intersection returns nothing exactly when the discriminant is
/// negative or both quadratic roots fall outside [t_min, t_max].
pub proof fn lemma_sphere_hit_none(center: Vm, radius: int, r: Rm, t_min: int, t_max: int)
    ensures
        sphere_hit(center, radius, r, t_min, t_max) is None <==> (sphere_disc(center, radius, r)
            < 0 || (!(t_min <= sphere_root1(center, radius, r) <= t_max) && !(t_min
            <= sphere_root2(center, radius, r) <= t_max))),
{
}

/// For a non-degenerate ray the smaller root never exceeds the larger.
pub proof fn lemma_root_order(center: Vm, radius: int, r: Rm)
    requires
        sphere_a(r) >= 1,
        sphere_disc(center, radius, r) >= 0,
    ensures
        sphere_root1(center, radius, r) <= sphere_root2(center, radius, r),
{
    let hb = sphere_half_b(center, r);
    let sq = fsqrt(sphere_disc(center, radius, r));
    lemma_sqf(sphere_disc(center, radius, r) * (ONE as int));
    assert((-hb - sq) * (ONE as int) <= (-hb + sq) * (ONE as int)) by (nonlinear_arith)
        requires
            sq >= 0,
    ;
    crate::fixed::lemma_tdiv_mono(
        (-hb - sq) * (ONE as int),
        (-hb + sq) * (ONE as int),
        sphere_a(r),
    );
}

/// Narrowing the upper parameter bound never changes an intersection it
/// still admits: a hit within the narrower range is the same hit within
/// the wider range, and a miss in the narrower range means the wider
/// range's hit (if any) lies beyond the narrow bound.
pub proof fn lemma_sphere_hit_narrow(
    center: Vm,
    radius: int,
    r: Rm,
    t_min: int,
    tm2: int,
    tm1: int,
)
    requires
        sphere_a(r) >= 1,
        t_min <= tm2 <= tm1,
    ensures
        match sphere_hit(center, radius, r, t_min, tm2) {
            Some(h) => sphere_hit(center, radius, r, t_min, tm1) == Some(h),
            None => match sphere_hit(center, radius, r, t_min, tm1) {
                Some(g) => g.t > tm2,
                None => true,
            },
        },
{
    if sphere_disc(center, radius, r) >= 0 {
        lemma_root_order(center, radius, r);
    }
}

} // verus!
