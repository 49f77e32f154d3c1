//! The thin-lens camera: an orthonormal view basis and viewport extents
//! derived once from the extrinsic parameters, and per-sample primary rays
//! with a lens-aperture jitter for depth of field.
//!
//! The vertical field of view enters as the tangent of its half-angle (a
//! transcendental the fixed-point kernel does not provide; the caller
//! evaluates it once when configuring).

use vstd::prelude::*;
use crate::fixed::{ONE, fmul, div_t, mul_f, lemma_fmul_cap, lemma_tdiv_mag};
use crate::vec3::{
    Vec3, Vm, vm, vcap, vadd, vsub, vscale, vcross, vunit, vdot_raw, vlensq,
};
use crate::ray::Ray;
use crate::prng::SampleRng;

verus! {

#[derive(Clone, Copy)]
pub struct Camera {
    pub origin: Vec3,
    pub lower_left_corner: Vec3,
    pub horizontal: Vec3,
    pub vertical: Vec3,
    pub u: Vec3,
    pub v: Vec3,
    pub w: Vec3,
    pub lens_radius: i128,
}

/// Bounds that keep every per-ray computation within range.
pub open spec fn camera_wf(c: Camera) -> bool {
    &&& vcap(c.origin@, 0x4000_0000)
    &&& vcap(c.lower_left_corner@, 0x4000_0000)
    &&& vcap(c.horizontal@, 0x1000_0000)
    &&& vcap(c.vertical@, 0x1000_0000)
    &&& vcap(c.u@, 0x2_0000)
    &&& vcap(c.v@, 0x8_0000)
    &&& 0 <= c.lens_radius <= 0x10_0000
}

impl Camera {
    /// Build the view basis and viewport from the extrinsics.  The basis is
    /// w toward the eye, u across, v up; the viewport is the focus-plane
    /// rectangle spanned by `horizontal` and `vertical`.  The eye must be
    /// away from the target, and the up hint off the view axis.
    #[verifier::rlimit(100)]
    #[verifier::spinoff_prover]
    pub fn new(
        lookfrom: &Vec3,
        lookat: &Vec3,
        vup: &Vec3,
        tan_half_vfov: i128,
        aspect_ratio: i128,
        aperture: i128,
        focus_dist: i128,
    ) -> (r: Camera)
        requires
            vcap(lookfrom@, 0x100_0000),
            vcap(lookat@, 0x100_0000),
            vcap(vup@, 0x100_0000),
            1 <= tan_half_vfov <= 0x4_0000,
            crate::fixed::HALF as int <= aspect_ratio <= 0x4_0000,
            0 <= aperture <= 0x20_0000,
            1 <= focus_dist <= 0x40_0000,
            vdot_raw(vsub(lookfrom@, lookat@), vsub(lookfrom@, lookat@)) >= ONE as int,
            vdot_raw(
                vcross(vup@, vunit(vsub(lookfrom@, lookat@))),
                vcross(vup@, vunit(vsub(lookfrom@, lookat@))),
            ) >= ONE as int,
        ensures
            camera_wf(r),
            r.origin@ == lookfrom@,
            r.w@ == vunit(vsub(lookfrom@, lookat@)),
            r.u@ == vunit(vcross(vup@, r.w@)),
            r.v@ == vcross(r.w@, r.u@),
            r.horizontal@ == vscale(
                fmul(focus_dist as int, fmul(aspect_ratio as int, 2 * tan_half_vfov)),
                r.u@,
            ),
            r.vertical@ == vscale(fmul(focus_dist as int, 2 * tan_half_vfov), r.v@),
            r.lower_left_corner@ == vsub(
                vsub(
                    vsub(lookfrom@, vdivs_two(r.horizontal@)),
                    vdivs_two(r.vertical@),
                ),
                vscale(focus_dist as int, r.w@),
            ),
            r.lens_radius as int == aperture as int / 2,
    {
        let viewport_height: i128 = 2 * tan_half_vfov;
        proof {
            lemma_fmul_cap(aspect_ratio as int, viewport_height as int, 0x4_0000, 0x8_0000);
        }
        let viewport_width: i128 = mul_f(aspect_ratio, viewport_height);
        let w: Vec3 = Vec3::unit_vector(&lookfrom.sub_v(*lookat));
        proof {
            lemma_fmul_cap(vup@.y, w@.z, 0x100_0000, 0x2_0000);
            lemma_fmul_cap(vup@.z, w@.y, 0x100_0000, 0x2_0000);
            lemma_fmul_cap(vup@.z, w@.x, 0x100_0000, 0x2_0000);
            lemma_fmul_cap(vup@.x, w@.z, 0x100_0000, 0x2_0000);
            lemma_fmul_cap(vup@.x, w@.y, 0x100_0000, 0x2_0000);
            lemma_fmul_cap(vup@.y, w@.x, 0x100_0000, 0x2_0000);
        }
        let cu: Vec3 = Vec3::cross(vup, &w);
        proof {
            assert(vcap(cu@, 0x4_0000_0000));
        }
        let u: Vec3 = Vec3::unit_vector(&cu);
        proof {
            lemma_fmul_cap(w@.y, u@.z, 0x2_0000, 0x2_0000);
            lemma_fmul_cap(w@.z, u@.y, 0x2_0000, 0x2_0000);
            lemma_fmul_cap(w@.z, u@.x, 0x2_0000, 0x2_0000);
            lemma_fmul_cap(w@.x, u@.z, 0x2_0000, 0x2_0000);
            lemma_fmul_cap(w@.x, u@.y, 0x2_0000, 0x2_0000);
            lemma_fmul_cap(w@.y, u@.x, 0x2_0000, 0x2_0000);
        }
        let v: Vec3 = Vec3::cross(&w, &u);
        proof {
            assert(vcap(v@, 0x8_0000));
            lemma_fmul_cap(focus_dist as int, viewport_width as int, 0x40_0000, 0x20_0000);
            lemma_fmul_cap(focus_dist as int, viewport_height as int, 0x40_0000, 0x8_0000);
        }
        let fw: i128 = mul_f(focus_dist, viewport_width);
        let fh: i128 = mul_f(focus_dist, viewport_height);
        proof {
            lemma_fmul_cap(fw as int, u@.x, 0x800_0000, 0x2_0000);
            lemma_fmul_cap(fw as int, u@.y, 0x800_0000, 0x2_0000);
            lemma_fmul_cap(fw as int, u@.z, 0x800_0000, 0x2_0000);
            lemma_fmul_cap(fh as int, v@.x, 0x200_0000, 0x8_0000);
            lemma_fmul_cap(fh as int, v@.y, 0x200_0000, 0x8_0000);
            lemma_fmul_cap(fh as int, v@.z, 0x200_0000, 0x8_0000);
            lemma_fmul_cap(focus_dist as int, w@.x, 0x40_0000, 0x2_0000);
            lemma_fmul_cap(focus_dist as int, w@.y, 0x40_0000, 0x2_0000);
            lemma_fmul_cap(focus_dist as int, w@.z, 0x40_0000, 0x2_0000);
        }
        let horizontal: Vec3 = u.scale(fw);
        let vertical: Vec3 = v.scale(fh);
        proof {
            lemma_tdiv_mag(horizontal@.x, 2);
            lemma_tdiv_mag(horizontal@.y, 2);
            lemma_tdiv_mag(horizontal@.z, 2);
            lemma_tdiv_mag(vertical@.x, 2);
            lemma_tdiv_mag(vertical@.y, 2);
            lemma_tdiv_mag(vertical@.z, 2);
            lemma_tdiv_mag(aperture as int, 2);
        }
        let half_h: Vec3 = Vec3 {
            ex: div_t(horizontal.ex, 2),
            ey: div_t(horizontal.ey, 2),
            ez: div_t(horizontal.ez, 2),
        };
        let half_v: Vec3 = Vec3 {
            ex: div_t(vertical.ex, 2),
            ey: div_t(vertical.ey, 2),
            ez: div_t(vertical.ez, 2),
        };
        let lower_left_corner: Vec3 = lookfrom.sub_v(half_h).sub_v(half_v).sub_v(
            w.scale(focus_dist),
        );
        Camera {
            origin: *lookfrom,
            horizontal,
            vertical,
            lower_left_corner,
            w,
            u,
            v,
            lens_radius: div_t(aperture, 2),
        }
    }

    /// A primary ray toward the viewport point (s, t), its origin jittered
    /// across the lens disk so that rays converge exactly at the focus
    /// plane: whatever disk point was drawn, origin plus direction is the
    /// viewport point for (s, t), and the origin is the camera origin
    /// offset along u and v by the lens radius times the drawn point.
    /// With a zero aperture the ray is pinned: no jitter remains.
    #[verifier::rlimit(100)]
    pub fn get_ray(&self, s: i128, t: i128, rng: &mut SampleRng) -> (r: Ray)
        requires
            old(rng).wf(),
            camera_wf(*self),
            0 <= s <= 2 * ONE,
            0 <= t <= 2 * ONE,
        ensures
            final(rng).wf(),
            vcap(r@.origin, 0x8000_0000),
            vcap(r@.direction, 0x1_0000_0000),
            vdot_raw(r@.direction, r@.direction) >= 0,
            vadd(r@.origin, r@.direction) == vadd(
                vadd(self.lower_left_corner@, vscale(s as int, self.horizontal@)),
                vscale(t as int, self.vertical@),
            ),
            exists|d: Vm|
                {
                    &&& vcap(d, ONE as int)
                    &&& #[trigger] vlensq(d) < ONE as int
                    &&& d.z == 0
                    &&& r@.origin == vadd(
                        self.origin@,
                        vadd(
                            vscale(fmul(self.lens_radius as int, d.x), self.u@),
                            vscale(fmul(self.lens_radius as int, d.y), self.v@),
                        ),
                    )
                },
            self.lens_radius == 0 ==> r@.origin == self.origin@ && r@.direction == vsub(
                vsub(
                    vadd(
                        vadd(self.lower_left_corner@, vscale(s as int, self.horizontal@)),
                        vscale(t as int, self.vertical@),
                    ),
                    self.origin@,
                ),
                vm(0, 0, 0),
            ),
    {
        let sample: Vec3 = Vec3::random_in_unit_disk(rng);
        proof {
            lemma_fmul_cap(self.lens_radius as int, sample@.x, 0x10_0000, ONE as int);
            lemma_fmul_cap(self.lens_radius as int, sample@.y, 0x10_0000, ONE as int);
            lemma_fmul_cap(self.lens_radius as int, sample@.z, 0x10_0000, ONE as int);
        }
        let rd: Vec3 = sample.scale(self.lens_radius);
        proof {
            lemma_fmul_cap(rd@.x, self.u@.x, 0x10_0000, 0x2_0000);
            lemma_fmul_cap(rd@.x, self.u@.y, 0x10_0000, 0x2_0000);
            lemma_fmul_cap(rd@.x, self.u@.z, 0x10_0000, 0x2_0000);
            lemma_fmul_cap(rd@.y, self.v@.x, 0x10_0000, 0x8_0000);
            lemma_fmul_cap(rd@.y, self.v@.y, 0x10_0000, 0x8_0000);
            lemma_fmul_cap(rd@.y, self.v@.z, 0x10_0000, 0x8_0000);
            lemma_fmul_cap(s as int, self.horizontal@.x, 0x2_0000, 0x1000_0000);
            lemma_fmul_cap(s as int, self.horizontal@.y, 0x2_0000, 0x1000_0000);
            lemma_fmul_cap(s as int, self.horizontal@.z, 0x2_0000, 0x1000_0000);
            lemma_fmul_cap(t as int, self.vertical@.x, 0x2_0000, 0x1000_0000);
            lemma_fmul_cap(t as int, self.vertical@.y, 0x2_0000, 0x1000_0000);
            lemma_fmul_cap(t as int, self.vertical@.z, 0x2_0000, 0x1000_0000);
        }
        let offset: Vec3 = self.u.scale(rd.x()).add_v(self.v.scale(rd.y()));
        proof {
            if self.lens_radius == 0 {
                assert(0 * sample@.x == 0 && 0 * sample@.y == 0 && 0 * sample@.z == 0)
                    by (nonlinear_arith);
                assert(crate::fixed::tdiv(0, 65536) == 0);
                assert(rd@ == vm(0, 0, 0));
                assert(0 * self.u@.x == 0 && 0 * self.u@.y == 0 && 0 * self.u@.z == 0
                    && 0 * self.v@.x == 0 && 0 * self.v@.y == 0 && 0 * self.v@.z == 0)
                    by (nonlinear_arith);
                assert(offset@ == vm(0, 0, 0));
            }
        }
        let direction: Vec3 = self.lower_left_corner.add_v(self.horizontal.scale(s)).add_v(
            self.vertical.scale(t),
        ).sub_v(self.origin).sub_v(offset);
        proof {
            crate::vec3::lemma_vlensq_bounds(direction@, 0x1_0000_0000);
            let d = sample@;
            assert(vcap(d, ONE as int) && vlensq(d) < ONE as int && d.z == 0 && vadd(
                self.origin@,
                offset@,
            ) == vadd(
                self.origin@,
                vadd(
                    vscale(fmul(self.lens_radius as int, d.x), self.u@),
                    vscale(fmul(self.lens_radius as int, d.y), self.v@),
                ),
            ));
        }
        Ray::new(self.origin.add_v(offset), direction)
    }
}

/// Halving each component, as the viewport centering computes it.
pub open spec fn vdivs_two(v: Vm) -> Vm {
    vm(crate::fixed::tdiv(v.x, 2), crate::fixed::tdiv(v.y, 2), crate::fixed::tdiv(v.z, 2))
}

} // verus!
