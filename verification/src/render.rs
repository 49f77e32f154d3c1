//! The radiance integrator and the per-pixel sample driver.
//!
//! `ray_color` walks a ray through the scene as a loop carrying the
//! accumulated attenuation, terminating on miss (background), absorption
//! or depth exhaustion.  Degenerate intermediate values (a scattered
//! direction too short to normalise, a hit record out of range) are
//! hardened to ray termination, so that no verified function can fail at
//! run time.

use vstd::prelude::*;
use crate::fixed::{ONE, HALF, iabs, tdiv, fmul, lemma_tdiv_mag, lemma_tdiv_exact, lemma_fmul_cap,
    lemma_fmul_unit_range, div_t};
use crate::vec3::{
    Vec3, Vm, vm, vcap, vadd, vscale, vmulv, vunit, vdot_raw, vlensq, lemma_vlensq_bounds,
    lemma_unit_bounds,
};
use crate::ray::Ray;
use crate::hittable::{HittableList, scene_wf};
use crate::material::{color_ok, mat_ok, P_CAP, N_CAP};
use crate::camera::{Camera, camera_wf};
use crate::color::pixel_value;
use crate::prng::{SampleRng, RNG_MOD};
use vstd::arithmetic::div_mod::lemma_div_is_ordered;

verus! {

/// Shadow-acne cutoff: the fixed-point value closest to 0.001.
pub const T_MIN: i128 = 66;

/// The stand-in for an unbounded upper ray parameter.
pub const T_FAR: i128 = 0x100_0000_0000;

/// The sky gradient endpoint (0.5, 0.7, 1.0).
pub const SKY_G: i128 = 45875;

/// The background gradient for a missed ray: a vertical blend from white
/// to sky blue by the normalised direction's height.
pub open spec fn background(dir: Vm) -> Vm {
    let t = fmul(HALF as int, vunit(dir).y + ONE);
    vadd(
        vscale(ONE - t, vm(ONE as int, ONE as int, ONE as int)),
        vscale(t, vm(HALF as int, SKY_G as int, ONE as int)),
    )
}

/// The ceiling of the background band: one plus a quarter, the worst
/// overshoot a degenerate short direction can produce in the blend.
pub const BG_TOP: i128 = 81921;

/// One channel of the blend (1 - t) + t * c stays within [0, BG_TOP] for
/// the blend parameters any normalised direction can yield and any sky
/// channel in [1/2, 1].
proof fn lemma_blend_channel(t: int, c: int)
    requires
        -(HALF as int) <= t <= 3 * (HALF as int),
        HALF as int <= c <= ONE as int,
    ensures
        0 <= (ONE as int) - t + fmul(t, c) <= BG_TOP as int,
{
    let f = fmul(t, c);
    if t >= 0 {
        lemma_fmul_unit_range(t, c);
        vstd::arithmetic::div_mod::lemma_fundamental_div_mod(t * c, ONE as int);
        vstd::arithmetic::div_mod::lemma_mod_division_less_than_divisor(t * c, ONE as int);
        assert(f == (t * c) / 65536);
        assert(65536 - t + f >= 0) by (nonlinear_arith)
            requires
                t * c == 65536 * ((t * c) / 65536) + (t * c) % 65536,
                0 <= (t * c) % 65536 < 65536,
                f == (t * c) / 65536,
                0 <= t <= 3 * 32768,
                32768 <= c <= 65536,
        ;
    } else {
        let m = -t;
        lemma_fmul_unit_range(m, c);
        assert(f == -fmul(m, c)) by {
            assert(iabs(t * c) == iabs(m * c) && t * c <= 0) by (nonlinear_arith)
                requires
                    t == -m,
                    m >= 0,
                    c >= 0,
            ;
        }
        vstd::arithmetic::div_mod::lemma_fundamental_div_mod(m * c, ONE as int);
        vstd::arithmetic::div_mod::lemma_mod_division_less_than_divisor(m * c, ONE as int);
        assert(65536 + m - (m * c) / 65536 <= 81921) by (nonlinear_arith)
            requires
                m * c == 65536 * ((m * c) / 65536) + (m * c) % 65536,
                0 <= (m * c) % 65536 < 65536,
                0 <= m <= 32768,
                32768 <= c <= 65536,
        ;
        assert(fmul(m, c) == (m * c) / 65536);
    }
}

/// Every channel of the background lies within [0, BG_TOP] for any
/// direction long enough to trace.
pub proof fn lemma_background_range(d: Vm)
    requires
        vcap(d, 0x1_0000_0000),
        vdot_raw(d, d) >= ONE as int,
    ensures
        0 <= background(d).x <= BG_TOP as int,
        0 <= background(d).y <= BG_TOP as int,
        0 <= background(d).z <= BG_TOP as int,
{
    lemma_unit_bounds(d);
    let u = vunit(d);
    let t = fmul(HALF as int, u.y + ONE);
    crate::fixed::lemma_tdiv_mono(32768 * (-(65536 - 1)), 32768 * (u.y + 65536), 65536);
    crate::fixed::lemma_tdiv_mono(32768 * (u.y + 65536), 32768 * (3 * 65536 - 1), 65536);
    assert(32768 * (-(65536int - 1)) <= 32768 * (u.y + 65536) <= 32768 * (3 * 65536 - 1))
        by (nonlinear_arith)
        requires
            -(2 * 65536 - 1) <= u.y <= 2 * 65536 - 1,
    ;
    assert(tdiv(32768 * (-(65536int - 1)), 65536) == -32767);
    assert(tdiv(32768 * (3 * 65536int - 1), 65536) == 98303);
    lemma_blend_channel(t, HALF as int);
    lemma_blend_channel(t, SKY_G as int);
    lemma_blend_channel(t, ONE as int);
    crate::fixed::lemma_tdiv_exact(65536 - t, 65536);
    assert(fmul((ONE as int) - t, ONE as int) == (ONE as int) - t) by {
        assert((65536 - t) * 65536 == 65536 * (65536 - t)) by (nonlinear_arith);
        assert(tdiv((65536 - t) * 65536, 65536) == 65536 - t);
    }
}

/// Exec test that every component's magnitude is at most `c`.
fn cap_ok(v: &Vec3, c: i128) -> (r: bool)
    requires
        c >= 0,
    ensures
        r == vcap(v@, c as int),
{
    -c <= v.ex && v.ex <= c && -c <= v.ey && v.ey <= c && -c <= v.ez && v.ez <= c
}

/// The outgoing radiance along a ray: black at exhausted depth; on a hit,
/// the material's attenuation folded into the recursion; on a miss, the
/// accumulated attenuation times the background gradient.  Every path
/// ending other than at a miss (absorption, depth exhaustion, a hardened
/// degenerate value) contributes black, so any non-black result is an
/// accumulated [0,1]-attenuation times the background of some traceable
/// direction.
#[verifier::rlimit(100)]
pub fn ray_color(ray: &Ray, world: &HittableList, depth: i32, rng: &mut SampleRng) -> (r: Vec3)
    requires
        old(rng).wf(),
        scene_wf(world.objects@),
        vcap(ray@.origin, P_CAP as int),
        vcap(ray@.direction, 0x1_0000_0000),
    ensures
        final(rng).wf(),
        0 <= r@.x <= BG_TOP && 0 <= r@.y <= BG_TOP && 0 <= r@.z <= BG_TOP,
        r@ == vm(0, 0, 0) || exists|acc: Vm, dlast: Vm|
            {
                &&& color_ok(acc)
                &&& vcap(dlast, 0x1_0000_0000)
                &&& vdot_raw(dlast, dlast) >= ONE as int
                &&& r@ == #[trigger] vmulv(acc, background(dlast))
            },
        depth <= 0 ==> r@ == vm(0, 0, 0) && final(rng).state == old(rng).state,
        world.objects@.len() == 0 && depth >= 1 && vdot_raw(ray@.direction, ray@.direction)
            >= ONE as int ==> r@ == background(ray@.direction),
        crate::hittable::list_hit(world.objects@, ray@, T_MIN as int, T_FAR as int) is None
            && depth >= 1 && vdot_raw(ray@.direction, ray@.direction) >= ONE as int ==> r@
            == background(ray@.direction),
{
    if depth <= 0 {
        return Vec3::new(0, 0, 0);
    }
    let mut acc: Vec3 = Vec3::new(ONE, ONE, ONE);
    let mut current: Ray = *ray;
    let mut remaining: i32 = depth;
    while remaining > 0
        invariant
            rng.wf(),
            scene_wf(world.objects@),
            vcap(current@.origin, P_CAP as int),
            vcap(current@.direction, 0x1_0000_0000),
            color_ok(acc@),
            depth >= 1,
            world.objects@.len() == 0 ==> acc@ == vm(ONE as int, ONE as int, ONE as int)
                && current@ == ray@ && remaining == depth,
            crate::hittable::list_hit(world.objects@, ray@, T_MIN as int, T_FAR as int) is None
                ==> acc@ == vm(ONE as int, ONE as int, ONE as int) && current@ == ray@
                && remaining == depth,
        decreases remaining,
    {
        let d: Vec3 = current.direction();
        proof {
            lemma_vlensq_bounds(d@, 0x1_0000_0000);
        }
        let q: i128 = d.length_squared();
        if q < 1 {
            // Hardened: a direction too short to normalise at this
            // precision terminates the path.
            proof {
                if vdot_raw(d@, d@) >= ONE as int {
                    lemma_div_is_ordered(ONE as int, vdot_raw(d@, d@), ONE as int);
                }
            }
            return Vec3::new(0, 0, 0);
        }
        proof {
            assert(vdot_raw(d@, d@) >= ONE as int) by (nonlinear_arith)
                requires
                    tdiv(vdot_raw(d@, d@), ONE as int) >= 1,
                    vdot_raw(d@, d@) >= 0,
            ;
        }
        match world.hit(&current, T_MIN, T_FAR) {
            Some(rec) => {
                if !(cap_ok(&rec.normal, crate::material::N_CAP) && cap_ok(
                    &rec.p,
                    crate::material::P_CAP,
                )) {
                    // Hardened: a hit record outside world bounds (possible
                    // only for geometrically absurd configurations) also
                    // terminates the path.
                    return Vec3::new(0, 0, 0);
                }
                proof {
                    let objs = world.objects@;
                    assert(mat_ok(rec.material)) by {
                        let k = choose|k: int|
                            0 <= k < objs.len() && rec.material == #[trigger] objs[k].material;
                        assert(crate::sphere::sphere_wf(objs[k]));
                    }
                }
                match rec.material.scatter(&current, &rec, rng) {
                    Some(pair) => {
                        let (scattered, attenuation) = pair;
                        proof {
                            lemma_fmul_unit_range(acc@.x, attenuation@.x);
                            lemma_fmul_unit_range(acc@.y, attenuation@.y);
                            lemma_fmul_unit_range(acc@.z, attenuation@.z);
                        }
                        acc = acc.mul_v(attenuation);
                        current = scattered;
                    },
                    None => {
                        return Vec3::new(0, 0, 0);
                    },
                }
            },
            None => {
                let unit_direction: Vec3 = Vec3::unit_vector(&d);
                proof {
                    lemma_unit_bounds(d@);
                }
                let t: i128 = crate::fixed::mul_f(HALF, unit_direction.y() + ONE);
                proof {
                    lemma_fmul_cap(HALF as int, unit_direction@.y + ONE, HALF as int, 3 * (
                    ONE as int));
                    lemma_fmul_cap(ONE - t, ONE as int, 2 * (ONE as int), ONE as int);
                    lemma_fmul_cap(t as int, HALF as int, 2 * (ONE as int), ONE as int);
                    lemma_fmul_cap(t as int, SKY_G as int, 2 * (ONE as int), ONE as int);
                    lemma_fmul_cap(t as int, ONE as int, 2 * (ONE as int), ONE as int);
                }
                let white: Vec3 = Vec3::new(ONE, ONE, ONE);
                let sky: Vec3 = Vec3::new(HALF, SKY_G, ONE);
                let bg: Vec3 = white.scale(ONE - t).add_v(sky.scale(t));
                proof {
                    lemma_background_range(d@);
                    assert(bg@ == background(d@));
                    assert(vcap(bg@, 4 * (ONE as int)));
                    lemma_fmul_unit_range(bg@.x, acc@.x);
                    lemma_fmul_unit_range(bg@.y, acc@.y);
                    lemma_fmul_unit_range(bg@.z, acc@.z);
                    assert(acc@.x * bg@.x == bg@.x * acc@.x && acc@.y * bg@.y == bg@.y * acc@.y
                        && acc@.z * bg@.z == bg@.z * acc@.z) by (nonlinear_arith);
                    assert(color_ok(acc@) && vcap(d@, 0x1_0000_0000) && vdot_raw(d@, d@)
                        >= ONE as int && vmulv(acc@, bg@) == vmulv(acc@, background(d@)));
                    if acc@ == vm(ONE as int, ONE as int, ONE as int) {
                        lemma_tdiv_exact(bg@.x, ONE as int);
                        lemma_tdiv_exact(bg@.y, ONE as int);
                        lemma_tdiv_exact(bg@.z, ONE as int);
                        assert((ONE as int) * bg@.x == bg@.x * (ONE as int)) by (nonlinear_arith);
                        assert((ONE as int) * bg@.y == bg@.y * (ONE as int)) by (nonlinear_arith);
                        assert((ONE as int) * bg@.z == bg@.z * (ONE as int)) by (nonlinear_arith);
                        assert(vmulv(acc@, bg@) == bg@);
                    }
                }
                return acc.mul_v(bg);
            },
        }
        remaining = remaining - 1;
    }
    Vec3::new(0, 0, 0)
}

/// The first primary direction a pixel's seeded stream produces through a
/// zero-aperture camera: the viewport point for the jittered coordinates
/// of the first two draws, with no lens offset left.
pub open spec fn first_primary_dir(
    camera: Camera,
    i: int,
    j: int,
    width: int,
    height: int,
    s0: int,
) -> Vm {
    let u = tdiv(i * (ONE as int) + crate::prng::rng_unit(s0), width - 1);
    let v = tdiv(
        j * (ONE as int) + crate::prng::rng_unit(crate::prng::rng_next(s0)),
        height - 1,
    );
    crate::vec3::vsub(
        crate::vec3::vsub(
            vadd(
                vadd(camera.lower_left_corner@, vscale(u, camera.horizontal@)),
                vscale(v, camera.vertical@),
            ),
            camera.origin@,
        ),
        vm(0, 0, 0),
    )
}

/// One finished pixel: `samples_per_pixel` jittered rays through the
/// camera, traced to the configured depth, averaged, clamped and
/// quantized.
///
/// With one sample, a zero aperture and an empty scene, the pixel is
/// pinned to the quantized background of the seed's first primary
/// direction: rendering is a pure function of the configuration and the
/// seed, whatever order pixels are evaluated in.
pub fn render_pixel(
    camera: &Camera,
    world: &HittableList,
    i: usize,
    j: usize,
    width: usize,
    height: usize,
    samples_per_pixel: u32,
    max_depth: i32,
    rng: &mut SampleRng,
) -> (r: (u8, u8, u8))
    requires
        old(rng).wf(),
        camera_wf(*camera),
        scene_wf(world.objects@),
        2 <= width <= 0x1_0000,
        2 <= height <= 0x1_0000,
        i < width,
        j < height,
        1 <= samples_per_pixel <= 0x1_0000,
    ensures
        final(rng).wf(),
        exists|sum: Vm|
            {
                &&& #[trigger] vcap(sum, (samples_per_pixel as int) * 4 * (ONE as int))
                &&& r.0 as int == crate::color::quantize_channel(sum.x, samples_per_pixel as int)
                &&& r.1 as int == crate::color::quantize_channel(sum.y, samples_per_pixel as int)
                &&& r.2 as int == crate::color::quantize_channel(sum.z, samples_per_pixel as int)
            },
        ({
            let fp = first_primary_dir(
                *camera,
                i as int,
                j as int,
                width as int,
                height as int,
                old(rng).state as int,
            );
            samples_per_pixel == 1 && camera.lens_radius == 0 && world.objects@.len() == 0
                && max_depth >= 1 && vdot_raw(fp, fp) >= ONE as int ==> r == (
                (crate::color::quantize_channel(background(fp).x, 1) as u8),
                (crate::color::quantize_channel(background(fp).y, 1) as u8),
                (crate::color::quantize_channel(background(fp).z, 1) as u8),
            )
        }),
{
    let ghost fp = first_primary_dir(
        *camera,
        i as int,
        j as int,
        width as int,
        height as int,
        old(rng).state as int,
    );
    let ghost pinned = samples_per_pixel == 1 && camera.lens_radius == 0
        && world.objects@.len() == 0 && max_depth >= 1 && vdot_raw(fp, fp) >= ONE as int;
    let mut pixel_color: Vec3 = Vec3::new(0, 0, 0);
    let mut s: u32 = 0;
    while s < samples_per_pixel
        invariant
            rng.wf(),
            camera_wf(*camera),
            scene_wf(world.objects@),
            2 <= width <= 0x1_0000,
            2 <= height <= 0x1_0000,
            i < width,
            j < height,
            1 <= samples_per_pixel <= 0x1_0000,
            0 <= s <= samples_per_pixel,
            vcap(pixel_color@, (s as int) * 4 * (ONE as int)),
            fp == first_primary_dir(
                *camera,
                i as int,
                j as int,
                width as int,
                height as int,
                old(rng).state as int,
            ),
            pinned == (samples_per_pixel == 1 && camera.lens_radius == 0
                && world.objects@.len() == 0 && max_depth >= 1 && vdot_raw(fp, fp)
                >= ONE as int),
            pinned && s == 0 ==> rng.state == old(rng).state && pixel_color@ == vm(0, 0, 0),
            pinned && s == 1 ==> pixel_color@ == background(fp),
        decreases samples_per_pixel - s,
    {
        let u: i128 = jitter_coord(i, width, rng);
        let v: i128 = jitter_coord(j, height, rng);
        let ray: Ray = camera.get_ray(u, v, rng);
        proof {
            if pinned && s == 0 {
                assert(ray@.direction == fp);
            }
        }
        let col: Vec3 = ray_color(&ray, world, max_depth, rng);
        proof {
            assert(((s + 1) as int) * 4 * (ONE as int) == (s as int) * 4 * (ONE as int) + 4 * (
            ONE as int)) by (nonlinear_arith);
            assert((s as int) * 4 * (ONE as int) <= 0x1_0000 * 4 * 65536int) by (nonlinear_arith)
                requires
                    0 <= s <= 0x1_0000,
            ;
        }
        pixel_color = pixel_color.add_v(col);
        proof {
            if pinned && s == 0 {
                assert(col@ == background(fp));
                assert(pixel_color@ == vadd(vm(0, 0, 0), col@));
                assert(pixel_color@ == background(fp));
            }
        }
        s = s + 1;
    }
    proof {
        assert((samples_per_pixel as int) * 4 * (ONE as int) <= 0x1_0000 * 4 * 65536int)
            by (nonlinear_arith)
            requires
                1 <= samples_per_pixel <= 0x1_0000,
        ;
    }
    let px: (u8, u8, u8) = pixel_value(pixel_color, samples_per_pixel as i128);
    proof {
        assert(vcap(pixel_color@, (samples_per_pixel as int) * 4 * (ONE as int)) && px.0 as int
            == crate::color::quantize_channel(pixel_color@.x, samples_per_pixel as int) && px.1 as int
            == crate::color::quantize_channel(pixel_color@.y, samples_per_pixel as int) && px.2 as int
            == crate::color::quantize_channel(pixel_color@.z, samples_per_pixel as int));
    }
    px
}

/// The jittered normalised image-plane coordinate (k + draw) / (extent - 1),
/// a fixed-point value in [0, 2].
fn jitter_coord(k: usize, extent: usize, rng: &mut SampleRng) -> (r: i128)
    requires
        old(rng).wf(),
        2 <= extent <= 0x1_0000,
        k < extent,
    ensures
        final(rng).wf(),
        0 <= r <= 2 * ONE,
        r as int == tdiv(
            (k as int) * (ONE as int) + crate::prng::rng_unit(old(rng).state as int),
            (extent as int) - 1,
        ),
        final(rng).state as int == crate::prng::rng_next(old(rng).state as int),
{
    let xi: i128 = rng.next_unit();
    let num: i128 = (k as i128) * ONE + xi;
    let den: i128 = (extent as i128) - 1;
    proof {
        let deni = den as int;
        let numi = num as int;
        assert(0 <= numi <= deni * 65536 + 65535) by (nonlinear_arith)
            requires
                0 <= k as int <= deni,
                numi == (k as int) * 65536 + (xi as int),
                0 <= xi < 65536,
                1 <= deni,
        ;
        lemma_tdiv_mag(numi, deni);
        lemma_div_is_ordered(numi, deni * 65536 + 65535, deni);
        vstd::arithmetic::div_mod::lemma_fundamental_div_mod(deni * 65536 + 65535, deni);
        vstd::arithmetic::div_mod::lemma_mod_division_less_than_divisor(deni * 65536 + 65535, deni);
        assert((deni * 65536 + 65535) / deni <= 2 * 65536) by (nonlinear_arith)
            requires
                1 <= deni,
                deni * 65536 + 65535 == deni * ((deni * 65536 + 65535) / deni) + ((deni * 65536
                    + 65535) % deni),
                0 <= (deni * 65536 + 65535) % deni < deni,
        ;
    }
    div_t(num, den)
}

/// The stream state a pixel's generator starts from: the scanline seed
/// base folded with the pixel's coordinates, reduced as seeding reduces
/// it.
pub open spec fn pixel_stream_state(seed_base: u64, i: u64, j: u64) -> int {
    (((seed_base ^ ((j << 17) as u64) ^ i) as int) % ((RNG_MOD as int) - 1)) + 1
}

/// The pinned value of one scanline pixel in the deterministic
/// configuration: one sample, zero aperture, empty scene, positive depth
/// and a traceable first primary direction give the quantized background
/// of that pixel's seeded direction.
pub open spec fn scanline_pixel_pinned(
    camera: Camera,
    world_len: int,
    i: int,
    j: int,
    width: int,
    height: int,
    samples_per_pixel: u32,
    max_depth: i32,
    seed_base: u64,
    px: (u8, u8, u8),
) -> bool {
    let fp = first_primary_dir(
        camera,
        i,
        j,
        width,
        height,
        pixel_stream_state(seed_base, i as u64, j as u64),
    );
    samples_per_pixel == 1 && camera.lens_radius == 0 && world_len == 0 && max_depth >= 1
        && vdot_raw(fp, fp) >= ONE as int ==> px == (
        (crate::color::quantize_channel(background(fp).x, 1) as u8),
        (crate::color::quantize_channel(background(fp).y, 1) as u8),
        (crate::color::quantize_channel(background(fp).z, 1) as u8),
    )
}

/// One scanline of finished pixels, in left-to-right column order, each
/// pixel sampled from its own stream seeded from the given base.  In the
/// deterministic configuration every pixel of the row is pinned, so the
/// scanline is a pure function of the configuration and the seed base.
pub fn render_scanline(
    camera: &Camera,
    world: &HittableList,
    j: usize,
    width: usize,
    height: usize,
    samples_per_pixel: u32,
    max_depth: i32,
    seed_base: u64,
) -> (r: Vec<(u8, u8, u8)>)
    requires
        camera_wf(*camera),
        scene_wf(world.objects@),
        2 <= width <= 0x1_0000,
        2 <= height <= 0x1_0000,
        j < height,
        1 <= samples_per_pixel <= 0x1_0000,
    ensures
        r@.len() == width,
        forall|i: int|
            0 <= i < width ==> #[trigger] scanline_pixel_pinned(
                *camera,
                world.objects@.len() as int,
                i,
                j as int,
                width as int,
                height as int,
                samples_per_pixel,
                max_depth,
                seed_base,
                r@[i],
            ),
{
    let mut row: Vec<(u8, u8, u8)> = Vec::new();
    let mut i: usize = 0;
    while i < width
        invariant
            camera_wf(*camera),
            scene_wf(world.objects@),
            2 <= width <= 0x1_0000,
            2 <= height <= 0x1_0000,
            j < height,
            1 <= samples_per_pixel <= 0x1_0000,
            0 <= i <= width,
            row@.len() == i,
            forall|k: int|
                0 <= k < i ==> #[trigger] scanline_pixel_pinned(
                    *camera,
                    world.objects@.len() as int,
                    k,
                    j as int,
                    width as int,
                    height as int,
                    samples_per_pixel,
                    max_depth,
                    seed_base,
                    row@[k],
                ),
        decreases width - i,
    {
        let mut rng: SampleRng = SampleRng::seed_from(
            seed_base ^ ((j as u64) << 17) ^ (i as u64),
        );
        proof {
            assert(rng.state as int == pixel_stream_state(seed_base, i as u64, j as u64));
        }
        let px: (u8, u8, u8) = render_pixel(
            camera,
            world,
            i,
            j,
            width,
            height,
            samples_per_pixel,
            max_depth,
            &mut rng,
        );
        proof {
            assert(scanline_pixel_pinned(
                *camera,
                world.objects@.len() as int,
                i as int,
                j as int,
                width as int,
                height as int,
                samples_per_pixel,
                max_depth,
                seed_base,
                px,
            ));
        }
        row.push(px);
        i = i + 1;
    }
    row
}

} // verus!
