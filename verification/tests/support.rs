//! Tests of the fixed-point kernel, vectors, sampling, camera, pixel
//! finishing, the scene generator and the render driver.

use tracer::fixed::{ONE, HALF, div_t, mul_f, div_f, sqrt_f};
use tracer::vec3::Vec3;
use tracer::camera::Camera;
use tracer::color::{clamp, pixel_value};
use tracer::prng::SampleRng;
use tracer::scene::random_scene;
use tracer::render::{render_pixel, render_scanline};
use tracer::material::Material;

#[test]
fn fixed_point_arithmetic_is_exact() {
    assert_eq!(mul_f(3 * ONE, 2 * ONE), 6 * ONE);
    assert_eq!(mul_f(HALF, HALF), ONE / 4);
    assert_eq!(div_f(ONE, 2 * ONE), HALF);
    assert_eq!(div_f(3 * ONE, 2 * ONE), ONE + HALF);
    // Division truncates toward zero, as the scaling operations assume.
    assert_eq!(div_t(-7, 2), -3);
    assert_eq!(div_t(7, -2), -3);
    assert_eq!(div_t(-7, -2), 3);
}

#[test]
fn fixed_point_sqrt_values() {
    assert_eq!(sqrt_f(0), 0);
    assert_eq!(sqrt_f(ONE), ONE);
    assert_eq!(sqrt_f(4 * ONE), 2 * ONE);
    assert_eq!(sqrt_f(ONE / 4), HALF);
    // 2 is not a perfect square: the root is floor(sqrt(2) * 65536).
    assert_eq!(sqrt_f(2 * ONE), 92681);
}

#[test]
fn vector_operations() {
    let a = Vec3::new(ONE, 2 * ONE, 3 * ONE);
    let b = Vec3::new(4 * ONE, -5 * ONE, 6 * ONE);
    let s = a.add_v(b);
    assert_eq!((s.x(), s.y(), s.z()), (5 * ONE, -3 * ONE, 9 * ONE));
    let d = a.sub_v(b);
    assert_eq!((d.x(), d.y(), d.z()), (-3 * ONE, 7 * ONE, -3 * ONE));
    let m = a.mul_v(b);
    assert_eq!((m.x(), m.y(), m.z()), (4 * ONE, -10 * ONE, 18 * ONE));
    assert_eq!(Vec3::dot(&a, &b), 4 * ONE - 10 * ONE + 18 * ONE);
    let c = Vec3::cross(&Vec3::new(ONE, 0, 0), &Vec3::new(0, ONE, 0));
    assert_eq!((c.x(), c.y(), c.z()), (0, 0, ONE));
    let n = a.neg_v();
    assert_eq!((n.x(), n.y(), n.z()), (-ONE, -2 * ONE, -3 * ONE));
    assert_eq!(Vec3::new(0, 3 * ONE, 4 * ONE).length(), 5 * ONE);
    assert!(Vec3::new(0, 0, 0).near_zero());
    assert!(!Vec3::new(1, 0, 0).near_zero());
}

#[test]
fn reflect_negates_normal_component() {
    // About the axis normal (0, 0, 1) the reflection flips z and the dot
    // product is exactly negated.
    let v = Vec3::new(3 * ONE, -5 * ONE, 7 * ONE);
    let n = Vec3::new(0, 0, ONE);
    let r = Vec3::reflect(&v, &n);
    assert_eq!((r.x(), r.y(), r.z()), (3 * ONE, -5 * ONE, -7 * ONE));
    assert_eq!(Vec3::dot(&r, &n), -Vec3::dot(&v, &n));
}

#[test]
fn refract_straight_through() {
    // Head-on transmission is undeviated for any index ratio of one.
    let uv = Vec3::new(0, 0, -ONE);
    let n = Vec3::new(0, 0, ONE);
    let r = Vec3::refract(&uv, &n, ONE);
    assert_eq!((r.x(), r.y(), r.z()), (0, 0, -ONE));
}

#[test]
fn unit_vector_normalises() {
    let v = Vec3::new(0, 3 * ONE, 4 * ONE);
    let u = Vec3::unit_vector(&v);
    // 3/5 and 4/5 at this scale: 39321.6 and 52428.8 truncate down.
    assert_eq!((u.x(), u.y(), u.z()), (0, 39321, 52428));
}

#[test]
fn sample_stream_is_seed_deterministic() {
    let mut r1 = SampleRng::seed_from(123456789);
    let mut r2 = SampleRng::seed_from(123456789);
    for _ in 0..1000 {
        assert_eq!(r1.next_unit(), r2.next_unit());
    }
    let mut r3 = SampleRng::seed_from(1);
    let mut r4 = SampleRng::seed_from(2);
    let mut all_equal = true;
    for _ in 0..32 {
        if r3.next_unit() != r4.next_unit() {
            all_equal = false;
        }
    }
    assert!(!all_equal);
}

#[test]
fn sample_stream_ranges() {
    let mut rng = SampleRng::seed_from(99);
    for _ in 0..1000 {
        let u = rng.next_unit();
        assert!((0..ONE).contains(&u));
        let v = rng.next_range(-ONE, ONE);
        assert!((-ONE..ONE).contains(&v));
    }
}

#[test]
fn samplers_stay_in_bounds() {
    let mut rng = SampleRng::seed_from(4242);
    for _ in 0..200 {
        let p = Vec3::random_in_unit_sphere(&mut rng);
        assert!(p.length_squared() < ONE);
        let d = Vec3::random_in_unit_disk(&mut rng);
        assert!(d.length_squared() < ONE);
        assert_eq!(d.z(), 0);
        let n = Vec3::new(0, 0, ONE);
        let h = Vec3::random_in_hemisphere(&mut rng, &n);
        assert!(Vec3::dot(&h, &n) >= 0);
        let u = Vec3::random_unit_vector(&mut rng);
        // Unit up to truncation: squared length within an ulp band of one.
        let q = u.length_squared();
        assert!(q > ONE - 2048 && q < ONE + 2048);
    }
}

#[test]
fn clamp_and_quantize() {
    assert_eq!(clamp(-5, 0, 10), 0);
    assert_eq!(clamp(15, 0, 10), 10);
    assert_eq!(clamp(7, 0, 10), 7);
    // One sample: full white clamps to 0.999 and lands on 255; half
    // intensity is exactly 128.
    let px = pixel_value(Vec3::new(ONE, 0, HALF), 1);
    assert_eq!(px, (255, 0, 128));
    // Averaging: four samples summing to two whites gives one half.
    let avg = pixel_value(Vec3::new(2 * ONE, 0, 0), 4);
    assert_eq!(avg, (128, 0, 0));
    // Negative channels clamp to zero.
    let neg = pixel_value(Vec3::new(-ONE, 0, 0), 1);
    assert_eq!(neg.0, 0);
}

fn test_camera(aperture: i128) -> Camera {
    Camera::new(
        &Vec3::new(13 * ONE, 2 * ONE, 3 * ONE),
        &Vec3::new(0, 0, 0),
        &Vec3::new(0, ONE, 0),
        11557,  // tan(10 degrees) at this scale
        ONE + 50972,  // 16/9
        aperture,
        10 * ONE,
    )
}

#[test]
fn camera_basis_and_lens() {
    let c = test_camera(6554);
    assert_eq!(c.lens_radius, 3277);
    // The view basis comes out unit length up to truncation.
    let wq = c.w.length_squared();
    let uq = c.u.length_squared();
    assert!(wq > ONE - 2048 && wq < ONE + 2048);
    assert!(uq > ONE - 2048 && uq < ONE + 2048);
    // v is orthogonal to w and u by construction.
    assert!(Vec3::dot(&c.v, &c.w).abs() < 512);
    assert!(Vec3::dot(&c.v, &c.u).abs() < 512);
}

#[test]
fn camera_zero_aperture_ray_is_deterministic() {
    let c = test_camera(0);
    let mut r1 = SampleRng::seed_from(8);
    let mut r2 = SampleRng::seed_from(1000);
    // Without a lens radius the jitter vanishes: rays agree across streams.
    let a = c.get_ray(HALF, HALF, &mut r1);
    let b = c.get_ray(HALF, HALF, &mut r2);
    assert_eq!((a.origin().x(), a.origin().y(), a.origin().z()),
               (b.origin().x(), b.origin().y(), b.origin().z()));
    assert_eq!((a.direction().x(), a.direction().y(), a.direction().z()),
               (b.direction().x(), b.direction().y(), b.direction().z()));
    assert_eq!(a.origin().x(), 13 * ONE);
}

#[test]
fn random_scene_shape() {
    let mut rng = SampleRng::seed_from(20);
    let w = random_scene(&mut rng);
    let n = w.objects.len();
    assert!(n >= 4);
    let ground = &w.objects[0];
    assert_eq!((ground.center.x(), ground.center.y(), ground.center.z()), (0, -1000 * ONE, 0));
    assert_eq!(ground.radius, 1000 * ONE);
    assert!(matches!(w.objects[n - 3].material, Material::Dielectric(_)));
    assert!(matches!(w.objects[n - 2].material, Material::Lambertian(_)));
    assert!(matches!(w.objects[n - 1].material, Material::Metal(_)));
    assert_eq!(w.objects[n - 1].center.x(), 4 * ONE);
    assert_eq!(w.objects[n - 2].center.x(), -4 * ONE);
    assert_eq!(w.objects[n - 3].center.x(), 0);
}

#[test]
fn render_is_reproducible_for_equal_seeds() {
    // An explicitly seeded stream assignment makes the whole render a
    // function of the configuration: two runs agree pixel for pixel.
    let c = test_camera(6554);
    let world = tracer::hittable::HittableList::new(vec![
        tracer::sphere::Sphere::new(Vec3::new(0, 0, -ONE), HALF,
            Material::Lambertian(tracer::material::Lambertian::new(Vec3::new(HALF, HALF, HALF)))),
    ]);
    let row1 = render_scanline(&c, &world, 3, 8, 8, 4, 8, 77);
    let row2 = render_scanline(&c, &world, 3, 8, 8, 4, 8, 77);
    assert_eq!(row1.len(), 8);
    assert_eq!(row1, row2);
    let row3 = render_scanline(&c, &world, 3, 8, 8, 4, 8, 78);
    assert_eq!(row3.len(), 8);
}

#[test]
fn single_sample_render_is_deterministic() {
    // One sample per pixel with a zero aperture: repeated renders agree,
    // independent of any evaluation order across pixels.
    let c = test_camera(0);
    let world = tracer::hittable::HittableList::new(vec![]);
    let mut rng1 = SampleRng::seed_from(5);
    let mut rng2 = SampleRng::seed_from(5);
    let p1 = render_pixel(&c, &world, 2, 3, 8, 8, 1, 4, &mut rng1);
    let p2 = render_pixel(&c, &world, 2, 3, 8, 8, 1, 4, &mut rng2);
    assert_eq!(p1, p2);
}

#[test]
fn metal_fuzz_is_clamped() {
    let m = tracer::material::Metal::new(Vec3::new(HALF, HALF, HALF), 3 * ONE);
    assert_eq!(m.fuzziness, ONE);
    let m2 = tracer::material::Metal::new(Vec3::new(HALF, HALF, HALF), 100);
    assert_eq!(m2.fuzziness, 100);
}

#[test]
fn random_scene_middle_spheres() {
    // Every sphere between the ground and the three fixed ones is a small
    // grid sphere: radius 0.2, height 0.2, and clear of the thinning
    // point (4, 0.2, 0) by more than 0.9.
    let mut rng = SampleRng::seed_from(31);
    let w = random_scene(&mut rng);
    let n = w.objects.len();
    assert!((4..=488).contains(&n));
    let reference = Vec3::new(4 * ONE, 13107, 0);
    for k in 1..n - 3 {
        let sp = &w.objects[k];
        assert_eq!(sp.radius, 13107);
        assert_eq!(sp.center.y(), 13107);
        assert!(sp.center.sub_v(reference).length() > 58982);
    }
}

#[test]
fn lens_rays_converge_at_focus_plane() {
    // Whatever the lens jitter draws, origin plus direction is the same
    // viewport point for a given (s, t).
    let c = test_camera(6554);
    let mut r1 = SampleRng::seed_from(3);
    let mut r2 = SampleRng::seed_from(1234567);
    let a = c.get_ray(HALF, HALF, &mut r1);
    let b = c.get_ray(HALF, HALF, &mut r2);
    let pa = a.origin().add_v(a.direction());
    let pb = b.origin().add_v(b.direction());
    assert_eq!((pa.x(), pa.y(), pa.z()), (pb.x(), pb.y(), pb.z()));
    // And the jittered origins themselves differ across the two streams.
    assert_ne!(
        (a.origin().x(), a.origin().y(), a.origin().z()),
        (b.origin().x(), b.origin().y(), b.origin().z())
    );
}

#[test]
fn scanline_matches_per_pixel_seeding() {
    // A scanline pixel equals a direct render with the same derived seed.
    let c = test_camera(0);
    let world = tracer::hittable::HittableList::new(vec![]);
    let j: usize = 2;
    let base: u64 = 99;
    let row = render_scanline(&c, &world, j, 6, 6, 1, 4, base);
    for i in 0..6usize {
        let mut rng = SampleRng::seed_from(base ^ ((j as u64) << 17) ^ (i as u64));
        let px = render_pixel(&c, &world, i, j, 6, 6, 1, 4, &mut rng);
        assert_eq!(row[i], px);
    }
}

#[test]
fn vector_draws_are_seed_deterministic() {
    let mut r1 = SampleRng::seed_from(555);
    let mut r2 = SampleRng::seed_from(555);
    let a = Vec3::random(&mut r1, -ONE, ONE);
    let b = Vec3::random(&mut r2, -ONE, ONE);
    assert_eq!((a.x(), a.y(), a.z()), (b.x(), b.y(), b.z()));
    assert_eq!(r1.state, r2.state);
}
