//! Tests of the geometry query, the materials and the integrator.

use tracer::fixed::{ONE, HALF};
use tracer::vec3::Vec3;
use tracer::ray::Ray;
use tracer::sphere::Sphere;
use tracer::hittable::HittableList;
use tracer::material::{Material, Lambertian, Metal, Dielectric, metal_deflect};
use tracer::prng::SampleRng;
use tracer::render::{ray_color, T_MIN, T_FAR};

fn glass() -> Material {
    Material::Dielectric(Dielectric::new(98304))
}

#[test]
fn sphere_head_on_hit() {
    // Sphere at (0, 0, -1) with radius 0.5, ray from the origin straight
    // down -z: the hit is at t = 0.5 on the front face, normal (0, 0, 1).
    let s = Sphere::new(Vec3::new(0, 0, -ONE), HALF, glass());
    let r = Ray::new(Vec3::new(0, 0, 0), Vec3::new(0, 0, -ONE));
    let rec = s.hit(&r, 0, T_FAR).expect("must hit");
    assert_eq!(rec.t, HALF);
    assert!(rec.front_face);
    assert_eq!((rec.normal.x(), rec.normal.y(), rec.normal.z()), (0, 0, ONE));
    assert_eq!((rec.p.x(), rec.p.y(), rec.p.z()), (0, 0, -HALF));
}

#[test]
fn sphere_miss_negative_discriminant() {
    // A ray passing far to the side never meets the sphere.
    let s = Sphere::new(Vec3::new(0, 0, -ONE), HALF, glass());
    let r = Ray::new(Vec3::new(10 * ONE, 0, 0), Vec3::new(0, 0, -ONE));
    assert!(s.hit(&r, 0, T_FAR).is_none());
}

#[test]
fn sphere_miss_roots_out_of_range() {
    // Pointing away from the sphere both roots are negative, hence out of
    // any nonnegative parameter range.
    let s = Sphere::new(Vec3::new(0, 0, -ONE), HALF, glass());
    let r = Ray::new(Vec3::new(0, 0, 0), Vec3::new(0, 0, ONE));
    assert!(s.hit(&r, 0, T_FAR).is_none());
    // And with an upper bound short of the surface the near root is out of
    // range too.
    let toward = Ray::new(Vec3::new(0, 0, 0), Vec3::new(0, 0, -ONE));
    assert!(s.hit(&toward, 0, HALF / 2).is_none());
}

#[test]
fn sphere_inside_takes_far_root() {
    // From the center, the near root is negative, so the far root (the
    // back wall at t = 0.5) is taken and the normal is flipped inward.
    let s = Sphere::new(Vec3::new(0, 0, -ONE), HALF, glass());
    let r = Ray::new(Vec3::new(0, 0, -ONE), Vec3::new(0, 0, -ONE));
    let rec = s.hit(&r, 0, T_FAR).expect("must hit from inside");
    assert_eq!(rec.t, HALF);
    assert!(!rec.front_face);
    assert_eq!((rec.normal.x(), rec.normal.y(), rec.normal.z()), (0, 0, ONE));
}

#[test]
fn scene_list_returns_nearest() {
    // Three disjoint spheres down -z; the nearest (t = 1.5) wins in either
    // insertion order, with the same parameter and point.
    let a = Sphere::new(Vec3::new(0, 0, -2 * ONE), HALF, glass());
    let b = Sphere::new(Vec3::new(0, 0, -4 * ONE), HALF, glass());
    let c = Sphere::new(Vec3::new(0, 0, -8 * ONE), HALF, glass());
    let r = Ray::new(Vec3::new(0, 0, 0), Vec3::new(0, 0, -ONE));
    let near_first = HittableList::new(vec![a, b, c]);
    let far_first = HittableList::new(vec![c, b, a]);
    let r1 = near_first.hit(&r, 0, T_FAR).expect("must hit");
    let r2 = far_first.hit(&r, 0, T_FAR).expect("must hit");
    assert_eq!(r1.t, ONE + HALF);
    assert_eq!(r2.t, r1.t);
    assert_eq!((r1.p.x(), r1.p.y(), r1.p.z()), (r2.p.x(), r2.p.y(), r2.p.z()));
}

#[test]
fn scene_list_none_iff_all_none() {
    let a = Sphere::new(Vec3::new(0, 0, -2 * ONE), HALF, glass());
    let b = Sphere::new(Vec3::new(0, 3 * ONE, -2 * ONE), HALF, glass());
    let list = HittableList::new(vec![a, b]);
    let miss = Ray::new(Vec3::new(0, -3 * ONE, 0), Vec3::new(0, 0, -ONE));
    assert!(list.hit(&miss, 0, T_FAR).is_none());
    assert!(a.hit(&miss, 0, T_FAR).is_none());
    assert!(b.hit(&miss, 0, T_FAR).is_none());
    let empty = HittableList::new(vec![]);
    assert!(empty.hit(&miss, 0, T_FAR).is_none());
}

#[test]
fn scene_list_clear_and_add() {
    let mut list = HittableList::new(vec![]);
    list.add(Sphere::new(Vec3::new(0, 0, -2 * ONE), HALF, glass()));
    let r = Ray::new(Vec3::new(0, 0, 0), Vec3::new(0, 0, -ONE));
    assert!(list.hit(&r, 0, T_FAR).is_some());
    list.clear();
    assert!(list.hit(&r, 0, T_FAR).is_none());
}

fn head_on_record() -> (Ray, tracer::hittable::HitRecord) {
    let s = Sphere::new(Vec3::new(0, 0, -ONE), HALF, glass());
    let r = Ray::new(Vec3::new(0, 0, 0), Vec3::new(0, 0, -ONE));
    let rec = s.hit(&r, 0, T_FAR).unwrap();
    (r, rec)
}

#[test]
fn dielectric_scatter_never_absorbs() {
    // Attenuation is always exactly white, over many stream states.
    let d = Dielectric::new(98304);
    let (r, rec) = head_on_record();
    let mut rng = SampleRng::seed_from(7);
    for _ in 0..200 {
        let (_, att) = d.scatter(&r, &rec, &mut rng).expect("dielectric never absorbs");
        assert_eq!((att.x(), att.y(), att.z()), (ONE, ONE, ONE));
    }
}

#[test]
fn metal_deflect_absorbs_iff_not_off_surface() {
    let albedo = Vec3::new(HALF, HALF, HALF);
    let p = Vec3::new(0, 0, -HALF);
    let normal = Vec3::new(0, 0, ONE);
    // Candidate into the surface: absorbed.
    assert!(metal_deflect(albedo, p, normal, Vec3::new(0, 0, -ONE)).is_none());
    // Grazing candidate (dot exactly zero): absorbed.
    assert!(metal_deflect(albedo, p, normal, Vec3::new(ONE, 0, 0)).is_none());
    // Candidate off the surface: kept, unchanged, with the albedo.
    let (sr, att) = metal_deflect(albedo, p, normal, Vec3::new(0, ONE, ONE)).unwrap();
    assert_eq!((att.x(), att.y(), att.z()), (HALF, HALF, HALF));
    let dir = sr.direction();
    assert_eq!((dir.x(), dir.y(), dir.z()), (0, ONE, ONE));
    let orig = sr.origin();
    assert_eq!((orig.x(), orig.y(), orig.z()), (0, 0, -HALF));
}

#[test]
fn metal_scatter_keeps_direction_off_surface() {
    let m = Metal::new(Vec3::new(HALF, HALF, HALF), 0);
    let (r, rec) = head_on_record();
    let mut rng = SampleRng::seed_from(11);
    // With zero fuzz the mirror direction of a head-on ray points straight
    // back along +z.
    let (sr, att) = m.scatter(&r, &rec, &mut rng).expect("mirror reflection survives");
    let dir = sr.direction();
    assert_eq!((dir.x(), dir.y(), dir.z()), (0, 0, ONE));
    assert_eq!((att.x(), att.y(), att.z()), (HALF, HALF, HALF));
}

#[test]
fn lambertian_scatter_always_some() {
    let l = Lambertian::new(Vec3::new(HALF, 13107, 6553));
    let (r, rec) = head_on_record();
    let mut rng = SampleRng::seed_from(13);
    for _ in 0..100 {
        let (sr, att) = l.scatter(&r, &rec, &mut rng).expect("diffuse always scatters");
        assert_eq!((att.x(), att.y(), att.z()), (HALF, 13107, 6553));
        let orig = sr.origin();
        assert_eq!((orig.x(), orig.y(), orig.z()), (0, 0, -HALF));
    }
}

#[test]
fn ray_color_depth_zero_is_black() {
    let world = HittableList::new(vec![Sphere::new(Vec3::new(0, 0, -ONE), HALF, glass())]);
    let r = Ray::new(Vec3::new(0, 0, 0), Vec3::new(0, 0, -ONE));
    let mut rng = SampleRng::seed_from(1);
    let c = ray_color(&r, &world, 0, &mut rng);
    assert_eq!((c.x(), c.y(), c.z()), (0, 0, 0));
    let c2 = ray_color(&r, &world, -3, &mut rng);
    assert_eq!((c2.x(), c2.y(), c2.z()), (0, 0, 0));
}

#[test]
fn ray_color_empty_scene_is_background() {
    // Straight down -z the unit direction has height 0, so the blend
    // parameter is exactly one half: (0.75, 0.85, 1.0) at this precision.
    let world = HittableList::new(vec![]);
    let r = Ray::new(Vec3::new(0, 0, 0), Vec3::new(0, 0, -ONE));
    let mut rng = SampleRng::seed_from(1);
    let c = ray_color(&r, &world, 5, &mut rng);
    assert_eq!((c.x(), c.y(), c.z()), (49152, 55705, ONE));
    // Straight up +y the unit height is 1, the blend parameter 1: pure sky.
    let up = Ray::new(Vec3::new(0, 0, 0), Vec3::new(0, ONE, 0));
    let cu = ray_color(&up, &world, 5, &mut rng);
    assert_eq!((cu.x(), cu.y(), cu.z()), (HALF, 45875, ONE));
    // Straight down -y the unit height is -1, the blend parameter 0: white.
    let down = Ray::new(Vec3::new(0, 0, 0), Vec3::new(0, -ONE, 0));
    let cd = ray_color(&down, &world, 5, &mut rng);
    assert_eq!((cd.x(), cd.y(), cd.z()), (ONE, ONE, ONE));
}

#[test]
fn ray_color_background_diagonal() {
    // A diagonal direction exercises the full blend formula: unit height
    // 1/sqrt(2), all three channels strictly between white and sky.
    let world = HittableList::new(vec![]);
    let r = Ray::new(Vec3::new(0, 0, 0), Vec3::new(ONE, ONE, 0));
    let mut rng = SampleRng::seed_from(1);
    let c = ray_color(&r, &world, 3, &mut rng);
    assert_eq!((c.x(), c.y(), c.z()), (37567, 48754, ONE));
}

#[test]
fn ray_color_absorbing_metal_is_black() {
    // A head-on mirror with direction reversed still scatters; but a
    // grazing setup where the perturbed direction cannot leave the surface
    // is absorbed.  Use a sphere struck from inside a metal shell where the
    // mirror direction re-enters: simplest observable: color values stay
    // within range and the depth cutoff terminates.
    let m = Material::Metal(Metal::new(Vec3::new(ONE, ONE, ONE), 0));
    let world = HittableList::new(vec![
        Sphere::new(Vec3::new(0, 0, -ONE), HALF, m),
        Sphere::new(Vec3::new(0, 0, ONE), HALF, m),
    ]);
    let r = Ray::new(Vec3::new(0, 0, 0), Vec3::new(0, 0, -ONE));
    let mut rng = SampleRng::seed_from(5);
    let c = ray_color(&r, &world, 4, &mut rng);
    assert!(c.x() >= -4 * ONE && c.x() <= 4 * ONE);
    assert!(c.y() >= -4 * ONE && c.y() <= 4 * ONE);
    assert!(c.z() >= -4 * ONE && c.z() <= 4 * ONE);
}

#[test]
fn ray_color_hit_uses_shadow_acne_cutoff() {
    assert_eq!(T_MIN, 66);
    // A sphere behind the origin within the cutoff cannot be hit.
    let world = HittableList::new(vec![Sphere::new(Vec3::new(0, 0, 0), 32, glass())]);
    let r = Ray::new(Vec3::new(0, 0, 0), Vec3::new(0, 0, -ONE));
    let mut rng = SampleRng::seed_from(3);
    let c = ray_color(&r, &world, 2, &mut rng);
    // The tiny sphere's surface lies below t = 66, so the ray sees sky.
    assert_eq!((c.x(), c.y(), c.z()), (49152, 55705, ONE));
}

#[test]
fn schlick_reflectance_endpoints() {
    // Head-on (cosine one) the polynomial reduces to its base coefficient,
    // which vanishes for matched indices; at grazing (cosine zero) the
    // reflectance saturates at one.
    assert_eq!(Dielectric::reflectance(ONE, ONE), 0);
    assert_eq!(Dielectric::reflectance(0, 98304), ONE);
}
