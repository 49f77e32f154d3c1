//! The procedural demonstration scene: a ground sphere, a grid of small
//! randomly-materialed spheres thinned near a reference point, and three
//! fixed large spheres.

use vstd::prelude::*;
use crate::fixed::{ONE, HALF, fmul, lemma_fmul_unit_range};
use crate::vec3::{Vec3, Vm, vm, vcap, vsub, vlen, vmulv};
use crate::sphere::{Sphere, sphere_wf};
use crate::hittable::{HittableList, scene_wf};
use crate::material::{Material, Lambertian, Metal, Dielectric};
use crate::prng::{SampleRng, rng_next, rng_unit};

verus! {

/// 0.9 at the fixed-point scale: the grid jitter span and the thinning
/// distance.
pub const NINE_TENTHS: i128 = 58982;

/// 0.2 at the fixed-point scale: the small spheres' height and radius.
pub const ONE_FIFTH: i128 = 13107;

/// 1.5 at the fixed-point scale: the glass index of refraction.
pub const GLASS_IR: i128 = 98304;

/// The ground sphere's material.
pub open spec fn ground_material() -> Material {
    Material::Lambertian(Lambertian { albedo: Vec3 { ex: HALF, ey: HALF, ez: HALF } })
}

/// Build the demonstration scene.  The shape is deterministic: a ground
/// sphere first and three fixed large spheres (glass, diffuse, metal)
/// last; in between, up to 484 small spheres whose centers, materials and
/// colors come from the sample stream, each skipped when it lands within
/// 0.9 of the reference point (4, 0.2, 0).
#[verifier::rlimit(100)]
pub fn random_scene(rng: &mut SampleRng) -> (w: HittableList)
    requires
        old(rng).wf(),
    ensures
        final(rng).wf(),
        scene_wf(w.objects@),
        4 <= w.objects@.len() <= 488,
        forall|k: int|
            1 <= k < w.objects@.len() - 3 ==> {
                let sp = #[trigger] w.objects@[k];
                &&& sp.radius == ONE_FIFTH
                &&& sp.center@.y == ONE_FIFTH as int
                &&& vlen(vsub(sp.center@, thinning_point())) > NINE_TENTHS as int
            },
        w.objects@[0].center@ == vm(0, -1000 * (ONE as int), 0),
        w.objects@[0].radius == 1000 * ONE,
        w.objects@[0].material == ground_material(),
        ({
            let n = w.objects@.len() as int;
            &&& w.objects@[n - 3].center@ == vm(0, ONE as int, 0)
            &&& w.objects@[n - 3].radius == ONE
            &&& w.objects@[n - 3].material == Material::Dielectric(Dielectric { ir: GLASS_IR })
            &&& w.objects@[n - 2].center@ == vm(-4 * (ONE as int), ONE as int, 0)
            &&& w.objects@[n - 2].radius == ONE
            &&& w.objects@[n - 2].material == Material::Lambertian(
                Lambertian { albedo: Vec3 { ex: 26214, ey: 13107, ez: 6553 } },
            )
            &&& w.objects@[n - 1].center@ == vm(4 * (ONE as int), ONE as int, 0)
            &&& w.objects@[n - 1].radius == ONE
            &&& w.objects@[n - 1].material == Material::Metal(
                Metal { albedo: Vec3 { ex: 45875, ey: 39321, ez: 32768 }, fuzziness: 0 },
            )
        }),
{
    let material_ground: Lambertian = Lambertian::new(Vec3::new(HALF, HALF, HALF));
    let ground: Sphere = Sphere::new(
        Vec3::new(0, -1000 * ONE, 0),
        1000 * ONE,
        Material::Lambertian(material_ground),
    );
    let mut world: HittableList = HittableList::new(vec![ground]);
    let reference: Vec3 = Vec3::new(4 * ONE, ONE_FIFTH, 0);
    let mut a: i128 = -11;
    while a < 11
        invariant
            rng.wf(),
            scene_wf(world.objects@),
            reference@ == vm(4 * (ONE as int), ONE_FIFTH as int, 0),
            -11 <= a <= 11,
            1 <= world.objects@.len() <= 1 + 22 * (a + 11),
            world.objects@[0] == ground,
            forall|k: int|
                1 <= k < world.objects@.len() ==> {
                    let sp = #[trigger] world.objects@[k];
                    &&& sp.radius == ONE_FIFTH
                    &&& sp.center@.y == ONE_FIFTH as int
                    &&& vlen(vsub(sp.center@, thinning_point())) > NINE_TENTHS as int
                },
        decreases 11 - a,
    {
        let mut b: i128 = -11;
        while b < 11
            invariant
                rng.wf(),
                scene_wf(world.objects@),
                reference@ == vm(4 * (ONE as int), ONE_FIFTH as int, 0),
                -11 <= a < 11,
                -11 <= b <= 11,
                1 <= world.objects@.len() <= 1 + 22 * (a + 11) + (b + 11),
                world.objects@[0] == ground,
                forall|k: int|
                    1 <= k < world.objects@.len() ==> {
                        let sp = #[trigger] world.objects@[k];
                        &&& sp.radius == ONE_FIFTH
                        &&& sp.center@.y == ONE_FIFTH as int
                        &&& vlen(vsub(sp.center@, thinning_point())) > NINE_TENTHS as int
                    },
            decreases 11 - b,
        {
            if let Some(sph) = grid_sphere(rng, a, b, &reference) {
                world.add(sph);
            }
            b = b + 1;
        }
        a = a + 1;
    }
    world.add(Sphere::new(Vec3::new(0, ONE, 0), ONE, Material::Dielectric(Dielectric::new(GLASS_IR))));
    world.add(Sphere::new(
        Vec3::new(-4 * ONE, ONE, 0),
        ONE,
        Material::Lambertian(Lambertian::new(Vec3::new(26214, 13107, 6553))),
    ));
    world.add(Sphere::new(
        Vec3::new(4 * ONE, ONE, 0),
        ONE,
        Material::Metal(Metal::new(Vec3::new(45875, 39321, 32768), 0)),
    ));
    world
}

/// The point the grid thins around: (4, 0.2, 0).
pub open spec fn thinning_point() -> Vm {
    vm(4 * (ONE as int), ONE_FIFTH as int, 0)
}

/// The jittered center of grid cell (a, b) for a stream in state `s0`:
/// the material-class draw comes first, then one jitter draw per
/// horizontal axis.
pub open spec fn cell_center(a: int, b: int, s0: int) -> Vm {
    vm(
        a * (ONE as int) + fmul(NINE_TENTHS as int, rng_unit(rng_next(s0))),
        ONE_FIFTH as int,
        b * (ONE as int) + fmul(NINE_TENTHS as int, rng_unit(rng_next(rng_next(s0)))),
    )
}

/// One candidate small sphere of the grid cell (a, b): a jittered center,
/// a material drawn by the class thresholds 0.8 and 0.95, or nothing
/// exactly when the center falls within 0.9 of the thinning point.
fn grid_sphere(rng: &mut SampleRng, a: i128, b: i128, reference: &Vec3) -> (r: Option<Sphere>)
    requires
        old(rng).wf(),
        -11 <= a < 11,
        -11 <= b < 11,
        reference@ == thinning_point(),
    ensures
        final(rng).wf(),
        ({
            let cm = rng_unit(old(rng).state as int);
            let center = cell_center(a as int, b as int, old(rng).state as int);
            &&& (r is None <==> vlen(vsub(center, thinning_point())) <= NINE_TENTHS as int)
            &&& (r matches Some(sp) ==> {
                &&& sphere_wf(sp)
                &&& sp.center@ == center
                &&& sp.radius == ONE_FIFTH
                &&& vlen(vsub(sp.center@, thinning_point())) > NINE_TENTHS as int
                &&& (cm < 52429 ==> (sp.material matches Material::Lambertian(l) && exists|
                    c1: Vm,
                    c2: Vm,
                |
                    {
                        &&& 0 <= c1.x < ONE && 0 <= c1.y < ONE && 0 <= c1.z < ONE
                        &&& 0 <= c2.x < ONE && 0 <= c2.y < ONE && 0 <= c2.z < ONE
                        &&& l.albedo@ == #[trigger] vmulv(c1, c2)
                    }))
                &&& (52429 <= cm < 62259 ==> (sp.material matches Material::Metal(mt) && {
                    &&& HALF as int <= mt.albedo@.x < ONE
                    &&& HALF as int <= mt.albedo@.y < ONE
                    &&& HALF as int <= mt.albedo@.z < ONE
                    &&& 0 <= mt.fuzziness < HALF
                }))
                &&& (cm >= 62259 ==> sp.material == Material::Dielectric(
                    Dielectric { ir: GLASS_IR },
                ))
            })
        }),
{
    let choose_mat: i128 = rng.next_unit();
    let jx: i128 = rng.next_unit();
    let jz: i128 = rng.next_unit();
    proof {
        lemma_fmul_unit_range(NINE_TENTHS as int, jx as int);
        lemma_fmul_unit_range(NINE_TENTHS as int, jz as int);
    }
    let center: Vec3 = Vec3::new(
        a * ONE + crate::fixed::mul_f(NINE_TENTHS, jx),
        ONE_FIFTH,
        b * ONE + crate::fixed::mul_f(NINE_TENTHS, jz),
    );
    proof {
        assert(vcap(center@, 0x10_0000));
    }
    let away: i128 = center.sub_v(*reference).length();
    if away <= NINE_TENTHS {
        return None;
    }
    if choose_mat < 52429 {
        // below 0.8: diffuse, albedo a product of two random colors
        let c1: Vec3 = Vec3::random(rng, 0, ONE);
        let c2: Vec3 = Vec3::random(rng, 0, ONE);
        proof {
            lemma_fmul_unit_range(c1@.x, c2@.x);
            lemma_fmul_unit_range(c1@.y, c2@.y);
            lemma_fmul_unit_range(c1@.z, c2@.z);
        }
        let albedo: Vec3 = c1.mul_v(c2);
        proof {
            assert(0 <= c1@.x < ONE && 0 <= c1@.y < ONE && 0 <= c1@.z < ONE && 0 <= c2@.x < ONE
                && 0 <= c2@.y < ONE && 0 <= c2@.z < ONE && albedo@ == vmulv(c1@, c2@));
        }
        Some(Sphere::new(center, ONE_FIFTH, Material::Lambertian(Lambertian::new(albedo))))
    } else if choose_mat < 62259 {
        // below 0.95: metal, albedo in [0.5, 1), fuzz in [0, 0.5)
        let albedo: Vec3 = Vec3::random(rng, HALF, ONE);
        let fuzz: i128 = rng.next_range(0, HALF);
        Some(Sphere::new(center, ONE_FIFTH, Material::Metal(Metal::new(albedo, fuzz))))
    } else {
        Some(Sphere::new(center, ONE_FIFTH, Material::Dielectric(Dielectric::new(GLASS_IR))))
    }
}

} // verus!
