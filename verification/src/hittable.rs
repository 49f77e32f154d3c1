//! Hit records and the scene aggregate that answers nearest-hit queries.

use vstd::prelude::*;
use crate::fixed::ONE;
use crate::vec3::{Vec3, vcap, vdot_raw};
use crate::ray::Ray;
use crate::material::Material;
use vstd::arithmetic::div_mod::lemma_div_is_ordered;
use crate::sphere::{Sphere, HitInfo, sphere_hit, sphere_wf, sphere_a, lemma_sphere_hit_narrow};

verus! {

/// The result of a successful intersection: point, oriented unit normal,
/// ray parameter, orientation flag, and the struck surface's material.
pub struct HitRecord {
    pub p: Vec3,
    pub normal: Vec3,
    pub t: i128,
    pub front_face: bool,
    pub material: Material,
}

impl HitRecord {
    /// The geometric part of the record, as the spec functions state it.
    pub open spec fn info(&self) -> HitInfo {
        HitInfo { t: self.t as int, p: self.p@, normal: self.normal@, front_face: self.front_face }
    }
}

/// An ordered, growable collection of spheres, queried for the globally
/// nearest intersection by linear scan.
pub struct HittableList {
    pub objects: Vec<Sphere>,
}

/// Every member within world bounds, with a well-formed material.
pub open spec fn scene_wf(objs: Seq<Sphere>) -> bool {
    forall|k: int| 0 <= k < objs.len() ==> sphere_wf(#[trigger] objs[k])
}

/// The nearest hit over the first `n` members, folding left with the
/// narrowing upper parameter bound, exactly as the scan computes it.
pub open spec fn list_hit_upto(
    objs: Seq<Sphere>,
    r: crate::ray::Rm,
    t_min: int,
    t_max: int,
    n: int,
) -> Option<HitInfo>
    decreases n,
{
    if n <= 0 {
        None
    } else {
        let prev = list_hit_upto(objs, r, t_min, t_max, n - 1);
        let cur_max = match prev {
            Some(h) => h.t,
            None => t_max,
        };
        match sphere_hit(objs[n - 1].center@, objs[n - 1].radius as int, r, t_min, cur_max) {
            Some(h) => Some(h),
            None => prev,
        }
    }
}

/// The nearest hit over the whole list.
pub open spec fn list_hit(objs: Seq<Sphere>, r: crate::ray::Rm, t_min: int, t_max: int) -> Option<
    HitInfo,
> {
    list_hit_upto(objs, r, t_min, t_max, objs.len() as int)
}

impl HittableList {
    pub fn new(objects: Vec<Sphere>) -> (r: HittableList)
        ensures
            r.objects@ == objects@,
    {
        HittableList { objects }
    }

    pub fn clear(&mut self)
        ensures
            final(self).objects@.len() == 0,
    {
        self.objects.clear();
    }

    pub fn add(&mut self, object: Sphere)
        ensures
            final(self).objects@ == old(self).objects@.push(object),
    {
        self.objects.push(object);
    }

    /// The nearest hit within [t_min, t_max], scanning all members and
    /// narrowing the upper bound to the closest hit found so far.  The
    /// returned record carries the material of a member that produced it.
    pub fn hit(&self, ray: &Ray, t_min: i128, t_max: i128) -> (r: Option<HitRecord>)
        requires
            scene_wf(self.objects@),
            vcap(ray@.origin, 0x400_0000_0000),
            vcap(ray@.direction, 0x1_0000_0000),
            vdot_raw(ray@.direction, ray@.direction) >= ONE as int,
            0 <= t_min <= t_max <= 0x100_0000_0000,
        ensures
            match r {
                None => list_hit(self.objects@, ray@, t_min as int, t_max as int) is None,
                Some(rec) => {
                    &&& list_hit(self.objects@, ray@, t_min as int, t_max as int) == Some(
                        rec.info(),
                    )
                    &&& t_min <= rec.t <= t_max
                    &&& exists|k: int|
                        (0 <= k < self.objects@.len() && #[trigger] scan_candidate(
                            self.objects@,
                            ray@,
                            t_min as int,
                            t_max as int,
                            k,
                        ) == Some(rec.info()) && rec.material == self.objects@[k].material)
                },
            },
    {
        let ghost objs = self.objects@;
        let mut closest_so_far: i128 = t_max;
        let mut hit_anything: Option<HitRecord> = None;
        let n: usize = self.objects.len();
        let mut i: usize = 0;
        while i < n
            invariant
                n == objs.len(),
                0 <= i <= n,
                objs == self.objects@,
                scene_wf(objs),
                vcap(ray@.origin, 0x400_0000_0000),
                vcap(ray@.direction, 0x1_0000_0000),
                vdot_raw(ray@.direction, ray@.direction) >= ONE as int,
                0 <= t_min <= t_max <= 0x100_0000_0000,
                match hit_anything {
                    None => {
                        &&& closest_so_far == t_max
                        &&& list_hit_upto(objs, ray@, t_min as int, t_max as int, i as int)
                            is None
                    },
                    Some(rec) => {
                        &&& closest_so_far == rec.t
                        &&& t_min <= rec.t <= t_max
                        &&& list_hit_upto(objs, ray@, t_min as int, t_max as int, i as int)
                            == Some(rec.info())
                        &&& exists|k: int|
                            (0 <= k < i && #[trigger] scan_candidate(
                                objs,
                                ray@,
                                t_min as int,
                                t_max as int,
                                k,
                            ) == Some(rec.info()) && rec.material == objs[k].material)
                    },
                },
            decreases n - i,
        {
            let o: &Sphere = &self.objects[i];
            if let Some(rec) = o.hit(ray, t_min, closest_so_far) {
                proof {
                    assert(objs[i as int].material == o.material);
                    // The hit found under the narrowed bound is the same
                    // member's hit over the full range.
                    let raw = vdot_raw(ray@.direction, ray@.direction);
                    lemma_div_is_ordered(ONE as int, raw, ONE as int);
                    assert(sphere_a(ray@) >= 1);
                    lemma_sphere_hit_narrow(
                        o.center@,
                        o.radius as int,
                        ray@,
                        t_min as int,
                        closest_so_far as int,
                        t_max as int,
                    );
                    assert(scan_candidate(objs, ray@, t_min as int, t_max as int, i as int)
                        == Some(rec.info()));
                }
                closest_so_far = rec.t;
                hit_anything = Some(rec);
            }
            i = i + 1;
        }
        hit_anything
    }
}

/// The k-th member's own intersection over the full, un-narrowed range.
pub open spec fn scan_candidate(
    objs: Seq<Sphere>,
    r: crate::ray::Rm,
    t_min: int,
    t_max: int,
    k: int,
) -> Option<HitInfo> {
    sphere_hit(objs[k].center@, objs[k].radius as int, r, t_min, t_max)
}

/// The narrowing scan over a prefix agrees with an exhaustive scan: it
/// returns nothing exactly when every member does, and otherwise a hit
/// that some member reports over the full range, with the minimal
/// parameter among all members' full-range hits.
pub proof fn lemma_scan_prefix_nearest(
    objs: Seq<Sphere>,
    r: crate::ray::Rm,
    t_min: int,
    t_max: int,
    n: int,
)
    requires
        sphere_a(r) >= 1,
        t_min <= t_max,
        0 <= n <= objs.len(),
    ensures
        list_hit_upto(objs, r, t_min, t_max, n) is None <==> (forall|k: int|
            0 <= k < n ==> #[trigger] scan_candidate(objs, r, t_min, t_max, k) is None),
        match list_hit_upto(objs, r, t_min, t_max, n) {
            Some(h) => {
                &&& t_min <= h.t <= t_max
                &&& exists|k: int|
                    0 <= k < n && #[trigger] scan_candidate(objs, r, t_min, t_max, k) == Some(h)
                &&& forall|k: int|
                    0 <= k < n ==> match #[trigger] scan_candidate(objs, r, t_min, t_max, k) {
                        Some(g) => h.t <= g.t,
                        None => true,
                    }
            },
            None => true,
        },
    decreases n,
{
    if n > 0 {
        lemma_scan_prefix_nearest(objs, r, t_min, t_max, n - 1);
        let prev = list_hit_upto(objs, r, t_min, t_max, n - 1);
        let sp = objs[n - 1];
        match prev {
            None => {
                assert(list_hit_upto(objs, r, t_min, t_max, n) == (match scan_candidate(
                    objs,
                    r,
                    t_min,
                    t_max,
                    n - 1,
                ) {
                    Some(h) => Some(h),
                    None => prev,
                }));
                match scan_candidate(objs, r, t_min, t_max, n - 1) {
                    Some(h) => {
                        assert(forall|k: int|
                            0 <= k < n - 1 ==> #[trigger] scan_candidate(objs, r, t_min, t_max, k)
                                is None);
                    },
                    None => {
                        assert(forall|k: int|
                            0 <= k < n ==> #[trigger] scan_candidate(objs, r, t_min, t_max, k)
                                is None);
                    },
                }
            },
            Some(hp) => {
                lemma_sphere_hit_narrow(sp.center@, sp.radius as int, r, t_min, hp.t, t_max);
                match sphere_hit(sp.center@, sp.radius as int, r, t_min, hp.t) {
                    Some(h) => {
                        assert(scan_candidate(objs, r, t_min, t_max, n - 1) == Some(h));
                        assert(h.t <= hp.t);
                        assert(forall|k: int|
                            0 <= k < n ==> match #[trigger] scan_candidate(objs, r, t_min, t_max, k) {
                                Some(g) => h.t <= g.t,
                                None => true,
                            });
                    },
                    None => {
                        assert(list_hit_upto(objs, r, t_min, t_max, n) == Some(hp));
                        assert(match scan_candidate(objs, r, t_min, t_max, n - 1) {
                            Some(g) => g.t > hp.t,
                            None => true,
                        });
                        assert(forall|k: int|
                            0 <= k < n ==> match #[trigger] scan_candidate(objs, r, t_min, t_max, k) {
                                Some(g) => hp.t <= g.t,
                                None => true,
                            });
                    },
                }
            },
        }
    }
}

/// The nearest-hit query over a whole scene equals an exhaustive scan for
/// the minimal in-range parameter: it returns nothing exactly when every
/// member returns nothing, and otherwise the record (parameter and point)
/// of a member's full-range hit whose parameter no member undercuts.
pub proof fn lemma_scene_nearest(objs: Seq<Sphere>, r: crate::ray::Rm, t_min: int, t_max: int)
    requires
        sphere_a(r) >= 1,
        t_min <= t_max,
    ensures
        list_hit(objs, r, t_min, t_max) is None <==> (forall|k: int|
            0 <= k < objs.len() ==> #[trigger] scan_candidate(objs, r, t_min, t_max, k) is None),
        match list_hit(objs, r, t_min, t_max) {
            Some(h) => {
                &&& t_min <= h.t <= t_max
                &&& exists|k: int|
                    0 <= k < objs.len() && #[trigger] scan_candidate(objs, r, t_min, t_max, k)
                        == Some(h)
                &&& forall|k: int|
                    0 <= k < objs.len() ==> match #[trigger] scan_candidate(
                        objs,
                        r,
                        t_min,
                        t_max,
                        k,
                    ) {
                        Some(g) => h.t <= g.t,
                        None => true,
                    }
            },
            None => true,
        },
{
    lemma_scan_prefix_nearest(objs, r, t_min, t_max, objs.len() as int);
}

} // verus!
