//! Rays: an origin point and a (not necessarily normalised) direction.

use vstd::prelude::*;
use crate::fixed::iabs;
use crate::vec3::{Vec3, Vm, vadd, vscale, vcap};

verus! {

/// The model of a ray.
pub ghost struct Rm {
    pub origin: Vm,
    pub direction: Vm,
}

/// The point reached after parameter `t` along the ray.
pub open spec fn ray_at(r: Rm, t: int) -> Vm {
    vadd(r.origin, vscale(t, r.direction))
}

#[derive(Clone, Copy, Debug)]
pub struct Ray {
    pub orig: Vec3,
    pub dir: Vec3,
}

impl View for Ray {
    type V = Rm;

    open spec fn view(&self) -> Rm {
        Rm { origin: self.orig@, direction: self.dir@ }
    }
}

impl Ray {
    pub fn new(origin: Vec3, direction: Vec3) -> (r: Ray)
        ensures
            r@.origin == origin@,
            r@.direction == direction@,
    {
        Ray { orig: origin, dir: direction }
    }

    pub fn origin(&self) -> (r: Vec3)
        ensures
            r@ == self@.origin,
    {
        self.orig
    }

    pub fn direction(&self) -> (r: Vec3)
        ensures
            r@ == self@.direction,
    {
        self.dir
    }

    /// The point at parameter `t`: origin + t * direction.
    pub fn at(&self, t: i128) -> (r: Vec3)
        requires
            vcap(self@.origin, 0x2000_0000_0000_0000),
            vcap(self@.direction, 0x1_0000_0000),
            iabs(t as int) <= 0x100_0000_0000,
        ensures
            r@ == ray_at(self@, t as int),
    {
        proof {
            crate::fixed::lemma_fmul_cap(t as int, self@.direction.x, 0x100_0000_0000, 0x1_0000_0000);
            crate::fixed::lemma_fmul_cap(t as int, self@.direction.y, 0x100_0000_0000, 0x1_0000_0000);
            crate::fixed::lemma_fmul_cap(t as int, self@.direction.z, 0x100_0000_0000, 0x1_0000_0000);
        }
        self.orig.add_v(self.dir.scale(t))
    }
}

} // verus!
