//! Three-component fixed-point vectors, used for points, directions and
//! colors alike.  `Vm` is the mathematical model (unbounded integers at the
//! fixed-point scale); every executable operation is pinned to a spec
//! function over `Vm`.

use vstd::prelude::*;
use vstd::arithmetic::div_mod::{lemma_div_is_ordered, lemma_multiply_divide_lt};
use crate::prng::{SampleRng, rng_next, rng_unit};
use crate::fixed::{
    ONE, HALF, iabs, tdiv, fmul, fdiv, fsqrt, sqrt_f, div_t, mul_f, div_f,
    lemma_tdiv_mag, lemma_fmul_cap,
};

verus! {

/// The model of a vector: three unbounded fixed-point scalars.
pub ghost struct Vm {
    pub x: int,
    pub y: int,
    pub z: int,
}

pub open spec fn vm(x: int, y: int, z: int) -> Vm {
    Vm { x, y, z }
}

/// All three components at most `c` in magnitude.
pub open spec fn vcap(v: Vm, c: int) -> bool {
    iabs(v.x) <= c && iabs(v.y) <= c && iabs(v.z) <= c
}

pub open spec fn vneg(v: Vm) -> Vm {
    vm(-v.x, -v.y, -v.z)
}

pub open spec fn vadd(a: Vm, b: Vm) -> Vm {
    vm(a.x + b.x, a.y + b.y, a.z + b.z)
}

pub open spec fn vsub(a: Vm, b: Vm) -> Vm {
    vm(a.x - b.x, a.y - b.y, a.z - b.z)
}

/// Elementwise product (used for color attenuation).
pub open spec fn vmulv(a: Vm, b: Vm) -> Vm {
    vm(fmul(a.x, b.x), fmul(a.y, b.y), fmul(a.z, b.z))
}

/// Scalar product.
pub open spec fn vscale(s: int, v: Vm) -> Vm {
    vm(fmul(s, v.x), fmul(s, v.y), fmul(s, v.z))
}

/// Division by a scalar.
pub open spec fn vdivs(v: Vm, s: int) -> Vm
    recommends
        s != 0,
{
    vm(fdiv(v.x, s), fdiv(v.y, s), fdiv(v.z, s))
}

/// The raw component-product sum, at twice the fixed-point scale.
pub open spec fn vdot_raw(a: Vm, b: Vm) -> int {
    a.x * b.x + a.y * b.y + a.z * b.z
}

/// The dot product as a fixed-point scalar.
pub open spec fn vdot(a: Vm, b: Vm) -> int {
    tdiv(vdot_raw(a, b), ONE as int)
}

pub open spec fn vlensq(v: Vm) -> int {
    vdot(v, v)
}

pub open spec fn vlen(v: Vm) -> int {
    fsqrt(vlensq(v))
}

pub open spec fn vcross(a: Vm, b: Vm) -> Vm {
    vm(
        fmul(a.y, b.z) - fmul(a.z, b.y),
        fmul(a.z, b.x) - fmul(a.x, b.z),
        fmul(a.x, b.y) - fmul(a.y, b.x),
    )
}

/// Normalisation: each component divided by the fixed-point length.
pub open spec fn vunit(v: Vm) -> Vm
    recommends
        vlen(v) != 0,
{
    vdivs(v, vlen(v))
}

/// Mirror reflection about a normal: v - 2 (v . n) n.
pub open spec fn vreflect(v: Vm, n: Vm) -> Vm {
    vsub(v, vscale(2 * vdot(v, n), n))
}

/// Vector-form Snell refraction: the perpendicular part is the incoming
/// direction bent by the index ratio, the parallel part restores unit
/// length (clamped at zero where precision loss would make the radicand
/// negative; the caller excludes total internal reflection).
pub open spec fn vrefract(uv: Vm, n: Vm, ratio: int) -> Vm {
    let cos = vdot(vneg(uv), n);
    let perp = vscale(ratio, vadd(uv, vscale(cos, n)));
    let k = ONE - vlensq(perp);
    let kc = if k > 0 { k } else { 0 };
    vadd(perp, vscale(-fsqrt(kc), n))
}

/// An all-components-negligible test.  At this scale only the zero vector
/// falls below the conventional 1e-8 threshold for such tests.
pub open spec fn vnear_zero(v: Vm) -> bool {
    v.x == 0 && v.y == 0 && v.z == 0
}

/// A fixed-point vector.
#[derive(Clone, Copy, Debug)]
pub struct Vec3 {
    pub ex: i128,
    pub ey: i128,
    pub ez: i128,
}

impl View for Vec3 {
    type V = Vm;

    open spec fn view(&self) -> Vm {
        vm(self.ex as int, self.ey as int, self.ez as int)
    }
}

/// Component cap under which a single product cannot overflow `i128`.
pub const COMP_LIM: i128 = 0x2000_0000_0000_0000;

impl Vec3 {
    pub fn new(e0: i128, e1: i128, e2: i128) -> (r: Vec3)
        ensures
            r@ == vm(e0 as int, e1 as int, e2 as int),
    {
        Vec3 { ex: e0, ey: e1, ez: e2 }
    }

    pub fn x(self) -> (r: i128)
        ensures
            r as int == self@.x,
    {
        self.ex
    }

    pub fn y(self) -> (r: i128)
        ensures
            r as int == self@.y,
    {
        self.ey
    }

    pub fn z(self) -> (r: i128)
        ensures
            r as int == self@.z,
    {
        self.ez
    }

    pub fn neg_v(self) -> (r: Vec3)
        requires
            vcap(self@, 0x1000_0000_0000_0000_0000_0000_0000_0000),
        ensures
            r@ == vneg(self@),
    {
        Vec3 { ex: -self.ex, ey: -self.ey, ez: -self.ez }
    }

    pub fn add_v(self, other: Vec3) -> (r: Vec3)
        requires
            vcap(self@, COMP_LIM as int),
            vcap(other@, COMP_LIM as int),
        ensures
            r@ == vadd(self@, other@),
    {
        Vec3 { ex: self.ex + other.ex, ey: self.ey + other.ey, ez: self.ez + other.ez }
    }

    pub fn sub_v(self, other: Vec3) -> (r: Vec3)
        requires
            vcap(self@, COMP_LIM as int),
            vcap(other@, COMP_LIM as int),
        ensures
            r@ == vsub(self@, other@),
    {
        Vec3 { ex: self.ex - other.ex, ey: self.ey - other.ey, ez: self.ez - other.ez }
    }

    pub fn mul_v(self, other: Vec3) -> (r: Vec3)
        requires
            vcap(self@, COMP_LIM as int),
            vcap(other@, COMP_LIM as int),
        ensures
            r@ == vmulv(self@, other@),
    {
        proof {
            lemma_fmul_cap(self@.x, other@.x, COMP_LIM as int, COMP_LIM as int);
            lemma_fmul_cap(self@.y, other@.y, COMP_LIM as int, COMP_LIM as int);
            lemma_fmul_cap(self@.z, other@.z, COMP_LIM as int, COMP_LIM as int);
        }
        Vec3 {
            ex: mul_f(self.ex, other.ex),
            ey: mul_f(self.ey, other.ey),
            ez: mul_f(self.ez, other.ez),
        }
    }

    pub fn scale(self, s: i128) -> (r: Vec3)
        requires
            vcap(self@, COMP_LIM as int),
            iabs(s as int) <= COMP_LIM as int,
        ensures
            r@ == vscale(s as int, self@),
    {
        proof {
            lemma_fmul_cap(s as int, self@.x, COMP_LIM as int, COMP_LIM as int);
            lemma_fmul_cap(s as int, self@.y, COMP_LIM as int, COMP_LIM as int);
            lemma_fmul_cap(s as int, self@.z, COMP_LIM as int, COMP_LIM as int);
        }
        Vec3 { ex: mul_f(s, self.ex), ey: mul_f(s, self.ey), ez: mul_f(s, self.ez) }
    }

    pub fn div_s(self, s: i128) -> (r: Vec3)
        requires
            s != 0,
            vcap(self@, 0x40_0000_0000_0000_0000_0000_0000),
            iabs(s as int) < 0x2000_0000_0000_0000_0000_0000_0000_0000,
        ensures
            r@ == vdivs(self@, s as int),
    {
        Vec3 { ex: div_f(self.ex, s), ey: div_f(self.ey, s), ez: div_f(self.ez, s) }
    }

    pub fn dot(v1: &Vec3, v2: &Vec3) -> (r: i128)
        requires
            vcap(v1@, COMP_LIM as int),
            vcap(v2@, COMP_LIM as int),
        ensures
            r as int == vdot(v1@, v2@),
    {
        proof {
            lemma_fmul_cap(v1@.x, v2@.x, COMP_LIM as int, COMP_LIM as int);
            lemma_fmul_cap(v1@.y, v2@.y, COMP_LIM as int, COMP_LIM as int);
            lemma_fmul_cap(v1@.z, v2@.z, COMP_LIM as int, COMP_LIM as int);
        }
        let s: i128 = v1.ex * v2.ex + v1.ey * v2.ey + v1.ez * v2.ez;
        div_t(s, ONE)
    }

    pub fn length_squared(self) -> (r: i128)
        requires
            vcap(self@, COMP_LIM as int),
        ensures
            r as int == vlensq(self@),
    {
        Vec3::dot(&self, &self)
    }

    pub fn length(self) -> (r: i128)
        requires
            vcap(self@, 0x1000_0000_0000),
        ensures
            r as int == vlen(self@),
            0 <= r,
    {
        let q: i128 = self.length_squared();
        proof {
            lemma_vlensq_bounds(self@, 0x1000_0000_0000);
        }
        sqrt_f(q)
    }

    pub fn cross(v1: &Vec3, v2: &Vec3) -> (r: Vec3)
        requires
            vcap(v1@, COMP_LIM as int),
            vcap(v2@, COMP_LIM as int),
        ensures
            r@ == vcross(v1@, v2@),
    {
        proof {
            lemma_fmul_cap(v1@.y, v2@.z, COMP_LIM as int, COMP_LIM as int);
            lemma_fmul_cap(v1@.z, v2@.y, COMP_LIM as int, COMP_LIM as int);
            lemma_fmul_cap(v1@.z, v2@.x, COMP_LIM as int, COMP_LIM as int);
            lemma_fmul_cap(v1@.x, v2@.z, COMP_LIM as int, COMP_LIM as int);
            lemma_fmul_cap(v1@.x, v2@.y, COMP_LIM as int, COMP_LIM as int);
            lemma_fmul_cap(v1@.y, v2@.x, COMP_LIM as int, COMP_LIM as int);
        }
        Vec3 {
            ex: mul_f(v1.ey, v2.ez) - mul_f(v1.ez, v2.ey),
            ey: mul_f(v1.ez, v2.ex) - mul_f(v1.ex, v2.ez),
            ez: mul_f(v1.ex, v2.ey) - mul_f(v1.ey, v2.ex),
        }
    }

    /// Normalisation.  The argument must not be negligibly short: at raw
    /// square length below `ONE` the fixed-point quotient loses all
    /// precision, and at zero it is undefined; the precondition excludes
    /// both.
    pub fn unit_vector(v: &Vec3) -> (r: Vec3)
        requires
            vcap(v@, 0x1000_0000_0000),
            vdot_raw(v@, v@) >= ONE as int,
        ensures
            r@ == vunit(v@),
            vcap(r@, 2 * (ONE as int) - 1),
    {
        let len: i128 = v.length();
        proof {
            lemma_unit_bounds(v@);
        }
        v.div_s(len)
    }

    /// Snell refraction of `uv` about `n` with the given index ratio.
    pub fn refract(uv: &Vec3, n: &Vec3, etai_over_etat: i128) -> (r: Vec3)
        requires
            vcap(uv@, 2 * ONE),
            vcap(n@, 0x4_0000),
            0 <= etai_over_etat <= 0x8_0000,
        ensures
            r@ == vrefract(uv@, n@, etai_over_etat as int),
            vcap(r@, 0x800_0000),
    {
        proof {
            lemma_vdot_cap(vneg(uv@), n@, 2 * (ONE as int), 0x4_0000);
        }
        let cos: i128 = Vec3::dot(&uv.neg_v(), n);
        proof {
            lemma_fmul_cap(cos as int, n@.x, 0x18_0000, 0x4_0000);
            lemma_fmul_cap(cos as int, n@.y, 0x18_0000, 0x4_0000);
            lemma_fmul_cap(cos as int, n@.z, 0x18_0000, 0x4_0000);
        }
        let inner: Vec3 = uv.add_v(n.scale(cos));
        proof {
            lemma_fmul_cap(etai_over_etat as int, inner@.x, 0x8_0000, 0x62_0000);
            lemma_fmul_cap(etai_over_etat as int, inner@.y, 0x8_0000, 0x62_0000);
            lemma_fmul_cap(etai_over_etat as int, inner@.z, 0x8_0000, 0x62_0000);
        }
        let perp: Vec3 = inner.scale(etai_over_etat);
        proof {
            lemma_vlensq_bounds(perp@, 0x310_0000);
        }
        let plen: i128 = perp.length_squared();
        let k: i128 = ONE - plen;
        let kc: i128 = if k > 0 { k } else { 0 };
        let sq: i128 = sqrt_f(kc);
        proof {
            crate::fixed::lemma_sqf((kc as int) * (ONE as int));
            assert(sq <= 0x1_0000) by (nonlinear_arith)
                requires
                    (sq as int) * (sq as int) <= (kc as int) * (ONE as int),
                    0 <= kc <= 0x1_0000,
                    sq >= 0,
            ;
            lemma_fmul_cap(-(sq as int), n@.x, 0x1_0000, 0x4_0000);
            lemma_fmul_cap(-(sq as int), n@.y, 0x1_0000, 0x4_0000);
            lemma_fmul_cap(-(sq as int), n@.z, 0x1_0000, 0x4_0000);
        }
        perp.add_v(n.scale(-sq))
    }

    pub fn near_zero(self) -> (r: bool)
        ensures
            r == vnear_zero(self@),
    {
        self.ex == 0 && self.ey == 0 && self.ez == 0
    }

    /// Mirror reflection of `v` about the normal `n`.
    pub fn reflect(v: &Vec3, n: &Vec3) -> (r: Vec3)
        requires
            vcap(v@, 0x10_0000),
            vcap(n@, 0x10_0000),
        ensures
            r@ == vreflect(v@, n@),
    {
        proof {
            lemma_vdot_cap(v@, n@, 0x10_0000, 0x10_0000);
        }
        let d: i128 = Vec3::dot(v, n);
        proof {
            lemma_fmul_cap(2 * (d as int), n@.x, 0x800_0000_0000, 0x10_0000);
            lemma_fmul_cap(2 * (d as int), n@.y, 0x800_0000_0000, 0x10_0000);
            lemma_fmul_cap(2 * (d as int), n@.z, 0x800_0000_0000, 0x10_0000);
        }
        v.sub_v(n.scale(2 * d))
    }
}

impl Vec3 {
    /// A vector with each component drawn uniformly from [min, max).
    pub fn random(rng: &mut SampleRng, min: i128, max: i128) -> (r: Vec3)
        requires
            old(rng).wf(),
            min < max,
            iabs(min as int) <= 0x100_0000_0000,
            iabs(max as int) <= 0x100_0000_0000,
        ensures
            final(rng).wf(),
            min <= r@.x < max,
            min <= r@.y < max,
            min <= r@.z < max,
            r@.x == min + fmul(rng_unit(old(rng).state as int), max - min),
            r@.y == min + fmul(rng_unit(rng_next(old(rng).state as int)), max - min),
            r@.z == min + fmul(rng_unit(rng_next(rng_next(old(rng).state as int))), max - min),
            final(rng).state as int == rng_next(rng_next(rng_next(old(rng).state as int))),
    {
        let e0: i128 = rng.next_range(min, max);
        let e1: i128 = rng.next_range(min, max);
        let e2: i128 = rng.next_range(min, max);
        Vec3 { ex: e0, ey: e1, ez: e2 }
    }

    /// Rejection sampling of a point strictly inside the unit ball: draw in
    /// the cube [-1, 1)^3 and accept when the square length is below one.
    /// Attempts are bounded (rejection is about even odds per try, so the
    /// bound is unreachable in practice); the fallback is a fixed interior
    /// point.
    pub fn random_in_unit_sphere(rng: &mut SampleRng) -> (r: Vec3)
        requires
            old(rng).wf(),
        ensures
            final(rng).wf(),
            vcap(r@, ONE as int),
            vlensq(r@) < ONE as int,
    {
        let mut i: u32 = 0;
        while i < 64
            invariant
                rng.wf(),
            decreases 64 - i,
        {
            let p: Vec3 = Vec3::random(rng, -ONE, ONE);
            let q: i128 = p.length_squared();
            if q < ONE {
                return p;
            }
            i = i + 1;
        }
        proof {
            lemma_half_fallback();
        }
        Vec3 { ex: HALF, ey: 0, ez: 0 }
    }

    /// A unit-length direction: a unit-ball sample, normalised.  Samples too
    /// short to normalise at fixed-point precision are rejected with the
    /// rest, so the result is always the normalisation of a point inside
    /// the closed unit ball that is long enough to normalise.
    pub fn random_unit_vector(rng: &mut SampleRng) -> (r: Vec3)
        requires
            old(rng).wf(),
        ensures
            final(rng).wf(),
            vcap(r@, 2 * (ONE as int) - 1),
            exists|p: Vm| #[trigger] unit_source(p) && r@ == vunit(p),
    {
        let mut i: u32 = 0;
        while i < 64
            invariant
                rng.wf(),
            decreases 64 - i,
        {
            let p: Vec3 = Vec3::random(rng, -ONE, ONE);
            let q: i128 = p.length_squared();
            if 1 <= q && q < ONE {
                proof {
                    lemma_raw_lower(p@);
                    assert(unit_source(p@));
                }
                return Vec3::unit_vector(&p);
            }
            i = i + 1;
        }
        proof {
            lemma_axis_unit_source();
        }
        Vec3 { ex: ONE, ey: 0, ez: 0 }
    }

    /// A unit-ball sample on the same side as the given normal: the drawn
    /// point is returned as is when its dot with the normal is positive,
    /// otherwise negated, which keeps its length.
    pub fn random_in_hemisphere(rng: &mut SampleRng, normal: &Vec3) -> (r: Vec3)
        requires
            old(rng).wf(),
            vcap(normal@, 0x10_0000),
        ensures
            final(rng).wf(),
            vcap(r@, ONE as int),
            vdot(r@, normal@) >= 0,
            vlensq(r@) < ONE as int,
            exists|p: Vm|
                {
                    &&& vcap(p, ONE as int)
                    &&& #[trigger] vlensq(p) < ONE as int
                    &&& if vdot(p, normal@) > 0 {
                        r@ == p
                    } else {
                        r@ == vneg(p)
                    }
                },
    {
        let s: Vec3 = Vec3::random_in_unit_sphere(rng);
        let d: i128 = Vec3::dot(&s, normal);
        if d > 0 {
            proof {
                assert(vcap(s@, ONE as int) && vlensq(s@) < ONE as int && vdot(s@, normal@) > 0);
            }
            s
        } else {
            proof {
                lemma_vdot_neg(s@, normal@);
                lemma_vneg_lensq(s@);
                assert(vcap(s@, ONE as int) && vlensq(s@) < ONE as int && vdot(s@, normal@) <= 0);
            }
            s.neg_v()
        }
    }

    /// Rejection sampling of a point inside the unit disk in the xy plane,
    /// used for the lens-aperture jitter.
    pub fn random_in_unit_disk(rng: &mut SampleRng) -> (r: Vec3)
        requires
            old(rng).wf(),
        ensures
            final(rng).wf(),
            vcap(r@, ONE as int),
            r@.z == 0,
            vlensq(r@) < ONE as int,
    {
        let mut i: u32 = 0;
        while i < 64
            invariant
                rng.wf(),
            decreases 64 - i,
        {
            let e0: i128 = rng.next_range(-ONE, ONE);
            let e1: i128 = rng.next_range(-ONE, ONE);
            let p: Vec3 = Vec3 { ex: e0, ey: e1, ez: 0 };
            let q: i128 = p.length_squared();
            if q < ONE {
                return p;
            }
            i = i + 1;
        }
        proof {
            lemma_half_fallback();
        }
        Vec3 { ex: HALF, ey: 0, ez: 0 }
    }
}

/// The fallback sample (1/2, 0, 0) lies strictly inside the unit ball.
pub proof fn lemma_half_fallback()
    ensures
        vlensq(vm(HALF as int, 0, 0)) == 16384,
{
    assert(32768int * 32768 == 1073741824) by (nonlinear_arith);
    assert(vdot_raw(vm(HALF as int, 0, 0), vm(HALF as int, 0, 0)) == 1073741824);
    crate::fixed::lemma_tdiv_exact(16384, ONE as int);
    assert(16384int * 65536 == 1073741824) by (nonlinear_arith);
}

/// Negating one side negates the dot product.
pub proof fn lemma_vdot_neg(a: Vm, b: Vm)
    ensures
        vdot(vneg(a), b) == -vdot(a, b),
{
    assert(vdot_raw(vneg(a), b) == -vdot_raw(a, b)) by (nonlinear_arith);
}

/// Negation keeps the square length.
pub proof fn lemma_vneg_lensq(a: Vm)
    ensures
        vlensq(vneg(a)) == vlensq(a),
{
    assert(vdot_raw(vneg(a), vneg(a)) == vdot_raw(a, a)) by (nonlinear_arith);
}

/// A point the unit-direction sampler may normalise: inside the closed
/// unit ball, yet long enough for fixed-point normalisation.
pub open spec fn unit_source(p: Vm) -> bool {
    &&& vcap(p, ONE as int)
    &&& vdot_raw(p, p) >= ONE as int
    &&& vlensq(p) <= ONE as int
}

/// A fixed-point square length of at least one means the raw square
/// length reaches the scale.
pub proof fn lemma_raw_lower(v: Vm)
    requires
        vlensq(v) >= 1,
    ensures
        vdot_raw(v, v) >= ONE as int,
{
    let raw = vdot_raw(v, v);
    assert(raw >= 0) by (nonlinear_arith)
        requires
            raw == v.x * v.x + v.y * v.y + v.z * v.z,
    ;
    vstd::arithmetic::div_mod::lemma_fundamental_div_mod(raw, ONE as int);
    vstd::arithmetic::div_mod::lemma_mod_division_less_than_divisor(raw, ONE as int);
    assert(raw >= 65536) by (nonlinear_arith)
        requires
            raw == 65536 * (raw / 65536) + raw % 65536,
            raw / 65536 >= 1,
            0 <= raw % 65536,
    ;
}

/// The +x axis unit vector is its own normalisation and a valid sampler
/// outcome.
pub proof fn lemma_axis_unit_source()
    ensures
        unit_source(vm(ONE as int, 0, 0)),
        vunit(vm(ONE as int, 0, 0)) == vm(ONE as int, 0, 0),
{
    let p = vm(ONE as int, 0, 0);
    assert(65536int * 65536 == 4294967296) by (nonlinear_arith);
    assert(vdot_raw(p, p) == 4294967296);
    crate::fixed::lemma_tdiv_exact(65536int, 65536int);
    assert(vlensq(p) == 65536);
    crate::fixed::lemma_sqf(65536int * 65536);
    assert(65537int * 65537 > 4294967296) by (nonlinear_arith);
    crate::fixed::lemma_sqrt_unique(4294967296int, 65536int, crate::fixed::sqf(4294967296int));
    assert(vlen(p) == 65536);
    assert(fdiv(65536, 65536) == tdiv(65536int * 65536, 65536));
    assert(vunit(p) == vm(ONE as int, 0, 0));
}

/// The raw square length bounds the square of each component, and the dot
/// scaling keeps `vlensq` within reach of `sqrt_f`'s domain.
pub proof fn lemma_vlensq_bounds(v: Vm, c: int)
    requires
        vcap(v, c),
        0 <= c,
    ensures
        0 <= vdot_raw(v, v),
        vdot_raw(v, v) <= 3 * (c * c),
        0 <= vlensq(v) <= vdot_raw(v, v),
        v.x * v.x <= vdot_raw(v, v),
        v.y * v.y <= vdot_raw(v, v),
        v.z * v.z <= vdot_raw(v, v),
{
    assert(0 <= v.x * v.x && 0 <= v.y * v.y && 0 <= v.z * v.z && v.x * v.x <= c * c && v.y * v.y
        <= c * c && v.z * v.z <= c * c) by (nonlinear_arith)
        requires
            vcap(v, c),
            0 <= c,
    ;
    lemma_tdiv_mag(vdot_raw(v, v), ONE as int);
}

/// Magnitude cap for a dot product, from caps on the two vectors.
pub proof fn lemma_vdot_cap(a: Vm, b: Vm, ca: int, cb: int)
    requires
        vcap(a, ca),
        vcap(b, cb),
        0 <= ca,
        0 <= cb,
    ensures
        iabs(vdot_raw(a, b)) <= 3 * (ca * cb),
        iabs(vdot(a, b)) <= 3 * (ca * cb),
        iabs(vdot(a, b)) <= (3 * (ca * cb)) / 65536,
{
    assert(iabs(a.x * b.x) <= ca * cb && iabs(a.y * b.y) <= ca * cb && iabs(a.z * b.z) <= ca * cb)
        by (nonlinear_arith)
        requires
            vcap(a, ca),
            vcap(b, cb),
            0 <= ca,
            0 <= cb,
    ;
    lemma_tdiv_mag(vdot_raw(a, b), ONE as int);
    lemma_div_is_ordered(iabs(vdot_raw(a, b)), 3 * (ca * cb), ONE as int);
}

/// After normalising a vector of raw square length at least `ONE`, every
/// component has magnitude below `2 * ONE`.
pub proof fn lemma_unit_bounds(v: Vm)
    requires
        vcap(v, 0x1000_0000_0000),
        vdot_raw(v, v) >= ONE as int,
    ensures
        vlensq(v) >= 1,
        256 <= vlen(v) < 0x40_0000_0000_0000,
        vcap(vunit(v), 2 * (ONE as int) - 1),
{
    let raw = vdot_raw(v, v);
    let q = vlensq(v);
    let len = vlen(v);
    lemma_vlensq_bounds(v, 0x1000_0000_0000);
    assert(q == raw / (ONE as int));
    lemma_div_is_ordered(ONE as int, raw, ONE as int);
    assert(q >= 1);
    crate::fixed::lemma_sqf(q * (ONE as int));
    assert(len * len <= q * (ONE as int) && q * (ONE as int) < (len + 1) * (len + 1) && len >= 0);
    assert(len >= 256) by (nonlinear_arith)
        requires
            q >= 1,
            q * 65536 < (len + 1) * (len + 1),
            len >= 0,
    ;
    assert(len < 0x40_0000_0000_0000) by (nonlinear_arith)
        requires
            len * len <= q * 65536,
            q <= 3 * (0x1000_0000_0000 * 0x1000_0000_0000int),
            len >= 0,
    ;
    // raw <= q * ONE + (ONE - 1), so each component is below len + 129.
    assert(raw - (ONE as int) < q * (ONE as int)) by (nonlinear_arith)
        requires
            q == raw / 65536int,
            raw >= 0,
    ;
    lemma_unit_comp(v.x, raw, q, len);
    lemma_unit_comp(v.y, raw, q, len);
    lemma_unit_comp(v.z, raw, q, len);
}

proof fn lemma_unit_comp(c: int, raw: int, q: int, len: int)
    requires
        c * c <= raw,
        raw - (ONE as int) < q * (ONE as int),
        len * len <= q * (ONE as int),
        q * (ONE as int) < (len + 1) * (len + 1),
        len >= 256,
    ensures
        iabs(fdiv(c, len)) < 2 * (ONE as int),
{
    assert(iabs(c) <= len + 128) by (nonlinear_arith)
        requires
            c * c <= raw,
            raw - 65536 < q * 65536,
            q * 65536 < (len + 1) * (len + 1),
            len >= 256,
    ;
    lemma_tdiv_mag(c * (ONE as int), len);
    assert(iabs(c * (ONE as int)) <= (len + 128) * 65536) by (nonlinear_arith)
        requires
            iabs(c) <= len + 128,
    ;
    lemma_div_is_ordered(iabs(c * (ONE as int)), (len + 128) * 65536, len);
    assert((len + 128) * 65536 < (2 * 65536) * len) by (nonlinear_arith)
        requires
            len >= 256,
    ;
    lemma_multiply_divide_lt((len + 128) * 65536, len, (2 * 65536) as int);
}

/// The mirror identity: reflecting about an exactly-unit normal negates
/// the dot product.  At fixed-point precision this holds whenever the
/// quantities involved divide out exactly (an axis-aligned unit normal
/// always qualifies); the divisibility premises exclude the inputs on
/// which truncation shifts the result by an ulp.
pub proof fn lemma_reflect_dot(v: Vm, n: Vm)
    requires
        vdot_raw(n, n) == (ONE as int) * (ONE as int),
        vdot_raw(v, n) % (ONE as int) == 0,
        (2 * vdot(v, n) * n.x) % (ONE as int) == 0,
        (2 * vdot(v, n) * n.y) % (ONE as int) == 0,
        (2 * vdot(v, n) * n.z) % (ONE as int) == 0,
    ensures
        vdot(vreflect(v, n), n) == -vdot(v, n),
{
    let s = ONE as int;
    let d = vdot(v, n);
    crate::fixed::lemma_tdiv_of_multiple(vdot_raw(v, n), s);
    assert(d * s == vdot_raw(v, n));
    let qx = fmul(2 * d, n.x);
    let qy = fmul(2 * d, n.y);
    let qz = fmul(2 * d, n.z);
    crate::fixed::lemma_tdiv_of_multiple(2 * d * n.x, s);
    crate::fixed::lemma_tdiv_of_multiple(2 * d * n.y, s);
    crate::fixed::lemma_tdiv_of_multiple(2 * d * n.z, s);
    assert(qx * s == 2 * d * n.x && qy * s == 2 * d * n.y && qz * s == 2 * d * n.z);
    let rx = v.x - qx;
    let ry = v.y - qy;
    let rz = v.z - qz;
    assert(vreflect(v, n) == vm(rx, ry, rz));
    let rr = vdot_raw(vreflect(v, n), n);
    assert(rr == rx * n.x + ry * n.y + rz * n.z);
    assert(rr == vdot_raw(v, n) - (qx * n.x + qy * n.y + qz * n.z)) by (nonlinear_arith)
        requires
            rr == (v.x - qx) * n.x + (v.y - qy) * n.y + (v.z - qz) * n.z,
            vdot_raw(v, n) == v.x * n.x + v.y * n.y + v.z * n.z,
    ;
    assert(qx * n.x * 65536 == 2 * d * (n.x * n.x)) by (nonlinear_arith)
        requires
            qx * 65536 == 2 * d * n.x,
    ;
    assert(qy * n.y * 65536 == 2 * d * (n.y * n.y)) by (nonlinear_arith)
        requires
            qy * 65536 == 2 * d * n.y,
    ;
    assert(qz * n.z * 65536 == 2 * d * (n.z * n.z)) by (nonlinear_arith)
        requires
            qz * 65536 == 2 * d * n.z,
    ;
    assert(2 * d * (n.x * n.x) + 2 * d * (n.y * n.y) + 2 * d * (n.z * n.z) == 2 * d * 4294967296)
        by (nonlinear_arith)
        requires
            n.x * n.x + n.y * n.y + n.z * n.z == 4294967296,
    ;
    assert((qx * n.x + qy * n.y + qz * n.z) * 65536 == qx * n.x * 65536 + qy * n.y * 65536 + qz
        * n.z * 65536) by (nonlinear_arith);
    assert(2 * d * 4294967296 == (2 * d * 65536) * 65536) by (nonlinear_arith);
    assert(qx * n.x + qy * n.y + qz * n.z == 2 * d * 65536);
    assert(rr == (-d) * 65536);
    crate::fixed::lemma_tdiv_exact(-d, 65536);
}

} // verus!
