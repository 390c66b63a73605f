use vstd::prelude::*;

use crate::fixed::isqrt;
use crate::fixed::lemma_mul_bound;
use crate::fixed::lemma_sqrt_floor_is;
use crate::fixed::lemma_sqrt_floor_props;
use crate::fixed::lemma_square_monotone;
use crate::fixed::sqrt_floor;
use crate::fixed::BOUND;
use crate::fixed::SCALE;
use crate::material::Material;
use crate::ray::lemma_dot_bound;
use crate::ray::Point;
use crate::ray::Ray;
use crate::ray::Vec3;

verus! {

/// The executable hit result agrees with the mathematical model: the same
/// hit/miss decision and, on a hit, the same ray parameter.
pub open spec fn hit_matches(res: Option<i128>, model: Option<int>) -> bool {
    match res {
        Option::Some(t) => model == Option::Some(t as int),
        Option::None => model is None,
    }
}

/// A geometric object that a ray can be tested against. `hit` returns the
/// smallest fixed-point ray parameter greater than the epsilon of one
/// fixed-point step at which the ray meets the surface, or `None`.
pub trait Hitable {
    spec fn wf_spec(&self) -> bool;

    /// The mathematical value of `hit`.
    spec fn hit_spec(&self, r: Ray) -> Option<int>;

    /// The mathematical value of `color`.
    spec fn color_spec(&self) -> Vec3;

    fn hit(&self, r: &Ray) -> (res: Option<i128>)
        requires
            self.wf_spec(),
            r.wf(),
        ensures
            hit_matches(res, self.hit_spec(*r)),
            res matches Option::Some(t) ==> 1 <= t,
    ;

    /// The flat color of the object, independent of any hit point.
    fn color(&self) -> (c: Vec3)
        ensures
            c == self.color_spec(),
    ;
}

/// A sphere given by center and radius.
#[derive(Clone, Copy, PartialEq, Eq, Structural, Debug)]
pub struct Sphere {
    pub center: Point,
    pub radius: i64,
    pub material: Material,
}

impl Sphere {
    pub open spec fn wf(self) -> bool {
        &&& self.center.wf()
        &&& 0 <= self.radius <= BOUND
        &&& self.material.wf()
    }

    /// The well-formedness test, runnable.
    pub fn is_wf(&self) -> (b: bool)
        ensures
            b == self.wf(),
    {
        self.center.is_wf() && 0 <= self.radius && self.radius <= BOUND
            && self.material.color.is_wf()
    }

    /// `a` of the quadratic `a*t^2 + b*t + c = 0`: the squared direction.
    pub open spec fn quad_a(self, r: Ray) -> int {
        r.v.dot_spec(r.v)
    }

    /// `b` of the quadratic: `2 * (origin - center) . direction`.
    pub open spec fn quad_b(self, r: Ray) -> int {
        2 * r.p.minus_spec(self.center).dot_spec(r.v)
    }

    /// `c` of the quadratic: `|origin - center|^2 - radius^2`.
    pub open spec fn quad_c(self, r: Ray) -> int {
        r.p.minus_spec(self.center).dot_spec(r.p.minus_spec(self.center)) - self.radius
            * self.radius
    }

    pub open spec fn discriminant(self, r: Ray) -> int {
        self.quad_b(r) * self.quad_b(r) - 4 * self.quad_a(r) * self.quad_c(r)
    }

    /// The model of `hit`: a zero direction or a nonpositive discriminant is
    /// a miss; otherwise the nearer root that exceeds the epsilon wins, the
    /// farther root is the fallback (the case of an origin inside the
    /// sphere). A root `t = n / (2a)` exceeds the epsilon `1/SCALE` exactly
    /// when `n * SCALE > 2a`, and is reported rounded toward negative
    /// infinity in fixed-point steps.
    pub open spec fn hit_model(self, r: Ray) -> Option<int> {
        let a = self.quad_a(r);
        let b = self.quad_b(r);
        let disc = self.discriminant(r);
        if a == 0 || disc <= 0 {
            Option::None
        } else {
            let sd = sqrt_floor(disc);
            if (-b - sd) * SCALE > 2 * a {
                Option::Some(((-b - sd) * SCALE) / (2 * a))
            } else if (-b + sd) * SCALE > 2 * a {
                Option::Some(((-b + sd) * SCALE) / (2 * a))
            } else {
                Option::None
            }
        }
    }
}

impl Hitable for Sphere {
    open spec fn wf_spec(&self) -> bool {
        self.wf()
    }

    open spec fn hit_spec(&self, r: Ray) -> Option<int> {
        self.hit_model(r)
    }

    open spec fn color_spec(&self) -> Vec3 {
        self.material.color
    }

    fn hit(&self, r: &Ray) -> (res: Option<i128>) {
        let oc = r.p.diff(&self.center);
        let a = r.v.dot(&r.v);
        if a == 0 {
            return Option::None;
        }
        proof {
            lemma_dot_bound(r.v, r.v, 0x20000000, 0x20000000);
            assert(a >= 0) by (nonlinear_arith)
                requires
                    a == r.v.dot_spec(r.v),
            ;
            lemma_dot_bound(oc, r.v, 0x40000000, 0x20000000);
            lemma_dot_bound(oc, oc, 0x40000000, 0x40000000);
        }
        let dov = oc.dot(&r.v);
        let b = 2 * dov;
        let rad = self.radius as i128;
        proof {
            lemma_mul_bound(rad as int, rad as int, 0x20000000, 0x20000000);
        }
        let c = oc.dot(&oc) - rad * rad;
        proof {
            lemma_mul_bound(b as int, b as int, 0x4000000000000000, 0x4000000000000000);
            lemma_mul_bound(4 * a as int, c as int, 0x4000000000000000, 0x8000000000000000);
        }
        let disc = b * b - 4 * a * c;
        if disc <= 0 {
            return Option::None;
        }
        let sd = isqrt(disc);
        proof {
            if sd >= 0x8000000000000000 {
                lemma_square_monotone(0x8000000000000000, sd as int);
                assert(false);
            }
            lemma_mul_bound(
                (-b - sd) as int,
                SCALE as int,
                0x10000000000000000,
                0x10000,
            );
            lemma_mul_bound(
                (-b + sd) as int,
                SCALE as int,
                0x10000000000000000,
                0x10000,
            );
        }
        let two_a = 2 * a;
        let num_near = (-b - sd) * (SCALE as i128);
        if num_near > two_a {
            let t = num_near / two_a;
            proof {
                vstd::arithmetic::div_mod::lemma_div_is_ordered(
                    two_a as int,
                    num_near as int,
                    two_a as int,
                );
                vstd::arithmetic::div_mod::lemma_div_by_self(two_a as int);
            }
            return Option::Some(t);
        }
        let num_far = (-b + sd) * (SCALE as i128);
        if num_far > two_a {
            let t = num_far / two_a;
            proof {
                vstd::arithmetic::div_mod::lemma_div_is_ordered(
                    two_a as int,
                    num_far as int,
                    two_a as int,
                );
                vstd::arithmetic::div_mod::lemma_div_by_self(two_a as int);
            }
            return Option::Some(t);
        }
        Option::None
    }

    fn color(&self) -> (c: Vec3) {
        self.material.color
    }
}

/// An infinite plane given by a point on it and a normal.
#[derive(Clone, Copy, PartialEq, Eq, Structural, Debug)]
pub struct Plane {
    pub point: Point,
    pub normal: Vec3,
    pub material: Material,
}

impl Plane {
    pub open spec fn wf(self) -> bool {
        &&& self.point.wf()
        &&& self.normal.wf()
        &&& self.material.wf()
    }

    /// The well-formedness test, runnable.
    pub fn is_wf(&self) -> (b: bool)
        ensures
            b == self.wf(),
    {
        self.point.is_wf() && self.normal.is_wf() && self.material.color.is_wf()
    }

    /// `normal . direction`; the ray counts as parallel to the plane when
    /// this is within the epsilon (`|denom| < EPS` in world units scales to
    /// `|denom| < SCALE` here, as the dot product carries two fixed-point
    /// factors).
    pub open spec fn denom_spec(self, r: Ray) -> int {
        self.normal.dot_spec(r.v)
    }

    /// `normal . (point - origin)`, the numerator of the ray parameter.
    pub open spec fn num_spec(self, r: Ray) -> int {
        self.normal.dot_spec(self.point.minus_spec(r.p))
    }

    /// The model of `hit`: parallel rays miss; otherwise `t = num / denom`
    /// must exceed the epsilon `1/SCALE`, i.e. `n * SCALE > d` after making
    /// the denominator positive, and is reported rounded toward negative
    /// infinity in fixed-point steps.
    pub open spec fn hit_model(self, r: Ray) -> Option<int> {
        let denom = self.denom_spec(r);
        let num = self.num_spec(r);
        if -SCALE < denom < SCALE {
            Option::None
        } else {
            let nn = if denom > 0 { num } else { -num };
            let dd = if denom > 0 { denom } else { -denom };
            if nn * SCALE > dd {
                Option::Some((nn * SCALE) / dd)
            } else {
                Option::None
            }
        }
    }
}

impl Hitable for Plane {
    open spec fn wf_spec(&self) -> bool {
        self.wf()
    }

    open spec fn hit_spec(&self, r: Ray) -> Option<int> {
        self.hit_model(r)
    }

    open spec fn color_spec(&self) -> Vec3 {
        self.material.color
    }

    fn hit(&self, r: &Ray) -> (res: Option<i128>) {
        let denom = self.normal.dot(&r.v);
        if -(SCALE as i128) < denom && denom < SCALE as i128 {
            return Option::None;
        }
        let pmo = self.point.diff(&r.p);
        let num = self.normal.dot(&pmo);
        proof {
            lemma_dot_bound(self.normal, r.v, 0x20000000, 0x20000000);
            lemma_dot_bound(self.normal, self.point.minus_spec(r.p), 0x20000000, 0x40000000);
            lemma_mul_bound(num as int, SCALE as int, 0x2000000000000000, 0x10000);
        }
        let nn = if denom > 0 {
            num
        } else {
            -num
        };
        let dd = if denom > 0 {
            denom
        } else {
            -denom
        };
        let lhs = nn * (SCALE as i128);
        if lhs > dd {
            let t = lhs / dd;
            proof {
                vstd::arithmetic::div_mod::lemma_div_is_ordered(dd as int, lhs as int, dd as int);
                vstd::arithmetic::div_mod::lemma_div_by_self(dd as int);
            }
            Option::Some(t)
        } else {
            Option::None
        }
    }

    fn color(&self) -> (c: Vec3) {
        self.material.color
    }
}

/// The closed set of primitive kinds a scene can hold.
#[derive(Clone, Copy, PartialEq, Eq, Structural, Debug)]
pub enum Primitive {
    Sphere(Sphere),
    Plane(Plane),
}

impl Hitable for Primitive {
    open spec fn wf_spec(&self) -> bool {
        match *self {
            Primitive::Sphere(s) => s.wf(),
            Primitive::Plane(p) => p.wf(),
        }
    }

    open spec fn hit_spec(&self, r: Ray) -> Option<int> {
        match *self {
            Primitive::Sphere(s) => s.hit_model(r),
            Primitive::Plane(p) => p.hit_model(r),
        }
    }

    open spec fn color_spec(&self) -> Vec3 {
        match *self {
            Primitive::Sphere(s) => s.material.color,
            Primitive::Plane(p) => p.material.color,
        }
    }

    fn hit(&self, r: &Ray) -> (res: Option<i128>) {
        match self {
            Primitive::Sphere(s) => s.hit(r),
            Primitive::Plane(p) => p.hit(r),
        }
    }

    fn color(&self) -> (c: Vec3) {
        match self {
            Primitive::Sphere(s) => s.color(),
            Primitive::Plane(p) => p.color(),
        }
    }
}

/// A sphere that lies behind the ray is never hit: when the ray origin is
/// strictly outside the sphere and the direction does not point back toward
/// the center, `hit` reports a miss.
pub proof fn lemma_sphere_behind_misses(s: Sphere, r: Ray)
    requires
        r.p.minus_spec(s.center).dot_spec(r.v) >= 0,
        s.quad_c(r) > 0,
    ensures
        s.hit_model(r) is None,
{
    let a = s.quad_a(r);
    let b = s.quad_b(r);
    let c = s.quad_c(r);
    let disc = s.discriminant(r);
    assert(a >= 0) by (nonlinear_arith)
        requires
            a == r.v.dot_spec(r.v),
    ;
    if a != 0 && disc > 0 {
        assert(b >= 0);
        assert(4 * a * c > 0) by (nonlinear_arith)
            requires
                a > 0,
                c > 0,
        ;
        lemma_sqrt_floor_props(disc);
        let sd = sqrt_floor(disc);
        if sd >= b {
            lemma_square_monotone(b, sd);
            assert(false);
        }
        assert((-b - sd) * SCALE <= 0) by (nonlinear_arith)
            requires
                -b - sd <= 0,
                SCALE == 10000,
        ;
        assert((-b + sd) * SCALE <= 0) by (nonlinear_arith)
            requires
                -b + sd <= 0,
                SCALE == 10000,
        ;
    }
}

/// A ray aimed along the axis straight at a sphere's center hits the near
/// surface exactly: with a unit direction, a center at fixed-point distance
/// `d` ahead of the origin and `d` beyond `radius` by more than the epsilon,
/// the reported parameter is `d - radius`.
pub proof fn lemma_sphere_center_shot(s: Sphere, r: Ray)
    requires
        s.wf(),
        r.wf(),
        r.v.x == 0,
        r.v.y == 0,
        r.v.z == -SCALE,
        s.center.x == r.p.x,
        s.center.y == r.p.y,
        1 <= s.radius,
        s.radius + 2 <= r.p.z - s.center.z,
    ensures
        s.hit_model(r) == Option::Some(r.p.z - s.center.z - s.radius),
{
    let dz = r.p.z - s.center.z;
    let rad = s.radius as int;
    let a = s.quad_a(r);
    let b = s.quad_b(r);
    let c = s.quad_c(r);
    let disc = s.discriminant(r);
    let oc = r.p.minus_spec(s.center);
    assert(oc.x == 0 && oc.y == 0 && oc.z == dz);
    assert(a == 100000000) by (nonlinear_arith)
        requires
            a == r.v.x * r.v.x + r.v.y * r.v.y + r.v.z * r.v.z,
            r.v.x == 0,
            r.v.y == 0,
            r.v.z == -10000,
    ;
    assert(b == -20000 * dz) by (nonlinear_arith)
        requires
            b == 2 * (oc.x * r.v.x + oc.y * r.v.y + oc.z * r.v.z),
            oc.x == 0,
            oc.y == 0,
            oc.z == dz,
            r.v.x == 0,
            r.v.y == 0,
            r.v.z == -10000,
    ;
    assert(c == dz * dz - rad * rad) by (nonlinear_arith)
        requires
            c == oc.x * oc.x + oc.y * oc.y + oc.z * oc.z - rad * rad,
            oc.x == 0,
            oc.y == 0,
            oc.z == dz,
    ;
    assert(disc == 400000000 * (rad * rad)) by (nonlinear_arith)
        requires
            b == -20000 * dz,
            a == 100000000,
            c == dz * dz - rad * rad,
            disc == b * b - 4 * a * c,
    ;
    assert(rad * rad >= 1) by (nonlinear_arith)
        requires
            rad >= 1,
    ;
    assert(disc > 0);
    let w = 20000 * rad;
    assert(w * w == disc && disc < (w + 1) * (w + 1)) by (nonlinear_arith)
        requires
            disc == 400000000 * (rad * rad),
            w == 20000 * rad,
            rad >= 1,
    ;
    lemma_sqrt_floor_is(disc, w);
    let numn = (-b - w) * SCALE;
    assert(numn == 200000000 * (dz - rad)) by (nonlinear_arith)
        requires
            b == -20000 * dz,
            w == 20000 * rad,
            numn == (-b - w) * SCALE,
            SCALE == 10000,
    ;
    assert(numn > 2 * a);
    vstd::arithmetic::div_mod::lemma_div_multiples_vanish(dz - rad, 200000000);
    assert(numn / (2 * a) == dz - rad);
}

/// A ray parallel to a plane (`direction . normal == 0`) never hits it,
/// whatever the plane's offset from the ray.
pub proof fn lemma_plane_parallel_misses(pl: Plane, r: Ray)
    requires
        pl.normal.dot_spec(r.v) == 0,
    ensures
        pl.hit_model(r) is None,
{
}

/// The outcome of a nearest-hit query: the winning ray parameter and the
/// index of the winning object in the scene's list.
#[derive(Clone, Copy, PartialEq, Eq, Structural, Debug)]
pub struct HitRecord {
    pub t: i128,
    pub obj_index: usize,
}

} // verus!
