use vstd::prelude::*;

use crate::fixed::BOUND;
use crate::fixed::SCALE;
use crate::fixed::SQRT_DOMAIN;
use crate::fixed::floor_div;

verus! {

/// Ray parameters handed to `Ray::t` must stay below this bound so that
/// `t * v` stays inside `isqrt`'s domain: 2^96.
pub const T_LIMIT: i128 = 0x1000000000000000000000000;

/// A displacement or direction in fixed-point world coordinates.
#[derive(Clone, Copy, PartialEq, Eq, Structural, Debug)]
pub struct Vec3 {
    pub x: i64,
    pub y: i64,
    pub z: i64,
}

/// A position, represented like a displacement.
pub type Point = Vec3;

impl Vec3 {
    /// Every component small enough that the intersection math stays in range.
    pub open spec fn wf(self) -> bool {
        &&& -BOUND <= self.x <= BOUND
        &&& -BOUND <= self.y <= BOUND
        &&& -BOUND <= self.z <= BOUND
    }

    /// The well-formedness test, runnable.
    pub fn is_wf(&self) -> (b: bool)
        ensures
            b == self.wf(),
    {
        -BOUND <= self.x && self.x <= BOUND && -BOUND <= self.y && self.y <= BOUND && -BOUND
            <= self.z && self.z <= BOUND
    }

    /// The mathematical dot product of two fixed-point vectors.
    pub open spec fn dot_spec(self, o: Vec3) -> int {
        self.x * o.x + self.y * o.y + self.z * o.z
    }

    /// The componentwise difference, as a value (components must fit `i64`).
    pub open spec fn minus_spec(self, o: Vec3) -> Vec3 {
        Vec3 { x: (self.x - o.x) as i64, y: (self.y - o.y) as i64, z: (self.z - o.z) as i64 }
    }

    pub fn new(x: i64, y: i64, z: i64) -> (v: Vec3)
        ensures
            v == (Vec3 { x, y, z }),
    {
        Vec3 { x, y, z }
    }

    /// Componentwise subtraction.
    pub fn diff(&self, o: &Vec3) -> (r: Vec3)
        requires
            self.wf(),
            o.wf(),
        ensures
            r == self.minus_spec(*o),
            r.x == self.x - o.x,
            r.y == self.y - o.y,
            r.z == self.z - o.z,
    {
        Vec3 { x: self.x - o.x, y: self.y - o.y, z: self.z - o.z }
    }

    /// The dot product, computed in `i128`.
    pub fn dot(&self, o: &Vec3) -> (r: i128)
        requires
            -2 * BOUND <= self.x <= 2 * BOUND,
            -2 * BOUND <= self.y <= 2 * BOUND,
            -2 * BOUND <= self.z <= 2 * BOUND,
            -2 * BOUND <= o.x <= 2 * BOUND,
            -2 * BOUND <= o.y <= 2 * BOUND,
            -2 * BOUND <= o.z <= 2 * BOUND,
        ensures
            r == self.dot_spec(*o),
    {
        let ax = self.x as i128;
        let ay = self.y as i128;
        let az = self.z as i128;
        let bx = o.x as i128;
        let by = o.y as i128;
        let bz = o.z as i128;
        proof {
            assert(2 * BOUND == 0x40000000int);
            crate::fixed::lemma_mul_bound(ax as int, bx as int, 0x40000000, 0x40000000);
            crate::fixed::lemma_mul_bound(ay as int, by as int, 0x40000000, 0x40000000);
            crate::fixed::lemma_mul_bound(az as int, bz as int, 0x40000000, 0x40000000);
            assert(0x40000000int * 0x40000000int == 0x1000000000000000int);
        }
        ax * bx + ay * by + az * bz
    }
}

/// Each product of components of `a` and `b` is within `ma * mb`, so the dot
/// product is within `3 * ma * mb`.
pub proof fn lemma_dot_bound(a: Vec3, b: Vec3, ma: int, mb: int)
    by (nonlinear_arith)
    requires
        0 <= ma,
        0 <= mb,
        -ma <= a.x <= ma,
        -ma <= a.y <= ma,
        -ma <= a.z <= ma,
        -mb <= b.x <= mb,
        -mb <= b.y <= mb,
        -mb <= b.z <= mb,
    ensures
        -3 * ma * mb <= a.dot_spec(b) <= 3 * ma * mb,
{
}

/// The origin of world coordinates.
pub fn zero_point() -> (p: Point)
    ensures
        p == (Point { x: 0, y: 0, z: 0 }),
{
    Point { x: 0, y: 0, z: 0 }
}

/// A parametric ray: `origin + t * direction`. The direction need not be a
/// unit vector, and the intersection math never assumes it is.
#[derive(Clone, Copy, PartialEq, Eq, Structural, Debug)]
pub struct Ray {
    pub p: Point,
    pub v: Vec3,
}

impl Ray {
    pub open spec fn wf(self) -> bool {
        self.p.wf() && self.v.wf()
    }

    pub fn new(origin: Point, dir: Vec3) -> (r: Ray)
        ensures
            r.p == origin,
            r.v == dir,
    {
        Ray { p: origin, v: dir }
    }

    /// Where the ray point with parameter `t` lies on a given axis:
    /// `origin + (t * direction) / SCALE`, rounded toward negative infinity.
    pub open spec fn at_spec(self, t: int, p_axis: int, v_axis: int) -> int {
        p_axis + (t * v_axis) / (SCALE as int)
    }

    /// The point at ray parameter `t` (a fixed-point value: `t == SCALE`
    /// is one direction-vector length along the ray).
    pub fn t(&self, t: i128) -> (pt: Point)
        requires
            self.wf(),
            -T_LIMIT < t < T_LIMIT,
            i64::MIN <= self.at_spec(t as int, self.p.x as int, self.v.x as int) <= i64::MAX,
            i64::MIN <= self.at_spec(t as int, self.p.y as int, self.v.y as int) <= i64::MAX,
            i64::MIN <= self.at_spec(t as int, self.p.z as int, self.v.z as int) <= i64::MAX,
        ensures
            pt.x == self.at_spec(t as int, self.p.x as int, self.v.x as int),
            pt.y == self.at_spec(t as int, self.p.y as int, self.v.y as int),
            pt.z == self.at_spec(t as int, self.p.z as int, self.v.z as int),
    {
        let x = self.p.x as i128 + self.axis_step(t, self.v.x);
        let y = self.p.y as i128 + self.axis_step(t, self.v.y);
        let z = self.p.z as i128 + self.axis_step(t, self.v.z);
        Point { x: x as i64, y: y as i64, z: z as i64 }
    }

    /// `(t * v_axis) / SCALE`, rounded toward negative infinity.
    fn axis_step(&self, t: i128, v_axis: i64) -> (s: i128)
        requires
            -2 * BOUND <= v_axis <= 2 * BOUND,
            -T_LIMIT < t < T_LIMIT,
        ensures
            s == (t as int * v_axis as int) / (SCALE as int),
    {
        proof {
            assert(-SQRT_DOMAIN < t * v_axis < SQRT_DOMAIN) by (nonlinear_arith)
                requires
                    -T_LIMIT < t < T_LIMIT,
                    -2 * BOUND <= v_axis <= 2 * BOUND,
                    T_LIMIT == 0x1000000000000000000000000,
                    SQRT_DOMAIN == 0x40000000000000000000000000000000,
                    BOUND == 536870912,
            ;
        }
        floor_div(t * (v_axis as i128), SCALE as i128)
    }
}

impl Default for Ray {
    /// The degenerate ray at the origin with a zero direction.
    fn default() -> (r: Ray)
        ensures
            r.p == (Point { x: 0, y: 0, z: 0 }),
            r.v == (Vec3 { x: 0, y: 0, z: 0 }),
    {
        Ray { p: Point { x: 0, y: 0, z: 0 }, v: Vec3 { x: 0, y: 0, z: 0 } }
    }
}

} // verus!
