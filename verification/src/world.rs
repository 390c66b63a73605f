use vstd::prelude::*;

use crate::fixed::BOUND;
use crate::fixed::SCALE;
use crate::hitable::Hitable;
use crate::hitable::Plane;
use crate::hitable::Primitive;
use crate::hitable::Sphere;
use crate::material::Material;
use crate::ray::Point;
use crate::ray::Vec3;

verus! {

/// The virtual image plane: pixel counts, the world-space size of one pixel,
/// and its position along the viewing axis.
#[derive(Clone, Copy, PartialEq, Eq, Structural, Debug)]
pub struct ViewPlane {
    pub hres: u32,
    pub vres: u32,
    pub pixel_size: i64,
    pub z: i64,
}

impl ViewPlane {
    /// Small enough that every pixel center and sub-pixel sample the tracer
    /// derives from this plane stays a well-formed coordinate.
    pub open spec fn wf(self) -> bool {
        &&& 0 <= self.pixel_size
        &&& self.hres <= 65536
        &&& self.vres <= 65536
        &&& self.pixel_size * (self.hres + 2) <= BOUND / 2
        &&& self.pixel_size * (self.vres + 2) <= BOUND / 2
        &&& -BOUND <= self.z <= BOUND
    }

    /// The well-formedness test, runnable.
    pub fn is_wf(&self) -> (b: bool)
        ensures
            b == self.wf(),
    {
        if self.pixel_size < 0 || self.hres > 65536 || self.vres > 65536 {
            return false;
        }
        proof {
            crate::fixed::lemma_mul_bound(
                self.pixel_size as int,
                self.hres as int + 2,
                0x8000000000000000,
                0x10002,
            );
            crate::fixed::lemma_mul_bound(
                self.pixel_size as int,
                self.vres as int + 2,
                0x8000000000000000,
                0x10002,
            );
        }
        let ps = self.pixel_size as i128;
        ps * (self.hres as i128 + 2) <= (BOUND / 2) as i128 && ps * (self.vres as i128 + 2) <= (
        BOUND / 2) as i128 && -BOUND <= self.z && self.z <= BOUND
    }
}

/// The scene: the view plane, the ordered list of primitives, and the
/// background color rays that hit nothing resolve to.
pub struct World {
    pub view_plane: ViewPlane,
    pub objects: Vec<Primitive>,
    pub background_color: Vec3,
}

impl World {
    pub open spec fn wf(self) -> bool {
        &&& self.view_plane.wf()
        &&& self.background_color.wf()
        &&& forall|i: int|
            0 <= i < self.objects@.len() ==> (#[trigger] self.objects@[i]).wf_spec()
    }

    /// The well-formedness test, runnable.
    pub fn is_wf(&self) -> (b: bool)
        ensures
            b == self.wf(),
    {
        if !self.view_plane.is_wf() {
            return false;
        }
        if !self.background_color.is_wf() {
            return false;
        }
        let n = self.objects.len();
        for i in 0..n
            invariant
                n == self.objects@.len(),
                forall|a: int| 0 <= a < i ==> (#[trigger] self.objects@[a]).wf_spec(),
        {
            let ok = match self.objects[i] {
                Primitive::Sphere(s) => s.is_wf(),
                Primitive::Plane(p) => p.is_wf(),
            };
            if !ok {
                return false;
            }
        }
        true
    }

    /// The demonstration scene: two spheres and a plane in front of a gray
    /// background on a 200 x 200 view plane.
    pub fn demo() -> (w: World)
        ensures
            w.wf(),
            w.view_plane == (ViewPlane { hres: 200, vres: 200, pixel_size: 10000, z: 1000000 }),
            w.background_color == (Vec3 { x: 5000, y: 5000, z: 5000 }),
            w.objects@.len() == 3,
            w.objects@[0] == Primitive::Sphere(
                Sphere {
                    center: Point { x: 0, y: -250000i64, z: 0 },
                    radius: 800000,
                    material: Material { color: Vec3 { x: 10000, y: 10000, z: 0 } },
                },
            ),
            w.objects@[1] == Primitive::Sphere(
                Sphere {
                    center: Point { x: 0, y: 300000, z: 0 },
                    radius: 600000,
                    material: Material { color: Vec3 { x: 0, y: 10000, z: 5000 } },
                },
            ),
            w.objects@[2] == Primitive::Plane(
                Plane {
                    point: Point { x: 0, y: 100000, z: 0 },
                    normal: Vec3 { x: 0, y: 0, z: -10000i64 },
                    material: Material { color: Vec3 { x: 0, y: 0, z: 10000 } },
                },
            ),
    {
        let mut objects: Vec<Primitive> = Vec::new();
        let mat1 = Material { color: Vec3 { x: 10000, y: 10000, z: 0 } };
        let mat2 = Material { color: Vec3 { x: 0, y: 10000, z: 5000 } };
        let mat3 = Material { color: Vec3 { x: 0, y: 0, z: 10000 } };
        objects.push(
            Primitive::Sphere(
                Sphere {
                    center: Point { x: 0, y: -250000, z: 0 },
                    radius: 800000,
                    material: mat1,
                },
            ),
        );
        objects.push(
            Primitive::Sphere(
                Sphere {
                    center: Point { x: 0, y: 300000, z: 0 },
                    radius: 600000,
                    material: mat2,
                },
            ),
        );
        objects.push(
            Primitive::Plane(
                Plane {
                    point: Point { x: 0, y: 100000, z: 0 },
                    normal: Vec3 { x: 0, y: 0, z: -10000 },
                    material: mat3,
                },
            ),
        );
        World {
            view_plane: ViewPlane { hres: 200, vres: 200, pixel_size: 10000, z: 1000000 },
            objects,
            background_color: Vec3 { x: 5000, y: 5000, z: 5000 },
        }
    }

    /// Moves the view plane along the viewing axis.
    pub fn move_in_z(&mut self, step: i64)
        requires
            i64::MIN <= old(self).view_plane.z + step <= i64::MAX,
        ensures
            final(self).view_plane.z == old(self).view_plane.z + step,
            final(self).view_plane.hres == old(self).view_plane.hres,
            final(self).view_plane.vres == old(self).view_plane.vres,
            final(self).view_plane.pixel_size == old(self).view_plane.pixel_size,
            final(self).objects@ == old(self).objects@,
            final(self).background_color == old(self).background_color,
    {
        self.view_plane.z = self.view_plane.z + step;
    }

    /// Grows or shrinks the world-space size of one pixel. No lower bound is
    /// enforced; callers must keep the size positive themselves.
    pub fn change_pixel_size(&mut self, step: i64)
        requires
            i64::MIN <= old(self).view_plane.pixel_size + step <= i64::MAX,
        ensures
            final(self).view_plane.pixel_size == old(self).view_plane.pixel_size + step,
            final(self).view_plane.hres == old(self).view_plane.hres,
            final(self).view_plane.vres == old(self).view_plane.vres,
            final(self).view_plane.z == old(self).view_plane.z,
            final(self).objects@ == old(self).objects@,
            final(self).background_color == old(self).background_color,
    {
        self.view_plane.pixel_size = self.view_plane.pixel_size + step;
    }

    /// Scales both resolutions by a fixed-point factor, truncating. The
    /// caller must resize the output buffer before the next trace.
    pub fn change_resolution(&mut self, factor: i64)
        requires
            0 <= factor,
            old(self).view_plane.hres * factor / (SCALE as int) <= u32::MAX,
            old(self).view_plane.vres * factor / (SCALE as int) <= u32::MAX,
        ensures
            final(self).view_plane.hres == old(self).view_plane.hres * factor / (SCALE as int),
            final(self).view_plane.vres == old(self).view_plane.vres * factor / (SCALE as int),
            final(self).view_plane.pixel_size == old(self).view_plane.pixel_size,
            final(self).view_plane.z == old(self).view_plane.z,
            final(self).objects@ == old(self).objects@,
            final(self).background_color == old(self).background_color,
    {
        proof {
            crate::fixed::lemma_mul_bound(
                old(self).view_plane.hres as int,
                factor as int,
                0x100000000,
                0x8000000000000000,
            );
            crate::fixed::lemma_mul_bound(
                old(self).view_plane.vres as int,
                factor as int,
                0x100000000,
                0x8000000000000000,
            );
            vstd::arithmetic::div_mod::lemma_div_pos_is_pos(
                old(self).view_plane.hres as int * factor as int,
                SCALE as int,
            );
            vstd::arithmetic::div_mod::lemma_div_pos_is_pos(
                old(self).view_plane.vres as int * factor as int,
                SCALE as int,
            );
            vstd::arithmetic::mul::lemma_mul_nonnegative(
                old(self).view_plane.hres as int,
                factor as int,
            );
            vstd::arithmetic::mul::lemma_mul_nonnegative(
                old(self).view_plane.vres as int,
                factor as int,
            );
        }
        let nh = (self.view_plane.hres as i128) * (factor as i128) / (SCALE as i128);
        let nv = (self.view_plane.vres as i128) * (factor as i128) / (SCALE as i128);
        self.view_plane.hres = nh as u32;
        self.view_plane.vres = nv as u32;
    }

    /// The current pixel resolution, horizontal first.
    pub fn get_resolution(&self) -> (r: (u32, u32))
        ensures
            r.0 == self.view_plane.hres,
            r.1 == self.view_plane.vres,
    {
        (self.view_plane.hres, self.view_plane.vres)
    }
}

/// Resizes the output buffer to match a resolution: entries beyond the old
/// length are zero, the overlapping prefix is kept.
pub fn recreate_buffer(buff: &mut Vec<u32>, dim: (u32, u32))
    requires
        dim.0 * dim.1 <= u32::MAX,
    ensures
        final(buff)@.len() == dim.0 * dim.1,
        forall|i: int|
            0 <= i < final(buff)@.len() && i < old(buff)@.len() ==> final(buff)@[i] == old(
                buff,
            )@[i],
        forall|i: int|
            old(buff)@.len() <= i < final(buff)@.len() ==> final(buff)@[i] == 0,
{
    let n = (dim.0 as usize) * (dim.1 as usize);
    let ghost orig = buff@;
    while buff.len() > n
        invariant
            forall|i: int| 0 <= i < buff@.len() && i < orig.len() ==> buff@[i] == orig[i],
            buff@.len() <= orig.len(),
            buff@.len() >= n || buff@.len() == orig.len(),
        decreases buff.len(),
    {
        buff.pop();
    }
    while buff.len() < n
        invariant
            buff@.len() <= n,
            orig.len() <= buff@.len() || buff@.len() == n,
            forall|i: int| 0 <= i < buff@.len() && i < orig.len() ==> buff@[i] == orig[i],
            forall|i: int| orig.len() <= i < buff@.len() ==> buff@[i] == 0,
        decreases n - buff.len(),
    {
        let ghost prev = buff@;
        buff.push(0u32);
        proof {
            assert(buff@ == prev.push(0u32));
            assert forall|i: int| 0 <= i < prev.len() implies buff@[i] == prev[i] by {
                assert(buff@[i] == prev.push(0u32)[i]);
            }
        }
    }
}

} // verus!
