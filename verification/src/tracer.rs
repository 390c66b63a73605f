use vstd::prelude::*;

use crate::fixed::floor_div;
use crate::fixed::BOUND;
use crate::fixed::SCALE;
use crate::hitable::HitRecord;
use crate::hitable::Hitable;
use crate::hitable::Primitive;
use crate::ray::Point;
use crate::ray::Ray;
use crate::ray::Vec3;
use crate::sampler::any_after_set;
use crate::sampler::sample_shape;
use crate::sampler::AnySampler;
use crate::world::ViewPlane;
use crate::world::World;

verus! {

/// The nearest hit over a scene prefix: the index of the first object in
/// scene order whose ray parameter is minimal, with that parameter. A later
/// object wins only with a strictly smaller parameter, so ties resolve to
/// the earliest object.
pub open spec fn first_hit(objs: Seq<Primitive>, r: Ray) -> Option<(int, int)>
    decreases objs.len(),
{
    if objs.len() == 0 {
        Option::None
    } else {
        let prev = first_hit(objs.drop_last(), r);
        match objs.last().hit_spec(r) {
            Option::None => prev,
            Option::Some(t) => match prev {
                Option::None => Option::Some((objs.len() - 1, t)),
                Option::Some(ph) => if t < ph.1 {
                    Option::Some((objs.len() - 1, t))
                } else {
                    prev
                },
            },
        }
    }
}

/// A reported nearest hit names a real object and its real hit parameter.
pub proof fn lemma_first_hit_some(objs: Seq<Primitive>, r: Ray)
    ensures
        match first_hit(objs, r) {
            Option::None => true,
            Option::Some(h) => 0 <= h.0 < objs.len() && objs[h.0].hit_spec(r) == Option::Some(
                h.1,
            ),
        },
    decreases objs.len(),
{
    if objs.len() > 0 {
        lemma_first_hit_some(objs.drop_last(), r);
    }
}

/// The color one ray resolves to: the nearest-hit object's flat color, or
/// the background color when no object is hit.
pub open spec fn cast_color(objs: Seq<Primitive>, bg: Vec3, r: Ray) -> Vec3 {
    match first_hit(objs, r) {
        Option::None => bg,
        Option::Some(h) => objs[h.0].color_spec(),
    }
}

/// One color channel scaled to the byte range: `255 * c / SCALE`,
/// truncating; components below 0 or above SCALE are clamped first (packing
/// clamps out-of-range colors rather than letting them wrap).
pub open spec fn channel_spec(c: int) -> int {
    if c < 0 {
        0
    } else if c > SCALE {
        255
    } else {
        255 * c / (SCALE as int)
    }
}

/// Three channels packed into one value: red in bits 16 to 23, green in
/// bits 8 to 15, blue in bits 0 to 7.
pub open spec fn pack3(x: int, y: int, z: int) -> int {
    channel_spec(x) * 65536 + channel_spec(y) * 256 + channel_spec(z)
}

/// One channel, clamped and scaled.
fn channel_val(c: i128) -> (v: u32)
    ensures
        v == channel_spec(c as int),
        v <= 255,
{
    if c < 0 {
        0
    } else if c > SCALE as i128 {
        255
    } else {
        proof {
            vstd::arithmetic::div_mod::lemma_div_pos_is_pos(255 * c as int, SCALE as int);
            vstd::arithmetic::div_mod::lemma_div_is_ordered(
                255 * c as int,
                2550000,
                SCALE as int,
            );
        }
        ((255 * c) / (SCALE as i128)) as u32
    }
}

/// Three channels packed into `0x00RRGGBB`.
fn pack_channels(x: i128, y: i128, z: i128) -> (v: u32)
    ensures
        v == pack3(x as int, y as int, z as int),
{
    channel_val(x) * 65536 + channel_val(y) * 256 + channel_val(z)
}

/// A color packed into `0x00RRGGBB`, clamping out-of-range components.
pub fn color_to_u32(c: &Vec3) -> (v: u32)
    ensures
        v == pack3(c.x as int, c.y as int, c.z as int),
{
    pack_channels(c.x as i128, c.y as i128, c.z as i128)
}

/// The orthographic ray through a sample coordinate: its origin lies on the
/// view plane, its direction is one unit along the negative viewing axis.
pub open spec fn sample_ray(co: (i64, i64), z: i64) -> Ray {
    Ray { p: Point { x: co.0, y: co.1, z }, v: Vec3 { x: 0, y: 0, z: -10000i64 } }
}

/// The view-plane center of pixel column `i`:
/// `pixel_size * (i - (hres - 1) / 2)` in fixed point.
pub open spec fn pixel_center_x(vp: ViewPlane, i: int) -> int {
    (vp.pixel_size * (2 * i - vp.hres + 1)) / 2
}

/// The view-plane center of pixel row `j`.
pub open spec fn pixel_center_y(vp: ViewPlane, j: int) -> int {
    (vp.pixel_size * (2 * j - vp.vres + 1)) / 2
}

/// The componentwise sum of the colors a sample list resolves to.
pub open spec fn color_sum(objs: Seq<Primitive>, bg: Vec3, z: i64, smp: Seq<(i64, i64)>) -> (
    int,
    int,
    int,
)
    decreases smp.len(),
{
    if smp.len() == 0 {
        (0int, 0int, 0int)
    } else {
        let rest = color_sum(objs, bg, z, smp.drop_last());
        let c = cast_color(objs, bg, sample_ray(smp.last(), z));
        (rest.0 + c.x, rest.1 + c.y, rest.2 + c.z)
    }
}

/// The packed average color of one pixel: component sums divided by the
/// number of samples actually produced (the background when there are
/// none), truncated toward negative infinity, clamped and packed.
pub open spec fn pixel_value(world: World, smp: Seq<(i64, i64)>) -> int {
    if smp.len() == 0 {
        pack3(
            world.background_color.x as int,
            world.background_color.y as int,
            world.background_color.z as int,
        )
    } else {
        let s = color_sum(world.objects@, world.background_color, world.view_plane.z, smp);
        let n = smp.len() as int;
        pack3(s.0 / n, s.1 / n, s.2 / n)
    }
}

/// One rendered pixel holds the packed average over some sample list of the
/// sampler's shape for that pixel.
pub open spec fn pixel_ok(world: World, s: AnySampler, val: u32, i: int, j: int) -> bool {
    exists|smp: Seq<(i64, i64)>|
        #[trigger] sample_shape(
            s,
            world.view_plane.pixel_size as int,
            pixel_center_x(world.view_plane, i),
            pixel_center_y(world.view_plane, j),
            smp,
        ) && val == pixel_value(world, smp)
}

/// The ray-casting renderer: owns the sampling strategy it traces with.
pub struct Caster {
    pub sampler: AnySampler,
}

impl Caster {
    /// Resolves one ray against every object in the scene. The object with
    /// the smallest valid hit parameter colors the ray; ties go to the
    /// earliest object in scene order; no hit yields the background color.
    pub fn cast_ray(&self, world: &World, r: &Ray) -> (c: Vec3)
        requires
            world.wf(),
            r.wf(),
        ensures
            c == cast_color(world.objects@, world.background_color, *r),
            c.wf(),
    {
        let ghost objs = world.objects@;
        let mut rec: Option<HitRecord> = Option::None;
        let n = world.objects.len();
        for idx in 0..n
            invariant
                world.wf(),
                r.wf(),
                n == objs.len(),
                objs == world.objects@,
                match rec {
                    Option::None => first_hit(objs.take(idx as int), *r) is None,
                    Option::Some(h) => {
                        &&& h.obj_index < idx
                        &&& first_hit(objs.take(idx as int), *r) == Option::Some(
                            (h.obj_index as int, h.t as int),
                        )
                    },
                },
        {
            let obj = world.objects[idx];
            proof {
                assert(objs[idx as int].wf_spec());
            }
            let h = obj.hit(r);
            match h {
                Option::Some(t) => {
                    let replace = match rec {
                        Option::None => true,
                        Option::Some(hr) => t < hr.t,
                    };
                    if replace {
                        rec = Option::Some(HitRecord { t, obj_index: idx });
                    }
                },
                Option::None => {},
            }
            proof {
                assert(objs.take(idx as int + 1).drop_last() =~= objs.take(idx as int));
                assert(objs.take(idx as int + 1).last() == objs[idx as int]);
            }
        }
        proof {
            assert(objs.take(n as int) =~= objs);
        }
        match rec {
            Option::Some(h) => {
                let obj = world.objects[h.obj_index];
                obj.color()
            },
            Option::None => world.background_color,
        }
    }
}

/// `pixel_center_x`/`pixel_center_y`, computed exactly: the center of pixel
/// `idx` of `count` on one axis.
fn pixel_center_val(ps: i64, count: u32, idx: u32) -> (x: i64)
    requires
        0 <= ps,
        count <= 65536,
        idx < count,
        ps * (count + 2) <= BOUND / 2,
    ensures
        x == (ps * (2 * idx - count + 1)) / 2,
        -134217728 <= x <= 134217728,
{
    proof {
        assert(-268435456 <= ps * (2 * idx - count + 1) <= 268435456) by (nonlinear_arith)
            requires
                0 <= ps,
                0 <= idx < count,
                count <= 65536,
                ps * (count + 2) <= 268435456,
        ;
    }
    let num = (ps as i128) * (2 * (idx as i128) - (count as i128) + 1);
    let q = floor_div(num, 2);
    proof {
        vstd::arithmetic::div_mod::lemma_div_is_ordered(-268435456, num as int, 2);
        vstd::arithmetic::div_mod::lemma_div_is_ordered(num as int, 268435456, 2);
    }
    q as i64
}

/// Every resolved color is well-formed, so the component sums of a sample
/// list stay within `len * BOUND`.
pub proof fn lemma_color_sum_bounds(objs: Seq<Primitive>, bg: Vec3, z: i64, smp: Seq<(i64, i64)>)
    requires
        bg.wf(),
        forall|i: int| 0 <= i < objs.len() ==> (#[trigger] objs[i]).wf_spec(),
    ensures
        -(smp.len() * BOUND) <= color_sum(objs, bg, z, smp).0 <= smp.len() * BOUND,
        -(smp.len() * BOUND) <= color_sum(objs, bg, z, smp).1 <= smp.len() * BOUND,
        -(smp.len() * BOUND) <= color_sum(objs, bg, z, smp).2 <= smp.len() * BOUND,
    decreases smp.len(),
{
    if smp.len() > 0 {
        lemma_color_sum_bounds(objs, bg, z, smp.drop_last());
        let c = cast_color(objs, bg, sample_ray(smp.last(), z));
        assert(c.wf()) by {
            lemma_first_hit_some(objs, sample_ray(smp.last(), z));
        }
        assert(smp.len() * BOUND == (smp.len() - 1) * BOUND + BOUND) by (nonlinear_arith);
    }
}

impl Caster {
    /// Renders the scene: for every pixel, asks the sampler for sub-pixel
    /// coordinates, casts one orthographic ray per sample, averages the
    /// resolved colors over the number of samples actually produced, and
    /// packs the result into the row-major buffer at `j * hres + i`.
    pub fn trace(&mut self, world: &World, buff: &mut Vec<u32>)
        requires
            world.wf(),
            old(self).sampler.wf_spec(),
            old(buff)@.len() == world.view_plane.hres * world.view_plane.vres,
        ensures
            final(buff)@.len() == old(buff)@.len(),
            final(self).sampler.wf_spec(),
            old(self).sampler.same_shape(final(self).sampler),
            forall|i: int, j: int|
                0 <= i < world.view_plane.hres && 0 <= j < world.view_plane.vres
                    ==> #[trigger] pixel_ok(
                    *world,
                    old(self).sampler,
                    final(buff)@[j * world.view_plane.hres + i],
                    i,
                    j,
                ),
    {
        let ghost s0 = self.sampler;
        let vp = world.view_plane;
        let hres = vp.hres;
        let vres = vp.vres;
        let ps = vp.pixel_size;
        let z = vp.z;
        proof {
            assert(ps <= 134217728) by (nonlinear_arith)
                requires
                    0 <= ps,
                    0 <= vp.hres,
                    ps * (vp.hres + 2) <= 268435456,
            ;
        }
        for j in 0..vres
            invariant
                world.wf(),
                vp == world.view_plane,
                hres == vp.hres,
                vres == vp.vres,
                ps == vp.pixel_size,
                z == vp.z,
                0 <= ps <= 134217728,
                self.sampler.wf_spec(),
                s0.same_shape(self.sampler),
                s0.wf_spec(),
                buff@.len() == hres * vres,
                forall|ii: int, jj: int|
                    0 <= ii < hres && 0 <= jj < j ==> #[trigger] pixel_ok(
                        *world,
                        s0,
                        buff@[jj * hres + ii],
                        ii,
                        jj,
                    ),
        {
            for i in 0..hres
                invariant
                    world.wf(),
                    vp == world.view_plane,
                    hres == vp.hres,
                    vres == vp.vres,
                    ps == vp.pixel_size,
                    z == vp.z,
                    0 <= ps <= 134217728,
                    j < vres,
                    self.sampler.wf_spec(),
                    s0.same_shape(self.sampler),
                    s0.wf_spec(),
                    buff@.len() == hres * vres,
                    forall|ii: int, jj: int|
                        0 <= ii < hres && 0 <= jj < j ==> #[trigger] pixel_ok(
                            *world,
                            s0,
                            buff@[jj * hres + ii],
                            ii,
                            jj,
                        ),
                    forall|ii: int|
                        0 <= ii < i ==> #[trigger] pixel_ok(
                            *world,
                            s0,
                            buff@[j * hres + ii],
                            ii,
                            j as int,
                        ),
            {
                let px = pixel_center_val(ps, hres, i);
                let py = pixel_center_val(ps, vres, j);
                let ghost pre_sampler = self.sampler;
                let smp = self.sampler.sample(ps, (px, py));
                let ghost smpseq = smp@;
                proof {
                    crate::sampler::lemma_same_shape_shape(
                        s0,
                        pre_sampler,
                        ps as int,
                        px as int,
                        py as int,
                        smpseq,
                    );
                    crate::sampler::lemma_same_shape_trans(s0, pre_sampler, self.sampler);
                    assert(pre_sampler.window_spec() * pre_sampler.window_spec() <= 225) by {
                        crate::fixed::lemma_mul_bound(
                            pre_sampler.window_spec(),
                            pre_sampler.window_spec(),
                            15,
                            15,
                        );
                    }
                }
                let count = smp.len();
                let mut sx: i64 = 0;
                let mut sy: i64 = 0;
                let mut sz: i64 = 0;
                for m in 0..count
                    invariant
                        world.wf(),
                        smpseq == smp@,
                        count == smp@.len(),
                        count <= 225,
                        z == world.view_plane.z,
                        -BOUND <= z <= BOUND,
                        forall|a: int|
                            0 <= a < smp@.len() ==> {
                                &&& -BOUND <= (#[trigger] smp@[a]).0 <= BOUND
                                &&& -BOUND <= smp@[a].1 <= BOUND
                            },
                        sx == color_sum(
                            world.objects@,
                            world.background_color,
                            z,
                            smp@.take(m as int),
                        ).0,
                        sy == color_sum(
                            world.objects@,
                            world.background_color,
                            z,
                            smp@.take(m as int),
                        ).1,
                        sz == color_sum(
                            world.objects@,
                            world.background_color,
                            z,
                            smp@.take(m as int),
                        ).2,
                {
                    let co = smp[m];
                    let ray = Ray {
                        p: Point { x: co.0, y: co.1, z },
                        v: Vec3 { x: 0, y: 0, z: -10000 },
                    };
                    proof {
                        assert(ray == sample_ray(smp@[m as int], z));
                        assert(smp@.take(m as int).len() == m);
                        lemma_color_sum_bounds(
                            world.objects@,
                            world.background_color,
                            z,
                            smp@.take(m as int),
                        );
                        assert(m * BOUND <= 224 * BOUND && -(224 * BOUND) <= -(m * BOUND)) by (
                        nonlinear_arith)
                            requires
                                0 <= m <= 224,
                        ;
                    }
                    let c = self.cast_ray(world, &ray);
                    sx = sx + c.x;
                    sy = sy + c.y;
                    sz = sz + c.z;
                    proof {
                        assert(smp@.take(m as int + 1).drop_last() =~= smp@.take(m as int));
                        assert(smp@.take(m as int + 1).last() == smp@[m as int]);
                    }
                }
                proof {
                    assert(smp@.take(count as int) =~= smp@);
                    assert(count >= 1) by {
                        assert(pre_sampler.window_spec() * pre_sampler.window_spec() >= 1) by (
                        nonlinear_arith)
                            requires
                                pre_sampler.window_spec() >= 1,
                        ;
                    }
                    lemma_color_sum_bounds(world.objects@, world.background_color, z, smp@);
                    assert(count * BOUND <= 225 * BOUND && -(225 * BOUND) <= -(count * BOUND)) by (
                    nonlinear_arith)
                        requires
                            0 <= count <= 225,
                    ;
                }
                let ax = floor_div(sx as i128, count as i128);
                let ay = floor_div(sy as i128, count as i128);
                let az = floor_div(sz as i128, count as i128);
                let val = pack_channels(ax, ay, az);
                proof {
                    assert(val == pixel_value(*world, smpseq));
                }
                proof {
                    assert(j * hres + i < hres * vres) by (nonlinear_arith)
                        requires
                            0 <= j < vres,
                            0 <= i < hres,
                    ;
                    vstd::std_specs::vec::axiom_spec_len(buff);
                    assert(buff@.len() <= usize::MAX);
                }
                let idx = (j as usize) * (hres as usize) + (i as usize);
                let ghost prev_buff = buff@;
                buff[idx] = val;
                proof {
                    assert(px as int == pixel_center_x(vp, i as int));
                    assert(py as int == pixel_center_y(vp, j as int));
                    assert(sample_shape(
                        s0,
                        vp.pixel_size as int,
                        pixel_center_x(vp, i as int),
                        pixel_center_y(vp, j as int),
                        smpseq,
                    ));
                    assert(pixel_ok(*world, s0, val, i as int, j as int));
                    assert forall|ii: int, jj: int| 0 <= ii < hres && 0 <= jj < j implies #[trigger] pixel_ok(
                        *world,
                        s0,
                        buff@[jj * hres + ii],
                        ii,
                        jj,
                    ) by {
                        assert(jj * hres + ii < j * hres + i) by (nonlinear_arith)
                            requires
                                0 <= jj < j,
                                0 <= ii < hres,
                                0 <= i,
                        ;
                        assert(buff@[jj * hres + ii] == prev_buff[jj * hres + ii]);
                        assert(pixel_ok(*world, s0, prev_buff[jj * hres + ii], ii, jj));
                    }
                    assert forall|ii: int| 0 <= ii < i implies #[trigger] pixel_ok(
                        *world,
                        s0,
                        buff@[j * hres + ii],
                        ii,
                        j as int,
                    ) by {
                        assert(buff@[j * hres + ii] == prev_buff[j * hres + ii]);
                        assert(pixel_ok(*world, s0, prev_buff[j * hres + ii], ii, j as int));
                    }
                    assert(buff@[j as int * hres + i] == val);
                }
            }
            proof {
                assert(forall|ii: int, jj: int|
                    0 <= ii < hres && 0 <= jj < j + 1 && jj == j ==> #[trigger] (jj * hres + ii)
                        == j * hres + ii);
            }
        }
    }
}

/// The renderer variants a driver can own; ray casting is the only one.
pub enum Tracer {
    Caster(Caster),
}

impl Tracer {
    /// The sampler of the held renderer.
    pub open spec fn sampler_of(self) -> AnySampler {
        match self {
            Tracer::Caster(c) => c.sampler,
        }
    }

    /// Renders the scene into the buffer; see `Caster::trace`.
    pub fn trace(&mut self, world: &World, buff: &mut Vec<u32>)
        requires
            world.wf(),
            old(self).sampler_of().wf_spec(),
            old(buff)@.len() == world.view_plane.hres * world.view_plane.vres,
        ensures
            final(buff)@.len() == old(buff)@.len(),
            final(self).sampler_of().wf_spec(),
            old(self).sampler_of().same_shape(final(self).sampler_of()),
            forall|i: int, j: int|
                0 <= i < world.view_plane.hres && 0 <= j < world.view_plane.vres
                    ==> #[trigger] pixel_ok(
                    *world,
                    old(self).sampler_of(),
                    final(buff)@[j * world.view_plane.hres + i],
                    i,
                    j,
                ),
    {
        match self {
            Tracer::Caster(caster) => caster.trace(world, buff),
        }
    }

    /// Replaces the sampling strategy.
    pub fn set_sampler(&mut self, sampler: AnySampler)
        ensures
            *final(self) == (Tracer::Caster(Caster { sampler })),
    {
        match self {
            Tracer::Caster(caster) => caster.sampler = sampler,
        }
    }

    /// Requests `step * step` more samples and reconfigures the sampler
    /// (which grids the new count as `set_num_samples` does).
    pub fn increase_sample_window_size(&mut self, step: u8)
        requires
            old(self).sampler_of().wf_spec(),
            step * step <= 255,
            old(self).sampler_of().window_spec() * old(self).sampler_of().window_spec() + step
                * step <= 255,
        ensures
            final(self).sampler_of().wf_spec(),
            *final(self) == (Tracer::Caster(
                Caster {
                    sampler: any_after_set(
                        old(self).sampler_of(),
                        (old(self).sampler_of().window_spec() * old(self).sampler_of().window_spec()
                            + step * step) as u8,
                    ),
                },
            )),
    {
        match self {
            Tracer::Caster(caster) => {
                let n = caster.sampler.num_samples();
                caster.sampler.set_num_samples(n + step * step);
            },
        }
    }

    /// Requests `step * step` fewer samples and reconfigures the sampler.
    pub fn decrease_sample_window_size(&mut self, step: u8)
        requires
            old(self).sampler_of().wf_spec(),
            step * step <= old(self).sampler_of().window_spec() * old(
                self,
            ).sampler_of().window_spec(),
        ensures
            final(self).sampler_of().wf_spec(),
            *final(self) == (Tracer::Caster(
                Caster {
                    sampler: any_after_set(
                        old(self).sampler_of(),
                        (old(self).sampler_of().window_spec() * old(self).sampler_of().window_spec()
                            - step * step) as u8,
                    ),
                },
            )),
    {
        match self {
            Tracer::Caster(caster) => {
                let n = caster.sampler.num_samples();
                proof {
                    crate::fixed::lemma_mul_bound(
                        old(self).sampler_of().window_spec(),
                        old(self).sampler_of().window_spec(),
                        15,
                        15,
                    );
                }
                caster.sampler.set_num_samples(n - step * step);
            },
        }
    }
}

/// Nearest-hit resolution for two objects on one ray: the object with the
/// smaller hit parameter colors the ray; on a tie the one earlier in scene
/// order wins.
pub proof fn lemma_nearest_hit_wins(a: Primitive, b: Primitive, bg: Vec3, r: Ray, ta: int, tb: int)
    requires
        a.hit_spec(r) == Option::Some(ta),
        b.hit_spec(r) == Option::Some(tb),
        ta <= tb,
    ensures
        cast_color(seq![a, b], bg, r) == a.color_spec(),
{
    let s = seq![a, b];
    assert(s.drop_last() =~= seq![a]);
    assert(seq![a].drop_last() =~= Seq::<Primitive>::empty());
    assert(seq![a].last() == a);
    assert(s.last() == b);
    assert(first_hit(Seq::<Primitive>::empty(), r) is None);
    assert(first_hit(seq![a], r) == Option::Some((0int, ta)));
    assert(first_hit(s, r) == Option::Some((0int, ta)));
    assert(s[0] == a);
}

/// Swapping two objects whose hit parameters differ (or of which at most
/// one is hit at all) does not change the resolved color.
pub proof fn lemma_order_swap(a: Primitive, b: Primitive, bg: Vec3, r: Ray)
    requires
        !(a.hit_spec(r) is Some && a.hit_spec(r) == b.hit_spec(r)),
    ensures
        cast_color(seq![a, b], bg, r) == cast_color(seq![b, a], bg, r),
{
    let s = seq![a, b];
    let o = seq![b, a];
    assert(s.drop_last() =~= seq![a]);
    assert(o.drop_last() =~= seq![b]);
    assert(seq![a].drop_last() =~= Seq::<Primitive>::empty());
    assert(seq![b].drop_last() =~= Seq::<Primitive>::empty());
    assert(seq![a].last() == a);
    assert(seq![b].last() == b);
    assert(s.last() == b);
    assert(o.last() == a);
    assert(s[0] == a && s[1] == b && o[0] == b && o[1] == a);
    assert(first_hit(Seq::<Primitive>::empty(), r) is None);
    assert(first_hit(seq![a], r) == match a.hit_spec(r) {
        Option::None => Option::<(int, int)>::None,
        Option::Some(t) => Option::Some((0int, t)),
    });
    assert(first_hit(seq![b], r) == match b.hit_spec(r) {
        Option::None => Option::<(int, int)>::None,
        Option::Some(t) => Option::Some((0int, t)),
    });
}

/// Rendering with the trivial sampler is deterministic: any two buffers the
/// tracer's contract accepts for the same scene are identical, so tracing
/// the same static scene twice gives bit-identical output.
pub proof fn lemma_trace_deterministic(
    world: World,
    s1: AnySampler,
    s2: AnySampler,
    b1: Seq<u32>,
    b2: Seq<u32>,
)
    requires
        s1 is Simple,
        s2 is Simple,
        b1.len() == world.view_plane.hres * world.view_plane.vres,
        b2.len() == b1.len(),
        forall|i: int, j: int|
            0 <= i < world.view_plane.hres && 0 <= j < world.view_plane.vres
                ==> #[trigger] pixel_ok(world, s1, b1[j * world.view_plane.hres + i], i, j),
        forall|i: int, j: int|
            0 <= i < world.view_plane.hres && 0 <= j < world.view_plane.vres
                ==> #[trigger] pixel_ok(world, s2, b2[j * world.view_plane.hres + i], i, j),
    ensures
        b1 =~= b2,
{
    let hres = world.view_plane.hres as int;
    let vres = world.view_plane.vres as int;
    let ps = world.view_plane.pixel_size as int;
    let z = world.view_plane.z;
    assert forall|idx: int| 0 <= idx < b1.len() implies b1[idx] == b2[idx] by {
        assert(hres > 0 && vres > 0) by (nonlinear_arith)
            requires
                hres * vres > 0,
                0 <= hres,
                0 <= vres,
        ;
        let j = idx / hres;
        let i = idx % hres;
        vstd::arithmetic::div_mod::lemma_fundamental_div_mod(idx, hres);
        vstd::arithmetic::div_mod::lemma_mod_bound(idx, hres);
        vstd::arithmetic::div_mod::lemma_div_pos_is_pos(idx, hres);
        assert(j < vres) by (nonlinear_arith)
            requires
                idx < hres * vres,
                idx == hres * j + i,
                0 <= i < hres,
                hres > 0,
                0 <= j,
        ;
        assert(idx == j * hres + i) by (nonlinear_arith)
            requires
                idx == hres * j + i,
        ;
        assert(pixel_ok(world, s1, b1[j * hres + i], i, j));
        assert(pixel_ok(world, s2, b2[j * hres + i], i, j));
        let cx = pixel_center_x(world.view_plane, i);
        let cy = pixel_center_y(world.view_plane, j);
        let smp1 = choose|smp: Seq<(i64, i64)>|
            #[trigger] sample_shape(s1, ps, cx, cy, smp) && b1[j * hres + i] == pixel_value(
                world,
                smp,
            );
        let smp2 = choose|smp: Seq<(i64, i64)>|
            #[trigger] sample_shape(s2, ps, cx, cy, smp) && b2[j * hres + i] == pixel_value(
                world,
                smp,
            );
        assert(smp1.len() == 1 && smp2.len() == 1);
        assert(smp1[0].0 == cx && smp1[0].1 == cy && smp2[0].0 == cx && smp2[0].1 == cy);
        assert(smp1.drop_last() =~= Seq::<(i64, i64)>::empty());
        assert(smp2.drop_last() =~= Seq::<(i64, i64)>::empty());
        assert(smp1.last() == smp1[0] && smp2.last() == smp2[0]);
        assert(sample_ray(smp1[0], z) == sample_ray(smp2[0], z));
        assert(color_sum(world.objects@, world.background_color, z, smp1) == color_sum(
            world.objects@,
            world.background_color,
            z,
            smp2,
        ));
        assert(pixel_value(world, smp1) == pixel_value(world, smp2));
    }
}

} // verus!
