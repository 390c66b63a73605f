use vstd::prelude::*;

use rand::Rng;
use rand::SeedableRng;
use rand::rngs::SmallRng;

use crate::fixed::floor_div;
use crate::fixed::isqrt;
use crate::fixed::lemma_square_monotone;
use crate::fixed::sqrt_floor;
use crate::fixed::BOUND;
use crate::fixed::SCALE;

verus! {

#[verifier::external_type_specification]
#[verifier::external_body]
pub struct ExSmallRng(SmallRng);

/// Relies on rand's `SmallRng::seed_from_u64`: a small generator built
/// deterministically from the seed. Nothing is claimed of its draws.
#[verifier::external_body]
fn seeded_rng(seed: u64) -> SmallRng {
    SmallRng::seed_from_u64(seed)
}

/// Relies on rand's `Rng::gen_range` over `0..SCALE`: a draw in `[0, SCALE)`
/// (a sub-cell position, the fixed-point image of `[0, 1)`).
#[verifier::external_body]
fn rand_cell_pos(rng: &mut SmallRng) -> (u: i64)
    ensures
        0 <= u < SCALE,
{
    rng.gen_range(0..SCALE)
}

/// Relies on rand's `Rng::gen_range` over `-SCALE/2..SCALE/2`: a draw in
/// `[-SCALE/2, SCALE/2)`, the fixed-point image of `[-0.5, 0.5)`.
#[verifier::external_body]
fn rand_half_pos(rng: &mut SmallRng) -> (u: i64)
    ensures
        -SCALE / 2 <= u < SCALE / 2,
{
    rng.gen_range(-SCALE / 2..SCALE / 2)
}

/// The per-axis grid size a requested sample count turns into:
/// `floor(sqrt(num))`, clamped to at least one so that a request for zero
/// samples cannot produce an empty grid (and a division by zero later).
pub open spec fn grid_size_spec(num: u8) -> int {
    if sqrt_floor(num as int) < 1 {
        1
    } else {
        sqrt_floor(num as int)
    }
}

/// `floor(sqrt(num))` of a sample count, clamped to at least one.
pub fn grid_size(num: u8) -> (k: u8)
    ensures
        k == grid_size_spec(num),
        1 <= k <= 15,
{
    let s = isqrt(num as i128);
    proof {
        if s >= 16 {
            lemma_square_monotone(16, s as int);
            assert(false);
        }
    }
    if s < 1 {
        1
    } else {
        s as u8
    }
}

/// The sub-pixel offset of sub-cell `j` of `k` from the pixel center on one
/// axis, for a cell position `m` measured in half-cells around the center:
/// `(pixel_size * m) / (2 * d)` rounded toward negative infinity, where
/// `-d <= m <= d`. All three samplers place their samples this way.
pub open spec fn cell_offset(ps: int, m: int, d: int) -> int {
    (ps * m) / (2 * d)
}

/// Any half-cell position within `[-d, d]` lands within half a pixel of the
/// center, up to the one fixed-point step the rounding can lose.
pub proof fn lemma_cell_offset_range(ps: int, m: int, d: int)
    requires
        0 <= ps,
        0 < d,
        -d <= m <= d,
    ensures
        -(ps / 2) - 1 <= cell_offset(ps, m, d) <= ps / 2,
{
    let lo = -(ps / 2) - 1;
    assert((2 * d) * lo <= ps * m <= ps * d) by (nonlinear_arith)
        requires
            0 <= ps,
            0 < d,
            -d <= m <= d,
            lo == -(ps / 2) - 1,
            2 * (ps / 2) <= ps <= 2 * (ps / 2) + 1,
    ;
    vstd::arithmetic::div_mod::lemma_div_multiples_vanish(lo, 2 * d);
    vstd::arithmetic::div_mod::lemma_div_is_ordered((2 * d) * lo, ps * m, 2 * d);
    vstd::arithmetic::div_mod::lemma_div_is_ordered(ps * m, ps * d, 2 * d);
    vstd::arithmetic::div_mod::lemma_div_multiples_vanish_quotient(d, ps, 2);
    assert(d * ps == ps * d && d * 2 == 2 * d) by (nonlinear_arith);
}

/// `cell_offset`, computed exactly.
fn cell_offset_val(ps: i64, m: i64, d: i64) -> (o: i64)
    requires
        0 <= ps <= BOUND,
        0 < d <= 0x100000,
        -d <= m <= d,
    ensures
        o == cell_offset(ps as int, m as int, d as int),
        -(ps / 2) - 1 <= o <= ps / 2,
{
    proof {
        crate::fixed::lemma_mul_bound(ps as int, m as int, 0x20000000, 0x100000);
        lemma_cell_offset_range(ps as int, m as int, d as int);
    }
    let q = floor_div((ps as i128) * (m as i128), 2 * (d as i128));
    q as i64
}

/// All sample coordinates lie within half a pixel (plus one rounding step)
/// of the pixel center, on both axes.
pub open spec fn samples_near(ps: int, cx: int, cy: int, out: Seq<(i64, i64)>) -> bool {
    forall|idx: int|
        0 <= idx < out.len() ==> {
            &&& cx - ps / 2 - 1 <= (#[trigger] out[idx]).0 <= cx + ps / 2
            &&& cy - ps / 2 - 1 <= out[idx].1 <= cy + ps / 2
        }
}

/// A strategy producing sub-pixel sample coordinates for anti-aliasing.
/// `sample` returns `window^2` coordinates for one pixel and may advance the
/// sampler's internal generator state; nothing else about the sampler
/// changes.
pub trait Sampler: Sized {
    spec fn wf_spec(&self) -> bool;

    /// The per-axis grid size the sampler currently uses.
    spec fn window_spec(&self) -> int;

    /// The exact relation between the sampler before and after a `sample`
    /// call, its arguments, and the returned coordinates.
    spec fn sample_post(
        &self,
        new_self: Self,
        ps: int,
        cx: int,
        cy: int,
        out: Seq<(i64, i64)>,
    ) -> bool;

    /// The sampler `set_num_samples` leaves behind.
    spec fn after_set_spec(&self, num: u8) -> Self;

    fn sample(&mut self, pixel_size: i64, pixel_center: (i64, i64)) -> (out: Vec<(i64, i64)>)
        requires
            old(self).wf_spec(),
            0 <= pixel_size <= BOUND,
            -BOUND <= pixel_center.0 <= BOUND,
            -BOUND <= pixel_center.1 <= BOUND,
        ensures
            final(self).wf_spec(),
            final(self).window_spec() == old(self).window_spec(),
            old(self).sample_post(
                *final(self),
                pixel_size as int,
                pixel_center.0 as int,
                pixel_center.1 as int,
                out@,
            ),
            out@.len() == old(self).window_spec() * old(self).window_spec(),
            samples_near(pixel_size as int, pixel_center.0 as int, pixel_center.1 as int, out@),
    ;

    fn num_samples(&self) -> (n: u8)
        requires
            self.wf_spec(),
        ensures
            n == self.window_spec() * self.window_spec(),
    ;

    fn set_num_samples(&mut self, num: u8)
        requires
            old(self).wf_spec(),
        ensures
            final(self).wf_spec(),
            *final(self) == old(self).after_set_spec(num),
    ;
}

/// The trivial sampler: one sample, the pixel center, always.
#[derive(Clone, Copy, PartialEq, Eq, Structural, Debug)]
pub struct SimpleSampler;

impl Sampler for SimpleSampler {
    open spec fn wf_spec(&self) -> bool {
        true
    }

    open spec fn window_spec(&self) -> int {
        1
    }

    /// Exactly one coordinate, the pixel center, and no state change.
    open spec fn sample_post(
        &self,
        new_self: Self,
        ps: int,
        cx: int,
        cy: int,
        out: Seq<(i64, i64)>,
    ) -> bool {
        &&& out.len() == 1
        &&& out[0].0 == cx
        &&& out[0].1 == cy
        &&& new_self == *self
    }

    /// Reconfiguring the trivial sampler does nothing.
    open spec fn after_set_spec(&self, num: u8) -> Self {
        *self
    }

    fn sample(&mut self, _pixel_size: i64, pixel_center: (i64, i64)) -> (out: Vec<(i64, i64)>) {
        let mut out: Vec<(i64, i64)> = Vec::new();
        out.push(pixel_center);
        out
    }

    fn num_samples(&self) -> (n: u8) {
        1
    }

    fn set_num_samples(&mut self, _num: u8) {
    }
}

/// A `k x k` grid of samples, each at the center of its sub-cell.
#[derive(Clone, Copy, PartialEq, Eq, Structural, Debug)]
pub struct RegularSampler {
    pub sampler_window_size: u8,
}

/// The exact coordinates of a regular `k x k` grid over one pixel: entry
/// `i * k + j` is offset to the center of sub-cell `(i, j)`, the first axis
/// moved by `j`, the second by `i`.
pub open spec fn regular_grid(k: int, ps: int, cx: int, cy: int, out: Seq<(i64, i64)>) -> bool {
    &&& out.len() == k * k
    &&& forall|i: int, j: int|
        0 <= i < k && 0 <= j < k ==> {
            &&& (#[trigger] out[i * k + j]).0 == cx + cell_offset(ps, 2 * j + 1 - k, k)
            &&& out[i * k + j].1 == cy + cell_offset(ps, 2 * i + 1 - k, k)
        }
}

impl Sampler for RegularSampler {
    open spec fn wf_spec(&self) -> bool {
        1 <= self.sampler_window_size <= 15
    }

    open spec fn window_spec(&self) -> int {
        self.sampler_window_size as int
    }

    /// The full deterministic grid, and no state change.
    open spec fn sample_post(
        &self,
        new_self: Self,
        ps: int,
        cx: int,
        cy: int,
        out: Seq<(i64, i64)>,
    ) -> bool {
        &&& regular_grid(self.sampler_window_size as int, ps, cx, cy, out)
        &&& new_self == *self
    }

    /// The new grid size is `floor(sqrt(num))`, clamped to at least one.
    open spec fn after_set_spec(&self, num: u8) -> Self {
        RegularSampler { sampler_window_size: grid_size_spec(num) as u8 }
    }

    fn sample(&mut self, pixel_size: i64, pixel_center: (i64, i64)) -> (out: Vec<(i64, i64)>) {
        let k = self.sampler_window_size;
        let mut out: Vec<(i64, i64)> = Vec::new();
        proof {
            crate::fixed::lemma_mul_bound(k as int, k as int, 15, 15);
        }
        for i in 0..k
            invariant
                out@.len() == i * k,
                1 <= k <= 15,
                0 <= pixel_size <= BOUND,
                -BOUND <= pixel_center.0 <= BOUND,
                -BOUND <= pixel_center.1 <= BOUND,
                forall|a: int, b: int|
                    0 <= a < i && 0 <= b < k ==> {
                        &&& (#[trigger] out@[a * k + b]).0 == pixel_center.0 + cell_offset(
                            pixel_size as int,
                            2 * b + 1 - k,
                            k as int,
                        )
                        &&& out@[a * k + b].1 == pixel_center.1 + cell_offset(
                            pixel_size as int,
                            2 * a + 1 - k,
                            k as int,
                        )
                    },
                samples_near(pixel_size as int, pixel_center.0 as int, pixel_center.1 as int, out@),
        {
            for j in 0..k
                invariant
                    out@.len() == i * k + j,
                    1 <= k <= 15,
                    i < k,
                    0 <= pixel_size <= BOUND,
                    -BOUND <= pixel_center.0 <= BOUND,
                    -BOUND <= pixel_center.1 <= BOUND,
                    forall|a: int, b: int|
                        0 <= a < i && 0 <= b < k ==> {
                            &&& (#[trigger] out@[a * k + b]).0 == pixel_center.0 + cell_offset(
                                pixel_size as int,
                                2 * b + 1 - k,
                                k as int,
                            )
                            &&& out@[a * k + b].1 == pixel_center.1 + cell_offset(
                                pixel_size as int,
                                2 * a + 1 - k,
                                k as int,
                            )
                        },
                    forall|b: int|
                        0 <= b < j ==> {
                            &&& (#[trigger] out@[i * k + b]).0 == pixel_center.0 + cell_offset(
                                pixel_size as int,
                                2 * b + 1 - k,
                                k as int,
                            )
                            &&& out@[i * k + b].1 == pixel_center.1 + cell_offset(
                                pixel_size as int,
                                2 * i + 1 - k,
                                k as int,
                            )
                        },
                    samples_near(
                        pixel_size as int,
                        pixel_center.0 as int,
                        pixel_center.1 as int,
                        out@,
                    ),
            {
                let ox = cell_offset_val(pixel_size, 2 * (j as i64) + 1 - (k as i64), k as i64);
                let oy = cell_offset_val(pixel_size, 2 * (i as i64) + 1 - (k as i64), k as i64);
                out.push((pixel_center.0 + ox, pixel_center.1 + oy));
                proof {
                    assert forall|a: int, b: int| 0 <= a < i && 0 <= b < k implies #[trigger] (a
                        * k + b) < i * k by {
                        assert((a + 1) * k <= i * k && a * k + k == (a + 1) * k) by (
                        nonlinear_arith)
                            requires
                                0 <= a < i,
                                1 <= k,
                        ;
                    }
                }
            }
            proof {
                assert((i + 1) * k == i * k + k) by (nonlinear_arith);
                assert(forall|a: int, b: int|
                    0 <= a < i + 1 && 0 <= b < k && a == i ==> #[trigger] (a * k + b) == i * k
                        + b);
                assert forall|a: int, b: int| 0 <= a < i && 0 <= b < k implies #[trigger] (a * k
                    + b) < i * k by {
                    assert((a + 1) * k <= i * k && a * k + k == (a + 1) * k) by (nonlinear_arith)
                        requires
                            0 <= a < i,
                            1 <= k,
                    ;
                }
            }
        }
        proof {
            assert(out@.len() == k * k);
        }
        out
    }

    fn num_samples(&self) -> (n: u8) {
        proof {
            crate::fixed::lemma_mul_bound(
                self.sampler_window_size as int,
                self.sampler_window_size as int,
                15,
                15,
            );
        }
        self.sampler_window_size * self.sampler_window_size
    }

    fn set_num_samples(&mut self, num: u8) {
        self.sampler_window_size = grid_size(num);
    }
}

/// One jittered sample: a sub-cell-center position perturbed by a uniform
/// draw `ux`/`uy` from `[0, SCALE)` in place of the fixed half-cell.
pub open spec fn jitter_entry(
    e: (i64, i64),
    ps: int,
    k: int,
    cx: int,
    cy: int,
    i: int,
    j: int,
    ux: int,
    uy: int,
) -> bool {
    &&& 0 <= ux < SCALE
    &&& 0 <= uy < SCALE
    &&& e.0 == cx + cell_offset(ps, 2 * (j * SCALE + ux) - k * SCALE, k * SCALE)
    &&& e.1 == cy + cell_offset(ps, 2 * (i * SCALE + uy) - k * SCALE, k * SCALE)
}

/// Entry `i * k + j` of the output lies at some drawn position inside
/// sub-cell `(i, j)`.
pub open spec fn jitter_cell(
    out: Seq<(i64, i64)>,
    ps: int,
    k: int,
    cx: int,
    cy: int,
    i: int,
    j: int,
) -> bool {
    exists|ux: int, uy: int| #[trigger] jitter_entry(out[i * k + j], ps, k, cx, cy, i, j, ux, uy)
}

/// A jittered `k x k` grid: entry `i * k + j` lies at a drawn position
/// inside sub-cell `(i, j)`, the first axis moved by `j`.
pub open spec fn jitter_grid(k: int, ps: int, cx: int, cy: int, out: Seq<(i64, i64)>) -> bool {
    &&& out.len() == k * k
    &&& forall|i: int, j: int|
        0 <= i < k && 0 <= j < k ==> #[trigger] jitter_cell(out, ps, k, cx, cy, i, j)
}

/// Like `RegularSampler`, but each sample is perturbed inside its sub-cell
/// by an owned, deterministically seeded generator.
pub struct JitterSampler {
    pub sampler_window_size: u8,
    pub rng: SmallRng,
}

impl JitterSampler {
    /// A jitter sampler with `floor(sqrt(num_samples))` cells per axis (at
    /// least one) and a freshly seeded generator of its own.
    pub fn new(num_samples: u8) -> (s: JitterSampler)
        ensures
            s.sampler_window_size == grid_size_spec(num_samples),
            s.wf_spec(),
    {
        JitterSampler { sampler_window_size: grid_size(num_samples), rng: seeded_rng(42u64) }
    }
}

impl Sampler for JitterSampler {
    open spec fn wf_spec(&self) -> bool {
        1 <= self.sampler_window_size <= 15
    }

    open spec fn window_spec(&self) -> int {
        self.sampler_window_size as int
    }

    /// A jittered grid; the generator state advances, the grid size stays.
    open spec fn sample_post(
        &self,
        new_self: Self,
        ps: int,
        cx: int,
        cy: int,
        out: Seq<(i64, i64)>,
    ) -> bool {
        &&& jitter_grid(self.sampler_window_size as int, ps, cx, cy, out)
        &&& new_self.sampler_window_size == self.sampler_window_size
    }

    /// The new grid size is `floor(sqrt(num))`, clamped to at least one.
    open spec fn after_set_spec(&self, num: u8) -> Self {
        JitterSampler { sampler_window_size: grid_size_spec(num) as u8, ..*self }
    }

    fn sample(&mut self, pixel_size: i64, pixel_center: (i64, i64)) -> (out: Vec<(i64, i64)>) {
        let k = self.sampler_window_size;
        let ks = (k as i64) * SCALE;
        let mut out: Vec<(i64, i64)> = Vec::new();
        proof {
            crate::fixed::lemma_mul_bound(k as int, k as int, 15, 15);
        }
        for i in 0..k
            invariant
                out@.len() == i * k,
                1 <= k <= 15,
                k == self.sampler_window_size,
                ks == k * SCALE,
                0 <= pixel_size <= BOUND,
                -BOUND <= pixel_center.0 <= BOUND,
                -BOUND <= pixel_center.1 <= BOUND,
                forall|a: int, b: int|
                    0 <= a < i && 0 <= b < k ==> #[trigger] jitter_cell(
                        out@,
                        pixel_size as int,
                        k as int,
                        pixel_center.0 as int,
                        pixel_center.1 as int,
                        a,
                        b,
                    ),
                samples_near(pixel_size as int, pixel_center.0 as int, pixel_center.1 as int, out@),
        {
            for j in 0..k
                invariant
                    out@.len() == i * k + j,
                    1 <= k <= 15,
                    i < k,
                    k == self.sampler_window_size,
                    ks == k * SCALE,
                    0 <= pixel_size <= BOUND,
                    -BOUND <= pixel_center.0 <= BOUND,
                    -BOUND <= pixel_center.1 <= BOUND,
                    forall|a: int, b: int|
                        0 <= a < i && 0 <= b < k ==> #[trigger] jitter_cell(
                            out@,
                            pixel_size as int,
                            k as int,
                            pixel_center.0 as int,
                            pixel_center.1 as int,
                            a,
                            b,
                        ),
                    forall|b: int|
                        0 <= b < j ==> #[trigger] jitter_cell(
                            out@,
                            pixel_size as int,
                            k as int,
                            pixel_center.0 as int,
                            pixel_center.1 as int,
                            i as int,
                            b,
                        ),
                    samples_near(
                        pixel_size as int,
                        pixel_center.0 as int,
                        pixel_center.1 as int,
                        out@,
                    ),
            {
                let ux = rand_cell_pos(&mut self.rng);
                let uy = rand_cell_pos(&mut self.rng);
                let mx = 2 * ((j as i64) * SCALE + ux) - ks;
                let my = 2 * ((i as i64) * SCALE + uy) - ks;
                let ox = cell_offset_val(pixel_size, mx, ks);
                let oy = cell_offset_val(pixel_size, my, ks);
                let ghost prev = out@;
                out.push((pixel_center.0 + ox, pixel_center.1 + oy));
                proof {
                    let psg = pixel_size as int;
                    let kg = k as int;
                    let cxg = pixel_center.0 as int;
                    let cyg = pixel_center.1 as int;
                    assert(jitter_entry(
                        out@[i as int * k + j],
                        psg,
                        kg,
                        cxg,
                        cyg,
                        i as int,
                        j as int,
                        ux as int,
                        uy as int,
                    ));
                    assert(jitter_cell(out@, psg, kg, cxg, cyg, i as int, j as int));
                    assert forall|a: int, b: int| 0 <= a < i && 0 <= b < k implies #[trigger] jitter_cell(
                        out@,
                        psg,
                        kg,
                        cxg,
                        cyg,
                        a,
                        b,
                    ) by {
                        assert((a + 1) * k <= i * k && a * k + k == (a + 1) * k) by (
                        nonlinear_arith)
                            requires
                                0 <= a < i,
                                1 <= k,
                        ;
                        assert(jitter_cell(prev, psg, kg, cxg, cyg, a, b));
                        let (u0, v0) = choose|u0: int, v0: int|
                            #[trigger] jitter_entry(prev[a * kg + b], psg, kg, cxg, cyg, a, b, u0, v0);
                        assert(out@[a * kg + b] == prev[a * kg + b]);
                        assert(jitter_entry(out@[a * kg + b], psg, kg, cxg, cyg, a, b, u0, v0));
                    }
                    assert forall|b: int| 0 <= b < j implies #[trigger] jitter_cell(
                        out@,
                        psg,
                        kg,
                        cxg,
                        cyg,
                        i as int,
                        b,
                    ) by {
                        assert(jitter_cell(prev, psg, kg, cxg, cyg, i as int, b));
                        let (u0, v0) = choose|u0: int, v0: int|
                            #[trigger] jitter_entry(prev[i as int * kg + b], psg, kg, cxg, cyg, i as int, b, u0, v0);
                        assert(out@[i as int * kg + b] == prev[i as int * kg + b]);
                        assert(jitter_entry(out@[i as int * kg + b], psg, kg, cxg, cyg, i as int, b, u0, v0));
                    }
                }
            }
            proof {
                assert((i + 1) * k == i * k + k) by (nonlinear_arith);
                assert(forall|a: int, b: int|
                    0 <= a < i + 1 && 0 <= b < k && a == i ==> #[trigger] (a * k + b) == i * k
                        + b);
                assert forall|a: int, b: int| 0 <= a < i && 0 <= b < k implies #[trigger] (a * k
                    + b) < i * k by {
                    assert((a + 1) * k <= i * k && a * k + k == (a + 1) * k) by (nonlinear_arith)
                        requires
                            0 <= a < i,
                            1 <= k,
                    ;
                }
            }
        }
        out
    }

    fn num_samples(&self) -> (n: u8) {
        proof {
            crate::fixed::lemma_mul_bound(
                self.sampler_window_size as int,
                self.sampler_window_size as int,
                15,
                15,
            );
        }
        self.sampler_window_size * self.sampler_window_size
    }

    fn set_num_samples(&mut self, num: u8) {
        self.sampler_window_size = grid_size(num);
    }
}

/// One random sample: the pixel center moved by uniform draws `ux`/`uy`
/// from `[-SCALE/2, SCALE/2)` (the fixed-point image of `[-0.5, 0.5)`),
/// scaled by the pixel size.
pub open spec fn random_entry(e: (i64, i64), ps: int, cx: int, cy: int, ux: int, uy: int) -> bool {
    &&& -SCALE / 2 <= ux < SCALE / 2
    &&& -SCALE / 2 <= uy < SCALE / 2
    &&& e.0 == cx + cell_offset(ps, 2 * ux, SCALE as int)
    &&& e.1 == cy + cell_offset(ps, 2 * uy, SCALE as int)
}

/// Entry `idx` of the output is the pixel center moved by some draw.
pub open spec fn random_at(out: Seq<(i64, i64)>, ps: int, cx: int, cy: int, idx: int) -> bool {
    exists|ux: int, uy: int| #[trigger] random_entry(out[idx], ps, cx, cy, ux, uy)
}

/// `k * k` samples drawn uniformly over the whole pixel, with no grid
/// structure.
pub open spec fn random_cloud(k: int, ps: int, cx: int, cy: int, out: Seq<(i64, i64)>) -> bool {
    &&& out.len() == k * k
    &&& forall|idx: int|
        0 <= idx < out.len() ==> #[trigger] random_at(out, ps, cx, cy, idx)
}

/// Draws every sample uniformly over the pixel area from an owned,
/// deterministically seeded generator; the grid size only fixes the count.
pub struct RandomSampler {
    pub sampler_window_size: u8,
    pub rng: SmallRng,
}

impl RandomSampler {
    /// A random sampler that draws `floor(sqrt(num_samples))^2` points (at
    /// least one) from a freshly seeded generator of its own.
    pub fn new(num_samples: u8) -> (s: RandomSampler)
        ensures
            s.sampler_window_size == grid_size_spec(num_samples),
            s.wf_spec(),
    {
        RandomSampler { sampler_window_size: grid_size(num_samples), rng: seeded_rng(42u64) }
    }
}

impl Sampler for RandomSampler {
    open spec fn wf_spec(&self) -> bool {
        1 <= self.sampler_window_size <= 15
    }

    open spec fn window_spec(&self) -> int {
        self.sampler_window_size as int
    }

    /// A cloud of uniform draws; the generator state advances, the grid
    /// size stays.
    open spec fn sample_post(
        &self,
        new_self: Self,
        ps: int,
        cx: int,
        cy: int,
        out: Seq<(i64, i64)>,
    ) -> bool {
        &&& random_cloud(self.sampler_window_size as int, ps, cx, cy, out)
        &&& new_self.sampler_window_size == self.sampler_window_size
    }

    /// The new grid size is `floor(sqrt(num))`, clamped to at least one.
    open spec fn after_set_spec(&self, num: u8) -> Self {
        RandomSampler { sampler_window_size: grid_size_spec(num) as u8, ..*self }
    }

    fn sample(&mut self, pixel_size: i64, pixel_center: (i64, i64)) -> (out: Vec<(i64, i64)>) {
        let n = self.num_samples();
        let ghost k0 = self.sampler_window_size;
        let mut out: Vec<(i64, i64)> = Vec::new();
        for idx in 0..n
            invariant
                out@.len() == idx,
                self.sampler_window_size == k0,
                n == self.sampler_window_size * self.sampler_window_size,
                1 <= self.sampler_window_size <= 15,
                0 <= pixel_size <= BOUND,
                -BOUND <= pixel_center.0 <= BOUND,
                -BOUND <= pixel_center.1 <= BOUND,
                forall|a: int|
                    0 <= a < idx ==> #[trigger] random_at(
                        out@,
                        pixel_size as int,
                        pixel_center.0 as int,
                        pixel_center.1 as int,
                        a,
                    ),
                samples_near(pixel_size as int, pixel_center.0 as int, pixel_center.1 as int, out@),
        {
            let ux = rand_half_pos(&mut self.rng);
            let uy = rand_half_pos(&mut self.rng);
            let ox = cell_offset_val(pixel_size, 2 * ux, SCALE);
            let oy = cell_offset_val(pixel_size, 2 * uy, SCALE);
            let ghost prev = out@;
            out.push((pixel_center.0 + ox, pixel_center.1 + oy));
            proof {
                let psg = pixel_size as int;
                let cxg = pixel_center.0 as int;
                let cyg = pixel_center.1 as int;
                assert(random_entry(out@[idx as int], psg, cxg, cyg, ux as int, uy as int));
                assert(random_at(out@, psg, cxg, cyg, idx as int));
                assert forall|a: int| 0 <= a < idx implies #[trigger] random_at(
                    out@,
                    psg,
                    cxg,
                    cyg,
                    a,
                ) by {
                    assert(random_at(prev, psg, cxg, cyg, a));
                    let (u0, v0) = choose|u0: int, v0: int|
                        #[trigger] random_entry(prev[a], psg, cxg, cyg, u0, v0);
                    assert(out@[a] == prev[a]);
                    assert(random_entry(out@[a], psg, cxg, cyg, u0, v0));
                }
            }
        }
        out
    }

    fn num_samples(&self) -> (n: u8) {
        proof {
            crate::fixed::lemma_mul_bound(
                self.sampler_window_size as int,
                self.sampler_window_size as int,
                15,
                15,
            );
        }
        self.sampler_window_size * self.sampler_window_size
    }

    fn set_num_samples(&mut self, num: u8) {
        self.sampler_window_size = grid_size(num);
    }
}

/// Any of the four sampling strategies, as one value a tracer can own and
/// swap at run time.
pub enum AnySampler {
    Simple(SimpleSampler),
    Regular(RegularSampler),
    Jitter(JitterSampler),
    Random(RandomSampler),
}

/// What a strategy's output looks like as a function of its kind and grid
/// size alone; for the randomized kinds, up to the drawn offsets.
pub open spec fn sample_shape(
    s: AnySampler,
    ps: int,
    cx: int,
    cy: int,
    out: Seq<(i64, i64)>,
) -> bool {
    match s {
        AnySampler::Simple(_) => out.len() == 1 && out[0].0 == cx && out[0].1 == cy,
        AnySampler::Regular(rs) => regular_grid(rs.sampler_window_size as int, ps, cx, cy, out),
        AnySampler::Jitter(js) => jitter_grid(js.sampler_window_size as int, ps, cx, cy, out),
        AnySampler::Random(rs) => random_cloud(rs.sampler_window_size as int, ps, cx, cy, out),
    }
}

/// The strategy `set_num_samples` leaves behind: the kind is kept, the grid
/// size is recomputed (except for the trivial sampler, which ignores it).
pub open spec fn any_after_set(s: AnySampler, num: u8) -> AnySampler {
    match s {
        AnySampler::Simple(x) => AnySampler::Simple(x.after_set_spec(num)),
        AnySampler::Regular(x) => AnySampler::Regular(x.after_set_spec(num)),
        AnySampler::Jitter(x) => AnySampler::Jitter(x.after_set_spec(num)),
        AnySampler::Random(x) => AnySampler::Random(x.after_set_spec(num)),
    }
}

impl AnySampler {
    pub open spec fn wf_spec(self) -> bool {
        match self {
            AnySampler::Simple(x) => x.wf_spec(),
            AnySampler::Regular(x) => x.wf_spec(),
            AnySampler::Jitter(x) => x.wf_spec(),
            AnySampler::Random(x) => x.wf_spec(),
        }
    }

    /// The per-axis grid size of the held strategy.
    pub open spec fn window_spec(self) -> int {
        match self {
            AnySampler::Simple(x) => x.window_spec(),
            AnySampler::Regular(x) => x.window_spec(),
            AnySampler::Jitter(x) => x.window_spec(),
            AnySampler::Random(x) => x.window_spec(),
        }
    }

    /// Two samplers of the same kind and grid size produce outputs of the
    /// same shape; only generator state may differ.
    pub open spec fn same_shape(self, o: AnySampler) -> bool {
        match (self, o) {
            (AnySampler::Simple(_), AnySampler::Simple(_)) => true,
            (AnySampler::Regular(a), AnySampler::Regular(b)) => a == b,
            (AnySampler::Jitter(a), AnySampler::Jitter(b)) => a.sampler_window_size
                == b.sampler_window_size,
            (AnySampler::Random(a), AnySampler::Random(b)) => a.sampler_window_size
                == b.sampler_window_size,
            _ => false,
        }
    }

    pub fn sample(&mut self, pixel_size: i64, pixel_center: (i64, i64)) -> (out: Vec<(i64, i64)>)
        requires
            old(self).wf_spec(),
            0 <= pixel_size <= BOUND,
            -BOUND <= pixel_center.0 <= BOUND,
            -BOUND <= pixel_center.1 <= BOUND,
        ensures
            final(self).wf_spec(),
            old(self).same_shape(*final(self)),
            sample_shape(
                *old(self),
                pixel_size as int,
                pixel_center.0 as int,
                pixel_center.1 as int,
                out@,
            ),
            out@.len() == old(self).window_spec() * old(self).window_spec(),
            samples_near(pixel_size as int, pixel_center.0 as int, pixel_center.1 as int, out@),
    {
        match self {
            AnySampler::Simple(x) => x.sample(pixel_size, pixel_center),
            AnySampler::Regular(x) => x.sample(pixel_size, pixel_center),
            AnySampler::Jitter(x) => x.sample(pixel_size, pixel_center),
            AnySampler::Random(x) => x.sample(pixel_size, pixel_center),
        }
    }

    pub fn num_samples(&self) -> (n: u8)
        requires
            self.wf_spec(),
        ensures
            n == self.window_spec() * self.window_spec(),
    {
        match self {
            AnySampler::Simple(x) => x.num_samples(),
            AnySampler::Regular(x) => x.num_samples(),
            AnySampler::Jitter(x) => x.num_samples(),
            AnySampler::Random(x) => x.num_samples(),
        }
    }

    pub fn set_num_samples(&mut self, num: u8)
        requires
            old(self).wf_spec(),
        ensures
            final(self).wf_spec(),
            *final(self) == any_after_set(*old(self), num),
    {
        match self {
            AnySampler::Simple(x) => x.set_num_samples(num),
            AnySampler::Regular(x) => x.set_num_samples(num),
            AnySampler::Jitter(x) => x.set_num_samples(num),
            AnySampler::Random(x) => x.set_num_samples(num),
        }
    }
}

/// Samplers of the same kind and grid size accept exactly the same output
/// shapes; only their generator state may differ.
pub proof fn lemma_same_shape_shape(
    a: AnySampler,
    b: AnySampler,
    ps: int,
    cx: int,
    cy: int,
    out: Seq<(i64, i64)>,
)
    requires
        a.same_shape(b),
    ensures
        sample_shape(a, ps, cx, cy, out) == sample_shape(b, ps, cx, cy, out),
{
}

pub proof fn lemma_same_shape_trans(a: AnySampler, b: AnySampler, c: AnySampler)
    requires
        a.same_shape(b),
        b.same_shape(c),
    ensures
        a.same_shape(c),
{
}

} // verus!
