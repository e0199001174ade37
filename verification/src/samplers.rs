//! Samplers: where inside a pixel, and where in each later decision, a
//! sample falls. A sample coordinate is handed out as whole numbers, see
//! `Sample1D`; turning it into a fraction is left to the caller.

use vstd::prelude::*;
use vstd::arithmetic::div_mod::lemma_fundamental_div_mod;
use vstd::arithmetic::div_mod::lemma_fundamental_div_mod_converse;
use crate::hash::{hash3, hash4, le_bytes, murmur_hash64a_spec, u32_le_bytes, u64_le_bytes};
use crate::math::{
    lemma_permutation_in_range,
    lemma_permutation_injective,
    lemma_permutation_onto,
    permutation_element,
    permutation_element_spec,
    rotation_exact,
};
use crate::rng::{pcg_advance, pcg_output, PCGRng, FRACTION_ONE};
use crate::tile::Tile;

verus! {

/// The offset that stands for the middle of a stratum: one half of
/// `FRACTION_ONE`.
pub const HALF: u32 = 0x80_0000;

/// One coordinate of a sample in `[0, 1)`: the number
/// `(stratum + offset / 2^24) / strata`.
#[derive(Clone, Copy, Debug, PartialEq, Eq, Structural)]
pub struct Sample1D {
    pub stratum: u32,
    pub strata: u32,
    pub offset: u32,
}

impl Sample1D {
    /// The coordinate lies in `[0, 1)`: inside one of the strata.
    pub open spec fn in_unit_interval(&self) -> bool {
        self.stratum < self.strata && self.offset < FRACTION_ONE
    }
}

/// The seed of the generator that serves the tile with corner `(x1, y1)`:
/// the hash of the sampler's seed and the corner, each as eight bytes.
pub open spec fn tile_seed(seed: u64, x1: usize, y1: usize) -> u64 {
    murmur_hash64a_spec(le_bytes(seed, 8) + le_bytes(x1 as u64, 8) + le_bytes(y1 as u64, 8), 0)
}

/// The seed of the permutation that orders the strata of one decision of one
/// pixel: the low half of the hash of the sampler's seed, the pixel and the
/// decision's dimension.
pub open spec fn stratum_seed(seed: u64, x: u32, y: u32, dimension: u32) -> u32 {
    murmur_hash64a_spec(
        le_bytes(seed, 8) + le_bytes(x as u64, 4) + le_bytes(y as u64, 4) + le_bytes(
            dimension as u64,
            4,
        ),
        0,
    ) as u32
}

/// The stratum that iteration `iteration` of a pixel visits, out of `total`.
pub open spec fn stratum_of(
    seed: u64,
    x: u32,
    y: u32,
    dimension: u32,
    iteration: u32,
    total: u32,
) -> u32 {
    permutation_element_spec(iteration, total, stratum_seed(seed, x, y, dimension))
}

fn hash_tile(seed: u64, x1: usize, y1: usize) -> (h: u64)
    ensures
        h == tile_seed(seed, x1, y1),
{
    let a = u64_le_bytes(seed);
    let b = u64_le_bytes(x1 as u64);
    let c = u64_le_bytes(y1 as u64);
    hash3(a.as_slice(), b.as_slice(), c.as_slice())
}

fn hash_pixel(seed: u64, x: u32, y: u32, dimension: u32) -> (h: u32)
    ensures
        h == stratum_seed(seed, x, y, dimension),
{
    let a = u64_le_bytes(seed);
    let b = u32_le_bytes(x);
    let c = u32_le_bytes(y);
    let d = u32_le_bytes(dimension);
    let h = hash4(a.as_slice(), b.as_slice(), c.as_slice(), d.as_slice());
    #[verifier::truncate]
    (h as u32)
}

/// The independent sampler: every coordinate is the generator's next number.
pub struct RandomPathSampler {
    seed: u64,
    pcg_rng: PCGRng,
}

impl RandomPathSampler {
    pub closed spec fn seed(&self) -> u64 {
        self.seed
    }

    /// The state of the generator.
    pub closed spec fn rng_state(&self) -> u64 {
        self.pcg_rng.state()
    }

    /// The stream of the generator.
    pub closed spec fn rng_inc(&self) -> u64 {
        self.pcg_rng.inc()
    }

    pub fn new(seed: u64) -> (sampler: RandomPathSampler)
        ensures
            sampler.seed() == seed,
            sampler.rng_state() == seed,
            sampler.rng_inc() == 0,
    {
        let pcg_rng = PCGRng::new(seed, 0);
        RandomPathSampler { seed, pcg_rng }
    }

    pub fn next_1d(&mut self) -> (u: Sample1D)
        ensures
            u == (Sample1D { stratum: 0, strata: 1, offset: pcg_output(old(self).rng_state()) >> 8 }),
            u.in_unit_interval(),
            final(self).rng_state() == pcg_advance(old(self).rng_state(), old(self).rng_inc()),
            final(self).rng_inc() == old(self).rng_inc(),
            final(self).seed() == old(self).seed(),
    {
        Sample1D { stratum: 0, strata: 1, offset: self.pcg_rng.rand_fraction() }
    }

    pub fn next_2d(&mut self) -> (u: (Sample1D, Sample1D))
        ensures
            u.0 == (Sample1D {
                stratum: 0,
                strata: 1,
                offset: pcg_output(old(self).rng_state()) >> 8,
            }),
            u.1 == (Sample1D {
                stratum: 0,
                strata: 1,
                offset: pcg_output(pcg_advance(old(self).rng_state(), old(self).rng_inc())) >> 8,
            }),
            u.0.in_unit_interval(),
            u.1.in_unit_interval(),
            final(self).rng_state() == pcg_advance(
                pcg_advance(old(self).rng_state(), old(self).rng_inc()),
                old(self).rng_inc(),
            ),
            final(self).rng_inc() == old(self).rng_inc(),
            final(self).seed() == old(self).seed(),
    {
        let first = self.next_1d();
        let second = self.next_1d();
        (first, second)
    }

    /// The place of a sample inside its pixel. The independent sampler does
    /// not look at the pixel or the iteration.
    pub fn sample_pixel(&mut self, _x: usize, _y: usize, _iteration: usize) -> (u: (
        Sample1D,
        Sample1D,
    ))
        ensures
            u.0 == (Sample1D {
                stratum: 0,
                strata: 1,
                offset: pcg_output(old(self).rng_state()) >> 8,
            }),
            u.1 == (Sample1D {
                stratum: 0,
                strata: 1,
                offset: pcg_output(pcg_advance(old(self).rng_state(), old(self).rng_inc())) >> 8,
            }),
            u.0.in_unit_interval(),
            u.1.in_unit_interval(),
            final(self).rng_state() == pcg_advance(
                pcg_advance(old(self).rng_state(), old(self).rng_inc()),
                old(self).rng_inc(),
            ),
            final(self).rng_inc() == old(self).rng_inc(),
            final(self).seed() == old(self).seed(),
    {
        self.next_2d()
    }

    /// Starts the generator anew for a tile: seeded from the sampler's seed
    /// and the tile's corner, on the stream that `iteration` selects.
    pub fn initialize(&mut self, tile: &Tile, iteration: u32)
        ensures
            final(self).seed() == old(self).seed(),
            final(self).rng_state() == tile_seed(old(self).seed(), tile.x1, tile.y1),
            final(self).rng_inc() == iteration,
    {
        let seed = hash_tile(self.seed, tile.x1, tile.y1);
        self.pcg_rng = PCGRng::new(seed, iteration as u64);
    }
}

/// The stratified sampler: each decision of a pixel has `xsamples * ysamples`
/// strata, and the iterations of the pixel visit them in an order that a
/// hash of the pixel and the decision shuffles.
pub struct StratifiedPathSampler {
    seed: u64,
    jitter: bool,
    xsamples: u32,
    ysamples: u32,
    pcg_rng: PCGRng,
    x: u32,
    y: u32,
    iteration: u32,
    dimension: u32,
}

/// What a stratified sampler holds, as plain values.
pub struct StratifiedState {
    pub seed: u64,
    pub jitter: bool,
    pub xsamples: u32,
    pub ysamples: u32,
    pub rng_state: u64,
    pub rng_inc: u64,
    pub x: u32,
    pub y: u32,
    pub iteration: u32,
    pub dimension: u32,
}

impl StratifiedState {
    pub open spec fn total(&self) -> int {
        self.xsamples * self.ysamples
    }

    /// There is at least one stratum, and their number fits in 32 bits.
    pub open spec fn wf(&self) -> bool {
        1 <= self.total() <= u32::MAX
    }

    /// The sampler can hand out a coordinate for `count` more dimensions:
    /// the iteration names a stratum, and the dimension counter has room.
    pub open spec fn ready(&self, count: int) -> bool {
        &&& self.wf()
        &&& self.iteration < self.total()
        &&& self.dimension + count <= u32::MAX
    }

    /// The stratum of the decision that comes next.
    pub open spec fn stratum(&self) -> u32 {
        stratum_of(
            self.seed,
            self.x,
            self.y,
            self.dimension,
            self.iteration,
            self.total() as u32,
        )
    }

    /// The offset of the `k`-th coordinate handed out from here on: the
    /// generator's next numbers with jitter, the middle without.
    pub open spec fn offset(&self, k: int) -> u32 {
        if !self.jitter {
            HALF
        } else if k == 0 {
            pcg_output(self.rng_state) >> 8
        } else {
            pcg_output(pcg_advance(self.rng_state, self.rng_inc)) >> 8
        }
    }

    /// The state after `count` coordinates of one decision were handed out.
    pub open spec fn after(&self, count: int) -> StratifiedState {
        StratifiedState {
            dimension: (self.dimension + count) as u32,
            rng_state: if !self.jitter {
                self.rng_state
            } else if count == 1 {
                pcg_advance(self.rng_state, self.rng_inc)
            } else {
                pcg_advance(pcg_advance(self.rng_state, self.rng_inc), self.rng_inc)
            },
            ..*self
        }
    }

    /// The state when the sampler turns to a new pixel and iteration.
    pub open spec fn at_pixel(&self, x: usize, y: usize, iteration: usize) -> StratifiedState {
        StratifiedState {
            x: x as u32,
            y: y as u32,
            iteration: iteration as u32,
            dimension: 0,
            ..*self
        }
    }

    /// The one-dimensional sample of the decision that comes next.
    pub open spec fn sample_1d(&self) -> Sample1D {
        Sample1D { stratum: self.stratum(), strata: self.total() as u32, offset: self.offset(0) }
    }

    /// The two-dimensional sample of the decision that comes next: the
    /// stratum's column and row in the grid of `xsamples` by `ysamples`.
    pub open spec fn sample_2d(&self) -> (Sample1D, Sample1D) {
        (
            Sample1D {
                stratum: self.stratum() % self.xsamples,
                strata: self.xsamples,
                offset: self.offset(0),
            },
            Sample1D {
                stratum: self.stratum() / self.xsamples,
                strata: self.ysamples,
                offset: self.offset(1),
            },
        )
    }
}

/// A stratum below `xsamples * ysamples` has its row below `ysamples`.
proof fn lemma_row_in_grid(s: int, xs: int, ys: int)
    requires
        0 <= s < xs * ys,
        xs >= 1,
        ys >= 1,
    ensures
        0 <= s / xs < ys,
        0 <= s % xs < xs,
{
    lemma_fundamental_div_mod(s, xs);
    let q = s / xs;
    let r = s % xs;
    assert(0 <= q < ys) by (nonlinear_arith)
        requires
            s == xs * q + r,
            0 <= r < xs,
            0 <= s < xs * ys,
            xs >= 1,
    ;
}

/// The column and row of a stratum in the grid of `xs` by `ys`.
fn grid_cell(stratum: u32, xs: u32, ys: u32) -> (cell: (u32, u32))
    requires
        stratum < xs * ys,
    ensures
        cell.0 == stratum % xs,
        cell.1 == stratum / xs,
        cell.0 < xs,
        cell.1 < ys,
{
    proof {
        assert(xs >= 1 && ys >= 1) by (nonlinear_arith)
            requires
                0 <= stratum < xs * ys,
                xs >= 0,
                ys >= 0,
        ;
        lemma_row_in_grid(stratum as int, xs as int, ys as int);
    }
    (stratum % xs, stratum / xs)
}

impl View for StratifiedPathSampler {
    type V = StratifiedState;

    closed spec fn view(&self) -> StratifiedState {
        StratifiedState {
            seed: self.seed,
            jitter: self.jitter,
            xsamples: self.xsamples,
            ysamples: self.ysamples,
            rng_state: self.pcg_rng.state(),
            rng_inc: self.pcg_rng.inc(),
            x: self.x,
            y: self.y,
            iteration: self.iteration,
            dimension: self.dimension,
        }
    }
}

impl StratifiedPathSampler {
    pub fn new(seed: u64, xsamples: u32, ysamples: u32, jitter: bool) -> (sampler:
        StratifiedPathSampler)
        ensures
            sampler@ == (StratifiedState {
                seed,
                jitter,
                xsamples,
                ysamples,
                rng_state: seed,
                rng_inc: 0,
                x: 0,
                y: 0,
                iteration: 0,
                dimension: 0,
            }),
    {
        let pcg_rng = PCGRng::new(seed, 0);
        StratifiedPathSampler {
            seed,
            jitter,
            xsamples,
            ysamples,
            pcg_rng,
            x: 0,
            y: 0,
            iteration: 0,
            dimension: 0,
        }
    }

    /// Whether the sampler can hand out a sample for iteration `iteration`
    /// of a pixel: the grid has a stratum, their number fits in 32 bits and
    /// the iteration names one of them.
    pub fn can_sample(&self, x: usize, y: usize, iteration: usize) -> (b: bool)
        ensures
            b == self@.at_pixel(x, y, iteration).ready(2),
    {
        assert(self.xsamples * self.ysamples <= 0xffff_ffff * 0xffff_ffff) by (nonlinear_arith)
            requires
                self.xsamples <= 0xffff_ffff,
                self.ysamples <= 0xffff_ffff,
        ;
        let total = (self.xsamples as u64) * (self.ysamples as u64);
        assert(total == self@.total());
        let truncated = #[verifier::truncate]
        (iteration as u32);
        1 <= total && total <= 0xffff_ffff && (truncated as u64) < total
    }

    /// Whether the sampler can hand out `count` more coordinates for the
    /// pixel and iteration it stands at.
    pub fn can_continue(&self, count: u32) -> (b: bool)
        ensures
            b == self@.ready(count as int),
    {
        assert(self.xsamples * self.ysamples <= 0xffff_ffff * 0xffff_ffff) by (nonlinear_arith)
            requires
                self.xsamples <= 0xffff_ffff,
                self.ysamples <= 0xffff_ffff,
        ;
        let total = (self.xsamples as u64) * (self.ysamples as u64);
        assert(total == self@.total());
        1 <= total && total <= 0xffff_ffff && (self.iteration as u64) < total && (
        self.dimension as u64) + (count as u64) <= 0xffff_ffff
    }

    /// The offset inside the stratum: the generator's next number with
    /// jitter, the middle without.
    fn next_offset(&mut self) -> (offset: u32)
        ensures
            offset == old(self)@.offset(0),
            offset < FRACTION_ONE,
            final(self)@ == (StratifiedState {
                rng_state: if old(self)@.jitter {
                    pcg_advance(old(self)@.rng_state, old(self)@.rng_inc)
                } else {
                    old(self)@.rng_state
                },
                ..old(self)@
            }),
    {
        if self.jitter {
            self.pcg_rng.rand_fraction()
        } else {
            HALF
        }
    }

    /// The stratum of the decision that comes next.
    fn next_stratum(&self) -> (stratum: u32)
        requires
            self@.ready(0),
        ensures
            stratum == self@.stratum(),
            stratum < self@.total(),
    {
        let hash = hash_pixel(self.seed, self.x, self.y, self.dimension);
        assert(self.xsamples * self.ysamples == self@.total());
        let total = self.xsamples * self.ysamples;
        permutation_element(self.iteration, total, hash)
    }

    pub fn next_1d(&mut self) -> (u: Sample1D)
        requires
            old(self)@.ready(1),
        ensures
            u == old(self)@.sample_1d(),
            u.in_unit_interval(),
            final(self)@ == old(self)@.after(1),
    {
        let stratum = self.next_stratum();
        let total = self.xsamples * self.ysamples;
        self.dimension += 1;
        let offset = self.next_offset();
        Sample1D { stratum, strata: total, offset }
    }

    pub fn next_2d(&mut self) -> (u: (Sample1D, Sample1D))
        requires
            old(self)@.ready(2),
        ensures
            u == old(self)@.sample_2d(),
            u.0.in_unit_interval(),
            u.1.in_unit_interval(),
            final(self)@ == old(self)@.after(2),
    {
        let stratum = self.next_stratum();
        self.dimension += 2;
        let (x, y) = grid_cell(stratum, self.xsamples, self.ysamples);
        let dx = self.next_offset();
        let dy = self.next_offset();
        (
            Sample1D { stratum: x, strata: self.xsamples, offset: dx },
            Sample1D { stratum: y, strata: self.ysamples, offset: dy },
        )
    }

    /// Turns to iteration `iteration` of pixel `(x, y)` and gives the place
    /// of its sample inside the pixel.
    pub fn sample_pixel(&mut self, x: usize, y: usize, iteration: usize) -> (u: (Sample1D, Sample1D))
        requires
            old(self)@.at_pixel(x, y, iteration).ready(2),
        ensures
            u == old(self)@.at_pixel(x, y, iteration).sample_2d(),
            u.0.in_unit_interval(),
            u.1.in_unit_interval(),
            final(self)@ == old(self)@.at_pixel(x, y, iteration).after(2),
    {
        self.x = #[verifier::truncate]
        (x as u32);
        self.y = #[verifier::truncate]
        (y as u32);
        self.iteration = #[verifier::truncate]
        (iteration as u32);
        self.dimension = 0;
        self.next_2d()
    }

    /// Starts the generator anew for a tile: seeded from the sampler's seed
    /// and the tile's corner, on the stream that `iteration` selects.
    pub fn initialize(&mut self, tile: &Tile, iteration: u32)
        ensures
            final(self)@ == (StratifiedState {
                rng_state: tile_seed(old(self)@.seed, tile.x1, tile.y1),
                rng_inc: iteration as u64,
                ..old(self)@
            }),
    {
        let seed = hash_tile(self.seed, tile.x1, tile.y1);
        self.pcg_rng = PCGRng::new(seed, iteration as u64);
    }
}

/// The cell of the `xs` by `ys` grid that the pixel's sample falls in at
/// iteration `i`: the column and row of the stratum of dimension 0.
pub open spec fn pixel_cell(seed: u64, x: u32, y: u32, xs: u32, ys: u32, i: u32) -> (int, int) {
    let s = stratum_of(seed, x, y, 0, i, (xs * ys) as u32);
    ((s % xs) as int, (s / xs) as int)
}

/// Over the `xs * ys` iterations of a pixel its samples visit every cell of
/// the grid: each cell has an iteration that falls in it. This holds where
/// the permutation of the strata is exact.
pub proof fn lemma_strata_all_visited(seed: u64, x: u32, y: u32, xs: u32, ys: u32, cx: u32, cy: u32)
     -> (i: u32)
    requires
        1 <= xs * ys <= u32::MAX,
        cx < xs,
        cy < ys,
        rotation_exact((xs * ys) as u32, stratum_seed(seed, x, y, 0)),
    ensures
        i < xs * ys,
        pixel_cell(seed, x, y, xs, ys, i) == (cx as int, cy as int),
{
    let total = (xs * ys) as u32;
    let target = cy * xs + cx;
    assert(0 <= target < xs * ys) by (nonlinear_arith)
        requires
            cx < xs,
            cy < ys,
            target == cy * xs + cx,
    ;
    let i = lemma_permutation_onto(target as u32, total, stratum_seed(seed, x, y, 0));
    lemma_fundamental_div_mod_converse(target, xs as int, cy as int, cx as int);
    i
}

/// No two of the `xs * ys` iterations of a pixel fall in the same cell.
pub proof fn lemma_strata_visited_once(seed: u64, x: u32, y: u32, xs: u32, ys: u32, i: u32, j: u32)
    requires
        1 <= xs * ys <= u32::MAX,
        i < xs * ys,
        j < xs * ys,
        i != j,
        rotation_exact((xs * ys) as u32, stratum_seed(seed, x, y, 0)),
    ensures
        pixel_cell(seed, x, y, xs, ys, i) != pixel_cell(seed, x, y, xs, ys, j),
{
    let total = (xs * ys) as u32;
    let hash = stratum_seed(seed, x, y, 0);
    lemma_permutation_injective(i, j, total, hash);
    let a = permutation_element_spec(i, total, hash) as int;
    let b = permutation_element_spec(j, total, hash) as int;
    assert(xs >= 1) by (nonlinear_arith)
        requires
            1 <= xs * ys,
            xs >= 0,
            ys >= 0,
    ;
    lemma_fundamental_div_mod(a, xs as int);
    lemma_fundamental_div_mod(b, xs as int);
}

} // verus!
