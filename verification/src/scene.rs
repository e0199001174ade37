//! Settings of a scene: which sampler drives the rendering and how deep
//! the random walk goes.

use vstd::prelude::*;
use crate::rng::{pcg_advance, pcg_output};
use crate::samplers::{
    tile_seed,
    RandomPathSampler,
    Sample1D,
    StratifiedPathSampler,
    StratifiedState,
};
use crate::tags::is_word;
use crate::tile::Tile;

verus! {

/// The seed of a sampler that was given none.
pub const DEFAULT_SEED: u64 = 1234567890;

#[derive(Clone, Copy)]
pub struct RandomWalkProperties {
    pub maxdepth: usize,
}

impl Default for RandomWalkProperties {
    fn default() -> (properties: Self)
        ensures
            properties.maxdepth == 5,
    {
        Self { maxdepth: 5 }
    }
}

pub struct RandomSamplerSettings {
    pub seed: u64,
}

impl Default for RandomSamplerSettings {
    fn default() -> (settings: Self)
        ensures
            settings.seed == DEFAULT_SEED,
    {
        Self { seed: DEFAULT_SEED }
    }
}

pub struct StratifiedSamplerSettings {
    pub seed: u64,
    pub xsamples: u32,
    pub ysamples: u32,
    pub jitter: bool,
}

impl Default for StratifiedSamplerSettings {
    fn default() -> (settings: Self)
        ensures
            settings.seed == DEFAULT_SEED,
            settings.jitter,
            settings.xsamples == 4,
            settings.ysamples == 4,
    {
        Self { seed: DEFAULT_SEED, jitter: true, xsamples: 4, ysamples: 4 }
    }
}

/// The rendering algorithms that a scene may name.
#[derive(Clone, Copy, Debug, PartialEq, Eq, Structural)]
pub enum IntegratorType {
    AmbientOcclusion,
    DirectLighting,
    RandomWalk,
    /// Reserved: a scene may name it, but it cannot be rendered.
    PathTracer,
}

impl IntegratorType {
    /// The algorithm that a tag names: `ambient-occlusion`, `direct-lighting`,
    /// `random-walk`, `path-tracer`.
    pub open spec fn tagged(tag: Seq<char>) -> Option<IntegratorType> {
        if tag == "ambient-occlusion"@ {
            Some(IntegratorType::AmbientOcclusion)
        } else if tag == "direct-lighting"@ {
            Some(IntegratorType::DirectLighting)
        } else if tag == "random-walk"@ {
            Some(IntegratorType::RandomWalk)
        } else if tag == "path-tracer"@ {
            Some(IntegratorType::PathTracer)
        } else {
            None
        }
    }

    /// The algorithm that the tag names, or `None` for an unknown tag.
    pub fn from_tag(tag: &str) -> (r: Option<IntegratorType>)
        ensures
            r == IntegratorType::tagged(tag@),
    {
        if is_word(tag, "ambient-occlusion") {
            Some(IntegratorType::AmbientOcclusion)
        } else if is_word(tag, "direct-lighting") {
            Some(IntegratorType::DirectLighting)
        } else if is_word(tag, "random-walk") {
            Some(IntegratorType::RandomWalk)
        } else if is_word(tag, "path-tracer") {
            Some(IntegratorType::PathTracer)
        } else {
            None
        }
    }

    /// Whether the algorithm can be rendered: all but the reserved one.
    pub fn is_available(&self) -> (b: bool)
        ensures
            b == (*self != IntegratorType::PathTracer),
    {
        match self {
            IntegratorType::PathTracer => false,
            _ => true,
        }
    }
}

/// The kinds of sampler that a scene may name.
#[derive(Clone, Copy, Debug, PartialEq, Eq, Structural)]
pub enum SamplerType {
    Independent,
    Stratified,
}

impl SamplerType {
    /// The kind of sampler that a tag names: `independent`, `stratified`.
    pub open spec fn tagged(tag: Seq<char>) -> Option<SamplerType> {
        if tag == "independent"@ {
            Some(SamplerType::Independent)
        } else if tag == "stratified"@ {
            Some(SamplerType::Stratified)
        } else {
            None
        }
    }

    /// The kind that the tag names, or `None` for an unknown tag.
    pub fn from_tag(tag: &str) -> (r: Option<SamplerType>)
        ensures
            r == SamplerType::tagged(tag@),
    {
        if is_word(tag, "independent") {
            Some(SamplerType::Independent)
        } else if is_word(tag, "stratified") {
            Some(SamplerType::Stratified)
        } else {
            None
        }
    }
}

/// The coordinate that an independent sampler hands out when its generator
/// is in state `state`.
pub open spec fn independent(state: u64) -> Sample1D {
    Sample1D { stratum: 0, strata: 1, offset: pcg_output(state) >> 8 }
}

/// The two coordinates that an independent sampler hands out one after the
/// other.
pub open spec fn independent_pair(state: u64, inc: u64) -> (Sample1D, Sample1D) {
    (independent(state), independent(pcg_advance(state, inc)))
}

/// Which sampler a scene asks for.
pub enum Sampler {
    Random(RandomSamplerSettings),
    Stratified(StratifiedSamplerSettings),
}

/// A sampler at work, of either kind.
pub enum PathSampler {
    Random(RandomPathSampler),
    Stratified(StratifiedPathSampler),
}

impl Sampler {
    /// The sampler that the settings describe, not yet started on a tile.
    pub fn create_sampler(&self) -> (sampler: PathSampler)
        ensures
            match *self {
                Sampler::Random(settings) => sampler matches PathSampler::Random(r) && r.seed()
                    == settings.seed && r.rng_state() == settings.seed && r.rng_inc() == 0,
                Sampler::Stratified(settings) => sampler matches PathSampler::Stratified(s) && s@
                    == (StratifiedState {
                    seed: settings.seed,
                    jitter: settings.jitter,
                    xsamples: settings.xsamples,
                    ysamples: settings.ysamples,
                    rng_state: settings.seed,
                    rng_inc: 0,
                    x: 0,
                    y: 0,
                    iteration: 0,
                    dimension: 0,
                }),
            },
    {
        match self {
            Sampler::Random(settings) => PathSampler::Random(RandomPathSampler::new(settings.seed)),
            Sampler::Stratified(st) => PathSampler::Stratified(
                StratifiedPathSampler::new(st.seed, st.xsamples, st.ysamples, st.jitter),
            ),
        }
    }
}

impl PathSampler {
    /// A stratified sampler can hand out `count` more coordinates for the
    /// pixel and iteration it stands at; an independent one always can.
    pub open spec fn ready(&self, count: int) -> bool {
        match *self {
            PathSampler::Random(_) => true,
            PathSampler::Stratified(s) => s@.ready(count),
        }
    }

    /// A stratified sampler can turn to iteration `iteration` of pixel
    /// `(x, y)`; an independent one always can.
    pub open spec fn ready_at(&self, x: usize, y: usize, iteration: usize) -> bool {
        match *self {
            PathSampler::Random(_) => true,
            PathSampler::Stratified(s) => s@.at_pixel(x, y, iteration).ready(2),
        }
    }

    /// The state and the stream of an independent sampler's generator;
    /// `None` for a stratified one.
    pub open spec fn random(&self) -> Option<(u64, u64)> {
        match *self {
            PathSampler::Random(r) => Some((r.rng_state(), r.rng_inc())),
            PathSampler::Stratified(_) => None,
        }
    }

    /// What a stratified sampler holds; `None` for an independent one.
    pub open spec fn stratified(&self) -> Option<StratifiedState> {
        match *self {
            PathSampler::Random(_) => None,
            PathSampler::Stratified(s) => Some(s@),
        }
    }

    /// The sampler is of the same kind as `other` and keeps its settings.
    pub open spec fn same_settings(&self, other: &PathSampler) -> bool {
        match (*self, *other) {
            (PathSampler::Random(a), PathSampler::Random(b)) => a.seed() == b.seed(),
            (PathSampler::Stratified(a), PathSampler::Stratified(b)) => a@.seed == b@.seed
                && a@.jitter == b@.jitter && a@.xsamples == b@.xsamples && a@.ysamples
                == b@.ysamples,
            _ => false,
        }
    }

    /// Whether the sampler can turn to iteration `iteration` of pixel
    /// `(x, y)`.
    pub fn can_sample(&self, x: usize, y: usize, iteration: usize) -> (b: bool)
        ensures
            b == self.ready_at(x, y, iteration),
    {
        match self {
            PathSampler::Random(_) => true,
            PathSampler::Stratified(sampler) => sampler.can_sample(x, y, iteration),
        }
    }

    /// Whether the sampler can hand out `count` more coordinates.
    pub fn can_continue(&self, count: u32) -> (b: bool)
        ensures
            b == self.ready(count as int),
    {
        match self {
            PathSampler::Random(_) => true,
            PathSampler::Stratified(sampler) => sampler.can_continue(count),
        }
    }

    /// Starts the sampler's generator anew for a tile, on the stream that
    /// `iteration` selects.
    pub fn initialize(&mut self, tile: &Tile, iteration: u32)
        ensures
            match (*old(self), *final(self)) {
                (PathSampler::Random(a), PathSampler::Random(b)) => b.seed() == a.seed()
                    && b.rng_state() == tile_seed(a.seed(), tile.x1, tile.y1) && b.rng_inc()
                    == iteration,
                (PathSampler::Stratified(a), PathSampler::Stratified(b)) => b@ == (StratifiedState {
                    rng_state: tile_seed(a@.seed, tile.x1, tile.y1),
                    rng_inc: iteration as u64,
                    ..a@
                }),
                _ => false,
            },
    {
        match self {
            PathSampler::Random(sampler) => sampler.initialize(tile, iteration),
            PathSampler::Stratified(sampler) => sampler.initialize(tile, iteration),
        }
    }

    /// Turns to iteration `iteration` of pixel `(x, y)` and gives the place
    /// of its sample inside the pixel.
    pub fn sample_pixel(&mut self, x: usize, y: usize, iteration: usize) -> (u: (Sample1D, Sample1D))
        requires
            old(self).ready_at(x, y, iteration),
        ensures
            u.0.in_unit_interval(),
            u.1.in_unit_interval(),
            final(self).same_settings(&*old(self)),
            old(self).stratified() matches Some(a) ==> u == a.at_pixel(x, y, iteration).sample_2d()
                && final(self).stratified() == Some(a.at_pixel(x, y, iteration).after(2)),
            old(self).random() matches Some(g) ==> u == independent_pair(g.0, g.1)
                && final(self).random() == Some((pcg_advance(pcg_advance(g.0, g.1), g.1), g.1)),
    {
        match self {
            PathSampler::Random(sampler) => sampler.sample_pixel(x, y, iteration),
            PathSampler::Stratified(sampler) => sampler.sample_pixel(x, y, iteration),
        }
    }

    /// The coordinate of the next decision with one dimension.
    pub fn next_1d(&mut self) -> (u: Sample1D)
        requires
            old(self).ready(1),
        ensures
            u.in_unit_interval(),
            final(self).same_settings(&*old(self)),
            old(self).stratified() matches Some(a) ==> u == a.sample_1d()
                && final(self).stratified() == Some(a.after(1)),
            old(self).random() matches Some(g) ==> u == independent(g.0) && final(self).random()
                == Some((pcg_advance(g.0, g.1), g.1)),
    {
        match self {
            PathSampler::Random(sampler) => sampler.next_1d(),
            PathSampler::Stratified(sampler) => sampler.next_1d(),
        }
    }

    /// The coordinates of the next decision with two dimensions.
    pub fn next_2d(&mut self) -> (u: (Sample1D, Sample1D))
        requires
            old(self).ready(2),
        ensures
            u.0.in_unit_interval(),
            u.1.in_unit_interval(),
            final(self).same_settings(&*old(self)),
            old(self).stratified() matches Some(a) ==> u == a.sample_2d()
                && final(self).stratified() == Some(a.after(2)),
            old(self).random() matches Some(g) ==> u == independent_pair(g.0, g.1)
                && final(self).random() == Some((pcg_advance(pcg_advance(g.0, g.1), g.1), g.1)),
    {
        match self {
            PathSampler::Random(sampler) => sampler.next_2d(),
            PathSampler::Stratified(sampler) => sampler.next_2d(),
        }
    }
}

/// Looks up the material that a shape names: the last one of that name in
/// the list, as a later material takes the place of an earlier one with the
/// same name. `None` where the scene has no material of that name.
pub fn material_index(names: &Vec<String>, name: &String) -> (r: Option<usize>)
    ensures
        r is Some <==> exists|i: int| 0 <= i < names.len() && (#[trigger] names[i])@ == name@,
        r matches Some(index) ==> {
            &&& index < names.len()
            &&& names[index as int]@ == name@
            &&& forall|j: int| index < j < names.len() ==> (#[trigger] names[j])@ != name@
        },
{
    let mut i: usize = names.len();
    while i > 0
        invariant
            i <= names.len(),
            forall|j: int| i <= j < names.len() ==> (#[trigger] names[j])@ != name@,
        decreases i,
    {
        i -= 1;
        if names[i] == *name {
            return Some(i);
        }
    }
    None
}

} // verus!
