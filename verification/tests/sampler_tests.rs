use rtlib::rng::{PCGRng, FRACTION_ONE};
use rtlib::samplers::{RandomPathSampler, Sample1D, StratifiedPathSampler, HALF};
use rtlib::color::TMOType;
use rtlib::scene::{
    IntegratorType, PathSampler, RandomSamplerSettings, RandomWalkProperties, Sampler,
    SamplerType, StratifiedSamplerSettings, DEFAULT_SEED,
};
use rtlib::tags::is_word;
use rtlib::tile::Tile;
use std::collections::HashSet;

fn value(u: &Sample1D) -> f32 {
    (u.stratum as f32 + u.offset as f32 * f32::from_bits(0x33800000)) / u.strata as f32
}

#[test]
fn stratified_sampler_covers_the_grid() {
    for jitter in [true, false] {
        let mut sampler = StratifiedPathSampler::new(1234567890, 4, 4, jitter);
        sampler.initialize(&Tile::new(0, 0, 16, 16), 0);
        let mut cells = HashSet::new();
        for iteration in 0..16 {
            let (ux, uy) = sampler.sample_pixel(5, 5, iteration);
            let (x, y) = (value(&ux), value(&uy));
            assert!(0.0 <= x && x < 1.0 && 0.0 <= y && y < 1.0);
            cells.insert(((x * 4.0).floor() as u32, (y * 4.0).floor() as u32));
        }
        let mut expected = HashSet::new();
        for x in 0..4 {
            for y in 0..4 {
                expected.insert((x, y));
            }
        }
        assert_eq!(expected, cells);
    }
}

#[test]
fn stratified_sampler_exact_strata() {
    let mut sampler = StratifiedPathSampler::new(1234567890, 4, 4, false);
    let order = [1u32, 10, 2, 12, 4, 14, 9, 15, 8, 6, 3, 11, 0, 7, 13, 5];
    for iteration in 0..16usize {
        let (ux, uy) = sampler.sample_pixel(5, 5, iteration);
        let stratum = order[iteration];
        assert_eq!(Sample1D { stratum: stratum % 4, strata: 4, offset: HALF }, ux);
        assert_eq!(Sample1D { stratum: stratum / 4, strata: 4, offset: HALF }, uy);
    }
}

#[test]
fn stratified_sampler_middle_without_jitter() {
    let mut sampler = StratifiedPathSampler::new(7, 2, 3, false);
    let (ux, uy) = sampler.sample_pixel(0, 0, 0);
    assert_eq!(0.5, value(&Sample1D { stratum: 0, strata: 1, offset: ux.offset }));
    assert_eq!(HALF, uy.offset);
    let u = sampler.next_1d();
    assert_eq!(6, u.strata);
    assert!(u.stratum < 6);
    assert_eq!(HALF, u.offset);
}

#[test]
fn stratified_sampler_one_dimension_covers_all_strata() {
    let mut strata = HashSet::new();
    for iteration in 0..12usize {
        let mut sampler = StratifiedPathSampler::new(99, 4, 3, true);
        sampler.initialize(&Tile::new(0, 0, 8, 8), 0);
        sampler.sample_pixel(2, 3, iteration);
        let u = sampler.next_1d();
        assert_eq!(12, u.strata);
        assert!(u.offset < FRACTION_ONE);
        strata.insert(u.stratum);
    }
    assert_eq!(12, strata.len());
}

#[test]
fn stratified_sampler_jitter_comes_from_the_generator() {
    let mut sampler = StratifiedPathSampler::new(5, 4, 4, true);
    let tile = Tile::new(16, 32, 48, 64);
    sampler.initialize(&tile, 3);
    let mut twin = RandomPathSampler::new(5);
    twin.initialize(&tile, 3);
    let (ux, uy) = sampler.sample_pixel(20, 40, 2);
    let (vx, vy) = twin.next_2d();
    assert_eq!(vx.offset, ux.offset);
    assert_eq!(vy.offset, uy.offset);
}

#[test]
fn independent_sampler_draws_from_the_generator() {
    let mut sampler = RandomPathSampler::new(0xf123456789012345);
    let u = sampler.next_1d();
    assert_eq!(Sample1D { stratum: 0, strata: 1, offset: 0x91bc97 }, u);
    let (a, b) = sampler.next_2d();
    assert_eq!(0x41b4fb, a.offset);
    assert_eq!(0x9e0faf, b.offset);
    let (c, d) = sampler.sample_pixel(100, 200, 5);
    assert_eq!(0x5eb48b, c.offset);
    assert_eq!(0xc76360, d.offset);
    for u in [a, b, c, d] {
        assert_eq!((0, 1), (u.stratum, u.strata));
        let v = value(&u);
        assert!(0.0 <= v && v < 1.0);
    }
}

#[test]
fn sampler_seed_depends_on_the_tile() {
    let mut sampler = RandomPathSampler::new(1);
    sampler.initialize(&Tile::new(0, 0, 4, 4), 0);
    let mut expected = PCGRng::new(0x2852c6bc81dccd34, 0);
    assert_eq!(expected.rand_fraction(), sampler.next_1d().offset);

    let mut a = RandomPathSampler::new(1);
    let mut b = RandomPathSampler::new(1);
    a.initialize(&Tile::new(0, 0, 4, 4), 0);
    b.initialize(&Tile::new(4, 0, 8, 4), 0);
    let first: Vec<u32> = (0..4).map(|_| a.next_1d().offset).collect();
    let second: Vec<u32> = (0..4).map(|_| b.next_1d().offset).collect();
    assert_ne!(first, second);

    let mut c = RandomPathSampler::new(1);
    c.initialize(&Tile::new(0, 0, 9, 9), 0);
    let third: Vec<u32> = (0..4).map(|_| c.next_1d().offset).collect();
    assert_eq!(first, third);
}

#[test]
fn settings_defaults() {
    assert_eq!(5, RandomWalkProperties::default().maxdepth);
    assert_eq!(1234567890, RandomSamplerSettings::default().seed);
    assert_eq!(1234567890, DEFAULT_SEED);
    let st = StratifiedSamplerSettings::default();
    assert_eq!((1234567890, 4, 4, true), (st.seed, st.xsamples, st.ysamples, st.jitter));
}

#[test]
fn sampler_made_from_settings() {
    let mut made = Sampler::Random(RandomSamplerSettings { seed: 0xf123456789012345 })
        .create_sampler();
    assert!(matches!(made, PathSampler::Random(_)));
    assert_eq!(0x91bc97, made.next_1d().offset);

    let settings = StratifiedSamplerSettings { seed: 1234567890, xsamples: 4, ysamples: 4, jitter: false };
    let mut made = Sampler::Stratified(settings).create_sampler();
    assert!(matches!(made, PathSampler::Stratified(_)));
    made.initialize(&Tile::new(0, 0, 16, 16), 0);
    let (ux, uy) = made.sample_pixel(5, 5, 0);
    assert_eq!(Sample1D { stratum: 1, strata: 4, offset: HALF }, ux);
    assert_eq!(Sample1D { stratum: 0, strata: 4, offset: HALF }, uy);
    let (vx, vy) = made.next_2d();
    assert!(vx.stratum < 4 && vy.stratum < 4);
}

#[test]
fn algorithms_and_samplers_by_their_tags() {
    assert_eq!(Some(IntegratorType::AmbientOcclusion), IntegratorType::from_tag("ambient-occlusion"));
    assert_eq!(Some(IntegratorType::DirectLighting), IntegratorType::from_tag("direct-lighting"));
    assert_eq!(Some(IntegratorType::RandomWalk), IntegratorType::from_tag("random-walk"));
    assert_eq!(Some(IntegratorType::PathTracer), IntegratorType::from_tag("path-tracer"));
    assert_eq!(None, IntegratorType::from_tag("path"));
    assert_eq!(None, IntegratorType::from_tag("random-walk "));
    assert!(IntegratorType::AmbientOcclusion.is_available());
    assert!(IntegratorType::DirectLighting.is_available());
    assert!(IntegratorType::RandomWalk.is_available());
    assert!(!IntegratorType::PathTracer.is_available());
    assert_eq!(Some(SamplerType::Independent), SamplerType::from_tag("independent"));
    assert_eq!(Some(SamplerType::Stratified), SamplerType::from_tag("stratified"));
    assert_eq!(None, SamplerType::from_tag("halton"));
    assert_eq!(Some(TMOType::Linear), TMOType::from_tag("linear"));
    assert_eq!(Some(TMOType::Gamma), TMOType::from_tag("gamma"));
    assert_eq!(Some(TMOType::Reinhard), TMOType::from_tag("reinhard"));
    assert_eq!(None, TMOType::from_tag("filmic"));
    assert!(is_word("abc", "abc"));
    assert!(!is_word("abc", "abd"));
    assert!(!is_word("abc", "ab"));
    assert!(is_word("", ""));
}
