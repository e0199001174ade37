use rtlib::bvh_up::{BVHUp, INFINITE_AREA};
use rtlib::rng::PCGRng;
use rtlib::shapes::{LinearIntersector, HORIZON};

#[derive(Clone, Copy, Debug, PartialEq)]
struct Block {
    min: [f32; 3],
    max: [f32; 3],
}

#[derive(Clone, Copy, Debug)]
struct Globe {
    center: [f32; 3],
    radius: f32,
}

#[derive(Clone, Copy, Debug)]
struct Line {
    origin: [f32; 3],
    direction: [f32; 3],
}

fn globe_block(globe: &Globe) -> Block {
    let c = globe.center;
    let r = globe.radius;
    Block { min: [c[0] - r, c[1] - r, c[2] - r], max: [c[0] + r, c[1] + r, c[2] + r] }
}

fn join(a: &Block, b: &Block) -> Block {
    let mut out = *a;
    for k in 0..3 {
        out.min[k] = a.min[k].min(b.min[k]);
        out.max[k] = a.max[k].max(b.max[k]);
    }
    out
}

fn key_of(area: f32) -> u32 {
    let bits = area.to_bits();
    if area.is_nan() {
        u32::MAX
    } else if area.is_sign_negative() {
        !bits
    } else {
        bits | 0x8000_0000
    }
}

fn block_area(b: &Block) -> u32 {
    let d = [b.max[0] - b.min[0], b.max[1] - b.min[1], b.max[2] - b.min[2]];
    key_of((d[0] * d[1] + d[1] * d[2] + d[2] * d[0]) * 2.0)
}

fn line_meets_block(line: &Line, b: &Block) -> bool {
    let mut tmin = 0.0f32;
    let mut tmax = f32::INFINITY;
    for k in 0..3 {
        let inv = 1.0 / line.direction[k];
        let t1 = (b.min[k] - line.origin[k]) * inv;
        let t2 = (b.max[k] - line.origin[k]) * inv;
        let lo1 = if t1 > tmin { t1 } else { tmin };
        let lo2 = if t2 > tmin { t2 } else { tmin };
        tmin = if lo1 < lo2 { lo1 } else { lo2 };
        let hi1 = if t1 < tmax { t1 } else { tmax };
        let hi2 = if t2 < tmax { t2 } else { tmax };
        tmax = if hi1 > hi2 { hi1 } else { hi2 };
    }
    tmin <= tmax
}

fn line_meets_globe(line: &Line, globe: &Globe) -> Option<u32> {
    let f = [
        line.origin[0] - globe.center[0],
        line.origin[1] - globe.center[1],
        line.origin[2] - globe.center[2],
    ];
    let d = line.direction;
    let dot = |a: &[f32; 3], b: &[f32; 3]| a[0] * b[0] + a[1] * b[1] + a[2] * b[2];
    let c = dot(&f, &f) - globe.radius * globe.radius;
    let b_prime = -dot(&f, &d);
    let tmp = [f[0] + b_prime * d[0], f[1] + b_prime * d[1], f[2] + b_prime * d[2]];
    let discriminant = globe.radius * globe.radius - dot(&tmp, &tmp);
    if discriminant < 0.0 {
        return None;
    }
    let q = b_prime + b_prime.signum() * discriminant.sqrt();
    let t = c / q;
    if t > 0.0 && t < 1e38 {
        return Some(t.to_bits());
    }
    let t = q;
    if t > 0.0 && t < 1e38 {
        return Some(t.to_bits());
    }
    None
}

fn fraction(rng: &mut PCGRng) -> f32 {
    rng.rand_fraction() as f32 * f32::from_bits(0x33800000)
}

fn random_globes(rng: &mut PCGRng, n: usize) -> Vec<Globe> {
    (0..n)
        .map(|_| Globe {
            center: [
                fraction(rng) * 20.0 - 10.0,
                fraction(rng) * 20.0 - 10.0,
                fraction(rng) * 20.0 - 10.0,
            ],
            radius: 0.1 + fraction(rng),
        })
        .collect()
}

fn random_line(rng: &mut PCGRng) -> Line {
    let origin = [
        fraction(rng) * 30.0 - 15.0,
        fraction(rng) * 30.0 - 15.0,
        fraction(rng) * 30.0 - 15.0,
    ];
    let mut d = [fraction(rng) - 0.5, fraction(rng) - 0.5, fraction(rng) - 0.5];
    let len = (d[0] * d[0] + d[1] * d[1] + d[2] * d[2]).sqrt().max(1e-3);
    for k in 0..3 {
        d[k] /= len;
    }
    Line { origin, direction: d }
}

/// A stretch of a line, from its first number to its second.
fn stretch_join(a: &(u32, u32), b: &(u32, u32)) -> (u32, u32) {
    (a.0.min(b.0), a.1.max(b.1))
}

fn stretch_length(s: &(u32, u32)) -> u32 {
    s.1 - s.0
}

#[test]
fn bvh_up_infinite_area_is_the_key_of_infinity() {
    assert_eq!(INFINITE_AREA, key_of(f32::INFINITY));
    assert!(key_of(-1.0) < key_of(0.0));
    assert!(key_of(0.0) < key_of(1.0));
    assert!(key_of(1.0e30) < INFINITE_AREA);
    assert!(key_of(f32::NAN) >= INFINITE_AREA);
}

#[test]
fn bvh_up_over_nothing() {
    let mut bvh: BVHUp<(u32, u32)> = BVHUp::new();
    assert_eq!(0, bvh.node_count());
    assert_eq!(None, bvh.intersect(|_b: &(u32, u32)| true, |_i: usize| Some(1u32)));
    bvh.build(0, |_i| (0, 0), stretch_join, stretch_length);
    assert_eq!(0, bvh.node_count());
    assert_eq!(None, bvh.node_layout(0));
    assert_eq!(None, bvh.intersect(|_b: &(u32, u32)| true, |_i: usize| Some(1u32)));
}

#[test]
fn bvh_up_one_primitive_is_one_leaf() {
    let mut bvh: BVHUp<(u32, u32)> = BVHUp::new();
    bvh.build(1, |_i| (4, 5), stretch_join, stretch_length);
    assert_eq!(1, bvh.node_count());
    assert_eq!(Some((true, 0, 0, 0)), bvh.node_layout(0));
    let hit = bvh.intersect(|_b: &(u32, u32)| true, |_i: usize| Some(7u32));
    assert_eq!(Some((7, 0)), hit.map(|h| (h.t, h.shape_id)));
}

#[test]
fn bvh_up_joins_the_closest_pair_first() {
    let starts: [u32; 4] = [0, 10, 11, 30];
    let mut bvh: BVHUp<(u32, u32)> = BVHUp::new();
    bvh.build(4, |i| (starts[i], starts[i] + 1), stretch_join, stretch_length);
    assert_eq!(7, bvh.node_count());
    for i in 0..4usize {
        assert_eq!(Some((true, 0, 0, i as u32)), bvh.node_layout(i));
    }
    assert_eq!(Some((false, 1, 2, 0)), bvh.node_layout(4));
    assert_eq!(Some((false, 0, 4, 0)), bvh.node_layout(5));
    assert_eq!(Some((false, 3, 5, 0)), bvh.node_layout(6));
    assert_eq!(None, bvh.node_layout(7));
}

#[test]
fn bvh_up_stops_where_no_area_is_finite() {
    let mut bvh: BVHUp<(u32, u32)> = BVHUp::new();
    bvh.build(3, |i| (i as u32, i as u32 + 1), stretch_join, |_s: &(u32, u32)| INFINITE_AREA);
    assert_eq!(3, bvh.node_count());
    // The last node is then the tree that is searched.
    let hit = bvh.intersect(|_b: &(u32, u32)| true, |i: usize| Some(10 + i as u32));
    assert_eq!(Some((12, 2)), hit.map(|h| (h.t, h.shape_id)));
}

#[test]
fn bvh_up_walks_every_leaf_that_may_be_hit() {
    let mut bvh: BVHUp<(u32, u32)> = BVHUp::new();
    bvh.build(5, |i| (3 * i as u32, 3 * i as u32 + 1), stretch_join, stretch_length);
    assert_eq!(9, bvh.node_count());
    let distances: [u32; 5] = [50, 40, 30, 60, 70];
    let hit = bvh.intersect(|_b: &(u32, u32)| true, |i: usize| Some(distances[i]));
    assert_eq!(Some((30, 2)), hit.map(|h| (h.t, h.shape_id)));
    // A volume that is missed hides what is under it.
    let hit = bvh.intersect(|b: &(u32, u32)| b.0 > 6, |i: usize| Some(distances[i]));
    assert_eq!(None, hit);
    let hit = bvh.intersect(|_b: &(u32, u32)| true, |_i: usize| None);
    assert_eq!(None, hit);
}

#[test]
fn bvh_up_matches_linear_search() {
    let mut rng = PCGRng::new(0xb07, 0);
    let globes = random_globes(&mut rng, 40);
    let mut bvh: BVHUp<Block> = BVHUp::new();
    bvh.build(globes.len(), |i| globe_block(&globes[i]), join, block_area);
    assert_eq!(2 * globes.len() - 1, bvh.node_count());
    let mut linear: LinearIntersector<Block> = LinearIntersector::new();
    linear.prepare_for_rendering(globes.len(), |i| globe_block(&globes[i]));
    let mut hits = 0;
    for _ in 0..500 {
        let line = random_line(&mut rng);
        let tree = bvh.intersect(
            |b: &Block| line_meets_block(&line, b),
            |i: usize| line_meets_globe(&line, &globes[i]),
        );
        let scan = linear.intersect(
            |b: &Block| line_meets_block(&line, b),
            |i: usize| line_meets_globe(&line, &globes[i]),
        );
        match (tree, scan) {
            (None, None) => {}
            (Some(a), Some(b)) => {
                hits += 1;
                assert!(a.t < HORIZON);
                assert_eq!(a.t, b.t);
            }
            (a, b) => panic!("tree {:?}, scan {:?}", a.map(|h| h.t), b.map(|h| h.t)),
        }
    }
    assert!(hits > 0);
}
