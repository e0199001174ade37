use rtlib::rng::{PCGRng, FRACTION_ONE};
use std::collections::HashMap;

fn unit(fraction: u32) -> f32 {
    fraction as f32 * f32::from_bits(0x33800000)
}

#[test]
fn pcg_test() {
    let mut rng = PCGRng::new(0xf123456789012345, 0);
    for _i in 0..20 {
        println!("rnd: {}", unit(rng.rand_fraction()));
    }
}

#[test]
fn pcg_hitogram_test() {
    let mut rng = PCGRng::new(0xf12456955, 0x454555);
    let mut nums = HashMap::new();
    for _i in 0..10000 {
        let num = rng.rand_range(5);
        match nums.get(&num) {
            Some(val) => nums.insert(num, val + 1),
            None => nums.insert(num, 1),
        };
    }
    println!("{:?}", nums.get(&0));
    println!("{:?}", nums.get(&1));
    println!("{:?}", nums.get(&2));
    println!("{:?}", nums.get(&3));
    println!("{:?}", nums.get(&4));
    println!("{:?}", nums.get(&5));
    assert_eq!(None, nums.get(&5));
    let total: i32 = nums.values().sum();
    assert_eq!(10000, total);
    for k in 0..5u32 {
        assert!(*nums.get(&k).unwrap() > 1500);
    }
}

#[test]
fn pcg_first_numbers() {
    let mut rng = PCGRng::new(0xf123456789012345, 0);
    assert_eq!(0x91bc97ac, rng.rand_u32());
    assert_eq!(0x41b4fb00, rng.rand_u32());
    assert_eq!(0x9e0fafe8, rng.rand_u32());
    assert_eq!(0x5eb48b4a, rng.rand_u32());
    assert_eq!(0xc763607c, rng.rand_u32());
}

#[test]
fn pcg_range_scales_the_number() {
    let mut rng = PCGRng::new(0xf12456955, 0x454555);
    let drawn: Vec<u32> = (0..5).map(|_| rng.rand_range(5)).collect();
    assert_eq!(vec![0, 2, 4, 3, 1], drawn);
    let mut a = PCGRng::new(9, 3);
    let mut b = PCGRng::new(9, 3);
    for _ in 0..100 {
        let x = a.rand_u32();
        assert_eq!(((x as u64 * 1000) >> 32) as u32, b.rand_range(1000));
    }
}

#[test]
fn pcg_range_of_nothing_is_zero() {
    let mut rng = PCGRng::new(1, 1);
    for _ in 0..10 {
        assert_eq!(0, rng.rand_range(0));
        assert_eq!(0, rng.rand_range(1));
    }
}

#[test]
fn pcg_fraction_is_in_the_unit_interval() {
    let mut rng = PCGRng::new(0xf123456789012345, 0);
    assert_eq!(0x91bc97, rng.rand_fraction());
    let mut rng = PCGRng::new(42, 54);
    for _ in 0..100000 {
        let fraction = rng.rand_fraction();
        assert!(fraction < FRACTION_ONE);
        let value = unit(fraction);
        assert!(0.0 <= value && value < 1.0);
    }
    assert!(unit(FRACTION_ONE - 1) < 1.0);
    assert_eq!(0.5, unit(FRACTION_ONE / 2));
}

#[test]
fn pcg_streams_differ() {
    let mut a = PCGRng::new(5, 0);
    let mut b = PCGRng::new(5, 2);
    let mut c = PCGRng::new(5, 1);
    assert_eq!(a.rand_u32(), b.rand_u32());
    let first: Vec<u32> = (0..50).map(|_| a.rand_u32()).collect();
    let second: Vec<u32> = (0..50).map(|_| b.rand_u32()).collect();
    assert_ne!(first, second);
    // the lowest bit of the stream number is always taken as set
    c.rand_u32();
    let third: Vec<u32> = (0..50).map(|_| c.rand_u32()).collect();
    assert_eq!(first, third);
}
