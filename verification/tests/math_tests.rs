use rtlib::math::permutation_element;
use std::collections::HashSet;

#[test]
fn permutation_test() {
    let seed: u32 = 255552;
    let total: u32 = 259;
    let mut ids = HashSet::new();
    for i in 0..total {
        ids.insert(permutation_element(i, total, seed));
    }
    for i in 0..total {
        assert_eq!(true, ids.contains(&i));
    }
}

#[test]
fn permutation_exact_values() {
    let images: Vec<u32> = (0..8).map(|i| permutation_element(i, 8, 12345)).collect();
    assert_eq!(vec![5, 1, 0, 7, 3, 2, 4, 6], images);
    let images: Vec<u32> = (0..10)
        .map(|i| permutation_element(i, 10, 0xdeadbeef))
        .collect();
    assert_eq!(vec![4, 7, 8, 5, 0, 6, 3, 1, 9, 2], images);
}

#[test]
fn permutation_of_one_element() {
    assert_eq!(0, permutation_element(0, 1, 0));
    assert_eq!(0, permutation_element(0, 1, 0xffff_ffff));
}

fn is_total(n: u32, seed: u32) -> bool {
    let mut seen = vec![false; n as usize];
    for i in 0..n {
        let image = permutation_element(i, n, seed);
        if image >= n || seen[image as usize] {
            return false;
        }
        seen[image as usize] = true;
    }
    seen.iter().all(|s| *s)
}

#[test]
fn permutation_is_total_up_to_4096() {
    for n in 1..=300u32 {
        assert!(is_total(n, 255552), "n = {}", n);
        assert!(is_total(n, 0), "n = {}", n);
    }
    for n in [511u32, 512, 513, 1000, 2047, 2048, 2049, 4095, 4096] {
        for seed in [1u32, 77, 0x1234_5678, 0x7fff_ffff, 0xffff_0000] {
            assert!(is_total(n, seed), "n = {} seed = {}", n, seed);
        }
    }
}

#[test]
fn permutation_is_total_for_powers_of_two_with_any_seed() {
    for n in [1u32, 2, 4, 16, 256, 4096] {
        for seed in [0xffff_ffffu32, 0xffff_fff5, 0xffff_f000, 0x8000_0001] {
            assert!(is_total(n, seed), "n = {} seed = {}", n, seed);
        }
    }
}

#[test]
fn permutation_stays_in_range_where_the_rotation_wraps() {
    let images: Vec<u32> = (0..3)
        .map(|i| permutation_element(i, 3, 0xffff_ffff))
        .collect();
    assert_eq!(vec![1, 0, 0], images);
    for i in 0..5 {
        assert!(permutation_element(i, 5, 0xffff_ffff) < 5);
    }
}

#[test]
fn permutation_depends_on_the_seed() {
    let a: Vec<u32> = (0..64).map(|i| permutation_element(i, 64, 1)).collect();
    let b: Vec<u32> = (0..64).map(|i| permutation_element(i, 64, 2)).collect();
    assert_ne!(a, b);
}
