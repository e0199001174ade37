use rtlib::hash::{
    hash1, hash2, hash3, hash4, hash64, murmur_hash64a, u32_le_bytes, u64_le_bytes,
};

#[test]
fn murmur_hash_64_a_test() {
    assert_eq!(0, murmur_hash64a("".as_bytes(), 0));
    assert_eq!(0xc26e8bc196329b0f, murmur_hash64a("".as_bytes(), 10));
    assert_eq!(
        0x472ff7d324321dfe,
        murmur_hash64a("Pizza & Mandolino".as_bytes(), 2915580697)
    );
}

#[test]
fn murmur_hash_64_a_test_macro() {
    println!("h1 {}", hash1(&566u32.to_le_bytes()));
    println!("h2 {}", hash2(&0u32.to_le_bytes(), &1f64.to_le_bytes()));
    println!(
        "h3 {}",
        hash3(&0u32.to_le_bytes(), &1f64.to_le_bytes(), &32i32.to_le_bytes())
    );
    println!(
        "h4 {}",
        hash4(
            &0u32.to_le_bytes(),
            &1f32.to_le_bytes(),
            &32i32.to_le_bytes(),
            &33u32.to_le_bytes()
        )
    );
    let mut seed = 45454u64;
    for _i in 0..10000 {
        let bytes = seed.to_le_bytes();
        seed = hash3(&bytes, &bytes, &bytes);
    }
    println!("Elapsed: {}", seed);

    let v = 44u64;
    println!("hash value is {}", hash64(v));
}

#[test]
fn murmur_short_key_is_zero_padded() {
    assert_eq!(0x9cc9c33498a95efb, murmur_hash64a("abc".as_bytes(), 0));
}

#[test]
fn murmur_one_whole_word() {
    assert_eq!(0x0f7abbec525ef2c3, murmur_hash64a("12345678".as_bytes(), 7));
}

#[test]
fn murmur_words_and_rest() {
    assert_eq!(
        0x3b57242a8d61fc7b,
        murmur_hash64a("123456789abcdefgh".as_bytes(), 1)
    );
}

#[test]
fn murmur_reads_every_byte() {
    let base = murmur_hash64a("123456789abcdefgh".as_bytes(), 1);
    let text = "123456789abcdefgh".as_bytes();
    for i in 0..text.len() {
        let mut changed = text.to_vec();
        changed[i] ^= 1;
        assert_ne!(base, murmur_hash64a(&changed, 1));
    }
}

#[test]
fn hash_of_one_operand() {
    assert_eq!(15344211046792672417, hash1(&566u32.to_le_bytes()));
}

#[test]
fn hash_of_operands_is_hash_of_their_bytes() {
    let a = 7u64.to_le_bytes();
    let b = 11u32.to_le_bytes();
    let c = 13u32.to_le_bytes();
    let d = 17u32.to_le_bytes();
    let mut all = Vec::new();
    all.extend_from_slice(&a);
    all.extend_from_slice(&b);
    assert_eq!(murmur_hash64a(&all, 0), hash2(&a, &b));
    all.extend_from_slice(&c);
    assert_eq!(murmur_hash64a(&all, 0), hash3(&a, &b, &c));
    all.extend_from_slice(&d);
    assert_eq!(murmur_hash64a(&all, 0), hash4(&a, &b, &c, &d));
    assert_ne!(hash2(&a, &b), hash2(&b, &a));
}

#[test]
fn hash_takes_sixty_four_bytes() {
    let a = [1u8; 32];
    let b = [2u8; 32];
    let mut all = Vec::new();
    all.extend_from_slice(&a);
    all.extend_from_slice(&b);
    assert_eq!(murmur_hash64a(&all, 0), hash2(&a, &b));
}

#[test]
fn little_endian_bytes() {
    assert_eq!(vec![0x78, 0x56, 0x34, 0x12], u32_le_bytes(0x12345678));
    assert_eq!(0x12345678u32.to_le_bytes().to_vec(), u32_le_bytes(0x12345678));
    assert_eq!(
        vec![0xef, 0xcd, 0xab, 0x89, 0x67, 0x45, 0x23, 0x01],
        u64_le_bytes(0x0123456789abcdef)
    );
    assert_eq!(u64::MAX.to_le_bytes().to_vec(), u64_le_bytes(u64::MAX));
    assert_eq!(vec![0, 0, 0, 0], u32_le_bytes(0));
}

#[test]
fn hash64_values() {
    assert_eq!(0, hash64(0));
    assert_eq!(0xccde22c1faa4d20f, hash64(1));
    assert_eq!(17759098104477466483, hash64(44));
}
