//! 64-bit hashing: MurmurHash2 (the 64-bit "A" variant) over bytes, hashes
//! of up to four operands, and a bit mixer for single words.

use vstd::prelude::*;

verus! {

/// The multiplier of MurmurHash2.
pub const MURMUR_M: u64 = 0xc6a4a7935bd1e995;

/// The shift of MurmurHash2.
pub const MURMUR_R: u64 = 47;

/// The most bytes that the operands of one hash may take together.
pub const MAX_OPERAND_BYTES: usize = 64;

/// Multiplication modulo 2^64.
pub open spec fn mul64(a: u64, b: u64) -> u64 {
    ((a as nat * b as nat) % 0x1_0000_0000_0000_0000nat) as u64
}

/// The byte at `i`, or 0 past the end.
pub open spec fn byte_or_zero(key: Seq<u8>, i: int) -> u8 {
    if 0 <= i < key.len() {
        key[i]
    } else {
        0
    }
}

/// The first `count` bytes from `offset` on, read as a little-endian number.
pub open spec fn word_upto(key: Seq<u8>, offset: int, count: nat) -> u64
    decreases count,
{
    if count == 0 {
        0
    } else {
        word_upto(key, offset, (count - 1) as nat) | ((byte_or_zero(key, offset + count - 1) as u64)
            << ((8 * (count - 1)) as u64))
    }
}

/// The eight bytes from `offset` on as a little-endian word; bytes past the
/// end of the key count as 0.
pub open spec fn word_at(key: Seq<u8>, offset: int) -> u64 {
    word_upto(key, offset, 8)
}

/// The hash state after the word `k` has been mixed into `h`.
pub open spec fn mix_word(h: u64, k: u64) -> u64 {
    let k1 = mul64(k, MURMUR_M);
    let k2 = k1 ^ (k1 >> MURMUR_R);
    let k3 = mul64(k2, MURMUR_M);
    mul64(h ^ k3, MURMUR_M)
}

/// The hash state after the first `words` whole words of the key.
pub open spec fn mix_words(key: Seq<u8>, h: u64, words: nat) -> u64
    decreases words,
{
    if words == 0 {
        h
    } else {
        mix_word(mix_words(key, h, (words - 1) as nat), word_at(key, 8 * (words - 1)))
    }
}

/// The closing avalanche.
pub open spec fn finish(h: u64) -> u64 {
    let h1 = h ^ (h >> MURMUR_R);
    let h2 = mul64(h1, MURMUR_M);
    h2 ^ (h2 >> MURMUR_R)
}

/// MurmurHash2, 64-bit variant A, of `key` with `seed`: the length is mixed
/// into the seed, then every whole little-endian word of the key, then the
/// zero-padded rest if there is one, then the state is finished.
pub open spec fn murmur_hash64a_spec(key: Seq<u8>, seed: u64) -> u64 {
    let words = key.len() / 8;
    let h0 = seed ^ mul64(key.len() as u64, MURMUR_M);
    let h1 = mix_words(key, h0, words);
    let h2 = if key.len() % 8 != 0 {
        mul64(h1 ^ word_at(key, (8 * words) as int), MURMUR_M)
    } else {
        h1
    };
    finish(h2)
}

/// Reads the little-endian word at `offset`, zero-padded past the end.
fn load_word(key: &[u8], offset: usize) -> (k: u64)
    requires
        offset <= key.len(),
    ensures
        k == word_at(key@, offset as int),
{
    let mut k: u64 = 0;
    let mut i: usize = 0;
    while i < 8
        invariant
            i <= 8,
            offset <= key.len(),
            k == word_upto(key@, offset as int, i as nat),
        decreases 8 - i,
    {
        let b: u8 = if i < key.len() - offset {
            key[offset + i]
        } else {
            0
        };
        k = k | ((b as u64) << ((8 * i) as u64));
        i += 1;
    }
    k
}

/// Hashes the bytes of `key`, starting from `seed`.
pub fn murmur_hash64a(key: &[u8], seed: u64) -> (h: u64)
    ensures
        h == murmur_hash64a_spec(key@, seed),
{
    let len = key.len();
    let words = len / 8;
    let ghost h0 = seed ^ mul64(len as u64, MURMUR_M);
    let mut h: u64 = seed ^ (len as u64).wrapping_mul(MURMUR_M);
    let mut w: usize = 0;
    while w < words
        invariant
            w <= words,
            words == key.len() / 8,
            h == mix_words(key@, h0, w as nat),
        decreases words - w,
    {
        let mut k = load_word(key, 8 * w);
        k = k.wrapping_mul(MURMUR_M);
        k ^= k >> MURMUR_R;
        k = k.wrapping_mul(MURMUR_M);
        h ^= k;
        h = h.wrapping_mul(MURMUR_M);
        w += 1;
    }
    if len % 8 != 0 {
        h ^= load_word(key, 8 * words);
        h = h.wrapping_mul(MURMUR_M);
    }
    h ^= h >> MURMUR_R;
    h = h.wrapping_mul(MURMUR_M);
    h ^= h >> MURMUR_R;
    h
}

/// Byte `i` of `x`, counted from the least significant.
pub open spec fn byte_of(x: u64, i: nat) -> u8 {
    ((x >> ((8 * i) as u64)) & 0xff) as u8
}

/// The `count` low bytes of `x`, least significant first.
pub open spec fn le_bytes(x: u64, count: nat) -> Seq<u8> {
    Seq::new(count, |i: int| byte_of(x, i as nat))
}

/// Appends the `count` low bytes of `x` to `buffer`, least significant first.
fn push_le_bytes(buffer: &mut Vec<u8>, x: u64, count: usize)
    requires
        count <= 8,
    ensures
        final(buffer)@ == old(buffer)@ + le_bytes(x, count as nat),
{
    let mut i: usize = 0;
    while i < count
        invariant
            i <= count <= 8,
            buffer@ == old(buffer)@ + le_bytes(x, i as nat),
        decreases count - i,
    {
        let b = ((x >> ((8 * i) as u64)) & 0xff) as u8;
        buffer.push(b);
        assert(buffer@ =~= old(buffer)@ + le_bytes(x, (i + 1) as nat));
        i += 1;
    }
}

/// The four bytes of `x`, least significant first.
pub fn u32_le_bytes(x: u32) -> (bytes: Vec<u8>)
    ensures
        bytes@ == le_bytes(x as u64, 4),
{
    let mut bytes: Vec<u8> = Vec::new();
    push_le_bytes(&mut bytes, x as u64, 4);
    assert(bytes@ =~= le_bytes(x as u64, 4));
    bytes
}

/// The eight bytes of `x`, least significant first.
pub fn u64_le_bytes(x: u64) -> (bytes: Vec<u8>)
    ensures
        bytes@ == le_bytes(x, 8),
{
    let mut bytes: Vec<u8> = Vec::new();
    push_le_bytes(&mut bytes, x, 8);
    assert(bytes@ =~= le_bytes(x, 8));
    bytes
}

/// Appends the bytes of `part` to `buffer`.
fn push_bytes(buffer: &mut Vec<u8>, part: &[u8])
    ensures
        final(buffer)@ == old(buffer)@ + part@,
{
    let mut i: usize = 0;
    while i < part.len()
        invariant
            i <= part.len(),
            buffer@ == old(buffer)@ + part@.subrange(0, i as int),
        decreases part.len() - i,
    {
        buffer.push(part[i]);
        assert(buffer@ =~= old(buffer)@ + part@.subrange(0, i + 1));
        i += 1;
    }
    assert(part@.subrange(0, part.len() as int) =~= part@);
}

/// The hash of one operand, given by its bytes: MurmurHash2 with seed 0.
pub fn hash1(a: &[u8]) -> (h: u64)
    ensures
        h == murmur_hash64a_spec(a@, 0),
{
    murmur_hash64a(a, 0)
}

/// The hash of two operands: MurmurHash2 with seed 0 of their bytes, one
/// after the other.
pub fn hash2(a: &[u8], b: &[u8]) -> (h: u64)
    requires
        a.len() + b.len() <= MAX_OPERAND_BYTES,
    ensures
        h == murmur_hash64a_spec(a@ + b@, 0),
{
    let mut buffer: Vec<u8> = Vec::new();
    push_bytes(&mut buffer, a);
    push_bytes(&mut buffer, b);
    assert(buffer@ =~= a@ + b@);
    murmur_hash64a(buffer.as_slice(), 0)
}

/// The hash of three operands: MurmurHash2 with seed 0 of their bytes, one
/// after the other.
pub fn hash3(a: &[u8], b: &[u8], c: &[u8]) -> (h: u64)
    requires
        a.len() + b.len() + c.len() <= MAX_OPERAND_BYTES,
    ensures
        h == murmur_hash64a_spec(a@ + b@ + c@, 0),
{
    let mut buffer: Vec<u8> = Vec::new();
    push_bytes(&mut buffer, a);
    push_bytes(&mut buffer, b);
    push_bytes(&mut buffer, c);
    assert(buffer@ =~= a@ + b@ + c@);
    murmur_hash64a(buffer.as_slice(), 0)
}

/// The hash of four operands: MurmurHash2 with seed 0 of their bytes, one
/// after the other.
pub fn hash4(a: &[u8], b: &[u8], c: &[u8], d: &[u8]) -> (h: u64)
    requires
        a.len() + b.len() + c.len() + d.len() <= MAX_OPERAND_BYTES,
    ensures
        h == murmur_hash64a_spec(a@ + b@ + c@ + d@, 0),
{
    let mut buffer: Vec<u8> = Vec::new();
    push_bytes(&mut buffer, a);
    push_bytes(&mut buffer, b);
    push_bytes(&mut buffer, c);
    push_bytes(&mut buffer, d);
    assert(buffer@ =~= a@ + b@ + c@ + d@);
    murmur_hash64a(buffer.as_slice(), 0)
}

/// The value of the 64-bit mixer on `v`: three xor-shift steps with two
/// multiplications modulo 2^64 between them.
pub open spec fn hash64_spec(v: u64) -> u64 {
    let a = v ^ (v >> 31);
    let b = mul64(a, 0x7fb5d329728ea185);
    let c = b ^ (b >> 27);
    let d = mul64(c, 0x81dadef4bc2dd44d);
    d ^ (d >> 33)
}

/// Mixes the bits of `v`.
pub fn hash64(v: u64) -> (h: u64)
    ensures
        h == hash64_spec(v),
{
    let mut v: u64 = v;
    v ^= v >> 31;
    v = v.wrapping_mul(0x7fb5d329728ea185);
    v ^= v >> 27;
    v = v.wrapping_mul(0x81dadef4bc2dd44d);
    v ^= v >> 33;
    v
}

} // verus!
