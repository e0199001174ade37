//! Index permutations: a stateless, seeded permutation of `0 .. n`.

use vstd::prelude::*;

verus! {

/// Multiplication modulo 2^32.
pub open spec fn mul32(a: u32, b: u32) -> u32 {
    ((a as nat * b as nat) % 0x1_0000_0000nat) as u32
}

/// The smallest number of the form `2^k - 1` that is at least `n - 1`.
pub open spec fn mask_for(n: u32) -> u32 {
    let w0 = (n - 1) as u32;
    let w1 = w0 | (w0 >> 1);
    let w2 = w1 | (w1 >> 2);
    let w3 = w2 | (w2 >> 4);
    let w4 = w3 | (w3 >> 8);
    w4 | (w4 >> 16)
}

/// The mixing steps of one round, before the result is cut to the mask `w`.
/// Each step is invertible on the bits under the mask: an xor with a value
/// derived from the seed, a multiplication by an odd number, or an xor with
/// the masked value shifted right.
pub open spec fn scramble(i: u32, w: u32, seed: u32) -> u32 {
    let i1 = i ^ seed;
    let i2 = mul32(i1, 0xe170893d);
    let i3 = i2 ^ (seed >> 16);
    let i4 = i3 ^ ((i3 & w) >> 4);
    let i5 = i4 ^ (seed >> 8);
    let i6 = mul32(i5, 0x0929eb3f);
    let i7 = i6 ^ (seed >> 23);
    let i8 = i7 ^ ((i7 & w) >> 1);
    let i9 = mul32(i8, 1 | (seed >> 27));
    let i10 = mul32(i9, 0x6935fa69);
    let i11 = i10 ^ ((i10 & w) >> 11);
    let i12 = mul32(i11, 0x74dcb303);
    let i13 = i12 ^ ((i12 & w) >> 2);
    let i14 = mul32(i13, 0x9e501cc3);
    let i15 = i14 ^ ((i14 & w) >> 2);
    mul32(i15, 0xc860a3df)
}

/// One round: a permutation of `0 ..= w` that reads only the bits of `i`
/// under the mask.
pub open spec fn round(i: u32, w: u32, seed: u32) -> u32 {
    let m = scramble(i, w, seed) & w;
    m ^ (m >> 5)
}

/// `t` rounds applied to `x`.
pub open spec fn iterate(t: nat, x: u32, w: u32, seed: u32) -> u32
    decreases t,
{
    if t == 0 {
        x
    } else {
        round(iterate((t - 1) as nat, x, w, seed), w, seed)
    }
}

/// Rounds are applied until the value falls below `n`, at most `fuel + 1`
/// of them.
pub open spec fn cycle_walk(i: u32, n: u32, w: u32, seed: u32, fuel: nat) -> u32
    decreases fuel,
{
    let j = round(i, w, seed);
    if j < n || fuel == 0 {
        j
    } else {
        cycle_walk(j, n, w, seed, (fuel - 1) as nat)
    }
}

/// How many rounds `cycle_walk` applies.
pub open spec fn walk_len(i: u32, n: u32, w: u32, seed: u32, fuel: nat) -> nat
    decreases fuel,
{
    let j = round(i, w, seed);
    if j < n || fuel == 0 {
        1
    } else {
        1 + walk_len(j, n, w, seed, (fuel - 1) as nat)
    }
}

/// The last step: a rotation by the seed, computed modulo 2^32 and then
/// modulo `n`.
pub open spec fn rotate(i: u32, n: u32, seed: u32) -> u32 {
    ((((i + seed) % 0x1_0000_0000) as u32) % n) as u32
}

/// The image of `index` under the permutation of `0 .. n` that `seed` selects.
pub open spec fn permutation_element_spec(index: u32, n: u32, seed: u32) -> u32 {
    let w = mask_for(n);
    rotate(cycle_walk(index, n, w, seed, w as nat), n, seed)
}

/// `w` is `2^k - 1` for some `k` from 1 to 32.
pub open spec fn is_low_mask(w: u32) -> bool {
    w == 0xffffffffu32
        || w == 0x7fffffffu32
        || w == 0x3fffffffu32
        || w == 0x1fffffffu32
        || w == 0x0fffffffu32
        || w == 0x07ffffffu32
        || w == 0x03ffffffu32
        || w == 0x01ffffffu32
        || w == 0x00ffffffu32
        || w == 0x007fffffu32
        || w == 0x003fffffu32
        || w == 0x001fffffu32
        || w == 0x000fffffu32
        || w == 0x0007ffffu32
        || w == 0x0003ffffu32
        || w == 0x0001ffffu32
        || w == 0x0000ffffu32
        || w == 0x00007fffu32
        || w == 0x00003fffu32
        || w == 0x00001fffu32
        || w == 0x00000fffu32
        || w == 0x000007ffu32
        || w == 0x000003ffu32
        || w == 0x000001ffu32
        || w == 0x000000ffu32
        || w == 0x0000007fu32
        || w == 0x0000003fu32
        || w == 0x0000001fu32
        || w == 0x0000000fu32
        || w == 0x00000007u32
        || w == 0x00000003u32
        || w == 0x00000001u32
}

/// The inverse modulo 2^32 of an odd number below 32.
pub open spec fn odd_inverse(m: u32) -> u32 {
    if m == 1 {
        0x00000001
    } else     if m == 3 {
        0xaaaaaaab
    } else     if m == 5 {
        0xcccccccd
    } else     if m == 7 {
        0xb6db6db7
    } else     if m == 9 {
        0x38e38e39
    } else     if m == 11 {
        0xba2e8ba3
    } else     if m == 13 {
        0xc4ec4ec5
    } else     if m == 15 {
        0xeeeeeeef
    } else     if m == 17 {
        0xf0f0f0f1
    } else     if m == 19 {
        0x286bca1b
    } else     if m == 21 {
        0x3cf3cf3d
    } else     if m == 23 {
        0xe9bd37a7
    } else     if m == 25 {
        0xc28f5c29
    } else     if m == 27 {
        0x684bda13
    } else     if m == 29 {
        0x4f72c235
    } else {
        0xbdef7bdf
    }
}

proof fn lemma_mask_for(n: u32)
    by (bit_vector)
    requires
        n >= 2,
    ensures
        n - 1 <= mask_for(n),
        is_low_mask(mask_for(n)),
{
}

proof fn lemma_mask_shift(w: u32) -> (s: u32)
    requires
        is_low_mask(w),
    ensures
        s < 32,
        w == 0xffff_ffffu32 >> s,
{
    assert(0xffff_ffffu32 >> 0u32 == 0xffffffffu32
            && 0xffff_ffffu32 >> 1u32 == 0x7fffffffu32
            && 0xffff_ffffu32 >> 2u32 == 0x3fffffffu32
            && 0xffff_ffffu32 >> 3u32 == 0x1fffffffu32
            && 0xffff_ffffu32 >> 4u32 == 0x0fffffffu32
            && 0xffff_ffffu32 >> 5u32 == 0x07ffffffu32
            && 0xffff_ffffu32 >> 6u32 == 0x03ffffffu32
            && 0xffff_ffffu32 >> 7u32 == 0x01ffffffu32
            && 0xffff_ffffu32 >> 8u32 == 0x00ffffffu32
            && 0xffff_ffffu32 >> 9u32 == 0x007fffffu32
            && 0xffff_ffffu32 >> 10u32 == 0x003fffffu32
            && 0xffff_ffffu32 >> 11u32 == 0x001fffffu32
            && 0xffff_ffffu32 >> 12u32 == 0x000fffffu32
            && 0xffff_ffffu32 >> 13u32 == 0x0007ffffu32
            && 0xffff_ffffu32 >> 14u32 == 0x0003ffffu32
            && 0xffff_ffffu32 >> 15u32 == 0x0001ffffu32
            && 0xffff_ffffu32 >> 16u32 == 0x0000ffffu32
            && 0xffff_ffffu32 >> 17u32 == 0x00007fffu32
            && 0xffff_ffffu32 >> 18u32 == 0x00003fffu32
            && 0xffff_ffffu32 >> 19u32 == 0x00001fffu32
            && 0xffff_ffffu32 >> 20u32 == 0x00000fffu32
            && 0xffff_ffffu32 >> 21u32 == 0x000007ffu32
            && 0xffff_ffffu32 >> 22u32 == 0x000003ffu32
            && 0xffff_ffffu32 >> 23u32 == 0x000001ffu32
            && 0xffff_ffffu32 >> 24u32 == 0x000000ffu32
            && 0xffff_ffffu32 >> 25u32 == 0x0000007fu32
            && 0xffff_ffffu32 >> 26u32 == 0x0000003fu32
            && 0xffff_ffffu32 >> 27u32 == 0x0000001fu32
            && 0xffff_ffffu32 >> 28u32 == 0x0000000fu32
            && 0xffff_ffffu32 >> 29u32 == 0x00000007u32
            && 0xffff_ffffu32 >> 30u32 == 0x00000003u32
            && 0xffff_ffffu32 >> 31u32 == 0x00000001u32) by (bit_vector);
    choose|s: u32| s < 32 && w == 0xffff_ffffu32 >> s
}

proof fn lemma_low_eq_below(a: u32, b: u32, s: u32)
    by (bit_vector)
    requires
        s < 32,
        a <= 0xffff_ffffu32 >> s,
        b <= 0xffff_ffffu32 >> s,
        a << s == b << s,
    ensures
        a == b,
{
}

proof fn lemma_xor_step(a: u32, b: u32, c: u32, s: u32)
    by (bit_vector)
    requires
        s < 32,
    ensures
        (a << s == b << s) <==> ((a ^ c) << s == (b ^ c) << s),
{
}

proof fn lemma_shift_step(a: u32, b: u32, s: u32, r: u32)
    by (bit_vector)
    requires
        s < 32,
        1 <= r < 32,
    ensures
        (a << s == b << s) <==> ((a ^ ((a & (0xffff_ffffu32 >> s)) >> r)) << s == (b ^ ((b & (
            0xffff_ffffu32 >> s)) >> r)) << s),
{
}

proof fn lemma_last_step(a: u32, b: u32, s: u32)
    by (bit_vector)
    requires
        s < 32,
    ensures
        (a << s == b << s) <==> (((a & (0xffff_ffffu32 >> s)) ^ ((a & (0xffff_ffffu32 >> s)) >> 5))
            == ((b & (0xffff_ffffu32 >> s)) ^ ((b & (0xffff_ffffu32 >> s)) >> 5))),
        ((a & (0xffff_ffffu32 >> s)) ^ ((a & (0xffff_ffffu32 >> s)) >> 5)) <= (0xffff_ffffu32
            >> s),
{
}

proof fn lemma_mul_shift(a: u32, c: u32, s: u32)
    by (bit_vector)
    requires
        s < 32,
    ensures
        mul32(a, c) << s == mul32(a << s, c),
{
}

proof fn lemma_mul_inverses(a: u32, seed: u32)
    by (bit_vector)
    ensures
        mul32(mul32(a, 0xe170893d), 0x3e779615) == a,
        mul32(mul32(a, 0x0929eb3f), 0xf95384bf) == a,
        mul32(mul32(a, 0x6935fa69), 0xae4f35d9) == a,
        mul32(mul32(a, 0x74dcb303), 0xf247cfab) == a,
        mul32(mul32(a, 0x9e501cc3), 0x21ae73eb) == a,
        mul32(mul32(a, 0xc860a3df), 0xcef8d81f) == a,
        mul32(mul32(a, 1 | (seed >> 27)), odd_inverse(1 | (seed >> 27))) == a,
{
}

proof fn lemma_zero_mask(x: u32)
    by (bit_vector)
    ensures
        (x & 0) ^ ((x & 0) >> 5) == 0,
{
}

/// Multiplying by `c`, which `c_inv` undoes, keeps apart what differs under
/// the mask and keeps together what agrees under it.
proof fn lemma_mul_step(a: u32, b: u32, c: u32, c_inv: u32, s: u32)
    requires
        s < 32,
        mul32(mul32(a, c), c_inv) == a,
        mul32(mul32(b, c), c_inv) == b,
    ensures
        (a << s == b << s) <==> (mul32(a, c) << s == mul32(b, c) << s),
{
    lemma_mul_shift(a, c, s);
    lemma_mul_shift(b, c, s);
    lemma_mul_shift(mul32(a, c), c_inv, s);
    lemma_mul_shift(mul32(b, c), c_inv, s);
}

/// Two inputs give the same round result exactly when they agree under the
/// mask, and the result stays under the mask.
proof fn lemma_round_low(a: u32, b: u32, s: u32, seed: u32)
    requires
        s < 32,
    ensures
        (a << s == b << s) <==> round(a, 0xffff_ffffu32 >> s, seed) == round(
            b,
            0xffff_ffffu32 >> s,
            seed,
        ),
        round(a, 0xffff_ffffu32 >> s, seed) <= 0xffff_ffffu32 >> s,
{
    let w = 0xffff_ffffu32 >> s;
    let m = 1 | (seed >> 27);
    let a1 = a ^ seed;
    let b1 = b ^ seed;
    lemma_xor_step(a, b, seed, s);
    let a2 = mul32(a1, 0xe170893d);
    let b2 = mul32(b1, 0xe170893d);
    lemma_mul_inverses(a1, seed);
    lemma_mul_inverses(b1, seed);
    lemma_mul_step(a1, b1, 0xe170893d, 0x3e779615, s);
    let a3 = a2 ^ (seed >> 16);
    let b3 = b2 ^ (seed >> 16);
    lemma_xor_step(a2, b2, seed >> 16, s);
    let a4 = a3 ^ ((a3 & w) >> 4);
    let b4 = b3 ^ ((b3 & w) >> 4);
    lemma_shift_step(a3, b3, s, 4);
    let a5 = a4 ^ (seed >> 8);
    let b5 = b4 ^ (seed >> 8);
    lemma_xor_step(a4, b4, seed >> 8, s);
    let a6 = mul32(a5, 0x0929eb3f);
    let b6 = mul32(b5, 0x0929eb3f);
    lemma_mul_inverses(a5, seed);
    lemma_mul_inverses(b5, seed);
    lemma_mul_step(a5, b5, 0x0929eb3f, 0xf95384bf, s);
    let a7 = a6 ^ (seed >> 23);
    let b7 = b6 ^ (seed >> 23);
    lemma_xor_step(a6, b6, seed >> 23, s);
    let a8 = a7 ^ ((a7 & w) >> 1);
    let b8 = b7 ^ ((b7 & w) >> 1);
    lemma_shift_step(a7, b7, s, 1);
    let a9 = mul32(a8, m);
    let b9 = mul32(b8, m);
    lemma_mul_inverses(a8, seed);
    lemma_mul_inverses(b8, seed);
    lemma_mul_step(a8, b8, m, odd_inverse(m), s);
    let a10 = mul32(a9, 0x6935fa69);
    let b10 = mul32(b9, 0x6935fa69);
    lemma_mul_inverses(a9, seed);
    lemma_mul_inverses(b9, seed);
    lemma_mul_step(a9, b9, 0x6935fa69, 0xae4f35d9, s);
    let a11 = a10 ^ ((a10 & w) >> 11);
    let b11 = b10 ^ ((b10 & w) >> 11);
    lemma_shift_step(a10, b10, s, 11);
    let a12 = mul32(a11, 0x74dcb303);
    let b12 = mul32(b11, 0x74dcb303);
    lemma_mul_inverses(a11, seed);
    lemma_mul_inverses(b11, seed);
    lemma_mul_step(a11, b11, 0x74dcb303, 0xf247cfab, s);
    let a13 = a12 ^ ((a12 & w) >> 2);
    let b13 = b12 ^ ((b12 & w) >> 2);
    lemma_shift_step(a12, b12, s, 2);
    let a14 = mul32(a13, 0x9e501cc3);
    let b14 = mul32(b13, 0x9e501cc3);
    lemma_mul_inverses(a13, seed);
    lemma_mul_inverses(b13, seed);
    lemma_mul_step(a13, b13, 0x9e501cc3, 0x21ae73eb, s);
    let a15 = a14 ^ ((a14 & w) >> 2);
    let b15 = b14 ^ ((b14 & w) >> 2);
    lemma_shift_step(a14, b14, s, 2);
    let a16 = mul32(a15, 0xc860a3df);
    let b16 = mul32(b15, 0xc860a3df);
    lemma_mul_inverses(a15, seed);
    lemma_mul_inverses(b15, seed);
    lemma_mul_step(a15, b15, 0xc860a3df, 0xcef8d81f, s);
    lemma_last_step(a16, b16, s);
    assert(a16 == scramble(a, w, seed));
    assert(b16 == scramble(b, w, seed));
}

/// The masks that `mask_for` produces.
pub open spec fn mask_ok(w: u32) -> bool {
    w == 0 || is_low_mask(w)
}

/// A round maps `0 ..= w` into itself, one to one.
pub proof fn lemma_round_permutes(w: u32, seed: u32)
    requires
        mask_ok(w),
    ensures
        forall|a: u32| #[trigger] round(a, w, seed) <= w,
        forall|a: u32, b: u32|
            a <= w && b <= w && #[trigger] round(a, w, seed) == #[trigger] round(b, w, seed)
                ==> a == b,
{
    if w == 0 {
        assert forall|a: u32| #[trigger] round(a, w, seed) <= w by {
            lemma_zero_mask(scramble(a, w, seed));
        }
    } else {
        let s = lemma_mask_shift(w);
        assert forall|a: u32| #[trigger] round(a, w, seed) <= w by {
            lemma_round_low(a, a, s, seed);
        }
        assert forall|a: u32, b: u32|
            a <= w && b <= w && #[trigger] round(a, w, seed) == #[trigger] round(
                b,
                w,
                seed,
            ) implies a == b by {
            lemma_round_low(a, b, s, seed);
            lemma_low_eq_below(a, b, s);
        }
    }
}

/// Among `m + 1` numbers below `m` two are equal.
pub proof fn lemma_pigeonhole(f: spec_fn(int) -> int, m: int) -> (pair: (int, int))
    requires
        0 <= m,
        forall|t: int| 0 <= t <= m ==> 0 <= #[trigger] f(t) < m,
    ensures
        0 <= pair.0 < pair.1 <= m,
        f(pair.0) == f(pair.1),
    decreases m,
{
    if m == 0 {
        let first = f(0);
        assert(0 <= first < m);
        (0, 1)
    } else {
        let v = f(m);
        if exists|t: int| 0 <= t < m && #[trigger] f(t) == v {
            let t = choose|t: int| 0 <= t < m && #[trigger] f(t) == v;
            (t, m)
        } else {
            let g = |t: int|
                if f(t) > v {
                    f(t) - 1
                } else {
                    f(t)
                };
            assert forall|t: int| 0 <= t <= m - 1 implies 0 <= #[trigger] g(t) < m - 1 by {
                assert(0 <= f(t) < m);
                assert(f(t) != v);
            }
            let (a, b) = lemma_pigeonhole(g, m - 1);
            assert(f(a) != v && f(b) != v);
            (a, b)
        }
    }
}

proof fn lemma_iterate_below(t: nat, x: u32, w: u32, seed: u32)
    requires
        mask_ok(w),
        x <= w,
    ensures
        iterate(t, x, w, seed) <= w,
    decreases t,
{
    if t > 0 {
        lemma_round_permutes(w, seed);
    }
}

proof fn lemma_iterate_shift(t: nat, x: u32, w: u32, seed: u32)
    ensures
        iterate(t, round(x, w, seed), w, seed) == iterate(t + 1, x, w, seed),
    decreases t,
{
    if t > 0 {
        lemma_iterate_shift((t - 1) as nat, x, w, seed);
    } else {
        assert(iterate(1, x, w, seed) == round(iterate(0, x, w, seed), w, seed));
    }
}

/// Rounds can be undone: equal results after `p` and `q` rounds mean that
/// the first start is what `q - p` rounds make of the second.
proof fn lemma_peel(p: nat, q: nat, x: u32, y: u32, w: u32, seed: u32)
    requires
        mask_ok(w),
        x <= w,
        y <= w,
        p <= q,
        iterate(p, x, w, seed) == iterate(q, y, w, seed),
    ensures
        x == iterate((q - p) as nat, y, w, seed),
    decreases p,
{
    if p > 0 {
        lemma_round_permutes(w, seed);
        lemma_iterate_below((p - 1) as nat, x, w, seed);
        lemma_iterate_below((q - 1) as nat, y, w, seed);
        lemma_peel((p - 1) as nat, (q - 1) as nat, x, y, w, seed);
    }
}

/// Every number under the mask comes back to itself after at most `w + 1`
/// rounds.
proof fn lemma_periodic(x: u32, w: u32, seed: u32) -> (k: nat)
    requires
        mask_ok(w),
        x <= w,
    ensures
        1 <= k <= w + 1,
        iterate(k, x, w, seed) == x,
{
    let f = |t: int| iterate(t as nat, x, w, seed) as int;
    assert forall|t: int| 0 <= t <= w + 1 implies 0 <= #[trigger] f(t) < w + 1 by {
        lemma_iterate_below(t as nat, x, w, seed);
    }
    let (a, b) = lemma_pigeonhole(f, w + 1);
    lemma_peel(a as nat, b as nat, x, x, w, seed);
    (b - a) as nat
}

/// The walk ends at the first round whose result is below `n`, if there is
/// one within `fuel + 1` rounds.
proof fn lemma_walk(y: u32, n: u32, w: u32, seed: u32, fuel: nat)
    ensures
        1 <= walk_len(y, n, w, seed, fuel) <= fuel + 1,
        cycle_walk(y, n, w, seed, fuel) == iterate(walk_len(y, n, w, seed, fuel), y, w, seed),
        forall|u: nat|
            1 <= u < walk_len(y, n, w, seed, fuel) ==> #[trigger] iterate(u, y, w, seed) >= n,
        (exists|u: nat| 1 <= u <= fuel + 1 && #[trigger] iterate(u, y, w, seed) < n)
            ==> cycle_walk(y, n, w, seed, fuel) < n,
    decreases fuel,
{
    let j = round(y, w, seed);
    assert(iterate(1, y, w, seed) == round(iterate(0, y, w, seed), w, seed));
    if j < n || fuel == 0 {
        if exists|u: nat| 1 <= u <= fuel + 1 && #[trigger] iterate(u, y, w, seed) < n {
            let u = choose|u: nat| 1 <= u <= fuel + 1 && #[trigger] iterate(u, y, w, seed) < n;
            if !(j < n) {
                assert(u == 1);
            }
        }
    } else {
        let f = (fuel - 1) as nat;
        lemma_walk(j, n, w, seed, f);
        let t = walk_len(j, n, w, seed, f);
        lemma_iterate_shift(t, y, w, seed);
        assert forall|u: nat| 1 <= u < t + 1 implies #[trigger] iterate(u, y, w, seed) >= n by {
            if u > 1 {
                lemma_iterate_shift((u - 1) as nat, y, w, seed);
                assert(iterate((u - 1) as nat, j, w, seed) >= n);
            }
        }
        if exists|u: nat| 1 <= u <= fuel + 1 && #[trigger] iterate(u, y, w, seed) < n {
            let u = choose|u: nat| 1 <= u <= fuel + 1 && #[trigger] iterate(u, y, w, seed) < n;
            assert(u != 1);
            lemma_iterate_shift((u - 1) as nat, y, w, seed);
            assert(iterate((u - 1) as nat, j, w, seed) < n);
        }
    }
}

/// `mask_for(n)` is a mask that covers `0 .. n`.
pub proof fn lemma_mask_covers(n: u32)
    requires
        n >= 1,
    ensures
        mask_ok(mask_for(n)),
        n - 1 <= mask_for(n),
{
    if n == 1 {
        assert(mask_for(1) == 0) by (bit_vector);
    } else {
        lemma_mask_for(n);
    }
}

/// The walk from a number below `n` ends below `n`.
pub proof fn lemma_walk_in_range(i: u32, n: u32, seed: u32)
    requires
        i < n,
    ensures
        cycle_walk(i, n, mask_for(n), seed, mask_for(n) as nat) < n,
{
    let w = mask_for(n);
    lemma_mask_covers(n);
    let k = lemma_periodic(i, w, seed);
    lemma_walk(i, n, w, seed, w as nat);
}

/// Walks from different numbers below `n` end at different numbers.
pub proof fn lemma_walk_injective(a: u32, b: u32, n: u32, seed: u32)
    requires
        a < n,
        b < n,
        a != b,
    ensures
        cycle_walk(a, n, mask_for(n), seed, mask_for(n) as nat) != cycle_walk(
            b,
            n,
            mask_for(n),
            seed,
            mask_for(n) as nat,
        ),
{
    let w = mask_for(n);
    lemma_mask_covers(n);
    lemma_walk(a, n, w, seed, w as nat);
    lemma_walk(b, n, w, seed, w as nat);
    let ta = walk_len(a, n, w, seed, w as nat);
    let tb = walk_len(b, n, w, seed, w as nat);
    if iterate(ta, a, w, seed) == iterate(tb, b, w, seed) {
        if ta <= tb {
            lemma_peel(ta, tb, a, b, w, seed);
            let u = (tb - ta) as nat;
            assert(iterate(u, b, w, seed) == a);
            assert(u >= 1);
        } else {
            lemma_peel(tb, ta, b, a, w, seed);
            let u = (ta - tb) as nat;
            assert(iterate(u, a, w, seed) == b);
        }
    }
}

/// For which `n` and `seed` the closing rotation is one to one on `0 .. n`:
/// adding the seed never passes 2^32, or `n` divides 2^32.
pub open spec fn rotation_exact(n: u32, seed: u32) -> bool {
    n + seed <= 0x1_0000_0000 || 0x1_0000_0000int % (n as int) == 0
}

proof fn lemma_congruent_close(x: int, y: int, n: int)
    by (nonlinear_arith)
    requires
        0 < n,
        x % n == y % n,
        -n < x - y < n,
        x == n * (x / n) + x % n,
        y == n * (y / n) + y % n,
    ensures
        x == y,
{
}

proof fn lemma_rotate_injective(a: u32, b: u32, n: u32, seed: u32)
    requires
        a < n,
        b < n,
        a != b,
        rotation_exact(n, seed),
    ensures
        rotate(a, n, seed) != rotate(b, n, seed),
{
    let x = a + seed;
    let y = b + seed;
    let big = 0x1_0000_0000int;
    let m = n as int;
    if n + seed <= 0x1_0000_0000 {
        assert(x % big == x);
        assert(y % big == y);
    } else {
        vstd::arithmetic::div_mod::lemma_fundamental_div_mod(big, m);
        let q = big / m;
        assert(m * q == big);
        assert(q > 0) by (nonlinear_arith)
            requires
                m * q == big,
                m > 0,
                big > 0,
        ;
        vstd::arithmetic::div_mod::lemma_mod_mod(x, m, q);
        vstd::arithmetic::div_mod::lemma_mod_mod(y, m, q);
    }
    assert((x % big) % m == x % m);
    assert((y % big) % m == y % m);
    vstd::arithmetic::div_mod::lemma_fundamental_div_mod(x, m);
    vstd::arithmetic::div_mod::lemma_fundamental_div_mod(y, m);
    if x % m == y % m {
        lemma_congruent_close(x, y, m);
    }
}

/// The permutation maps `0 .. n` into itself, whatever the seed.
pub proof fn lemma_permutation_in_range(index: u32, n: u32, seed: u32)
    requires
        index < n,
    ensures
        permutation_element_spec(index, n, seed) < n,
        cycle_walk(index, n, mask_for(n), seed, mask_for(n) as nat) < n,
{
    lemma_walk_in_range(index, n, seed);
}

/// Different indices below `n` have different images.
pub proof fn lemma_permutation_injective(i: u32, j: u32, n: u32, seed: u32)
    requires
        i < n,
        j < n,
        i != j,
        rotation_exact(n, seed),
    ensures
        permutation_element_spec(i, n, seed) != permutation_element_spec(j, n, seed),
{
    let w = mask_for(n);
    lemma_walk_in_range(i, n, seed);
    lemma_walk_in_range(j, n, seed);
    lemma_walk_injective(i, j, n, seed);
    lemma_rotate_injective(
        cycle_walk(i, n, w, seed, w as nat),
        cycle_walk(j, n, w, seed, w as nat),
        n,
        seed,
    );
}

/// Every number below `n` is the image of some index below `n`.
pub proof fn lemma_permutation_onto(target: u32, n: u32, seed: u32) -> (index: u32)
    requires
        target < n,
        rotation_exact(n, seed),
    ensures
        index < n,
        permutation_element_spec(index, n, seed) == target,
{
    if exists|i: u32| i < n && #[trigger] permutation_element_spec(i, n, seed) == target {
        choose|i: u32| i < n && #[trigger] permutation_element_spec(i, n, seed) == target
    } else {
        // Otherwise the n indices would share the n - 1 other numbers.
        let f = |t: int|
            {
                let v = permutation_element_spec(t as u32, n, seed) as int;
                if v > target {
                    v - 1
                } else {
                    v
                }
            };
        assert forall|t: int| 0 <= t <= n - 1 implies 0 <= #[trigger] f(t) < n - 1 by {
            lemma_permutation_in_range(t as u32, n, seed);
            assert(permutation_element_spec(t as u32, n, seed) != target);
        }
        let (a, b) = lemma_pigeonhole(f, n - 1);
        lemma_permutation_injective(a as u32, b as u32, n, seed);
        assert(permutation_element_spec(a as u32, n, seed) != target);
        assert(permutation_element_spec(b as u32, n, seed) != target);
        0
    }
}

/// The images of `0 .. n` are exactly the numbers `0 .. n`.
pub proof fn lemma_permutation_total(n: u32, seed: u32)
    requires
        n > 0,
        rotation_exact(n, seed),
    ensures
        Set::new(|v: u32| exists|i: u32| i < n && #[trigger] permutation_element_spec(i, n, seed) == v)
            == Set::new(|v: u32| v < n),
{
    let images = Set::new(
        |v: u32| exists|i: u32| i < n && #[trigger] permutation_element_spec(i, n, seed) == v,
    );
    let range = Set::new(|v: u32| v < n);
    assert forall|v: u32| images.contains(v) <==> range.contains(v) by {
        if images.contains(v) {
            let i = choose|i: u32| i < n && #[trigger] permutation_element_spec(i, n, seed) == v;
            lemma_permutation_in_range(i, n, seed);
        }
        if range.contains(v) {
            let i = lemma_permutation_onto(v, n, seed);
        }
    }
    assert(images =~= range);
}

/// One round of mixing under the mask `w`.
fn mix_round(i: u32, w: u32, seed: u32) -> (r: u32)
    ensures
        r == round(i, w, seed),
{
    let mut i: u32 = i;
    i ^= seed;
    i = i.wrapping_mul(0xe170893d);
    i ^= seed >> 16;
    i ^= (i & w) >> 4;
    i ^= seed >> 8;
    i = i.wrapping_mul(0x0929eb3f);
    i ^= seed >> 23;
    i ^= (i & w) >> 1;
    i = i.wrapping_mul(1 | seed >> 27);
    i = i.wrapping_mul(0x6935fa69);
    i ^= (i & w) >> 11;
    i = i.wrapping_mul(0x74dcb303);
    i ^= (i & w) >> 2;
    i = i.wrapping_mul(0x9e501cc3);
    i ^= (i & w) >> 2;
    i = i.wrapping_mul(0xc860a3df);
    i &= w;
    i ^= i >> 5;
    i
}

/// The mask that covers `0 .. n`.
fn mask_of(n: u32) -> (w: u32)
    requires
        n >= 1,
    ensures
        w == mask_for(n),
{
    let mut w: u32 = n - 1;
    w |= w >> 1;
    w |= w >> 2;
    w |= w >> 4;
    w |= w >> 8;
    w |= w >> 16;
    w
}

/// The image of `index` under a permutation of `0 .. n`. Which permutation
/// it is depends on `seed` alone, so no table of it has to be kept.
pub fn permutation_element(index: u32, n: u32, seed: u32) -> (r: u32)
    requires
        index < n,
    ensures
        r == permutation_element_spec(index, n, seed),
        r < n,
{
    let mut i: u32 = index;
    let w = mask_of(n);
    let ghost period: nat;
    let ghost mut rounds: nat = 0;
    proof {
        lemma_mask_covers(n);
        period = lemma_periodic(index, w, seed);
        lemma_permutation_in_range(index, n, seed);
    }
    loop
        invariant_except_break
            mask_ok(w),
            index < n,
            n - 1 <= w,
            1 <= period <= w + 1,
            iterate(period, index, w, seed) == index,
            rounds < period,
            i == iterate(rounds, index, w, seed),
            cycle_walk(index, n, w, seed, w as nat) == cycle_walk(
                i,
                n,
                w,
                seed,
                (w - rounds) as nat,
            ),
        ensures
            i == cycle_walk(index, n, w, seed, w as nat),
        decreases period - rounds,
    {
        let ghost before = i;
        i = mix_round(i, w, seed);
        proof {
            rounds = rounds + 1;
            assert(i == iterate(rounds, index, w, seed));
        }
        if i < n {
            break ;
        }
    }
    i.wrapping_add(seed) % n
}

} // verus!
