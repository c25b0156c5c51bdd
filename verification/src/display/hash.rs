//! The 64-bit hash by which changed tiles are told from unchanged ones.

use vstd::prelude::*;

verus! {

pub const HASH_SEED: u64 = 0xcbf29ce484222325;

pub const HASH_PRIME: u64 = 0x100000001b3;

/// One step of the hash: take a word in and spread it.
pub open spec fn hash_step(hash: u64, word: u64) -> u64 {
    (hash ^ word).wrapping_mul(HASH_PRIME)
}

/// The number whose eight bytes, least significant first, start at `at`.
pub open spec fn word_at(data: Seq<u8>, at: int) -> u64 {
    (data[at] + data[at + 1] * 0x100 + data[at + 2] * 0x1_0000 + data[at + 3] * 0x100_0000
        + data[at + 4] * 0x1_0000_0000 + data[at + 5] * 0x100_0000_0000 + data[at + 6]
        * 0x1_0000_0000_0000 + data[at + 7] * 0x100_0000_0000_0000) as u64
}

/// Hash of the first `len` bytes from `from`: whole words first, then the
/// bytes that are left, one by one.
pub open spec fn hash_bytes(data: Seq<u8>, from: int, len: nat) -> u64
    decreases len,
{
    if len == 0 {
        HASH_SEED
    } else if len % 8 == 0 {
        hash_step(
            hash_bytes(data, from, (len - 8) as nat),
            word_at(data, from + len - 8),
        )
    } else {
        hash_step(
            hash_bytes(data, from, (len - 1) as nat),
            data[from + len - 1] as u64,
        )
    }
}

proof fn lemma_not_whole_word(whole: int, n: int)
    requires
        whole % 8 == 0,
        whole < n < whole + 8,
    ensures
        n % 8 != 0,
{
}

/// Hash of `len` bytes of `data`, from `from` on.
pub fn hash_tile_data(data: &[u8], from: usize, len: usize) -> (hash: u64)
    requires
        from + len <= data@.len(),
    ensures
        hash == hash_bytes(data@, from as int, len as nat),
{
    let total: usize = data.len();
    let mut hash: u64 = HASH_SEED;
    let mut done: usize = 0;
    while len - done >= 8
        invariant
            total == data@.len(),
            from + len <= total,
            done <= len,
            done % 8 == 0,
            hash == hash_bytes(data@, from as int, done as nat),
        decreases len - done,
    {
        let i: usize = from + done;
        let word: u64 = data[i] as u64 + data[i + 1] as u64 * 0x100 + data[i + 2] as u64 * 0x1_0000
            + data[i + 3] as u64 * 0x100_0000 + data[i + 4] as u64 * 0x1_0000_0000 + data[i
            + 5] as u64 * 0x100_0000_0000 + data[i + 6] as u64 * 0x1_0000_0000_0000 + data[i
            + 7] as u64 * 0x100_0000_0000_0000;
        hash = (hash ^ word).wrapping_mul(HASH_PRIME);
        done = done + 8;
    }
    let ghost whole = done;
    while done < len
        invariant
            total == data@.len(),
            from + len <= total,
            whole <= done <= len < whole + 8,
            whole % 8 == 0,
            hash == hash_bytes(data@, from as int, done as nat),
        decreases len - done,
    {
        proof {
            lemma_not_whole_word(whole as int, done + 1);
        }
        hash = (hash ^ data[from + done] as u64).wrapping_mul(HASH_PRIME);
        done = done + 1;
    }
    hash
}

/// The hash of a range depends on nothing but the bytes in it.
pub proof fn lemma_hash_bytes_local(a: Seq<u8>, b: Seq<u8>, from: int, len: nat)
    requires
        0 <= from,
        forall|i: int| from <= i < from + len ==> a[i] == b[i],
    ensures
        hash_bytes(a, from, len) == hash_bytes(b, from, len),
    decreases len,
{
    if len == 0 {
    } else if len % 8 == 0 {
        lemma_hash_bytes_local(a, b, from, (len - 8) as nat);
    } else {
        lemma_hash_bytes_local(a, b, from, (len - 1) as nat);
    }
}

/// The number by which the prime is undone: their product leaves 1 modulo 2^64.
spec fn prime_inverse() -> int {
    0xce965057aff6957b
}

/// Multiplying by the prime loses nothing.
proof fn lemma_mul_prime_injective(x: u64, y: u64)
    requires
        x.wrapping_mul(HASH_PRIME) == y.wrapping_mul(HASH_PRIME),
    ensures
        x == y,
{
    lemma_mul_prime_undone(x);
    lemma_mul_prime_undone(y);
}

proof fn lemma_mul_prime_undone(x: u64)
    ensures
        (x.wrapping_mul(HASH_PRIME) * prime_inverse()) % 0x1_0000_0000_0000_0000 == x,
{
    let m = 0x1_0000_0000_0000_0000int;
    let v = x as int;
    let prime = HASH_PRIME as int;
    let product = v * prime;
    vstd::arithmetic::div_mod::lemma_mul_mod_noop_left(product, prime_inverse(), m);
    assert(prime * prime_inverse() == 1 + 887285111055 * m);
    assert(product * prime_inverse() == v + (v * 887285111055) * m) by (nonlinear_arith)
        requires
            product == v * prime,
            prime * prime_inverse() == 1 + 887285111055 * m,
    ;
    vstd::arithmetic::div_mod::lemma_mod_multiples_vanish(v * 887285111055, v, m);
    vstd::arithmetic::div_mod::lemma_small_mod(v as nat, m as nat);
    assert((v * 887285111055) * m + v == m * (v * 887285111055) + v) by (nonlinear_arith);
}

/// One step of the hash tells words apart, and keeps apart what was apart.
pub proof fn lemma_hash_step_injective(g: u64, h: u64, v: u64, w: u64)
    requires
        hash_step(g, v) == hash_step(h, w),
    ensures
        g == h ==> v == w,
        v == w ==> g == h,
{
    lemma_mul_prime_injective(g ^ v, h ^ w);
    assert(g ^ v == h ^ w && g == h ==> v == w) by (bit_vector);
    assert(g ^ v == h ^ w && v == w ==> g == h) by (bit_vector);
}

proof fn lemma_low_byte(x: int, y: int, p: int, q: int)
    requires
        0 <= x < 256,
        0 <= y < 256,
        x + 256 * p == y + 256 * q,
    ensures
        x == y,
        p == q,
{
}

/// Words of different bytes are different.
proof fn lemma_word_at_injective(a: Seq<u8>, b: Seq<u8>, at: int)
    requires
        word_at(a, at) == word_at(b, at),
    ensures
        forall|i: int| at <= i < at + 8 ==> a[i] == b[i],
{
    let a6 = a[at + 6] + 256 * a[at + 7];
    let b6 = b[at + 6] + 256 * b[at + 7];
    let a5 = a[at + 5] + 256 * a6;
    let b5 = b[at + 5] + 256 * b6;
    let a4 = a[at + 4] + 256 * a5;
    let b4 = b[at + 4] + 256 * b5;
    let a3 = a[at + 3] + 256 * a4;
    let b3 = b[at + 3] + 256 * b4;
    let a2 = a[at + 2] + 256 * a3;
    let b2 = b[at + 2] + 256 * b3;
    let a1 = a[at + 1] + 256 * a2;
    let b1 = b[at + 1] + 256 * b2;
    assert(word_at(a, at) == a[at] + 256 * a1);
    assert(word_at(b, at) == b[at] + 256 * b1);
    lemma_low_byte(a[at] as int, b[at] as int, a1, b1);
    lemma_low_byte(a[at + 1] as int, b[at + 1] as int, a2, b2);
    lemma_low_byte(a[at + 2] as int, b[at + 2] as int, a3, b3);
    lemma_low_byte(a[at + 3] as int, b[at + 3] as int, a4, b4);
    lemma_low_byte(a[at + 4] as int, b[at + 4] as int, a5, b5);
    lemma_low_byte(a[at + 5] as int, b[at + 5] as int, a6, b6);
    lemma_low_byte(a[at + 6] as int, b[at + 6] as int, a[at + 7] as int, b[at + 7] as int);
    assert forall|i: int| at <= i < at + 8 implies a[i] == b[i] by {
        let k = i - at;
        assert(k == 0 || k == 1 || k == 2 || k == 3 || k == 4 || k == 5 || k == 6 || k == 7);
    }
}

/// Four bytes taken in one by one.
#[verifier::opaque]
spec fn four_bytes(h: u64, b0: u8, b1: u8, b2: u8, b3: u8) -> u64 {
    hash_step(
        hash_step(hash_step(hash_step(h, b0 as u64), b1 as u64), b2 as u64),
        b3 as u64,
    )
}

proof fn lemma_xor_byte(x: u64, b: u8)
    ensures
        x - 255 <= x ^ (b as u64) <= x + 255,
{
    assert(x ^ (b as u64) <= x + 255 && x <= (x ^ (b as u64)) + 255) by (bit_vector);
}

/// A product with the prime, as a number of which multiples of 2^64 were taken
/// away.
proof fn lemma_mul_prime(x: u64) -> (q: int)
    ensures
        x.wrapping_mul(HASH_PRIME) == x * 0x100000001b3 - q * 0x1_0000_0000_0000_0000,
{
    let m = 0x1_0000_0000_0000_0000int;
    let product = x * 0x100000001b3;
    vstd::arithmetic::div_mod::lemma_fundamental_div_mod(product, m);
    product / m
}

/// No small differences cancel out in three rounds.
proof fn lemma_no_cancelling(d: int, e1: int, e2: int, r: int, k: int)
    requires
        -255 <= d <= 255,
        -510 <= e1 <= 510,
        -510 <= e2 <= 510,
        -510 <= r <= 510,
        0x100_0000_0000 * (567675 * d + 870 * e1 + e2) + (82312875 * d + 189225 * e1 + 435 * e2
            - r) == k * 0x1_0000_0000_0000_0000,
    ensures
        d == 0,
        e1 == 0,
        e2 == 0,
        r == 0,
{
    let high = 567675 * d + 870 * e1 + e2;
    let low = 82312875 * d + 189225 * e1 + 435 * e2 - r;
    lemma_small_multiple(low, k * 0x100_0000 - high, 0x100_0000_0000);
    let s = 435 * d + e1;
    let t = 435 * s + e2;
    lemma_at_most_one(t, r);
    lemma_at_most_one(s, t - e2);
    lemma_at_most_one(d, s - e1);
    let u = 435 * d + s;
    assert(high == 435 * u + t);
    lemma_small_multiple(high, k, 0x100_0000);
    lemma_zero(u, -t);
    lemma_zero(d, -s);
}

/// A multiple of `m` that is smaller than `m` is zero.
proof fn lemma_small_multiple(v: int, x: int, m: int)
    requires
        v == m * x,
        -m < v < m,
    ensures
        v == 0,
        x == 0,
{
    assert(x == 0) by (nonlinear_arith)
        requires
            v == m * x,
            -m < v < m,
    ;
}

proof fn lemma_at_most_one(x: int, y: int)
    requires
        435 * x == y,
        -511 <= y <= 511,
    ensures
        -1 <= x <= 1,
{
}

proof fn lemma_zero(x: int, y: int)
    requires
        435 * x == y,
        -1 <= y <= 1,
    ensures
        x == 0,
        y == 0,
{
}

proof fn lemma_four_bytes_injective(
    h: u64,
    b0: u8,
    b1: u8,
    b2: u8,
    b3: u8,
    c0: u8,
    c1: u8,
    c2: u8,
    c3: u8,
)
    requires
        four_bytes(h, b0, b1, b2, b3) == four_bytes(h, c0, c1, c2, c3),
    ensures
        b0 == c0,
        b1 == c1,
        b2 == c2,
        b3 == c3,
{
    reveal(four_bytes);
    let bx0 = h ^ (b0 as u64);
    let cx0 = h ^ (c0 as u64);
    let b_1 = bx0.wrapping_mul(HASH_PRIME);
    let c_1 = cx0.wrapping_mul(HASH_PRIME);
    let bx1 = b_1 ^ (b1 as u64);
    let cx1 = c_1 ^ (c1 as u64);
    let b_2 = bx1.wrapping_mul(HASH_PRIME);
    let c_2 = cx1.wrapping_mul(HASH_PRIME);
    let bx2 = b_2 ^ (b2 as u64);
    let cx2 = c_2 ^ (c2 as u64);
    let b_3 = bx2.wrapping_mul(HASH_PRIME);
    let c_3 = cx2.wrapping_mul(HASH_PRIME);
    let bx3 = b_3 ^ (b3 as u64);
    let cx3 = c_3 ^ (c3 as u64);
    lemma_mul_prime_injective(bx3, cx3);
    let k1 = lemma_mul_prime(bx0) - lemma_mul_prime(cx0);
    let k2 = lemma_mul_prime(bx1) - lemma_mul_prime(cx1);
    let k3 = lemma_mul_prime(bx2) - lemma_mul_prime(cx2);
    lemma_xor_byte(b_1, b1);
    lemma_xor_byte(c_1, c1);
    lemma_xor_byte(b_2, b2);
    lemma_xor_byte(c_2, c2);
    lemma_xor_byte(b_3, b3);
    lemma_xor_byte(c_3, c3);
    assert(bx0 <= cx0 + 255 && cx0 <= bx0 + 255) by (bit_vector)
        requires
            bx0 == h ^ (b0 as u64),
            cx0 == h ^ (c0 as u64),
    ;
    let d = bx0 - cx0;
    let e1 = (bx1 - cx1) - (b_1 - c_1);
    let e2 = (bx2 - cx2) - (b_2 - c_2);
    let r = b_3 - c_3;
    assert(b_1 - c_1 == d * 0x100000001b3 - k1 * 0x1_0000_0000_0000_0000);
    assert(b_2 - c_2 == (bx1 - cx1) * 0x100000001b3 - k2 * 0x1_0000_0000_0000_0000);
    assert(r == (bx2 - cx2) * 0x100000001b3 - k3 * 0x1_0000_0000_0000_0000);
    let k = k1 * 1208925820571204291060521 + k2 * 0x100000001b3 + k3 - d * 72057594123452416 - e1 * 0x1_0000;
    lemma_no_cancelling(d, e1, e2, r, k);
    lemma_hash_step_injective(h, h, b0 as u64, c0 as u64);
    lemma_hash_step_injective(b_1, c_1, b1 as u64, c1 as u64);
    lemma_hash_step_injective(b_2, c_2, b2 as u64, c2 as u64);
    lemma_hash_step_injective(b_3, c_3, b3 as u64, c3 as u64);
}

/// Four bytes that fill up no word are taken in one by one.
proof fn lemma_last_four(data: Seq<u8>, from: int, before: nat)
    requires
        before % 8 == 0,
    ensures
        hash_bytes(data, from, before + 4) == four_bytes(
            hash_bytes(data, from, before),
            data[from + before],
            data[from + before + 1],
            data[from + before + 2],
            data[from + before + 3],
        ),
{
    reveal(four_bytes);
    let h1 = hash_bytes(data, from, before + 1);
    let h2 = hash_bytes(data, from, before + 2);
    let h3 = hash_bytes(data, from, before + 3);
    lemma_not_whole_word(before as int, (before + 1) as int);
    lemma_not_whole_word(before as int, (before + 2) as int);
    lemma_not_whole_word(before as int, (before + 3) as int);
    lemma_not_whole_word(before as int, (before + 4) as int);
    assert(h1 == hash_step(hash_bytes(data, from, before), data[from + before] as u64));
    assert(h2 == hash_step(h1, data[from + before + 1] as u64));
    assert(h3 == hash_step(h2, data[from + before + 2] as u64));
}

/// The hash of a row sees every pixel: rows of whole pixels, four bytes each,
/// that differ in just one pixel never have the same hash.
pub proof fn law_changed_pixel_changes_hash(
    a: Seq<u8>,
    b: Seq<u8>,
    from: int,
    len: nat,
    pixel: int,
)
    requires
        0 <= from,
        len % 4 == 0,
        0 <= pixel,
        pixel * 4 + 4 <= len,
        exists|i: int| from + pixel * 4 <= i < from + pixel * 4 + 4 && a[i] != b[i],
        forall|i: int|
            from <= i < from + len && !(from + pixel * 4 <= i < from + pixel * 4 + 4) ==> a[i]
                == b[i],
    ensures
        hash_bytes(a, from, len) != hash_bytes(b, from, len),
    decreases len,
{
    let at = from + pixel * 4;
    let i = choose|i: int| at <= i < at + 4 && a[i] != b[i];
    if len % 8 == 0 {
        let before = (len - 8) as nat;
        if hash_bytes(a, from, len) == hash_bytes(b, from, len) {
            lemma_hash_step_injective(
                hash_bytes(a, from, before),
                hash_bytes(b, from, before),
                word_at(a, from + before),
                word_at(b, from + before),
            );
            if pixel * 4 < before {
                law_changed_pixel_changes_hash(a, b, from, before, pixel);
            } else {
                lemma_hash_bytes_local(a, b, from, before);
                lemma_word_at_injective(a, b, from + before);
            }
        }
    } else {
        let before = (len - 4) as nat;
        let n = from + before;
        let g = hash_bytes(a, from, before);
        let h = hash_bytes(b, from, before);
        lemma_last_four(a, from, before);
        lemma_last_four(b, from, before);
        if hash_bytes(a, from, len) == hash_bytes(b, from, len) {
            if pixel * 4 < before {
                law_changed_pixel_changes_hash(a, b, from, before, pixel);
                lemma_four_bytes_keep_apart(g, h, a[n], a[n + 1], a[n + 2], a[n + 3]);
            } else {
                lemma_hash_bytes_local(a, b, from, before);
                lemma_four_bytes_injective(
                    g,
                    a[n],
                    a[n + 1],
                    a[n + 2],
                    a[n + 3],
                    b[n],
                    b[n + 1],
                    b[n + 2],
                    b[n + 3],
                );
                assert(i == n || i == n + 1 || i == n + 2 || i == n + 3);
            }
        }
    }
}

proof fn lemma_four_bytes_keep_apart(g: u64, h: u64, b0: u8, b1: u8, b2: u8, b3: u8)
    requires
        four_bytes(g, b0, b1, b2, b3) == four_bytes(h, b0, b1, b2, b3),
    ensures
        g == h,
{
    reveal(four_bytes);
    let g1 = hash_step(g, b0 as u64);
    let h1 = hash_step(h, b0 as u64);
    let g2 = hash_step(g1, b1 as u64);
    let h2 = hash_step(h1, b1 as u64);
    let g3 = hash_step(g2, b2 as u64);
    let h3 = hash_step(h2, b2 as u64);
    lemma_hash_step_injective(g3, h3, b3 as u64, b3 as u64);
    lemma_hash_step_injective(g2, h2, b2 as u64, b2 as u64);
    lemma_hash_step_injective(g1, h1, b1 as u64, b1 as u64);
    lemma_hash_step_injective(g, h, b0 as u64, b0 as u64);
}

/// The order of what is taken in matters: words that differ in their lowest byte
/// only never give the same hash when they change places.
pub proof fn law_order_matters(h: u64, x: u64, y: u64)
    requires
        x != y,
        x ^ y < 256,
    ensures
        hash_step(hash_step(h, x), y) != hash_step(hash_step(h, y), x),
{
    let a = h ^ x;
    let b = h ^ y;
    let c = a.wrapping_mul(HASH_PRIME);
    let d = b.wrapping_mul(HASH_PRIME);
    if hash_step(hash_step(h, x), y) == hash_step(hash_step(h, y), x) {
        lemma_mul_prime_injective(c ^ y, d ^ x);
        assert(a != b && a <= b + 255 && b <= a + 255) by (bit_vector)
            requires
                a == h ^ x,
                b == h ^ y,
                x != y,
                x ^ y < 256,
        ;
        assert(c <= d + 255 && d <= c + 255) by (bit_vector)
            requires
                c ^ y == d ^ x,
                x ^ y < 256,
        ;
        let k = lemma_mul_prime(a) - lemma_mul_prime(b);
        assert(c - d == (a - b) * 0x100000001b3 - k * 0x1_0000_0000_0000_0000);
    }
}

/// How a hash grows: with each whole word, and then with each byte that is left,
/// the hash so far is combined with it bit by bit and multiplied by
/// 0x100000001b3, modulo 2^64. The hash of nothing is 0xcbf29ce484222325.
pub proof fn law_hash_grows(data: Seq<u8>, from: int, len: nat)
    requires
        0 < len,
    ensures
        hash_bytes(data, from, 0) == 0xcbf29ce484222325u64,
        len % 8 == 0 ==> hash_bytes(data, from, len) == ((hash_bytes(data, from, (len - 8) as nat)
            ^ word_at(data, from + len - 8)) * 0x100000001b3) % 0x1_0000_0000_0000_0000,
        len % 8 != 0 ==> hash_bytes(data, from, len) == ((hash_bytes(data, from, (len - 1) as nat)
            ^ (data[from + len - 1] as u64)) * 0x100000001b3) % 0x1_0000_0000_0000_0000,
{
}

} // verus!
