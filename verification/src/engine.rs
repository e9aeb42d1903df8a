//! The primitive CRC engine: the portable table-driven path, the
//! word-at-a-time path that models the hardware CRC32C instruction, and the
//! public `crc32` / `crc32c` entry points, each proved against the bit-level
//! recurrence in `algo`.

use vstd::prelude::*;

use crate::algo::{
    bit_step, bit_steps, byte_step, crc32_spec, crc32c_spec, fold_bytes, CRC32C_POLY, CRC32_POLY,
};

verus! {

/// The bit recurrence is linear over xor: stepping `x ^ y` is stepping `x`
/// and `y` separately and xoring the results.
proof fn lemma_bit_step_xor(poly: u32, x: u32, y: u32)
    ensures
        bit_step(poly, x ^ y) == bit_step(poly, x) ^ bit_step(poly, y),
{
    if x & 1 == 1 && y & 1 == 1 {
        assert((x ^ y) & 1 != 1 && (x ^ y) >> 1 == ((x >> 1) ^ poly) ^ ((y >> 1) ^ poly))
            by (bit_vector)
            requires
                x & 1 == 1 && y & 1 == 1,
        ;
    } else if x & 1 == 1 && y & 1 != 1 {
        assert((x ^ y) & 1 == 1 && ((x ^ y) >> 1) ^ poly == ((x >> 1) ^ poly) ^ (y >> 1))
            by (bit_vector)
            requires
                x & 1 == 1 && y & 1 != 1,
        ;
    } else if x & 1 != 1 && y & 1 == 1 {
        assert((x ^ y) & 1 == 1 && ((x ^ y) >> 1) ^ poly == (x >> 1) ^ ((y >> 1) ^ poly))
            by (bit_vector)
            requires
                x & 1 != 1 && y & 1 == 1,
        ;
    } else {
        assert((x ^ y) & 1 != 1 && (x ^ y) >> 1 == (x >> 1) ^ (y >> 1)) by (bit_vector)
            requires
                x & 1 != 1 && y & 1 != 1,
        ;
    }
}

/// Linearity extended over `n` steps of the recurrence.
proof fn lemma_bit_steps_xor(poly: u32, x: u32, y: u32, n: nat)
    ensures
        bit_steps(poly, x ^ y, n) == bit_steps(poly, x, n) ^ bit_steps(poly, y, n),
    decreases n,
{
    if n == 0 {
        assert(bit_steps(poly, x, 0) ^ bit_steps(poly, y, 0) == x ^ y);
    } else {
        lemma_bit_step_xor(poly, x, y);
        lemma_bit_steps_xor(poly, bit_step(poly, x), bit_step(poly, y), (n - 1) as nat);
    }
}

/// On a state whose low byte is zero, eight steps of the recurrence are a
/// plain shift by eight: no one bit is ever shifted out.
proof fn lemma_bit_steps_high(poly: u32, h: u32)
    requires
        h & 0xFF == 0,
    ensures
        bit_steps(poly, h, 8) == h >> 8,
{
    reveal_with_fuel(bit_steps, 9);
    assert(h & 1 != 1 && (h >> 1) & 1 != 1 && ((h >> 1) >> 1) & 1 != 1 && (((h >> 1) >> 1) >> 1)
        & 1 != 1 && ((((h >> 1) >> 1) >> 1) >> 1) & 1 != 1 && (((((h >> 1) >> 1) >> 1) >> 1) >> 1)
        & 1 != 1 && ((((((h >> 1) >> 1) >> 1) >> 1) >> 1) >> 1) & 1 != 1 && (((((((h >> 1) >> 1)
        >> 1) >> 1) >> 1) >> 1) >> 1) & 1 != 1 && ((((((((h >> 1) >> 1) >> 1) >> 1) >> 1) >> 1)
        >> 1) >> 1) == h >> 8) by (bit_vector)
        requires
            h & 0xFF == 0,
    ;
}

/// Folding one byte can be done table-wise: shift the state right by eight
/// and xor in the eight-step image of the low byte of `s ^ b`.
proof fn lemma_table_step(poly: u32, s: u32, b: u8)
    ensures
        byte_step(poly, s, b) == (s >> 8) ^ bit_steps(poly, (s ^ (b as u32)) & 0xFF, 8),
{
    let t = s ^ (b as u32);
    let lo = t & 0xFF;
    let hi = t & 0xFFFF_FF00;
    assert(t == lo ^ hi) by (bit_vector)
        requires
            lo == t & 0xFF && hi == t & 0xFFFF_FF00,
    ;
    lemma_bit_steps_xor(poly, lo, hi, 8);
    assert(hi & 0xFF == 0) by (bit_vector)
        requires
            hi == t & 0xFFFF_FF00,
    ;
    lemma_bit_steps_high(poly, hi);
    assert(hi >> 8 == s >> 8) by (bit_vector)
        requires
            hi == (s ^ (b as u32)) & 0xFFFF_FF00,
    ;
    let u = bit_steps(poly, lo, 8);
    let v = s >> 8;
    assert(u ^ v == v ^ u) by (bit_vector);
}

/// One executable step of the bit recurrence.
fn bit_step_exec(poly: u32, s: u32) -> (r: u32)
    ensures
        r == bit_step(poly, s),
{
    if s & 1 == 1 {
        (s >> 1) ^ poly
    } else {
        s >> 1
    }
}

/// Running the recurrence once more after `n` steps is the same as running
/// it first and stepping the result.
proof fn lemma_bit_steps_snoc(poly: u32, s: u32, n: nat)
    ensures
        bit_steps(poly, s, n + 1) == bit_step(poly, bit_steps(poly, s, n)),
    decreases n,
{
    assert(bit_steps(poly, s, n + 1) == bit_steps(poly, bit_step(poly, s), n));
    if n > 0 {
        lemma_bit_steps_snoc(poly, bit_step(poly, s), (n - 1) as nat);
    }
}

/// Builds the 256-entry lookup table for `poly`: entry `i` is the eight-step
/// image of `i` under the bit recurrence.
fn make_table(poly: u32) -> (t: Vec<u32>)
    ensures
        t@.len() == 256,
        forall|i: int| 0 <= i < 256 ==> t@[i] == bit_steps(poly, i as u32, 8),
{
    let mut t: Vec<u32> = Vec::new();
    let mut i: usize = 0;
    while i < 256
        invariant
            i <= 256,
            t@.len() == i,
            forall|j: int| 0 <= j < i ==> t@[j] == bit_steps(poly, j as u32, 8),
        decreases 256 - i,
    {
        let mut s: u32 = i as u32;
        let mut k: usize = 0;
        while k < 8
            invariant
                k <= 8,
                s == bit_steps(poly, i as u32, k as nat),
            decreases 8 - k,
        {
            proof {
                lemma_bit_steps_snoc(poly, i as u32, k as nat);
            }
            s = bit_step_exec(poly, s);
            k = k + 1;
        }
        t.push(s);
        i = i + 1;
    }
    t
}

/// Folding one more byte onto an already folded sequence.
proof fn lemma_fold_bytes_push(poly: u32, s: u32, d: Seq<u8>, b: u8)
    ensures
        fold_bytes(poly, s, d.push(b)) == byte_step(poly, fold_bytes(poly, s, d), b),
    decreases d.len(),
{
    assert(d.push(b).len() == d.len() + 1);
    if d.len() == 0 {
        assert(d.push(b)[0] == b);
        assert(d.push(b).skip(1) =~= Seq::<u8>::empty());
        assert(fold_bytes(poly, s, d.push(b)) == fold_bytes(
            poly,
            byte_step(poly, s, b),
            Seq::<u8>::empty(),
        ));
    } else {
        assert(d.push(b)[0] == d[0]);
        assert(d.push(b).skip(1) =~= d.skip(1).push(b));
        lemma_fold_bytes_push(poly, byte_step(poly, s, d[0]), d.skip(1), b);
        assert(fold_bytes(poly, s, d.push(b)) == fold_bytes(
            poly,
            byte_step(poly, s, d[0]),
            d.skip(1).push(b),
        ));
    }
}

/// The portable software path: folds `data` into `state` one byte at a time
/// through the lookup table.
fn fold_table(poly: Ghost<u32>, table: &Vec<u32>, state: u32, data: &[u8]) -> (r: u32)
    requires
        table@.len() == 256,
        forall|i: int| 0 <= i < 256 ==> table@[i] == bit_steps(poly@, i as u32, 8),
    ensures
        r == fold_bytes(poly@, state, data@),
{
    let mut s: u32 = state;
    let mut i: usize = 0;
    while i < data.len()
        invariant
            i <= data@.len(),
            s == fold_bytes(poly@, state, data@.take(i as int)),
            table@.len() == 256,
            forall|j: int| 0 <= j < 256 ==> table@[j] == bit_steps(poly@, j as u32, 8),
        decreases data@.len() - i,
    {
        let b: u8 = data[i];
        let idx: usize = ((s ^ (b as u32)) & 0xFF) as usize;
        proof {
            assert(((s ^ (b as u32)) & 0xFF) < 256) by (bit_vector);
            lemma_table_step(poly@, s, b);
            assert(data@.take(i as int + 1) =~= data@.take(i as int).push(data@[i as int]));
            lemma_fold_bytes_push(poly@, state, data@.take(i as int), data@[i as int]);
        }
        s = (s >> 8) ^ table[idx];
        i = i + 1;
    }
    proof {
        assert(data@.take(data@.len() as int) =~= data@);
    }
    s
}

/// Running the recurrence `m + n` steps is running it `m` steps and then
/// `n` more.
proof fn lemma_bit_steps_add(poly: u32, s: u32, m: nat, n: nat)
    ensures
        bit_steps(poly, s, m + n) == bit_steps(poly, bit_steps(poly, s, m), n),
    decreases m,
{
    if m == 0 {
        assert(bit_steps(poly, s, 0) == s);
    } else {
        assert(bit_steps(poly, s, m + n) == bit_steps(poly, bit_step(poly, s), (m + n - 1) as nat));
        assert(bit_steps(poly, s, m) == bit_steps(poly, bit_step(poly, s), (m - 1) as nat));
        lemma_bit_steps_add(poly, bit_step(poly, s), (m - 1) as nat, n);
    }
}

/// A byte placed just above the low byte of the state rides through eight
/// steps untouched: xoring it in before is xoring it in after.
proof fn lemma_inject8(poly: u32, x: u32, c: u32)
    requires
        c < 0x100,
    ensures
        bit_steps(poly, x, 8) ^ c == bit_steps(poly, x ^ (c << 8), 8),
{
    lemma_bit_steps_xor(poly, x, c << 8, 8);
    assert((c << 8) & 0xFF == 0) by (bit_vector);
    lemma_bit_steps_high(poly, c << 8);
    assert((c << 8) >> 8 == c) by (bit_vector)
        requires
            c < 0x100,
    ;
}

/// The same, two bytes up and through sixteen steps.
proof fn lemma_inject16(poly: u32, x: u32, c: u32)
    requires
        c < 0x100,
    ensures
        bit_steps(poly, x, 16) ^ c == bit_steps(poly, x ^ (c << 16), 16),
{
    lemma_bit_steps_xor(poly, x, c << 16, 16);
    lemma_bit_steps_add(poly, c << 16, 8, 8);
    assert((c << 16) & 0xFF == 0) by (bit_vector);
    lemma_bit_steps_high(poly, c << 16);
    assert((c << 16) >> 8 == c << 8) by (bit_vector)
        requires
            c < 0x100,
    ;
    assert((c << 8) & 0xFF == 0) by (bit_vector);
    lemma_bit_steps_high(poly, c << 8);
    assert((c << 8) >> 8 == c) by (bit_vector)
        requires
            c < 0x100,
    ;
}

/// The same, three bytes up and through twenty-four steps.
proof fn lemma_inject24(poly: u32, x: u32, c: u32)
    requires
        c < 0x100,
    ensures
        bit_steps(poly, x, 24) ^ c == bit_steps(poly, x ^ (c << 24), 24),
{
    lemma_bit_steps_xor(poly, x, c << 24, 24);
    lemma_bit_steps_add(poly, c << 24, 8, 16);
    lemma_bit_steps_add(poly, c << 16, 8, 8);
    assert((c << 24) & 0xFF == 0) by (bit_vector);
    lemma_bit_steps_high(poly, c << 24);
    assert((c << 24) >> 8 == c << 16) by (bit_vector)
        requires
            c < 0x100,
    ;
    assert((c << 16) & 0xFF == 0) by (bit_vector);
    lemma_bit_steps_high(poly, c << 16);
    assert((c << 16) >> 8 == c << 8) by (bit_vector)
        requires
            c < 0x100,
    ;
    assert((c << 8) & 0xFF == 0) by (bit_vector);
    lemma_bit_steps_high(poly, c << 8);
    assert((c << 8) >> 8 == c) by (bit_vector)
        requires
            c < 0x100,
    ;
}

/// What the hardware CRC32C word instruction computes: thirty-two steps of
/// the recurrence on the state xored with a little-endian word equal the four
/// byte folds of that word's bytes, least significant byte first.
proof fn lemma_word_step(poly: u32, s: u32, b0: u8, b1: u8, b2: u8, b3: u8, w: u32)
    requires
        w == (b0 as u32) ^ ((b1 as u32) << 8) ^ ((b2 as u32) << 16) ^ ((b3 as u32) << 24),
    ensures
        byte_step(poly, byte_step(poly, byte_step(poly, byte_step(poly, s, b0), b1), b2), b3)
            == bit_steps(poly, s ^ w, 32),
{
    let t1 = (s ^ (b0 as u32)) ^ ((b1 as u32) << 8);
    let t2 = t1 ^ ((b2 as u32) << 16);
    let t3 = t2 ^ ((b3 as u32) << 24);
    let u1 = byte_step(poly, s, b0);
    lemma_inject8(poly, s ^ (b0 as u32), b1 as u32);
    lemma_bit_steps_add(poly, t1, 8, 8);
    let u2 = byte_step(poly, u1, b1);
    assert(u2 == bit_steps(poly, t1, 16));
    lemma_inject16(poly, t1, b2 as u32);
    lemma_bit_steps_add(poly, t2, 16, 8);
    let u3 = byte_step(poly, u2, b2);
    assert(u3 == bit_steps(poly, t2, 24));
    lemma_inject24(poly, t2, b3 as u32);
    lemma_bit_steps_add(poly, t3, 24, 8);
    let u4 = byte_step(poly, u3, b3);
    assert(u4 == bit_steps(poly, t3, 32));
    assert(t3 == s ^ w) by (bit_vector)
        requires
            t3 == (((s ^ (b0 as u32)) ^ ((b1 as u32) << 8)) ^ ((b2 as u32) << 16)) ^ ((b3 as u32)
                << 24) && w == (b0 as u32) ^ ((b1 as u32) << 8) ^ ((b2 as u32) << 16) ^ ((b3
                as u32) << 24),
    ;
}

/// One step of the word-at-a-time path: the effect of the CPU's CRC32C word
/// instruction, computed here with the portable bit recurrence.
fn crc32c_word(s: u32, w: u32) -> (r: u32)
    ensures
        r == bit_steps(CRC32C_POLY, s ^ w, 32),
{
    let mut x: u32 = s ^ w;
    let mut k: usize = 0;
    while k < 32
        invariant
            k <= 32,
            x == bit_steps(CRC32C_POLY, s ^ w, k as nat),
        decreases 32 - k,
    {
        proof {
            lemma_bit_steps_snoc(CRC32C_POLY, s ^ w, k as nat);
        }
        x = bit_step_exec(CRC32C_POLY, x);
        k = k + 1;
    }
    x
}

/// The accelerated CRC32C path: folds four bytes per word step over the bulk
/// of the buffer and the remainder bytes through the lookup table.
fn fold_accelerated(table: &Vec<u32>, state: u32, data: &[u8]) -> (r: u32)
    requires
        table@.len() == 256,
        forall|i: int| 0 <= i < 256 ==> table@[i] == bit_steps(CRC32C_POLY, i as u32, 8),
    ensures
        r == fold_bytes(CRC32C_POLY, state, data@),
{
    let n: usize = data.len();
    let mut s: u32 = state;
    let mut i: usize = 0;
    while n - i >= 4
        invariant
            i <= n,
            n == data@.len(),
            s == fold_bytes(CRC32C_POLY, state, data@.take(i as int)),
        decreases n - i,
    {
        let b0: u8 = data[i];
        let b1: u8 = data[i + 1];
        let b2: u8 = data[i + 2];
        let b3: u8 = data[i + 3];
        let w: u32 = (b0 as u32) | ((b1 as u32) << 8) | ((b2 as u32) << 16) | ((b3 as u32) << 24);
        proof {
            let d = data@;
            let j = i as int;
            assert(d.take(j + 1) =~= d.take(j).push(d[j]));
            lemma_fold_bytes_push(CRC32C_POLY, state, d.take(j), d[j]);
            assert(d.take(j + 2) =~= d.take(j + 1).push(d[j + 1]));
            lemma_fold_bytes_push(CRC32C_POLY, state, d.take(j + 1), d[j + 1]);
            assert(d.take(j + 3) =~= d.take(j + 2).push(d[j + 2]));
            lemma_fold_bytes_push(CRC32C_POLY, state, d.take(j + 2), d[j + 2]);
            assert(d.take(j + 4) =~= d.take(j + 3).push(d[j + 3]));
            lemma_fold_bytes_push(CRC32C_POLY, state, d.take(j + 3), d[j + 3]);
            assert(w == (b0 as u32) ^ ((b1 as u32) << 8) ^ ((b2 as u32) << 16) ^ ((b3 as u32)
                << 24)) by (bit_vector)
                requires
                    w == (b0 as u32) | ((b1 as u32) << 8) | ((b2 as u32) << 16) | ((b3 as u32)
                        << 24),
            ;
            lemma_word_step(CRC32C_POLY, s, b0, b1, b2, b3, w);
        }
        s = crc32c_word(s, w);
        i = i + 4;
    }
    while i < n
        invariant
            i <= n,
            n == data@.len(),
            s == fold_bytes(CRC32C_POLY, state, data@.take(i as int)),
            table@.len() == 256,
            forall|j: int| 0 <= j < 256 ==> table@[j] == bit_steps(CRC32C_POLY, j as u32, 8),
        decreases n - i,
    {
        let b: u8 = data[i];
        let idx: usize = ((s ^ (b as u32)) & 0xFF) as usize;
        proof {
            assert(((s ^ (b as u32)) & 0xFF) < 256) by (bit_vector);
            lemma_table_step(CRC32C_POLY, s, b);
            assert(data@.take(i as int + 1) =~= data@.take(i as int).push(data@[i as int]));
            lemma_fold_bytes_push(CRC32C_POLY, state, data@.take(i as int), data@[i as int]);
        }
        s = (s >> 8) ^ table[idx];
        i = i + 1;
    }
    proof {
        assert(data@.take(data@.len() as int) =~= data@);
    }
    s
}

/// Computes the CRC32C of `data`, continuing from `previous_crc`, on the
/// word-at-a-time path that models hardware acceleration.
pub(crate) fn crc32c_accelerated(data: &[u8], previous_crc: u32) -> (r: u32)
    ensures
        r == crc32c_spec(data@, previous_crc),
{
    let table = make_table(CRC32C_POLY);
    let folded = fold_accelerated(&table, !previous_crc, data);
    !folded
}

/// Computes the CRC32 of `data`, continuing from `previous_crc`.
/// `previous_crc == 0` starts a fresh checksum; a zero-length buffer returns
/// `previous_crc` unchanged.
pub fn crc32(data: &[u8], previous_crc: u32) -> (r: u32)
    ensures
        r == crc32_spec(data@, previous_crc),
{
    let table = make_table(CRC32_POLY);
    let folded = fold_table(Ghost(CRC32_POLY), &table, !previous_crc, data);
    !folded
}

/// Computes the CRC32C of `data`, continuing from `previous_crc`, on the
/// portable software path.
pub(crate) fn crc32c_software(data: &[u8], previous_crc: u32) -> (r: u32)
    ensures
        r == crc32c_spec(data@, previous_crc),
{
    let table = make_table(CRC32C_POLY);
    let folded = fold_table(Ghost(CRC32C_POLY), &table, !previous_crc, data);
    !folded
}

/// Computes the CRC32C of `data`, continuing from `previous_crc`.
/// This portable build resolves to the software table path; a forced variant
/// goes through `variant::crc32c_with_variant` and returns the same value.
pub fn crc32c(data: &[u8], previous_crc: u32) -> (r: u32)
    ensures
        r == crc32c_spec(data@, previous_crc),
{
    crc32c_software(data, previous_crc)
}

} // verus!
