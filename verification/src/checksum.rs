//! The CRC-32 checksum (the bit-reflected, zlib/PNG variant) that guards an
//! embedded payload, together with the algebraic facts about it that the
//! corruption-detection proofs rely on.

use vstd::prelude::*;

verus! {

/// The reflected CRC-32 polynomial.
pub const CRC32_POLY: u32 = 0xedb88320;

/// One shift-and-conditionally-xor round of the bit-reflected CRC.
pub open spec fn crc_round(crc: u32) -> u32 {
    if crc & 1 == 1 {
        (crc >> 1) ^ CRC32_POLY
    } else {
        crc >> 1
    }
}

/// `n` rounds of [`crc_round`].
pub open spec fn crc_rounds(crc: u32, n: nat) -> u32
    decreases n,
{
    if n == 0 {
        crc
    } else {
        crc_rounds(crc_round(crc), (n - 1) as nat)
    }
}

/// The running CRC value after absorbing `data`, starting from `crc`
/// (already complemented; neither the initial nor the final complement is
/// applied here).
pub open spec fn crc_accum(crc: u32, data: Seq<u8>) -> u32
    decreases data.len(),
{
    if data.len() == 0 {
        crc
    } else {
        crc_accum(crc_rounds(crc ^ (data[0] as u32), 8), data.drop_first())
    }
}

/// The CRC-32 of `data` with the given seed: the running value starts as the
/// complement of the seed and the result is complemented at the end.
pub open spec fn crc32_spec(seed: u32, data: Seq<u8>) -> u32 {
    !crc_accum(!seed, data)
}

/// Computes the CRC-32 (zlib/PNG variant) of `data`, seeded with `crc`.
pub fn get_crc(crc: u32, data: &[u8]) -> (r: u32)
    ensures
        r == crc32_spec(crc, data@),
{
    let poly: u32 = CRC32_POLY;
    let mut acc: u32 = !crc;
    let n: usize = data.len();
    let mut i: usize = 0;
    while i < n
        invariant
            poly == CRC32_POLY,
            n == data@.len(),
            i <= n,
            acc == crc_accum(!crc, data@.take(i as int)),
        decreases n - i,
    {
        let byte: u8 = data[i];
        let mut b: u32 = acc ^ (byte as u32);
        let mut round: usize = 0;
        while round < 8
            invariant
                poly == CRC32_POLY,
                round <= 8,
                b == crc_rounds(acc ^ (byte as u32), round as nat),
            decreases 8 - round,
        {
            assert(b & 1 <= 1) by (bit_vector);
            let mask: u32 = (b & 1) * poly;
            proof {
                lemma_crc_round_mask(b, mask);
                lemma_crc_rounds_step(acc ^ (byte as u32), round as nat);
            }
            b = (b >> 1u32) ^ mask;
            round = round + 1;
        }
        proof {
            lemma_crc_accum_snoc(!crc, data@, i as int);
        }
        acc = b;
        i = i + 1;
    }
    proof {
        assert(data@.take(n as int) =~= data@);
    }
    !acc
}

/// The masked-multiply form used by the executable loop computes exactly one
/// [`crc_round`].
proof fn lemma_crc_round_mask(b: u32, mask: u32)
    by (bit_vector)
    requires
        mask == (b & 1) * CRC32_POLY,
    ensures
        (b >> 1u32) ^ mask == crc_round(b),
{
}

/// Unfolding [`crc_rounds`] from the back: doing `n` rounds and then one more
/// is the same as doing `n + 1` rounds.
proof fn lemma_crc_rounds_step(start: u32, n: nat)
    ensures
        crc_round(crc_rounds(start, n)) == crc_rounds(start, n + 1),
    decreases n,
{
    if n == 0 {
        assert(crc_rounds(start, 1) == crc_rounds(crc_round(start), 0));
        assert(crc_rounds(crc_round(start), 0) == crc_round(start));
    } else {
        lemma_crc_rounds_step(crc_round(start), (n - 1) as nat);
        assert(crc_rounds(start, n) == crc_rounds(crc_round(start), (n - 1) as nat));
        assert(crc_rounds(start, n + 1) == crc_rounds(crc_round(start), n));
    }
}

/// Absorbing one more byte at the back: the CRC of `s` with `x` appended is
/// eight rounds over the CRC of `s` xored with `x`.
proof fn lemma_crc_accum_push(start: u32, s: Seq<u8>, x: u8)
    ensures
        crc_accum(start, s.push(x)) == crc_rounds(crc_accum(start, s) ^ (x as u32), 8),
    decreases s.len(),
{
    let sp = s.push(x);
    if s.len() == 0 {
        assert(sp[0] == x);
        assert(sp.drop_first() =~= Seq::<u8>::empty());
        assert(crc_accum(start, sp)
            == crc_accum(crc_rounds(start ^ (x as u32), 8), sp.drop_first()));
        assert(crc_accum(crc_rounds(start ^ (x as u32), 8), sp.drop_first())
            == crc_rounds(start ^ (x as u32), 8));
        assert(crc_accum(start, s) == start);
    } else {
        assert(sp[0] == s[0]);
        assert(sp.drop_first() =~= s.drop_first().push(x));
        lemma_crc_accum_push(crc_rounds(start ^ (s[0] as u32), 8), s.drop_first(), x);
        assert(crc_accum(start, sp)
            == crc_accum(crc_rounds(start ^ (s[0] as u32), 8), s.drop_first().push(x)));
        assert(crc_accum(start, s)
            == crc_accum(crc_rounds(start ^ (s[0] as u32), 8), s.drop_first()));
    }
}

/// One CRC round is linear over xor.
proof fn lemma_crc_round_linear(a: u32, b: u32)
    by (bit_vector)
    ensures
        crc_round(a ^ b) == crc_round(a) ^ crc_round(b),
{
}

/// One CRC round maps a nonzero value to a nonzero value: the polynomial's
/// top bit is set, so nothing short of zero shifts to zero.
proof fn lemma_crc_round_nonzero(a: u32)
    by (bit_vector)
    requires
        a != 0,
    ensures
        crc_round(a) != 0,
{
}

/// Rounds are linear over xor.
proof fn lemma_crc_rounds_linear(a: u32, b: u32, n: nat)
    ensures
        crc_rounds(a ^ b, n) == crc_rounds(a, n) ^ crc_rounds(b, n),
    decreases n,
{
    if n > 0 {
        lemma_crc_round_linear(a, b);
        lemma_crc_rounds_linear(crc_round(a), crc_round(b), (n - 1) as nat);
    }
}

/// Rounds keep a nonzero value nonzero.
proof fn lemma_crc_rounds_nonzero(a: u32, n: nat)
    requires
        a != 0,
    ensures
        crc_rounds(a, n) != 0,
    decreases n,
{
    if n > 0 {
        lemma_crc_round_nonzero(a);
        lemma_crc_rounds_nonzero(crc_round(a), (n - 1) as nat);
    }
}

/// Rounds compose.
proof fn lemma_crc_rounds_add(a: u32, m: nat, n: nat)
    ensures
        crc_rounds(crc_rounds(a, m), n) == crc_rounds(a, m + n),
    decreases m,
{
    if m > 0 {
        lemma_crc_rounds_add(crc_round(a), (m - 1) as nat, n);
    }
}

/// An xor difference in the running value propagates through the remaining
/// data as rounds of the difference alone.
proof fn lemma_crc_accum_xor(x: u32, d: u32, data: Seq<u8>)
    ensures
        crc_accum(x ^ d, data) == crc_accum(x, data) ^ crc_rounds(d, (8 * data.len()) as nat),
    decreases data.len(),
{
    if data.len() > 0 {
        let r0 = data[0] as u32;
        assert((x ^ d) ^ r0 == (x ^ r0) ^ d) by (bit_vector);
        lemma_crc_rounds_linear(x ^ r0, d, 8);
        lemma_crc_accum_xor(crc_rounds(x ^ r0, 8), crc_rounds(d, 8), data.drop_first());
        lemma_crc_rounds_add(d, 8, (8 * data.drop_first().len()) as nat);
    }
}

/// Xoring one data byte xors the final running value with the difference
/// pushed through the rounds of every byte from it on.
proof fn lemma_crc_accum_flip(start: u32, data: Seq<u8>, j: int, d: u8)
    requires
        0 <= j < data.len(),
    ensures
        crc_accum(start, data.update(j, data[j] ^ d)) == crc_accum(start, data) ^ crc_rounds(
            d as u32,
            (8 * (data.len() - j)) as nat,
        ),
    decreases j,
{
    let upd = data.update(j, data[j] ^ d);
    if j == 0 {
        let a = data[0];
        assert(upd[0] == a ^ d);
        assert(upd.drop_first() =~= data.drop_first());
        assert(start ^ ((a ^ d) as u32) == (start ^ (a as u32)) ^ (d as u32)) by (bit_vector);
        lemma_crc_rounds_linear(start ^ (a as u32), d as u32, 8);
        lemma_crc_accum_xor(
            crc_rounds(start ^ (a as u32), 8),
            crc_rounds(d as u32, 8),
            data.drop_first(),
        );
        lemma_crc_rounds_add(d as u32, 8, (8 * data.drop_first().len()) as nat);
    } else {
        assert(upd[0] == data[0]);
        assert(upd.drop_first() =~= data.drop_first().update(j - 1, data.drop_first()[j - 1] ^ d));
        lemma_crc_accum_flip(crc_rounds(start ^ (data[0] as u32), 8), data.drop_first(), j - 1, d);
    }
}

/// CRC-32 detects every single-byte xor corruption: changing one byte of
/// the data by a nonzero xor always changes the checksum.
pub proof fn lemma_crc32_flip(seed: u32, data: Seq<u8>, j: int, d: u8)
    requires
        0 <= j < data.len(),
        d != 0,
    ensures
        crc32_spec(seed, data.update(j, data[j] ^ d)) != crc32_spec(seed, data),
{
    lemma_crc_accum_flip(!seed, data, j, d);
    assert(d as u32 != 0) by (bit_vector)
        requires
            d != 0,
    ;
    lemma_crc_rounds_nonzero(d as u32, (8 * (data.len() - j)) as nat);
    let a = crc_accum(!seed, data);
    let e = crc_rounds(d as u32, (8 * (data.len() - j)) as nat);
    assert(e != 0 ==> !(a ^ e) != !a) by (bit_vector);
}

/// Absorbing one more byte extends [`crc_accum`] over a longer prefix.
proof fn lemma_crc_accum_snoc(start: u32, data: Seq<u8>, i: int)
    requires
        0 <= i < data.len(),
    ensures
        crc_rounds(crc_accum(start, data.take(i)) ^ (data[i] as u32), 8)
            == crc_accum(start, data.take(i + 1)),
{
    assert(data.take(i + 1) =~= data.take(i).push(data[i]));
    lemma_crc_accum_push(start, data.take(i), data[i]);
}

} // verus!
