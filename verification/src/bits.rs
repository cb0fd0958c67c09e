//! Bit-level model of the embedding: a frame is flattened to bits, least
//! significant bit of each frame byte first, and each bit is written into the
//! low bit of one carrier byte. This module defines that layout as spec
//! functions and proves that regrouping the low bits recovers the frame.

use vstd::arithmetic::div_mod::lemma_fundamental_div_mod_converse;
use vstd::prelude::*;

verus! {

/// Bit `i` of a frame flattened LSB-first: bit `i % 8` of frame byte `i / 8`.
pub open spec fn frame_bit(frame: Seq<u8>, i: int) -> u8
    recommends
        0 <= i < 8 * frame.len(),
{
    (frame[i / 8] >> ((i % 8) as u8)) & 1
}

/// A carrier byte with one payload bit written into its low bit: the low bit
/// is cleared and the payload bit ored in.
pub open spec fn with_lsb(orig: u8, bit: u8) -> u8 {
    (orig & 0xfe) | bit
}

/// The carrier after a frame is embedded: each of the first
/// `8 * frame.len()` bytes carries one frame bit in its low bit, and every
/// byte after those is unchanged.
pub open spec fn lsb_embedded(orig: Seq<u8>, frame: Seq<u8>) -> Seq<u8> {
    Seq::new(
        orig.len(),
        |i: int|
            if i < 8 * frame.len() {
                with_lsb(orig[i], frame_bit(frame, i))
            } else {
                orig[i]
            },
    )
}

/// The byte whose eight bits are the low bits of `c[start .. start + 8]`,
/// least significant first.
pub open spec fn byte_from_lsbs(c: Seq<u8>, start: int) -> u8
    recommends
        0 <= start,
        start + 8 <= c.len(),
{
    (c[start] & 1) | ((c[start + 1] & 1) << 1u8) | ((c[start + 2] & 1) << 2u8) | ((c[start + 3]
        & 1) << 3u8) | ((c[start + 4] & 1) << 4u8) | ((c[start + 5] & 1) << 5u8) | ((c[start + 6]
        & 1) << 6u8) | ((c[start + 7] & 1) << 7u8)
}

/// `n` bytes regrouped from the low bits of `c`, starting at offset `start`:
/// the inverse of flattening, eight carrier bytes per output byte.
pub open spec fn decoded_bytes(c: Seq<u8>, start: int, n: nat) -> Seq<u8> {
    Seq::new(n, |k: int| byte_from_lsbs(c, start + 8 * k))
}

/// A flattened frame bit is a single bit.
pub proof fn lemma_frame_bit_is_bit(frame: Seq<u8>, i: int)
    ensures
        frame_bit(frame, i) <= 1,
{
    let x = frame[i / 8];
    let k = (i % 8) as u8;
    assert((x >> k) & 1 <= 1) by (bit_vector);
}

/// Writing a bit into the low bit of a byte leaves bits 1 to 7 alone and
/// makes the low bit that bit.
pub proof fn lemma_with_lsb(orig: u8, bit: u8)
    by (bit_vector)
    requires
        bit <= 1,
    ensures
        with_lsb(orig, bit) & 1 == bit,
        with_lsb(orig, bit) & 0xfe == orig & 0xfe,
        with_lsb(orig, bit) >> 1u8 == orig >> 1u8,
{
}

/// Gathering the eight spread bits of `x` from the low bits of eight carrier
/// bytes yields `x` again.
proof fn lemma_gather_bits(x: u8, c0: u8, c1: u8, c2: u8, c3: u8, c4: u8, c5: u8, c6: u8, c7: u8)
    by (bit_vector)
    requires
        c0 & 1 == (x >> 0u8) & 1,
        c1 & 1 == (x >> 1u8) & 1,
        c2 & 1 == (x >> 2u8) & 1,
        c3 & 1 == (x >> 3u8) & 1,
        c4 & 1 == (x >> 4u8) & 1,
        c5 & 1 == (x >> 5u8) & 1,
        c6 & 1 == (x >> 6u8) & 1,
        c7 & 1 == (x >> 7u8) & 1,
    ensures
        (c0 & 1) | ((c1 & 1) << 1u8) | ((c2 & 1) << 2u8) | ((c3 & 1) << 3u8) | ((c4 & 1) << 4u8)
            | ((c5 & 1) << 5u8) | ((c6 & 1) << 6u8) | ((c7 & 1) << 7u8) == x,
{
}

/// Position `8 * m + j` of the flattened frame addresses bit `j` of byte `m`.
pub proof fn lemma_frame_bit_at(frame: Seq<u8>, m: int, j: int)
    requires
        0 <= m < frame.len(),
        0 <= j < 8,
    ensures
        frame_bit(frame, 8 * m + j) == (frame[m] >> (j as u8)) & 1,
{
    lemma_fundamental_div_mod_converse(8 * m + j, 8, m, j);
}

/// Regrouping the low bits of a carrier that holds the flattened `frame`
/// recovers one frame byte.
pub proof fn lemma_gather_byte(e: Seq<u8>, frame: Seq<u8>, m: int)
    requires
        0 <= m < frame.len(),
        8 * frame.len() <= e.len(),
        forall|i: int| 0 <= i < 8 * frame.len() ==> #[trigger] (e[i] & 1) == frame_bit(frame, i),
    ensures
        byte_from_lsbs(e, 8 * m) == frame[m],
{
    let x = frame[m];
    lemma_frame_bit_at(frame, m, 0);
    lemma_frame_bit_at(frame, m, 1);
    lemma_frame_bit_at(frame, m, 2);
    lemma_frame_bit_at(frame, m, 3);
    lemma_frame_bit_at(frame, m, 4);
    lemma_frame_bit_at(frame, m, 5);
    lemma_frame_bit_at(frame, m, 6);
    lemma_frame_bit_at(frame, m, 7);
    lemma_gather_bits(
        x,
        e[8 * m],
        e[8 * m + 1],
        e[8 * m + 2],
        e[8 * m + 3],
        e[8 * m + 4],
        e[8 * m + 5],
        e[8 * m + 6],
        e[8 * m + 7],
    );
}

/// Flipping the low bit of the carrier byte at offset `j` of a group flips
/// bit `j` of the gathered byte.
proof fn lemma_gather_bits_flip(
    j: u8,
    d: u8,
    c0: u8,
    c1: u8,
    c2: u8,
    c3: u8,
    c4: u8,
    c5: u8,
    c6: u8,
    c7: u8,
    e0: u8,
    e1: u8,
    e2: u8,
    e3: u8,
    e4: u8,
    e5: u8,
    e6: u8,
    e7: u8,
)
    by (bit_vector)
    requires
        j < 8,
        d == 1u8 << j,
        e0 == (if j == 0 { c0 ^ 1 } else { c0 }),
        e1 == (if j == 1 { c1 ^ 1 } else { c1 }),
        e2 == (if j == 2 { c2 ^ 1 } else { c2 }),
        e3 == (if j == 3 { c3 ^ 1 } else { c3 }),
        e4 == (if j == 4 { c4 ^ 1 } else { c4 }),
        e5 == (if j == 5 { c5 ^ 1 } else { c5 }),
        e6 == (if j == 6 { c6 ^ 1 } else { c6 }),
        e7 == (if j == 7 { c7 ^ 1 } else { c7 }),
    ensures
        (e0 & 1) | ((e1 & 1) << 1u8) | ((e2 & 1) << 2u8) | ((e3 & 1) << 3u8) | ((e4 & 1) << 4u8)
            | ((e5 & 1) << 5u8) | ((e6 & 1) << 6u8) | ((e7 & 1) << 7u8) == ((c0 & 1) | ((c1 & 1)
            << 1u8) | ((c2 & 1) << 2u8) | ((c3 & 1) << 3u8) | ((c4 & 1) << 4u8) | ((c5 & 1) << 5u8)
            | ((c6 & 1) << 6u8) | ((c7 & 1) << 7u8)) ^ d,
{
}

/// Flipping the low bit of the single carrier byte at `s + j` xors the byte
/// gathered at `s` with `1 << j` and leaves any group that avoids `s + j`
/// alone.
pub proof fn lemma_byte_from_lsbs_flip(c: Seq<u8>, c2: Seq<u8>, s: int, j: int)
    requires
        0 <= s,
        s + 8 <= c.len(),
        c2.len() == c.len(),
        0 <= j < 8,
        forall|i: int| 0 <= i < c.len() && i != s + j ==> c2[i] == c[i],
        c2[s + j] == c[s + j] ^ 1,
    ensures
        byte_from_lsbs(c2, s) == byte_from_lsbs(c, s) ^ (1u8 << (j as u8)),
{
    lemma_gather_bits_flip(
        j as u8,
        1u8 << (j as u8),
        c[s],
        c[s + 1],
        c[s + 2],
        c[s + 3],
        c[s + 4],
        c[s + 5],
        c[s + 6],
        c[s + 7],
        c2[s],
        c2[s + 1],
        c2[s + 2],
        c2[s + 3],
        c2[s + 4],
        c2[s + 5],
        c2[s + 6],
        c2[s + 7],
    );
}

/// A gathered byte only looks at its own eight carrier bytes.
pub proof fn lemma_byte_from_lsbs_same(c: Seq<u8>, c2: Seq<u8>, s: int)
    requires
        0 <= s,
        s + 8 <= c.len(),
        c2.len() == c.len(),
        forall|i: int| s <= i < s + 8 ==> c2[i] == c[i],
    ensures
        byte_from_lsbs(c2, s) == byte_from_lsbs(c, s),
{
}

/// The low bits of an embedded carrier are exactly the flattened frame bits.
pub proof fn lemma_embedded_lsbs(orig: Seq<u8>, frame: Seq<u8>)
    requires
        8 * frame.len() <= orig.len(),
    ensures
        forall|i: int|
            0 <= i < 8 * frame.len() ==> #[trigger] (lsb_embedded(orig, frame)[i] & 1)
                == frame_bit(frame, i),
{
    let e = lsb_embedded(orig, frame);
    assert forall|i: int| 0 <= i < 8 * frame.len() implies #[trigger] (e[i] & 1) == frame_bit(
        frame,
        i,
    ) by {
        lemma_frame_bit_is_bit(frame, i);
        lemma_with_lsb(orig[i], frame_bit(frame, i));
    }
}

} // verus!
