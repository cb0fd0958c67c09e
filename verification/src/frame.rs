//! The framing and embedding engine: a payload is wrapped into a frame
//! `[length (4 bytes, little endian) | payload | CRC-32 (4 bytes, little
//! endian)]`, the frame is flattened to bits and written into the low bit of
//! one carrier byte per bit, and extraction reads the bits back, checks the
//! bounds and the checksum, and returns the payload bytes.

use crate::bits::{
    byte_from_lsbs, decoded_bytes, frame_bit, lemma_byte_from_lsbs_flip, lemma_byte_from_lsbs_same,
    lemma_embedded_lsbs, lemma_gather_byte, lsb_embedded, with_lsb,
};
use crate::checksum::{crc32_spec, get_crc, lemma_crc32_flip};
use vstd::arithmetic::div_mod::{
    lemma_div_is_ordered, lemma_div_multiples_vanish, lemma_fundamental_div_mod,
};
use vstd::bytes::{
    lemma_auto_spec_u32_to_from_le_bytes, spec_u32_from_le_bytes, spec_u32_to_le_bytes,
    u32_from_le_bytes, u32_to_le_bytes,
};
use vstd::prelude::*;
use vstd::slice::{slice_subrange, slice_to_vec};

verus! {

/// Why an embedding or an extraction failed. Every failure is final: it
/// reports either a misuse (the payload cannot fit) or a carrier that does
/// not hold a validly embedded frame.
#[derive(Clone, Copy, Debug, PartialEq, Eq, Structural)]
pub enum StenError {
    /// The frame needs more bytes than an eighth of the carrier. Carries the
    /// frame length and the maximum that would have fit, both in bytes.
    PayloadTooLarge(usize, usize),
    /// The carrier is too short for a length field, or the decoded length
    /// claims more bytes than the carrier holds, or too few to hold a
    /// checksum.
    BadPayload,
    /// The stored checksum does not match the payload: the payload is
    /// corrupted or was never embedded.
    FailedChecksum,
    /// The checksum matched but the payload bytes do not decode to the
    /// requested type.
    FailedParsing,
}

/// A fixed-length, mutable byte buffer that a frame can be hidden in. Any
/// owner of a byte buffer can act as one by exposing its bytes.
pub trait Container {
    /// The bytes of the buffer.
    spec fn contents(&self) -> Seq<u8>;

    /// The length of the buffer in bytes.
    fn byte_len(&self) -> (n: usize)
        ensures
            n == self.contents().len(),
    ;

    /// Reads the byte at position `i`.
    fn get_byte(&self, i: usize) -> (b: u8)
        requires
            i < self.contents().len(),
        ensures
            b == self.contents()[i as int],
    ;

    /// Overwrites the byte at position `i`.
    fn set_byte(&mut self, i: usize, b: u8)
        requires
            i < old(self).contents().len(),
        ensures
            final(self).contents() == old(self).contents().update(i as int, b),
    ;
}

/// A plain byte vector is its own carrier.
impl Container for Vec<u8> {
    open spec fn contents(&self) -> Seq<u8> {
        self@
    }

    fn byte_len(&self) -> usize {
        self.len()
    }

    fn get_byte(&self, i: usize) -> u8 {
        self[i]
    }

    fn set_byte(&mut self, i: usize, b: u8) {
        self.set(i, b);
    }
}

/// The frame built around a payload: the byte length of payload plus
/// checksum (taken modulo 2^32, as a 32-bit field), then the payload, then
/// the CRC-32 of the payload, both integers little endian.
pub open spec fn frame_of(payload: Seq<u8>) -> Seq<u8> {
    spec_u32_to_le_bytes(((payload.len() + 4) % 0x1_0000_0000) as u32) + payload
        + spec_u32_to_le_bytes(crc32_spec(0, payload))
}

/// What embedding leaves behind: if the frame does not fit in an eighth of
/// the carrier, the error names the frame length and the maximum and the
/// carrier keeps every byte; otherwise the frame's bits sit in the low bits
/// of the leading carrier bytes and everything else is untouched.
pub open spec fn sten_post(
    payload: Seq<u8>,
    pre: Seq<u8>,
    post: Seq<u8>,
    res: Result<(), StenError>,
) -> bool {
    let frame = frame_of(payload);
    if frame.len() > pre.len() / 8 {
        &&& post == pre
        &&& res matches Err(e)
        &&& e matches StenError::PayloadTooLarge(actual, max)
        &&& actual == frame.len()
        &&& max == pre.len() / 8
    } else {
        &&& res == Ok::<(), StenError>(())
        &&& post == lsb_embedded(pre, frame)
    }
}

/// The payload that extraction recovers from a carrier, or the error that it
/// reports: too short for the 32 bits of the length field, a length that
/// claims more bytes than the carrier holds or fewer than a checksum needs,
/// a checksum mismatch, or the payload bytes.
pub open spec fn extracted_payload(c: Seq<u8>) -> Result<Seq<u8>, StenError> {
    if c.len() < 32 {
        Err(StenError::BadPayload)
    } else {
        let n = spec_u32_from_le_bytes(decoded_bytes(c, 0, 4)) as int;
        if n > (c.len() - 32) / 8 || n < 4 {
            Err(StenError::BadPayload)
        } else {
            let pwc = decoded_bytes(c, 32, n as nat);
            let payload = pwc.take(n - 4);
            let stored = spec_u32_from_le_bytes(pwc.skip(n - 4));
            if crc32_spec(0, payload) != stored {
                Err(StenError::FailedChecksum)
            } else {
                Ok(payload)
            }
        }
    }
}

/// Builds the frame around `payload` and writes it bit by bit into the low
/// bits of the leading carrier bytes, or reports that it cannot fit and
/// leaves the carrier alone.
pub fn embed_payload<C: Container>(payload: Vec<u8>, container: &mut C) -> (res: Result<
    (),
    StenError,
>)
    ensures
        sten_post(payload@, old(container).contents(), final(container).contents(), res),
{
    let ghost payload_view = payload@;
    let crc = get_crc(0, payload.as_slice());
    let crc_bytes = u32_to_le_bytes(crc);
    let mut pwc = payload;
    pwc.extend_from_slice(crc_bytes.as_slice());

    let len_field: u32 = #[verifier::truncate] (pwc.len() as u32);
    proof {
        let l = pwc.len();
        assert(len_field == l as int % 0x1_0000_0000) by (bit_vector)
            requires
                len_field == l as u32,
        ;
    }
    let mut frame = u32_to_le_bytes(len_field);
    frame.append(&mut pwc);
    assert(frame@ == frame_of(payload_view));

    let max_size = container.byte_len() / 8;
    if frame.len() > max_size {
        return Err(StenError::PayloadTooLarge(frame.len(), max_size));
    }

    let ghost orig = container.contents();
    let ghost fr = frame@;
    proof {
        lemma_fundamental_div_mod(orig.len() as int, 8);
    }
    let total = frame.len() * 8;
    let mut pos: usize = 0;
    while pos < total
        invariant
            frame@ == fr,
            total == 8 * fr.len(),
            total <= orig.len(),
            pos <= total,
            container.contents().len() == orig.len(),
            forall|j: int|
                0 <= j < pos ==> container.contents()[j] == with_lsb(orig[j], frame_bit(fr, j)),
            forall|j: int| pos <= j < orig.len() ==> container.contents()[j] == orig[j],
        decreases total - pos,
    {
        let byte = frame[pos / 8];
        let bit = (byte >> ((pos % 8) as u8)) & 1;
        assert(bit == frame_bit(fr, pos as int));
        let cur = container.get_byte(pos);
        container.set_byte(pos, (cur & 0xfe) | bit);
        pos = pos + 1;
    }
    proof {
        assert(container.contents() =~= lsb_embedded(orig, fr));
    }
    Ok(())
}

/// Reads the eight low bits of `c[start .. start + 8]` into one byte, least
/// significant first.
fn read_group<C: Container>(container: &C, start: usize) -> (b: u8)
    requires
        start + 8 <= container.contents().len(),
        container.contents().len() <= usize::MAX,
    ensures
        b == byte_from_lsbs(container.contents(), start as int),
{
    (container.get_byte(start) & 1) | ((container.get_byte(start + 1) & 1) << 1u8) | ((
    container.get_byte(start + 2) & 1) << 2u8) | ((container.get_byte(start + 3) & 1) << 3u8) | ((
    container.get_byte(start + 4) & 1) << 4u8) | ((container.get_byte(start + 5) & 1) << 5u8) | ((
    container.get_byte(start + 6) & 1) << 6u8) | ((container.get_byte(start + 7) & 1) << 7u8)
}

/// Extraction agrees with [`extracted_payload`]: the same payload bytes on
/// success and the same error otherwise.
pub open spec fn desten_bytes_post(c: Seq<u8>, res: Result<Vec<u8>, StenError>) -> bool {
    match res {
        Ok(v) => extracted_payload(c) == Ok::<Seq<u8>, StenError>(v@),
        Err(e) => extracted_payload(c) == Err::<Seq<u8>, StenError>(e),
    }
}

/// Reads the embedded frame back out of the carrier's low bits: the length
/// field first, then that many payload-plus-checksum bytes, validated
/// against the stored CRC-32.
pub fn extract_payload<C: Container>(container: &C) -> (res: Result<Vec<u8>, StenError>)
    ensures
        desten_bytes_post(container.contents(), res),
{
    let ghost c = container.contents();
    let len = container.byte_len();
    if len < 32 {
        return Err(StenError::BadPayload);
    }

    let mut size_bytes: Vec<u8> = Vec::new();
    let mut k: usize = 0;
    while k < 4
        invariant
            len == c.len(),
            32 <= len,
            c == container.contents(),
            k <= 4,
            size_bytes@ == decoded_bytes(c, 0, k as nat),
        decreases 4 - k,
    {
        let b = read_group(container, 8 * k);
        size_bytes.push(b);
        k = k + 1;
        proof {
            assert(size_bytes@ =~= decoded_bytes(c, 0, k as nat));
        }
    }
    let size32 = u32_from_le_bytes(size_bytes.as_slice());
    let size = size32 as usize;
    assert(size == spec_u32_from_le_bytes(decoded_bytes(c, 0, 4)));

    if size > (len - 32) / 8 || size < 4 {
        return Err(StenError::BadPayload);
    }
    proof {
        lemma_fundamental_div_mod((len - 32) as int, 8);
    }

    let mut pwc: Vec<u8> = Vec::new();
    let mut k: usize = 0;
    while k < size
        invariant
            len == c.len(),
            32 <= len,
            c == container.contents(),
            size <= ((len - 32) as int) / 8,
            8 * size <= len - 32,
            k <= size,
            pwc@ == decoded_bytes(c, 32, k as nat),
        decreases size - k,
    {
        let b = read_group(container, 32 + 8 * k);
        pwc.push(b);
        k = k + 1;
        proof {
            assert(pwc@ =~= decoded_bytes(c, 32, k as nat));
        }
    }

    let split_at = size - 4;
    let payload = slice_to_vec(slice_subrange(pwc.as_slice(), 0, split_at));
    let tail = slice_subrange(pwc.as_slice(), split_at, size);
    let stored = u32_from_le_bytes(tail);
    proof {
        assert(payload@ =~= decoded_bytes(c, 32, size as nat).take(size - 4));
        assert(tail@ =~= decoded_bytes(c, 32, size as nat).skip(size - 4));
    }
    let actual = get_crc(0, payload.as_slice());
    if stored != actual {
        return Err(StenError::FailedChecksum);
    }
    Ok(payload)
}

/// The three regions of a frame: length field, payload, checksum.
proof fn lemma_frame_shape(payload: Seq<u8>)
    ensures
        frame_of(payload).len() == payload.len() + 8,
        frame_of(payload).subrange(0, 4) == spec_u32_to_le_bytes(
            ((payload.len() + 4) % 0x1_0000_0000) as u32,
        ),
        frame_of(payload).subrange(4, payload.len() as int + 4) == payload,
        frame_of(payload).subrange(payload.len() as int + 4, payload.len() as int + 8)
            == spec_u32_to_le_bytes(crc32_spec(0, payload)),
{
    lemma_auto_spec_u32_to_from_le_bytes();
    let f = frame_of(payload);
    assert(f.subrange(0, 4) =~= spec_u32_to_le_bytes(
        ((payload.len() + 4) % 0x1_0000_0000) as u32,
    ));
    assert(f.subrange(4, payload.len() as int + 4) =~= payload);
    assert(f.subrange(payload.len() as int + 4, payload.len() as int + 8)
        =~= spec_u32_to_le_bytes(crc32_spec(0, payload)));
}

/// Regrouped low bits of an embedded carrier agree with any slice of the
/// frame: `n` regrouped bytes starting at carrier offset `8 * from` are
/// frame bytes `from` to `from + n`.
#[verifier::rlimit(100)]
#[verifier::spinoff_prover]
proof fn lemma_decoded_slice(carrier: Seq<u8>, f: Seq<u8>, from: int, n: nat)
    requires
        8 * f.len() <= carrier.len(),
        0 <= from,
        from + n <= f.len(),
    ensures
        decoded_bytes(lsb_embedded(carrier, f), 8 * from, n) == f.subrange(from, from + n),
{
    let e = lsb_embedded(carrier, f);
    lemma_embedded_lsbs(carrier, f);
    assert forall|k: int| 0 <= k < n implies #[trigger] decoded_bytes(e, 8 * from, n)[k] == f[from
        + k] by {
        assert(8 * from + 8 * k == 8 * (from + k));
        lemma_gather_byte(e, f, from + k);
    }
    assert(decoded_bytes(e, 8 * from, n) =~= f.subrange(from, from + n));
}

/// Round trip at the frame level: extracting from a carrier into which the
/// frame around `payload` was embedded yields exactly `payload` again,
/// whenever the frame fits. The length field is 32 bits, so payloads so
/// large that their length would wrap (at least 2^32 - 4 bytes) are out of
/// this statement's reach.
#[verifier::rlimit(100)]
#[verifier::spinoff_prover]
pub proof fn lemma_embed_extract_round_trip(payload: Seq<u8>, carrier: Seq<u8>)
    requires
        8 * frame_of(payload).len() <= carrier.len(),
        payload.len() + 4 < 0x1_0000_0000,
    ensures
        extracted_payload(lsb_embedded(carrier, frame_of(payload))) == Ok::<
            Seq<u8>,
            StenError,
        >(payload),
{
    let f = frame_of(payload);
    let e = lsb_embedded(carrier, f);
    let n = payload.len() + 4;
    lemma_frame_shape(payload);
    assert(e.len() == carrier.len());

    // The length field reads back as the untruncated payload-plus-checksum
    // length.
    lemma_decoded_slice(carrier, f, 0, 4);
    assert(n % 0x1_0000_0000 == n);
    assert(spec_u32_from_le_bytes(decoded_bytes(e, 0, 4)) == n) by {
        lemma_auto_spec_u32_to_from_le_bytes();
        assert(decoded_bytes(e, 0, 4) == spec_u32_to_le_bytes((n % 0x1_0000_0000) as u32));
    }

    // The claimed byte count fits the carrier.
    assert(n <= (e.len() - 32) / 8) by {
        assert(8 * n <= e.len() - 32);
        lemma_div_is_ordered(8 * n as int, e.len() - 32, 8);
        lemma_div_multiples_vanish(n as int, 8);
    }

    // The payload-plus-checksum bytes read back as frame bytes 4 onward,
    // the payload and then the stored checksum.
    lemma_decoded_slice(carrier, f, 4, n as nat);
    let pwc = decoded_bytes(e, 32, n as nat);
    assert(pwc == f.subrange(4, 4 + n as int));
    assert(pwc.take(n - 4) =~= f.subrange(4, payload.len() as int + 4));
    assert(pwc.skip(n - 4) =~= f.subrange(payload.len() as int + 4, payload.len() as int + 8));
    assert(spec_u32_from_le_bytes(pwc.skip(n - 4)) == crc32_spec(0, payload)) by {
        lemma_auto_spec_u32_to_from_le_bytes();
        assert(pwc.skip(n - 4) == spec_u32_to_le_bytes(crc32_spec(0, payload)));
    }
    assert(extracted_payload(e) == Ok::<Seq<u8>, StenError>(pwc.take(n - 4)));
}

/// Checksum sensitivity: when the carrier holds a validly embedded frame,
/// flipping the low bit of any single carrier byte in the payload or
/// checksum region (past the 32 bytes that hold the length field, within
/// the region the length covers) makes extraction fail with
/// `FailedChecksum`: CRC-32 detects every single-bit corruption.
#[verifier::rlimit(100)]
#[verifier::spinoff_prover]
pub proof fn lemma_checksum_sensitivity(c: Seq<u8>, k: int)
    requires
        extracted_payload(c) is Ok,
        32 <= k < 32 + 8 * (spec_u32_from_le_bytes(decoded_bytes(c, 0, 4)) as int),
    ensures
        extracted_payload(c.update(k, c[k] ^ 1)) == Err::<Seq<u8>, StenError>(
            StenError::FailedChecksum,
        ),
{
    let n = spec_u32_from_le_bytes(decoded_bytes(c, 0, 4)) as int;
    let c2 = c.update(k, c[k] ^ 1);
    lemma_fundamental_div_mod(c.len() - 32, 8);
    assert(8 * n <= c.len() - 32);
    assert(c2.len() == c.len());

    // The length field sits in untouched bytes, so it reads back unchanged.
    assert(decoded_bytes(c2, 0, 4) =~= decoded_bytes(c, 0, 4)) by {
        assert forall|m: int| 0 <= m < 4 implies decoded_bytes(c2, 0, 4)[m] == decoded_bytes(
            c,
            0,
            4,
        )[m] by {
            lemma_byte_from_lsbs_same(c, c2, 8 * m);
        }
    }

    // The flipped bit lands in bit j0 of regrouped byte m0.
    let m0 = (k - 32) / 8;
    let j0 = (k - 32) % 8;
    lemma_fundamental_div_mod(k - 32, 8);
    assert(k == 32 + 8 * m0 + j0);
    assert(0 <= j0 < 8);
    assert(0 <= m0 < n);

    let pwc = decoded_bytes(c, 32, n as nat);
    let pwc2 = decoded_bytes(c2, 32, n as nat);
    let dd = 1u8 << (j0 as u8);
    assert(pwc2 =~= pwc.update(m0, pwc[m0] ^ dd)) by {
        assert forall|m: int| 0 <= m < n implies pwc2[m] == pwc.update(m0, pwc[m0] ^ dd)[m] by {
            if m == m0 {
                lemma_byte_from_lsbs_flip(c, c2, 32 + 8 * m0, j0);
            } else {
                assert forall|i: int| 32 + 8 * m <= i < 32 + 8 * m + 8 implies c2[i] == c[i] by {
                    assert(i != k);
                }
                lemma_byte_from_lsbs_same(c, c2, 32 + 8 * m);
            }
        }
    }

    let payload = pwc.take(n - 4);
    let stored = spec_u32_from_le_bytes(pwc.skip(n - 4));
    assert(crc32_spec(0, payload) == stored);
    let jj = j0 as u8;
    assert(1u8 << jj != 0) by (bit_vector)
        requires
            jj < 8,
    ;

    if m0 < n - 4 {
        // The flip hit the payload: its checksum changes, the stored one
        // does not.
        let payload2 = pwc2.take(n - 4);
        assert(payload2 =~= payload.update(m0, payload[m0] ^ dd));
        assert(pwc2.skip(n - 4) =~= pwc.skip(n - 4));
        lemma_crc32_flip(0, payload, m0, dd);
        assert(crc32_spec(0, payload2) != stored);
    } else {
        // The flip hit the stored checksum: the payload's checksum does not
        // change, the stored one does.
        assert(pwc2.take(n - 4) =~= payload);
        let s1 = pwc.skip(n - 4);
        let s2 = pwc2.skip(n - 4);
        let idx = m0 - (n - 4);
        assert(s2 =~= s1.update(idx, s1[idx] ^ dd));
        let a = s1[idx];
        assert(dd != 0 ==> a ^ dd != a) by (bit_vector);
        assert(spec_u32_from_le_bytes(s2) != spec_u32_from_le_bytes(s1)) by {
            lemma_auto_spec_u32_to_from_le_bytes();
            if spec_u32_from_le_bytes(s2) == spec_u32_from_le_bytes(s1) {
                assert(spec_u32_to_le_bytes(spec_u32_from_le_bytes(s2)) == s2);
                assert(spec_u32_to_le_bytes(spec_u32_from_le_bytes(s1)) == s1);
                assert(s2[idx] == s1[idx]);
            }
        }
    }
}

/// The capacity boundary: with a carrier of `pre.len()` bytes, embedding
/// succeeds exactly when the frame needs at most an eighth of them, and a
/// frame even one byte longer is refused with the frame length and the
/// maximum in the error.
pub proof fn lemma_capacity_boundary(
    payload: Seq<u8>,
    pre: Seq<u8>,
    post: Seq<u8>,
    res: Result<(), StenError>,
)
    requires
        sten_post(payload, pre, post, res),
    ensures
        frame_of(payload).len() == payload.len() + 8,
        frame_of(payload).len() <= pre.len() / 8 ==> res == Ok::<(), StenError>(()),
        frame_of(payload).len() > pre.len() / 8 ==> res == Err::<(), StenError>(
            StenError::PayloadTooLarge(frame_of(payload).len() as usize, (pre.len() / 8) as usize),
        ) && post == pre,
{
    lemma_auto_spec_u32_to_from_le_bytes();
    if frame_of(payload).len() > pre.len() / 8 {
        let e = res->Err_0;
        assert(e->PayloadTooLarge_0 == frame_of(payload).len() as usize);
        assert(e->PayloadTooLarge_1 == (pre.len() / 8) as usize);
    }
}

/// The minimum carrier size: a carrier of fewer than 32 bytes cannot hold
/// even the length field, so extraction always reports `BadPayload` on it.
pub proof fn lemma_minimum_carrier(c: Seq<u8>)
    requires
        c.len() < 32,
    ensures
        extracted_payload(c) == Err::<Seq<u8>, StenError>(StenError::BadPayload),
{
}

/// The untouched-bits invariant: after a successful embedding, every carrier
/// byte beyond the `8 * frame len` consumed ones is exactly its old value,
/// and even a consumed byte keeps its upper seven bits (everything but the
/// low bit, that is its value masked with 0xfe).
pub proof fn lemma_untouched_bits(payload: Seq<u8>, pre: Seq<u8>, post: Seq<u8>)
    requires
        sten_post(payload, pre, post, Ok::<(), StenError>(())),
    ensures
        post.len() == pre.len(),
        forall|j: int|
            8 * frame_of(payload).len() <= j < pre.len() ==> post[j] == pre[j],
        forall|j: int|
            0 <= j < 8 * frame_of(payload).len() ==> #[trigger] (post[j] & 0xfe) == (pre[j] & 0xfe),
{
    let f = frame_of(payload);
    assert forall|j: int| 0 <= j < 8 * f.len() implies #[trigger] (post[j] & 0xfe) == (pre[j]
        & 0xfe) by {
        crate::bits::lemma_frame_bit_is_bit(f, j);
        crate::bits::lemma_with_lsb(pre[j], frame_bit(f, j));
    }
}

} // verus!

