//! The value codecs and the two embedding traits. A [`Stenable`] value
//! serializes itself to raw bytes and can hide them in any [`Container`]; a
//! [`Destenable`] value decodes itself back out of the raw bytes that
//! extraction recovered.
//!
//! Serialization is total; decoding is fallible and reports an absent value
//! on malformed bytes. Fixed-width integers use little-endian bytes of their
//! exact width, text uses UTF-8, a byte vector is its own encoding.

use crate::frame::{
    embed_payload, extract_payload, extracted_payload, frame_of, lemma_embed_extract_round_trip,
    sten_post, Container, StenError,
};
use crate::bits::lsb_embedded;
use vstd::bytes::lemma_auto_spec_u16_to_from_le_bytes;
use vstd::bytes::lemma_auto_spec_u32_to_from_le_bytes;
use vstd::bytes::lemma_auto_spec_u64_to_from_le_bytes;
use vstd::utf8::{encode_utf8_decode_utf8, encode_utf8_valid_utf8};
use vstd::bytes::{
    spec_u16_from_le_bytes, spec_u16_to_le_bytes, spec_u32_from_le_bytes, spec_u32_to_le_bytes,
    spec_u64_from_le_bytes, spec_u64_to_le_bytes, u16_from_le_bytes, u16_to_le_bytes,
    u32_from_le_bytes, u32_to_le_bytes, u64_from_le_bytes, u64_to_le_bytes,
};
use vstd::prelude::*;
use vstd::slice::slice_to_vec;
use vstd::utf8::{decode_utf8, encode_utf8, valid_utf8};

verus! {

/// A value that can be hidden in a carrier.
pub trait Stenable: Sized {
    /// The raw bytes the value serializes to.
    spec fn raw_bytes_spec(self) -> Seq<u8>;

    /// Serializes the value to its raw bytes. Serialization is total.
    fn get_raw_bytes(self) -> (r: Vec<u8>)
        ensures
            r@ == self.raw_bytes_spec(),
    ;

    /// Wraps the value's raw bytes into a frame and embeds it into the
    /// carrier's low bits, or reports `PayloadTooLarge` and leaves the
    /// carrier untouched when the frame needs more than an eighth of it.
    fn sten<C: Container>(self, container: &mut C) -> (res: Result<(), StenError>)
        ensures
            sten_post(
                self.raw_bytes_spec(),
                old(container).contents(),
                final(container).contents(),
                res,
            ),
    {
        let payload = self.get_raw_bytes();
        embed_payload(payload, container)
    }
}

/// A value that can be recovered from a carrier.
pub trait Destenable: Sized {
    /// Whether raw bytes decode to a value of this type.
    spec fn decode_ok(data: Seq<u8>) -> bool;

    /// Which values the raw bytes decode to.
    spec fn decodes_to(data: Seq<u8>, v: Self) -> bool;

    /// Decodes raw bytes back into a value; absent exactly when the bytes
    /// are malformed for this type.
    fn from_raw_bytes(data: Vec<u8>) -> (r: Option<Self>)
        ensures
            (r is Some) <==> Self::decode_ok(data@),
            r matches Some(v) ==> Self::decodes_to(data@, v),
    ;

    /// Reads the embedded frame back out of the carrier, validates length
    /// and checksum, and decodes the payload into a value. The carrier-level
    /// failures pass through unchanged, a payload that does not decode is
    /// `FailedParsing`, and a returned value is one the payload decodes to.
    fn desten<C: Container>(container: &C) -> (res: Result<Self, StenError>)
        ensures
            match extracted_payload(container.contents()) {
                Ok(p) => match res {
                    Ok(v) => Self::decode_ok(p) && Self::decodes_to(p, v),
                    Err(e) => e == StenError::FailedParsing && !Self::decode_ok(p),
                },
                Err(e0) => res matches Err(e) && e == e0,
            },
    {
        match extract_payload(container) {
            Err(e) => Err(e),
            Ok(data) => match Self::from_raw_bytes(data) {
                Some(v) => Ok(v),
                None => Err(StenError::FailedParsing),
            },
        }
    }
}

impl Stenable for Vec<u8> {
    open spec fn raw_bytes_spec(self) -> Seq<u8> {
        self@
    }

    fn get_raw_bytes(self) -> Vec<u8> {
        self
    }
}

impl Destenable for Vec<u8> {
    open spec fn decode_ok(data: Seq<u8>) -> bool {
        true
    }

    open spec fn decodes_to(data: Seq<u8>, v: Self) -> bool {
        v@ == data
    }

    fn from_raw_bytes(data: Vec<u8>) -> Option<Self> {
        Some(data)
    }
}

impl<'a> Stenable for &'a [u8] {
    open spec fn raw_bytes_spec(self) -> Seq<u8> {
        self@
    }

    fn get_raw_bytes(self) -> Vec<u8> {
        slice_to_vec(self)
    }
}

impl<'a> Stenable for &'a mut [u8] {
    open spec fn raw_bytes_spec(self) -> Seq<u8> {
        self@
    }

    fn get_raw_bytes(self) -> Vec<u8> {
        slice_to_vec(self)
    }
}

/// Relies on `String::into_bytes`: it returns exactly the string's UTF-8
/// bytes, the encoding that vstd's `encode_utf8` describes.
#[verifier::external_body]
fn string_into_bytes(s: String) -> (r: Vec<u8>)
    ensures
        r@ == encode_utf8(s@),
{
    s.into_bytes()
}

/// Relies on `String::from_utf8`: it succeeds exactly on valid UTF-8 input
/// and then returns the string whose characters those bytes encode.
#[verifier::external_body]
fn string_from_utf8(data: Vec<u8>) -> (r: Option<String>)
    ensures
        (r is Some) <==> valid_utf8(data@),
        r matches Some(s) ==> s@ == decode_utf8(data@),
{
    String::from_utf8(data).ok()
}

impl Stenable for String {
    open spec fn raw_bytes_spec(self) -> Seq<u8> {
        encode_utf8(self@)
    }

    fn get_raw_bytes(self) -> Vec<u8> {
        string_into_bytes(self)
    }
}

impl Destenable for String {
    open spec fn decode_ok(data: Seq<u8>) -> bool {
        valid_utf8(data)
    }

    open spec fn decodes_to(data: Seq<u8>, v: Self) -> bool {
        valid_utf8(data) && v@ == decode_utf8(data)
    }

    fn from_raw_bytes(data: Vec<u8>) -> Option<Self> {
        string_from_utf8(data)
    }
}

impl Stenable for u8 {
    open spec fn raw_bytes_spec(self) -> Seq<u8> {
        seq![self]
    }

    fn get_raw_bytes(self) -> (r: Vec<u8>) {
        let mut v: Vec<u8> = Vec::new();
        v.push(self);
        proof {
            assert(v@ =~= seq![self]);
        }
        v
    }
}

impl Destenable for u8 {
    open spec fn decode_ok(data: Seq<u8>) -> bool {
        data.len() >= 1
    }

    /// A single byte decodes from the first byte of any non-empty sequence.
    open spec fn decodes_to(data: Seq<u8>, v: Self) -> bool {
        data.len() >= 1 && v == data[0]
    }

    fn from_raw_bytes(data: Vec<u8>) -> Option<Self> {
        if data.len() >= 1 {
            Some(data[0])
        } else {
            None
        }
    }
}

impl Stenable for u16 {
    open spec fn raw_bytes_spec(self) -> Seq<u8> {
        spec_u16_to_le_bytes(self)
    }

    fn get_raw_bytes(self) -> Vec<u8> {
        u16_to_le_bytes(self)
    }
}

impl Destenable for u16 {
    open spec fn decode_ok(data: Seq<u8>) -> bool {
        data.len() == 2
    }

    open spec fn decodes_to(data: Seq<u8>, v: Self) -> bool {
        data.len() == 2 && v == spec_u16_from_le_bytes(data)
    }

    fn from_raw_bytes(data: Vec<u8>) -> Option<Self> {
        if data.len() == 2 {
            Some(u16_from_le_bytes(data.as_slice()))
        } else {
            None
        }
    }
}

impl Stenable for u32 {
    open spec fn raw_bytes_spec(self) -> Seq<u8> {
        spec_u32_to_le_bytes(self)
    }

    fn get_raw_bytes(self) -> Vec<u8> {
        u32_to_le_bytes(self)
    }
}

impl Destenable for u32 {
    open spec fn decode_ok(data: Seq<u8>) -> bool {
        data.len() == 4
    }

    open spec fn decodes_to(data: Seq<u8>, v: Self) -> bool {
        data.len() == 4 && v == spec_u32_from_le_bytes(data)
    }

    fn from_raw_bytes(data: Vec<u8>) -> Option<Self> {
        if data.len() == 4 {
            Some(u32_from_le_bytes(data.as_slice()))
        } else {
            None
        }
    }
}

impl Stenable for u64 {
    open spec fn raw_bytes_spec(self) -> Seq<u8> {
        spec_u64_to_le_bytes(self)
    }

    fn get_raw_bytes(self) -> Vec<u8> {
        u64_to_le_bytes(self)
    }
}

impl Destenable for u64 {
    open spec fn decode_ok(data: Seq<u8>) -> bool {
        data.len() == 8
    }

    open spec fn decodes_to(data: Seq<u8>, v: Self) -> bool {
        data.len() == 8 && v == spec_u64_from_le_bytes(data)
    }

    fn from_raw_bytes(data: Vec<u8>) -> Option<Self> {
        if data.len() == 8 {
            Some(u64_from_le_bytes(data.as_slice()))
        } else {
            None
        }
    }
}

impl Stenable for i8 {
    open spec fn raw_bytes_spec(self) -> Seq<u8> {
        seq![self as u8]
    }

    fn get_raw_bytes(self) -> (r: Vec<u8>) {
        let mut v: Vec<u8> = Vec::new();
        v.push(#[verifier::truncate] (self as u8));
        proof {
            assert(v@ =~= seq![self as u8]);
        }
        v
    }
}

impl Destenable for i8 {
    open spec fn decode_ok(data: Seq<u8>) -> bool {
        data.len() == 1
    }

    open spec fn decodes_to(data: Seq<u8>, v: Self) -> bool {
        data.len() == 1 && v == data[0] as i8
    }

    fn from_raw_bytes(data: Vec<u8>) -> Option<Self> {
        if data.len() == 1 {
            Some(#[verifier::truncate] (data[0] as i8))
        } else {
            None
        }
    }
}

impl Stenable for i16 {
    open spec fn raw_bytes_spec(self) -> Seq<u8> {
        spec_u16_to_le_bytes(self as u16)
    }

    fn get_raw_bytes(self) -> Vec<u8> {
        u16_to_le_bytes(#[verifier::truncate] (self as u16))
    }
}

impl Destenable for i16 {
    open spec fn decode_ok(data: Seq<u8>) -> bool {
        data.len() == 2
    }

    open spec fn decodes_to(data: Seq<u8>, v: Self) -> bool {
        data.len() == 2 && v == spec_u16_from_le_bytes(data) as i16
    }

    fn from_raw_bytes(data: Vec<u8>) -> Option<Self> {
        if data.len() == 2 {
            Some(#[verifier::truncate] (u16_from_le_bytes(data.as_slice()) as i16))
        } else {
            None
        }
    }
}

impl Stenable for i32 {
    open spec fn raw_bytes_spec(self) -> Seq<u8> {
        spec_u32_to_le_bytes(self as u32)
    }

    fn get_raw_bytes(self) -> Vec<u8> {
        u32_to_le_bytes(#[verifier::truncate] (self as u32))
    }
}

impl Destenable for i32 {
    open spec fn decode_ok(data: Seq<u8>) -> bool {
        data.len() == 4
    }

    open spec fn decodes_to(data: Seq<u8>, v: Self) -> bool {
        data.len() == 4 && v == spec_u32_from_le_bytes(data) as i32
    }

    fn from_raw_bytes(data: Vec<u8>) -> Option<Self> {
        if data.len() == 4 {
            Some(#[verifier::truncate] (u32_from_le_bytes(data.as_slice()) as i32))
        } else {
            None
        }
    }
}

impl Stenable for i64 {
    open spec fn raw_bytes_spec(self) -> Seq<u8> {
        spec_u64_to_le_bytes(self as u64)
    }

    fn get_raw_bytes(self) -> Vec<u8> {
        u64_to_le_bytes(#[verifier::truncate] (self as u64))
    }
}

impl Destenable for i64 {
    open spec fn decode_ok(data: Seq<u8>) -> bool {
        data.len() == 8
    }

    open spec fn decodes_to(data: Seq<u8>, v: Self) -> bool {
        data.len() == 8 && v == spec_u64_from_le_bytes(data) as i64
    }

    fn from_raw_bytes(data: Vec<u8>) -> Option<Self> {
        if data.len() == 8 {
            Some(#[verifier::truncate] (u64_from_le_bytes(data.as_slice()) as i64))
        } else {
            None
        }
    }
}

/// An optional value serializes to the wrapped value's bytes when present
/// and to the empty sequence when absent; that erases the discriminant, so
/// decoding treats empty input as absent and anything else as the wrapped
/// type. A present value that itself serializes to zero bytes therefore
/// comes back as absent.
impl<T: Stenable> Stenable for Option<T> {
    open spec fn raw_bytes_spec(self) -> Seq<u8> {
        match self {
            Some(t) => t.raw_bytes_spec(),
            None => Seq::empty(),
        }
    }

    fn get_raw_bytes(self) -> (r: Vec<u8>) {
        match self {
            Some(t) => t.get_raw_bytes(),
            None => Vec::new(),
        }
    }
}

impl<T: Destenable> Destenable for Option<T> {
    open spec fn decode_ok(data: Seq<u8>) -> bool {
        data.len() == 0 || T::decode_ok(data)
    }

    open spec fn decodes_to(data: Seq<u8>, v: Self) -> bool {
        if data.len() == 0 {
            v is None
        } else {
            v matches Some(t) && T::decodes_to(data, t)
        }
    }

    fn from_raw_bytes(data: Vec<u8>) -> Option<Self> {
        if data.len() == 0 {
            Some(None)
        } else {
            match T::from_raw_bytes(data) {
                Some(t) => Some(Some(t)),
                None => None,
            }
        }
    }
}

/// A success-or-failure union serializes whichever branch is populated and
/// discards which one it was; decoding tries the success type first and
/// falls back to the failure type, so a failure value whose bytes also
/// decode as the success type comes back in the wrong branch.
impl<T: Stenable, E: Stenable> Stenable for Result<T, E> {
    open spec fn raw_bytes_spec(self) -> Seq<u8> {
        match self {
            Ok(t) => t.raw_bytes_spec(),
            Err(e) => e.raw_bytes_spec(),
        }
    }

    fn get_raw_bytes(self) -> (r: Vec<u8>) {
        match self {
            Ok(t) => t.get_raw_bytes(),
            Err(e) => e.get_raw_bytes(),
        }
    }
}

impl<T: Destenable, E: Destenable> Destenable for Result<T, E> {
    open spec fn decode_ok(data: Seq<u8>) -> bool {
        T::decode_ok(data) || E::decode_ok(data)
    }

    open spec fn decodes_to(data: Seq<u8>, v: Self) -> bool {
        if T::decode_ok(data) {
            v matches Ok(t) && T::decodes_to(data, t)
        } else {
            v matches Err(e) && E::decodes_to(data, e)
        }
    }

    fn from_raw_bytes(data: Vec<u8>) -> Option<Self> {
        match T::from_raw_bytes(data.clone()) {
            Some(t) => Some(Ok(t)),
            None => match E::from_raw_bytes(data) {
                Some(e) => Some(Err(e)),
                None => None,
            },
        }
    }
}

/// Round trip through the carrier, for any codec: after the frame around a
/// value's raw bytes is embedded, extraction recovers exactly those raw
/// bytes. Together with each codec's own round trip below, extracting gives
/// the embedded value back. Payloads of at least 2^32 - 4 bytes would wrap
/// the 32-bit length field and are out of this statement's reach.
pub proof fn lemma_sten_desten_round_trip<T: Stenable>(v: T, carrier: Seq<u8>)
    requires
        8 * (v.raw_bytes_spec().len() + 8) <= carrier.len(),
        v.raw_bytes_spec().len() + 4 < 0x1_0000_0000,
    ensures
        extracted_payload(lsb_embedded(carrier, frame_of(v.raw_bytes_spec()))) == Ok::<
            Seq<u8>,
            StenError,
        >(v.raw_bytes_spec()),
{
    let p = v.raw_bytes_spec();
    assert(frame_of(p).len() == p.len() + 8) by {
        lemma_auto_spec_u32_to_from_le_bytes();
    }
    lemma_embed_extract_round_trip(p, carrier);
}

/// Codec round trip for a byte vector: its bytes are their own encoding, so
/// decoding them yields a vector with the same bytes.
pub proof fn lemma_codec_round_trip_vec(v: Vec<u8>)
    ensures
        <Vec<u8> as Destenable>::decode_ok(v.raw_bytes_spec()),
        forall|w: Vec<u8>|
            <Vec<u8> as Destenable>::decodes_to(v.raw_bytes_spec(), w) ==> w@ == v@,
{
}

/// Codec round trip for a single byte.
pub proof fn lemma_codec_round_trip_u8(v: u8)
    ensures
        <u8 as Destenable>::decode_ok(v.raw_bytes_spec()),
        forall|w: u8| <u8 as Destenable>::decodes_to(v.raw_bytes_spec(), w) ==> w == v,
{
}

/// Codec round trip for an unsigned 16-bit integer.
pub proof fn lemma_codec_round_trip_u16(v: u16)
    ensures
        <u16 as Destenable>::decode_ok(v.raw_bytes_spec()),
        forall|w: u16| <u16 as Destenable>::decodes_to(v.raw_bytes_spec(), w) ==> w == v,
{
    lemma_auto_spec_u16_to_from_le_bytes();
}

/// Codec round trip for an unsigned 32-bit integer.
pub proof fn lemma_codec_round_trip_u32(v: u32)
    ensures
        <u32 as Destenable>::decode_ok(v.raw_bytes_spec()),
        forall|w: u32| <u32 as Destenable>::decodes_to(v.raw_bytes_spec(), w) ==> w == v,
{
    lemma_auto_spec_u32_to_from_le_bytes();
}

/// Codec round trip for an unsigned 64-bit integer.
pub proof fn lemma_codec_round_trip_u64(v: u64)
    ensures
        <u64 as Destenable>::decode_ok(v.raw_bytes_spec()),
        forall|w: u64| <u64 as Destenable>::decodes_to(v.raw_bytes_spec(), w) ==> w == v,
{
    lemma_auto_spec_u64_to_from_le_bytes();
}

/// Codec round trip for a signed 8-bit integer.
pub proof fn lemma_codec_round_trip_i8(v: i8)
    ensures
        <i8 as Destenable>::decode_ok(v.raw_bytes_spec()),
        forall|w: i8| <i8 as Destenable>::decodes_to(v.raw_bytes_spec(), w) ==> w == v,
{
    assert((v as u8) as i8 == v) by (bit_vector);
}

/// Codec round trip for a signed 16-bit integer.
pub proof fn lemma_codec_round_trip_i16(v: i16)
    ensures
        <i16 as Destenable>::decode_ok(v.raw_bytes_spec()),
        forall|w: i16| <i16 as Destenable>::decodes_to(v.raw_bytes_spec(), w) ==> w == v,
{
    lemma_auto_spec_u16_to_from_le_bytes();
    assert((v as u16) as i16 == v) by (bit_vector);
}

/// Codec round trip for a signed 32-bit integer.
pub proof fn lemma_codec_round_trip_i32(v: i32)
    ensures
        <i32 as Destenable>::decode_ok(v.raw_bytes_spec()),
        forall|w: i32| <i32 as Destenable>::decodes_to(v.raw_bytes_spec(), w) ==> w == v,
{
    lemma_auto_spec_u32_to_from_le_bytes();
    assert((v as u32) as i32 == v) by (bit_vector);
}

/// Codec round trip for a signed 64-bit integer.
pub proof fn lemma_codec_round_trip_i64(v: i64)
    ensures
        <i64 as Destenable>::decode_ok(v.raw_bytes_spec()),
        forall|w: i64| <i64 as Destenable>::decodes_to(v.raw_bytes_spec(), w) ==> w == v,
{
    lemma_auto_spec_u64_to_from_le_bytes();
    assert((v as u64) as i64 == v) by (bit_vector);
}

/// Codec round trip for text: a string's UTF-8 bytes are valid UTF-8 and
/// decode to the same characters.
pub proof fn lemma_codec_round_trip_string(v: String)
    ensures
        <String as Destenable>::decode_ok(v.raw_bytes_spec()),
        forall|w: String|
            <String as Destenable>::decodes_to(v.raw_bytes_spec(), w) ==> w@ == v@,
{
    encode_utf8_valid_utf8(v@);
    encode_utf8_decode_utf8(v@);
}

/// Codec round trip for an optional value. An absent value round-trips
/// unconditionally. A present value round-trips when the wrapped codec
/// round-trips and its encoding is non-empty: the encoding erases the
/// discriminant, so a present value with a zero-byte encoding (an inner
/// empty vector, say) comes back as absent.
pub proof fn lemma_codec_round_trip_option<T: Stenable + Destenable>(v: Option<T>)
    requires
        v matches Some(t) ==> {
            &&& t.raw_bytes_spec().len() > 0
            &&& forall|w: T| T::decodes_to(t.raw_bytes_spec(), w) ==> w == t
            &&& T::decode_ok(t.raw_bytes_spec())
        },
    ensures
        <Option<T> as Destenable>::decode_ok(v.raw_bytes_spec()),
        forall|w: Option<T>|
            <Option<T> as Destenable>::decodes_to(v.raw_bytes_spec(), w) ==> w == v,
{
}

/// Codec round trip for a success-or-failure union. The encoding erases the
/// branch, so a success value round-trips when its codec does, and a failure
/// value only when its bytes cannot also be read as the success type.
pub proof fn lemma_codec_round_trip_result<T: Stenable + Destenable, E: Stenable + Destenable>(
    v: Result<T, E>,
)
    requires
        v matches Ok(t) ==> {
            &&& forall|w: T| T::decodes_to(t.raw_bytes_spec(), w) ==> w == t
            &&& T::decode_ok(t.raw_bytes_spec())
        },
        v matches Err(e) ==> {
            &&& !T::decode_ok(e.raw_bytes_spec())
            &&& forall|w: E| E::decodes_to(e.raw_bytes_spec(), w) ==> w == e
            &&& E::decode_ok(e.raw_bytes_spec())
        },
    ensures
        <Result<T, E> as Destenable>::decode_ok(v.raw_bytes_spec()),
        forall|w: Result<T, E>|
            <Result<T, E> as Destenable>::decodes_to(v.raw_bytes_spec(), w) ==> w == v,
{
}

} // verus!
