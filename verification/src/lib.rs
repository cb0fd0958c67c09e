//! Hiding a typed value inside a byte carrier, one payload bit per carrier
//! byte, in the least-significant bit, with a length prefix and a CRC-32
//! integrity checksum, and recovering it again.
//!
//! The value is first turned into raw bytes by its [`Stenable`] codec, then
//! wrapped into a frame `[length | payload | checksum]`, and the frame is
//! written bit by bit into the low bit of the carrier's bytes. Extraction
//! reads the bits back, validates the checksum, and decodes the bytes through
//! the [`Destenable`] codec.

pub mod bits;
pub mod checksum;
pub mod codec;
pub mod frame;

pub use checksum::get_crc;
pub use codec::{Destenable, Stenable};
pub use frame::{Container, StenError};
