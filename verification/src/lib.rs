//! Cursor-addressed byte buffers with endianness-aware encoding and decoding
//! of fixed-width integers, UTF-8 strings and homogeneous numeric arrays.
//!
//! Three storage flavours share one cursor model and one codec:
//! [`ByteArray`] owns growable storage, [`ByteSet`] owns fixed-size storage,
//! and [`ByteSlice`] borrows a caller-owned mutable byte slice.

use vstd::prelude::*;

mod buffer;
mod bytearray;
mod byteset;
mod byteslice;
mod codec;
mod laws;

pub use buffer::splice;
pub use buffer::spliced_len;
pub use buffer::Buffer;
pub use bytearray::ByteArray;
pub use byteset::ByteSet;
pub use byteslice::ByteSlice;
pub use codec::dec;
pub use codec::enc;
pub use codec::enc_seq;
pub use codec::le_bytes;
pub use codec::le_value;
pub use codec::pow256;
pub use laws::lemma_endianness_differs;
pub use laws::lemma_endianness_reverse;
pub use laws::lemma_round_trip_i16;
pub use laws::lemma_round_trip_i32;
pub use laws::lemma_round_trip_i64;
pub use laws::lemma_round_trip_i8;
pub use laws::lemma_round_trip_u16;
pub use laws::lemma_round_trip_u24;
pub use laws::lemma_round_trip_u32;
pub use laws::lemma_round_trip_u64;
pub use laws::lemma_round_trip_u8;
pub use laws::lemma_round_trip_vec;
pub use laws::lemma_same_endian_round_trip;
pub use laws::lemma_string_round_trip;

verus! {

/// Byte-order policy consulted by every multi-byte operation; fixed at
/// buffer construction.
#[derive(Copy, Clone)]
pub enum Endianess {
    LE,
    BE,
}

/// The failure conditions a buffer operation can report.
#[derive(Copy, Clone, Debug, PartialEq, Eq, Structural)]
pub enum BufferError {
    /// A read, or a write on non-growable storage, would touch an offset at
    /// or beyond the end of the storage.
    BoundsExceeded,
    /// Bytes decoded as a string are not valid UTF-8.
    InvalidEncoding,
}

} // verus!
