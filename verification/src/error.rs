//! The ways in which decoding or encoding a packet can fail.

use vstd::prelude::*;

verus! {

/// Why a buffer was rejected, or why a value could not be encoded.
#[derive(Debug, Clone, Copy, PartialEq, Eq, Structural)]
pub enum CodecError {
    /// A read asked for more bytes than the buffer holds past the cursor.
    OutOfBounds,
    /// The bytes of a string field are not well-formed UTF-8.
    InvalidUtf8,
    /// A quality-of-service field holds a value other than 0, 1 or 2; the
    /// value is carried along.
    InvalidQos(u8),
    /// The first byte of the fixed header names no known packet type; its
    /// packet-type byte, the first byte with the flag nibble cleared, is
    /// carried along.
    UnsupportedPacketType(u8),
    /// The remaining-length field is malformed: its encoding runs past four
    /// bytes, the value to encode does not fit in four bytes, or the value is
    /// not the length of the body that follows it.
    MalformedLength,
    /// The cursor does not stand at the end of the buffer once the body of a
    /// packet has been read.
    TrailingData,
    /// The operation is declared but has no implementation yet.
    NotImplemented,
}

} // verus!
