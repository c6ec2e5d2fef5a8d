//! What can go wrong, by layer.

use vstd::prelude::*;

verus! {

/// Why a fixed-size value could not be read from bytes.
#[derive(Clone, Copy, Debug, PartialEq, Eq, Hash, Structural)]
pub enum DecodeError {
    /// The input does not have exactly the width of the type.
    MalformedLength,
}

/// Which rule a decompressed payload broke.
#[derive(Clone, Copy, Debug, PartialEq, Eq, Hash, Structural)]
pub enum PayloadFault {
    /// The payload does not have the byte length of the response it should hold.
    LengthMismatch,
    /// A field holds a value outside its domain.
    DomainViolation,
}

/// Why a stream of frames cannot be decoded any further. Each of these ends
/// the stream: the codec repeats it on every later call.
#[derive(Clone, Copy, Debug, PartialEq, Eq, Hash, Structural)]
pub enum CodecError {
    /// The length prefix runs past ten bytes or past 64 bits.
    MalformedLength,
    /// The frame, or the payload it expands to, is larger than the ceiling.
    OversizedPayload,
    /// The compressed bytes are not a valid Snappy stream.
    DecompressionFailure,
    /// The payload is not the encoding of the expected response.
    MalformedPayload(PayloadFault),
    /// The schema in force defines no response for the protocol.
    UnsupportedSchema,
}

} // verus!
