//! SSZ for fixed-size values, and the inbound side of the request/response
//! protocol that carries such values between peers.
//!
//! The encoding is deterministic: unsigned integers are written most
//! significant byte first, at the width of their type, and hashes are written
//! as their bytes. [`stream`] holds the accumulator that encodings are written
//! into and [`encode`] the encoders; [`decode`] reads the values back and
//! states that reading and writing undo each other. [`big_endian`] is the
//! model that all of them are stated against.
//!
//! On the wire a response travels in a frame: a length prefix ([`varint`])
//! and that many bytes of Snappy-compressed payload. [`codec`] turns the bytes
//! that have arrived on a stream into responses, frame by frame, and
//! [`delivery`] states that the result does not depend on how the stream was
//! cut into arrivals. What a payload holds is decided by the protocol
//! ([`protocol`]) and by the schema in force ([`fork`]); [`response`] reads it.
//!
//! Two modules stand between the verified code and other crates, and nothing
//! in them is proved: [`buffer`] for the byte buffer of `bytes`, [`snappy`] for
//! the decompressor of `snap`.

pub mod big_endian;
pub mod buffer;
pub mod codec;
pub mod decode;
pub mod delivery;
pub mod encode;
pub mod error;
pub mod fork;
pub mod hash;
pub mod protocol;
pub mod response;
pub mod snappy;
pub mod stream;
pub mod varint;
