//! The identity of a protocol: which exchange, which wire version, which
//! encoding. It selects how a payload is read and carries nothing else.

use vstd::prelude::*;

verus! {

/// The exchange that a stream belongs to.
#[derive(Clone, Copy, Debug, PartialEq, Eq, Hash, Structural)]
pub enum Protocol {
    /// The handshake: each side tells the other where its chain stands.
    Status,
    /// The farewell. It is answered with nothing.
    Goodbye,
    /// The liveness probe, answered with a sequence number.
    Ping,
    /// The request for the peer's subnet subscriptions.
    MetaData,
}

/// The wire version of an exchange.
#[derive(Clone, Copy, Debug, PartialEq, Eq, Hash, Structural)]
pub enum Version {
    V1,
    V2,
}

/// How payloads are written on the wire.
#[derive(Clone, Copy, Debug, PartialEq, Eq, Hash, Structural)]
pub enum Encoding {
    /// SSZ, compressed with Snappy.
    SSZSnappy,
}

/// An exchange, its version and its encoding. Two identities are equal when
/// all three are.
#[derive(Clone, Copy, Debug, PartialEq, Eq, Hash, Structural)]
pub struct ProtocolId {
    pub message_name: Protocol,
    pub version: Version,
    pub encoding: Encoding,
}

impl ProtocolId {
    pub fn new(message_name: Protocol, version: Version, encoding: Encoding) -> (id: ProtocolId)
        ensures
            id == (ProtocolId { message_name, version, encoding }),
    {
        ProtocolId { message_name, version, encoding }
    }
}

} // verus!
