//! The responses that travel in frames, and how a decompressed payload is
//! read as one.
//!
//! Which response a payload holds is decided by the protocol's exchange and
//! version and by the schema in force. Every response has a fixed size and is
//! the concatenation of the encodings of its fields.

use vstd::prelude::*;
use vstd::slice::slice_subrange;

use crate::decode::Decodable;
use crate::stream::{Encodable, SszStream};
use crate::error::{CodecError, PayloadFault};
use crate::fork::{Schema, SchemaRevision};
use crate::hash::H256;
use crate::protocol::{Protocol, ProtocolId, Version};

verus! {

/// Where a peer's chain stands.
#[derive(Clone, Copy, Debug, PartialEq, Eq)]
pub struct StatusMessage {
    pub fork_digest: u32,
    pub finalized_root: H256,
    pub finalized_epoch: u64,
    pub head_root: H256,
    pub head_slot: u64,
}

/// A peer's subnet subscriptions. The sync subnets exist from the second
/// version of the exchange on.
#[derive(Clone, Copy, Debug, PartialEq, Eq)]
pub struct MetaData {
    pub seq_number: u64,
    pub attnets: u64,
    pub syncnets: Option<u8>,
}

/// A decoded response.
#[derive(Clone, Copy, Debug, PartialEq, Eq)]
pub enum Response {
    Status(StatusMessage),
    /// The answer to an exchange that is answered with nothing.
    Void,
    Pong(u64),
    MetaData(MetaData),
}

/// The layout of a payload.
#[derive(Clone, Copy, Debug, PartialEq, Eq, Structural)]
pub enum Shape {
    Status,
    Void,
    Pong,
    MetaData,
    MetaDataWithSyncnets,
}

/// Two to the power `bits`.
pub open spec fn pow2(bits: nat) -> nat
    decreases bits,
{
    if bits == 0 {
        1
    } else {
        2 * pow2((bits - 1) as nat)
    }
}

/// The layout of the responses of `protocol` under `schema`, if there is one.
/// The first version of every exchange is defined under every schema. The
/// second version exists for the metadata exchange alone, from the second
/// revision of the schema on, and needs a schema whose sync subnets fit in one
/// byte.
pub open spec fn shape_of(protocol: ProtocolId, schema: Schema) -> Option<Shape> {
    match (protocol.message_name, protocol.version) {
        (Protocol::Status, Version::V1) => Some(Shape::Status),
        (Protocol::Goodbye, Version::V1) => Some(Shape::Void),
        (Protocol::Ping, Version::V1) => Some(Shape::Pong),
        (Protocol::MetaData, Version::V1) => Some(Shape::MetaData),
        (Protocol::MetaData, Version::V2) => if schema.revision == SchemaRevision::Altair
            && schema.sync_subnets <= 8 {
            Some(Shape::MetaDataWithSyncnets)
        } else {
            None
        },
        _ => None,
    }
}

/// The number of bytes in a payload of the given layout.
pub open spec fn shape_len(shape: Shape) -> nat {
    match shape {
        Shape::Status => 84,
        Shape::Void => 0,
        Shape::Pong => 8,
        Shape::MetaData => 16,
        Shape::MetaDataWithSyncnets => 17,
    }
}

/// The response that a payload of the right length holds, field by field, or
/// the fault of a field outside its domain: a sync subnet byte with a bit set
/// beyond the subnets that the schema has.
pub open spec fn fields_of(shape: Shape, schema: Schema, payload: Seq<u8>) -> Result<
    Response,
    CodecError,
> {
    match shape {
        Shape::Status => Ok(
            Response::Status(
                StatusMessage {
                    fork_digest: u32::ssz_value(payload.subrange(0, 4)),
                    finalized_root: H256::ssz_value(payload.subrange(4, 36)),
                    finalized_epoch: u64::ssz_value(payload.subrange(36, 44)),
                    head_root: H256::ssz_value(payload.subrange(44, 76)),
                    head_slot: u64::ssz_value(payload.subrange(76, 84)),
                },
            ),
        ),
        Shape::Void => Ok(Response::Void),
        Shape::Pong => Ok(Response::Pong(u64::ssz_value(payload))),
        Shape::MetaData => Ok(
            Response::MetaData(
                MetaData {
                    seq_number: u64::ssz_value(payload.subrange(0, 8)),
                    attnets: u64::ssz_value(payload.subrange(8, 16)),
                    syncnets: None,
                },
            ),
        ),
        Shape::MetaDataWithSyncnets => if payload[16] >= pow2(schema.sync_subnets as nat) {
            Err(CodecError::MalformedPayload(PayloadFault::DomainViolation))
        } else {
            Ok(
                Response::MetaData(
                    MetaData {
                        seq_number: u64::ssz_value(payload.subrange(0, 8)),
                        attnets: u64::ssz_value(payload.subrange(8, 16)),
                        syncnets: Some(payload[16]),
                    },
                ),
            )
        },
    }
}

/// What a decompressed payload is read as. The schema is asked first, then
/// the length, then the fields.
pub open spec fn response_of(protocol: ProtocolId, schema: Schema, payload: Seq<u8>) -> Result<
    Response,
    CodecError,
> {
    match shape_of(protocol, schema) {
        None => Err(CodecError::UnsupportedSchema),
        Some(shape) => if payload.len() != shape_len(shape) {
            Err(CodecError::MalformedPayload(PayloadFault::LengthMismatch))
        } else {
            fields_of(shape, schema, payload)
        },
    }
}

/// The layout of the responses of `protocol` under `schema`.
pub fn response_shape(protocol: &ProtocolId, schema: &Schema) -> (shape: Option<Shape>)
    ensures
        shape == shape_of(*protocol, *schema),
{
    match protocol.version {
        Version::V1 => match protocol.message_name {
            Protocol::Status => Some(Shape::Status),
            Protocol::Goodbye => Some(Shape::Void),
            Protocol::Ping => Some(Shape::Pong),
            Protocol::MetaData => Some(Shape::MetaData),
        },
        Version::V2 => match protocol.message_name {
            Protocol::MetaData => match schema.revision {
                SchemaRevision::Altair => if schema.sync_subnets <= 8 {
                    Some(Shape::MetaDataWithSyncnets)
                } else {
                    None
                },
                SchemaRevision::Base => None,
            },
            _ => None,
        },
    }
}

/// The number of bytes in a payload of the given layout.
pub fn payload_len(shape: Shape) -> (len: usize)
    ensures
        len == shape_len(shape),
{
    match shape {
        Shape::Status => 84,
        Shape::Void => 0,
        Shape::Pong => 8,
        Shape::MetaData => 16,
        Shape::MetaDataWithSyncnets => 17,
    }
}

/// Whether a sync subnet byte names only subnets that exist when there are
/// `sync_subnets` of them.
pub fn syncnets_in_domain(bits: u8, sync_subnets: u8) -> (ok: bool)
    requires
        sync_subnets <= 8,
    ensures
        ok == (bits < pow2(sync_subnets as nat)),
{
    let mut limit: u16 = 1;
    let mut i: u8 = 0;
    while i < sync_subnets
        invariant
            i <= sync_subnets <= 8,
            limit == pow2(i as nat),
            limit <= 256,
        decreases sync_subnets - i,
    {
        proof {
            lemma_pow2_values();
        }
        limit = limit * 2;
        i += 1;
    }
    (bits as u16) < limit
}

pub proof fn lemma_pow2_values()
    ensures
        pow2(0) == 1,
        pow2(1) == 2,
        pow2(2) == 4,
        pow2(3) == 8,
        pow2(4) == 16,
        pow2(5) == 32,
        pow2(6) == 64,
        pow2(7) == 128,
        pow2(8) == 256,
{
    reveal_with_fuel(pow2, 9);
}

/// Reads the field of type `T` that begins at byte `from` of a payload.
fn field<T: Decodable>(payload: &[u8], from: usize, width: usize) -> (value: Result<T, CodecError>)
    requires
        from + width <= payload.len(),
        width == T::ssz_width(),
    ensures
        value == Ok::<T, CodecError>(T::ssz_value(payload@.subrange(from as int, from + width))),
{
    match T::ssz_decode(slice_subrange(payload, from, from + width)) {
        Ok(value) => Ok(value),
        Err(_) => Err(CodecError::MalformedPayload(PayloadFault::LengthMismatch)),
    }
}

/// Reads a decompressed payload as the response of `protocol` under `schema`.
pub fn decode_response(protocol: &ProtocolId, schema: &Schema, payload: &[u8]) -> (decoded: Result<
    Response,
    CodecError,
>)
    ensures
        decoded == response_of(*protocol, *schema, payload@),
{
    let shape = match response_shape(protocol, schema) {
        Some(shape) => shape,
        None => {
            return Err(CodecError::UnsupportedSchema);
        },
    };
    if payload.len() != payload_len(shape) {
        return Err(CodecError::MalformedPayload(PayloadFault::LengthMismatch));
    }
    match shape {
        Shape::Status => {
            let fork_digest = field::<u32>(payload, 0, 4)?;
            let finalized_root = field::<H256>(payload, 4, 32)?;
            let finalized_epoch = field::<u64>(payload, 36, 8)?;
            let head_root = field::<H256>(payload, 44, 32)?;
            let head_slot = field::<u64>(payload, 76, 8)?;
            Ok(
                Response::Status(
                    StatusMessage {
                        fork_digest,
                        finalized_root,
                        finalized_epoch,
                        head_root,
                        head_slot,
                    },
                ),
            )
        },
        Shape::Void => Ok(Response::Void),
        Shape::Pong => {
            assert(payload@.subrange(0, 8) =~= payload@);
            let seq_number = field::<u64>(payload, 0, 8)?;
            Ok(Response::Pong(seq_number))
        },
        Shape::MetaData => {
            let seq_number = field::<u64>(payload, 0, 8)?;
            let attnets = field::<u64>(payload, 8, 8)?;
            Ok(Response::MetaData(MetaData { seq_number, attnets, syncnets: None }))
        },
        Shape::MetaDataWithSyncnets => {
            let bits = payload[16];
            if !syncnets_in_domain(bits, schema.sync_subnets) {
                return Err(CodecError::MalformedPayload(PayloadFault::DomainViolation));
            }
            let seq_number = field::<u64>(payload, 0, 8)?;
            let attnets = field::<u64>(payload, 8, 8)?;
            Ok(Response::MetaData(MetaData { seq_number, attnets, syncnets: Some(bits) }))
        },
    }
}

impl Encodable for StatusMessage {
    /// The encodings of the five fields, in the order of their declaration.
    open spec fn ssz_bytes(&self) -> Seq<u8> {
        self.fork_digest.ssz_bytes() + self.finalized_root.ssz_bytes()
            + self.finalized_epoch.ssz_bytes() + self.head_root.ssz_bytes()
            + self.head_slot.ssz_bytes()
    }

    fn ssz_append(&self, s: &mut SszStream) {
        s.append(&self.fork_digest);
        s.append(&self.finalized_root);
        s.append(&self.finalized_epoch);
        s.append(&self.head_root);
        s.append(&self.head_slot);
        assert(s@ =~= old(s)@ + self.ssz_bytes());
    }
}

/// The encoding of the sync subnets of a response: their byte where the
/// response has them, nothing where it has not.
pub open spec fn syncnets_bytes(syncnets: Option<u8>) -> Seq<u8> {
    match syncnets {
        Some(bits) => bits.ssz_bytes(),
        None => Seq::empty(),
    }
}

impl Encodable for MetaData {
    /// The encodings of the fields, in the order of their declaration.
    open spec fn ssz_bytes(&self) -> Seq<u8> {
        self.seq_number.ssz_bytes() + self.attnets.ssz_bytes() + syncnets_bytes(self.syncnets)
    }

    fn ssz_append(&self, s: &mut SszStream) {
        s.append(&self.seq_number);
        s.append(&self.attnets);
        if let Some(bits) = self.syncnets {
            s.append(&bits);
        }
        assert(s@ =~= old(s)@ + self.ssz_bytes());
    }
}

impl Encodable for Response {
    /// The payload that holds the response. The void response is the empty
    /// payload.
    open spec fn ssz_bytes(&self) -> Seq<u8> {
        match self {
            Response::Status(status) => status.ssz_bytes(),
            Response::Void => Seq::empty(),
            Response::Pong(seq_number) => seq_number.ssz_bytes(),
            Response::MetaData(metadata) => metadata.ssz_bytes(),
        }
    }

    fn ssz_append(&self, s: &mut SszStream) {
        match self {
            Response::Status(status) => s.append(status),
            Response::Void => {
                assert(s@ =~= old(s)@ + Seq::<u8>::empty());
            },
            Response::Pong(seq_number) => s.append(seq_number),
            Response::MetaData(metadata) => s.append(metadata),
        }
    }
}

/// The layout of the payload that holds a response.
pub open spec fn layout_of(response: Response) -> Shape {
    match response {
        Response::Status(_) => Shape::Status,
        Response::Void => Shape::Void,
        Response::Pong(_) => Shape::Pong,
        Response::MetaData(metadata) => if metadata.syncnets is Some {
            Shape::MetaDataWithSyncnets
        } else {
            Shape::MetaData
        },
    }
}

/// Whether a response names only sync subnets that the schema has.
pub open spec fn in_domain(response: Response, schema: Schema) -> bool {
    match response {
        Response::MetaData(MetaData { syncnets: Some(bits), .. }) => bits < pow2(
            schema.sync_subnets as nat,
        ),
        _ => true,
    }
}

/// The payload that holds a response has the length of the response's layout.
pub proof fn lemma_response_width(response: Response)
    ensures
        response.ssz_bytes().len() == shape_len(layout_of(response)),
{
    match response {
        Response::Status(status) => {
            status.fork_digest.lemma_width();
            status.finalized_root.lemma_width();
            status.finalized_epoch.lemma_width();
            status.head_root.lemma_width();
            status.head_slot.lemma_width();
        },
        Response::Void => {},
        Response::Pong(seq_number) => {
            seq_number.lemma_width();
        },
        Response::MetaData(metadata) => {
            metadata.seq_number.lemma_width();
            metadata.attnets.lemma_width();
            if let Some(bits) = metadata.syncnets {
                bits.lemma_width();
            }
        },
    }
}

/// Reading the payload that holds a response gives the response back, under
/// every protocol and schema whose responses have the layout of this one and
/// in whose domain it lies.
pub proof fn lemma_response_round_trip(protocol: ProtocolId, schema: Schema, response: Response)
    requires
        shape_of(protocol, schema) == Some(layout_of(response)),
        in_domain(response, schema),
    ensures
        response_of(protocol, schema, response.ssz_bytes()) == Ok::<Response, CodecError>(response),
{
    lemma_response_width(response);
    let payload = response.ssz_bytes();
    match response {
        Response::Status(status) => {
            status.fork_digest.lemma_width();
            status.finalized_root.lemma_width();
            status.finalized_epoch.lemma_width();
            status.head_root.lemma_width();
            status.head_slot.lemma_width();
            status.fork_digest.lemma_value_of_bytes();
            status.finalized_root.lemma_value_of_bytes();
            status.finalized_epoch.lemma_value_of_bytes();
            status.head_root.lemma_value_of_bytes();
            status.head_slot.lemma_value_of_bytes();
            assert(payload.subrange(0, 4) =~= status.fork_digest.ssz_bytes());
            assert(payload.subrange(4, 36) =~= status.finalized_root.ssz_bytes());
            assert(payload.subrange(36, 44) =~= status.finalized_epoch.ssz_bytes());
            assert(payload.subrange(44, 76) =~= status.head_root.ssz_bytes());
            assert(payload.subrange(76, 84) =~= status.head_slot.ssz_bytes());
        },
        Response::Void => {},
        Response::Pong(seq_number) => {
            seq_number.lemma_value_of_bytes();
        },
        Response::MetaData(metadata) => {
            metadata.seq_number.lemma_width();
            metadata.attnets.lemma_width();
            metadata.seq_number.lemma_value_of_bytes();
            metadata.attnets.lemma_value_of_bytes();
            assert(payload.subrange(0, 8) =~= metadata.seq_number.ssz_bytes());
            assert(payload.subrange(8, 16) =~= metadata.attnets.ssz_bytes());
            if let Some(bits) = metadata.syncnets {
                bits.lemma_width();
                bits.lemma_value_of_bytes();
                assert(payload.subrange(16, 17) =~= bits.ssz_bytes());
                reveal_with_fuel(crate::big_endian::be_value, 2);
                assert(payload[16] == bits);
            }
        },
    }
}

} // verus!
