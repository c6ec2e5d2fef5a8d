//! The inbound codec: from the bytes that have arrived on a stream to decoded
//! responses, one frame at a time.
//!
//! A frame is a length prefix followed by that many bytes of Snappy-compressed
//! payload. The codec is called whenever bytes have arrived. Each call either
//! asks for more bytes, hands out a response, or fails for good; and it says
//! how many bytes from the head of the buffer it has dealt with, which the
//! caller then drops.

use bytes::BytesMut;
use std::sync::Arc;
use vstd::prelude::*;
use vstd::slice::slice_subrange;

use crate::buffer::{buffer_advance, buffer_as_slice, buffer_bytes};
use crate::error::CodecError;
use crate::fork::{ForkContext, Schema};
use crate::protocol::ProtocolId;
use crate::response::{decode_response, response_of, Response};
use crate::snappy::{bytes_of, snappy_decompress, snappy_output};
use crate::varint::{
    lemma_last_byte_index_is, lemma_varint_prefix, parse_varint, varint_of, varint_sum, Varint,
    MAX_VARINT_LEN,
};

verus! {

/// Where the codec stands between two calls.
#[derive(Clone, Copy, Debug, PartialEq, Eq, Structural)]
pub enum CodecState {
    /// The next byte is the first of a length prefix.
    AwaitingLength,
    /// The prefix announced `length` compressed bytes, and they have not all
    /// arrived yet.
    AwaitingPayload { length: usize },
    /// The last call handed out a response. The next one starts a new frame.
    Complete,
    /// The stream has failed, and every call from now on fails the same way.
    Failed { error: CodecError },
}

/// What a codec is, as far as decoding goes: what it was set up with, the
/// schema in force for the frame at hand, and where it stands.
pub struct CodecView {
    pub protocol: ProtocolId,
    pub max_packet_size: usize,
    pub schema: Schema,
    pub state: CodecState,
}

/// What one call does: the state it leaves, what it returns, and how many
/// bytes at the head of the buffer it has dealt with.
pub struct Step {
    pub state: CodecState,
    pub outcome: Result<Option<Response>, CodecError>,
    pub consumed: nat,
}

/// The most output that is ever asked of the decompressor: one byte more than
/// the ceiling, which is enough to tell that a payload exceeds it.
pub open spec fn payload_cap(max_packet_size: usize) -> u64 {
    if max_packet_size as u64 == u64::MAX {
        u64::MAX
    } else {
        (max_packet_size + 1) as u64
    }
}

/// What becomes of a frame once the decompressor has had it: a failure where
/// it was rejected, an oversized payload where the output exceeds the ceiling,
/// and else whatever the payload reads as.
pub open spec fn judged(codec: CodecView, decompressed: Option<Seq<u8>>) -> Result<
    Response,
    CodecError,
> {
    match decompressed {
        None => Err(CodecError::DecompressionFailure),
        Some(payload) => if payload.len() > codec.max_packet_size {
            Err(CodecError::OversizedPayload)
        } else {
            response_of(codec.protocol, codec.schema, payload)
        },
    }
}

/// The compressed bytes of a frame of `length` bytes at the head of `rest`,
/// once they have all arrived and if there are any.
pub open spec fn compressed_frame(length: usize, rest: Seq<u8>) -> Option<Seq<u8>> {
    if 0 < length <= rest.len() {
        Some(rest.take(length as int))
    } else {
        None
    }
}

/// What a call hands to the decompressor, if it hands it anything: the
/// compressed bytes of a frame that is complete, not empty, and no longer than
/// the ceiling. A failed codec, an incomplete or malformed prefix, a length
/// above the ceiling and an incomplete frame all leave the decompressor alone.
pub open spec fn asked(codec: CodecView, bytes: Seq<u8>) -> Option<Seq<u8>> {
    match codec.state {
        CodecState::Failed { error } => None,
        CodecState::AwaitingPayload { length } => compressed_frame(length, bytes),
        _ => match varint_of(bytes) {
            Varint::Value { value, len } => if value > codec.max_packet_size {
                None
            } else {
                compressed_frame(value as usize, bytes.skip(len as int))
            },
            _ => None,
        },
    }
}

/// The call once the length is known. `rest` is the buffer behind the prefix,
/// `prefix` the bytes of the prefix that this call has already dealt with, and
/// `answer` what the decompressor makes of the frame. Until `length` bytes are
/// there the call waits and touches none of them. A frame that holds no bytes
/// holds the empty payload, and the decompressor is not asked.
pub open spec fn payload_step(
    codec: CodecView,
    length: usize,
    rest: Seq<u8>,
    prefix: nat,
    answer: Option<Seq<u8>>,
) -> Step {
    if rest.len() < length {
        Step { state: CodecState::AwaitingPayload { length }, outcome: Ok(None), consumed: prefix }
    } else {
        match judged(codec, if length == 0 { Some(Seq::empty()) } else { answer }) {
            Ok(response) => Step {
                state: CodecState::Complete,
                outcome: Ok(Some(response)),
                consumed: prefix + length as nat,
            },
            Err(error) => Step {
                state: CodecState::Failed { error },
                outcome: Err(error),
                consumed: prefix + length as nat,
            },
        }
    }
}

/// One call of the codec on the bytes that are buffered, given the `answer`
/// of the decompressor to what the call hands it.
///
/// A failed codec fails again and touches nothing. A codec that knows the
/// length of its frame goes on with the payload. Any other reads the length
/// prefix first: it waits while the prefix is incomplete, fails on a malformed
/// one, fails on a length above the ceiling before a single byte of the frame
/// is looked at, and else goes on with the payload behind the prefix.
pub open spec fn step_with(codec: CodecView, bytes: Seq<u8>, answer: Option<Seq<u8>>) -> Step {
    match codec.state {
        CodecState::Failed { error } => Step { state: codec.state, outcome: Err(error), consumed: 0 },
        CodecState::AwaitingPayload { length } => payload_step(codec, length, bytes, 0, answer),
        _ => match varint_of(bytes) {
            Varint::NeedMore => Step {
                state: CodecState::AwaitingLength,
                outcome: Ok(None),
                consumed: 0,
            },
            Varint::Malformed => Step {
                state: CodecState::Failed { error: CodecError::MalformedLength },
                outcome: Err(CodecError::MalformedLength),
                consumed: 0,
            },
            Varint::Value { value, len } => if value > codec.max_packet_size {
                Step {
                    state: CodecState::Failed { error: CodecError::OversizedPayload },
                    outcome: Err(CodecError::OversizedPayload),
                    consumed: len as nat,
                }
            } else {
                payload_step(codec, value as usize, bytes.skip(len as int), len as nat, answer)
            },
        },
    }
}

/// What the Snappy decompressor makes of what a call hands it.
pub open spec fn snappy_answer(codec: CodecView, bytes: Seq<u8>) -> Option<Seq<u8>> {
    match asked(codec, bytes) {
        Some(compressed) => snappy_output(compressed, payload_cap(codec.max_packet_size)),
        None => None,
    }
}

/// One call of the codec on the bytes that are buffered, with the Snappy
/// decompressor behind it.
pub open spec fn step(codec: CodecView, bytes: Seq<u8>) -> Step {
    step_with(codec, bytes, snappy_answer(codec, bytes))
}

/// Whether `answer` is what a call can get from `decompress`: nothing where
/// the call hands it nothing, and else the output of one of its runs on what
/// the call hands it.
pub open spec fn answers<D: Fn(&[u8], u64) -> Option<Vec<u8>>>(
    decompress: D,
    codec: CodecView,
    bytes: Seq<u8>,
    answer: Option<Seq<u8>>,
) -> bool {
    match asked(codec, bytes) {
        None => answer is None,
        Some(compressed) => exists|input: &[u8], output: Option<Vec<u8>>|
            input@ == compressed && call_ensures(
                decompress,
                (input, payload_cap(codec.max_packet_size)),
                output,
            ) && answer == bytes_of(output),
    }
}

/// A codec never waits for a frame that is longer than its ceiling.
pub open spec fn well_formed(codec: CodecView) -> bool {
    codec.state matches CodecState::AwaitingPayload { length } ==> length
        <= codec.max_packet_size
}

/// Whatever the decompressor answers, a call leaves a codec that waits for no
/// frame longer than its ceiling.
pub proof fn lemma_step_keeps_well_formed(codec: CodecView, bytes: Seq<u8>, answer: Option<Seq<u8>>)
    requires
        well_formed(codec),
    ensures
        well_formed(CodecView { state: step_with(codec, bytes, answer).state, ..codec }),
{
}

/// What the decompressor is handed is never empty and never longer than the
/// ceiling, and what is asked of it is never more than a byte beyond the
/// ceiling.
pub proof fn lemma_asked_within_ceiling(codec: CodecView, bytes: Seq<u8>)
    requires
        well_formed(codec),
    ensures
        asked(codec, bytes) matches Some(compressed) ==> 0 < compressed.len()
            <= codec.max_packet_size,
        payload_cap(codec.max_packet_size) <= codec.max_packet_size + 1,
{
}

/// What a call returns for a verdict on a frame.
pub open spec fn settled(verdict: Result<Response, CodecError>) -> Result<
    Option<Response>,
    CodecError,
> {
    match verdict {
        Ok(response) => Ok(Some(response)),
        Err(error) => Err(error),
    }
}

/// A length prefix above the ceiling fails the stream as oversized in the call
/// that completes the prefix, whatever bytes follow it and whether any do:
/// nothing behind the prefix is looked at, let alone decompressed.
pub proof fn lemma_oversized_length_fails(codec: CodecView, bytes: Seq<u8>)
    requires
        codec.state is AwaitingLength || codec.state is Complete,
        varint_of(bytes) is Value,
        varint_of(bytes)->value > codec.max_packet_size,
    ensures
        step(codec, bytes) == (Step {
            state: CodecState::Failed { error: CodecError::OversizedPayload },
            outcome: Err(CodecError::OversizedPayload),
            consumed: varint_of(bytes)->len as nat,
        }),
        asked(codec, bytes) is None,
{
}

/// Once the bytes of a frame have all arrived, the call settles it: it hands
/// the compressed bytes behind the prefix to the decompressor, unless there
/// are none, returns the verdict on what comes back, and has dealt with the
/// prefix and the compressed bytes, no more and no less.
pub proof fn lemma_complete_frame_settles(codec: CodecView, bytes: Seq<u8>)
    requires
        codec.state is AwaitingLength || codec.state is Complete,
        varint_of(bytes) is Value,
        varint_of(bytes)->value <= codec.max_packet_size,
        bytes.len() >= varint_of(bytes)->len + varint_of(bytes)->value,
    ensures
        step(codec, bytes).outcome == settled(
            judged(
                codec,
                if varint_of(bytes)->value == 0 {
                    Some(Seq::empty())
                } else {
                    snappy_output(
                        bytes.subrange(
                            varint_of(bytes)->len as int,
                            varint_of(bytes)->len + varint_of(bytes)->value,
                        ),
                        payload_cap(codec.max_packet_size),
                    )
                },
            ),
        ),
        step(codec, bytes).consumed == varint_of(bytes)->len + varint_of(bytes)->value,
        !(step(codec, bytes).state is AwaitingLength),
        !(step(codec, bytes).state is AwaitingPayload),
{
    let len = varint_of(bytes)->len as int;
    let length = varint_of(bytes)->value as int;
    assert(bytes.skip(len).take(length) =~= bytes.subrange(len, len + length));
}

/// A frame whose bytes have all arrived and which the decompressor rejects
/// fails the stream with a decompression failure.
pub proof fn lemma_rejected_stream_fails(codec: CodecView, bytes: Seq<u8>)
    requires
        codec.state is AwaitingLength || codec.state is Complete,
        varint_of(bytes) is Value,
        0 < varint_of(bytes)->value <= codec.max_packet_size,
        bytes.len() >= varint_of(bytes)->len + varint_of(bytes)->value,
        snappy_output(
            bytes.subrange(
                varint_of(bytes)->len as int,
                varint_of(bytes)->len + varint_of(bytes)->value,
            ),
            payload_cap(codec.max_packet_size),
        ) is None,
    ensures
        step(codec, bytes).outcome == Err::<Option<Response>, CodecError>(
            CodecError::DecompressionFailure,
        ),
        step(codec, bytes).state == (CodecState::Failed { error: CodecError::DecompressionFailure }),
{
    let len = varint_of(bytes)->len as int;
    let length = varint_of(bytes)->value as int;
    assert(bytes.skip(len).take(length) =~= bytes.subrange(len, len + length));
}

/// A frame that decompresses to more than the ceiling fails the stream as
/// oversized.
pub proof fn lemma_oversized_output_fails(codec: CodecView, bytes: Seq<u8>)
    requires
        codec.state is AwaitingLength || codec.state is Complete,
        varint_of(bytes) is Value,
        0 < varint_of(bytes)->value <= codec.max_packet_size,
        bytes.len() >= varint_of(bytes)->len + varint_of(bytes)->value,
        snappy_output(
            bytes.subrange(
                varint_of(bytes)->len as int,
                varint_of(bytes)->len + varint_of(bytes)->value,
            ),
            payload_cap(codec.max_packet_size),
        ) matches Some(payload) && payload.len() > codec.max_packet_size,
    ensures
        step(codec, bytes).outcome == Err::<Option<Response>, CodecError>(
            CodecError::OversizedPayload,
        ),
{
    let len = varint_of(bytes)->len as int;
    let length = varint_of(bytes)->value as int;
    assert(bytes.skip(len).take(length) =~= bytes.subrange(len, len + length));
}

/// A buffer that begins with a zero byte holds a frame with no compressed
/// bytes. The call does not wait for anything: it reads the empty payload as
/// the response of the protocol, which is the void response where the
/// exchange is answered with nothing and a fault where it is not, and it has
/// dealt with the one byte.
pub proof fn lemma_empty_frame(codec: CodecView, bytes: Seq<u8>)
    requires
        codec.state is AwaitingLength || codec.state is Complete,
        bytes.len() >= 1,
        bytes[0] == 0,
    ensures
        step(codec, bytes).outcome == settled(
            response_of(codec.protocol, codec.schema, Seq::empty()),
        ),
        step(codec, bytes).outcome != Ok::<Option<Response>, CodecError>(None),
        step(codec, bytes).consumed == 1,
        asked(codec, bytes) is None,
{
    let head = if bytes.len() <= MAX_VARINT_LEN { bytes } else { bytes.take(MAX_VARINT_LEN as int) };
    lemma_last_byte_index_is(head, 0, 0);
    reveal_with_fuel(varint_sum, 2);
    assert(varint_of(bytes) == Varint::Value { value: 0, len: 1 });
    assert(bytes.skip(1).take(0) =~= Seq::<u8>::empty());
}

/// The codec for the responses of one protocol on one stream.
pub struct SSZSnappyOutboundCodec {
    protocol: ProtocolId,
    max_packet_size: usize,
    fork_context: Arc<ForkContext>,
    epoch: u64,
    state: CodecState,
}

impl View for SSZSnappyOutboundCodec {
    type V = CodecView;

    closed spec fn view(&self) -> CodecView {
        CodecView {
            protocol: self.protocol,
            max_packet_size: self.max_packet_size,
            schema: self.fork_context.spec_schema_for(self.epoch),
            state: self.state,
        }
    }
}

impl SSZSnappyOutboundCodec {
    #[verifier::type_invariant]
    spec fn waits_within_ceiling(&self) -> bool {
        self.state matches CodecState::AwaitingPayload { length } ==> length <= self.max_packet_size
    }

    /// The forks that the codec looks its schema up in.
    pub closed spec fn spec_fork_context(&self) -> ForkContext {
        *self.fork_context
    }

    /// The epoch that the frame at hand belongs to.
    pub closed spec fn spec_epoch(&self) -> u64 {
        self.epoch
    }

    /// A codec at the start of a stream, for frames of epoch 0.
    pub fn new(protocol: ProtocolId, max_packet_size: usize, fork_context: Arc<ForkContext>) -> (codec:
        SSZSnappyOutboundCodec)
        ensures
            codec@ == (CodecView {
                protocol,
                max_packet_size,
                schema: fork_context.spec_schema_for(0),
                state: CodecState::AwaitingLength,
            }),
            codec.spec_fork_context() == *fork_context,
            codec.spec_epoch() == 0,
            well_formed(codec@),
    {
        SSZSnappyOutboundCodec {
            protocol,
            max_packet_size,
            fork_context,
            epoch: 0,
            state: CodecState::AwaitingLength,
        }
    }

    /// Tells the codec which epoch the frames from now on belong to. Their
    /// payloads are read by the schema in force at that epoch.
    pub fn set_epoch(&mut self, epoch: u64)
        ensures
            final(self)@ == (CodecView {
                schema: old(self).spec_fork_context().spec_schema_for(epoch),
                ..old(self)@
            }),
            final(self).spec_fork_context() == old(self).spec_fork_context(),
            final(self).spec_epoch() == epoch,
            well_formed(old(self)@),
            well_formed(final(self)@),
    {
        proof {
            use_type_invariant(&*self);
        }
        self.epoch = epoch;
    }

    pub fn protocol(&self) -> (protocol: ProtocolId)
        ensures
            protocol == self@.protocol,
    {
        self.protocol
    }

    pub fn max_packet_size(&self) -> (max_packet_size: usize)
        ensures
            max_packet_size == self@.max_packet_size,
    {
        self.max_packet_size
    }

    pub fn state(&self) -> (state: CodecState)
        ensures
            state == self@.state,
    {
        self.state
    }

    /// The schema in force for the frame at hand.
    pub fn schema(&self) -> (schema: Schema)
        ensures
            schema == self@.schema,
    {
        self.fork_context.schema_for(self.epoch)
    }

    /// Decides what becomes of a frame from what the decompressor made of it.
    pub fn judge(&self, decompressed: Option<Vec<u8>>) -> (verdict: Result<Response, CodecError>)
        ensures
            verdict == judged(self@, bytes_of(decompressed)),
    {
        match decompressed {
            None => Err(CodecError::DecompressionFailure),
            Some(payload) => {
                if payload.len() > self.max_packet_size {
                    Err(CodecError::OversizedPayload)
                } else {
                    let schema = self.fork_context.schema_for(self.epoch);
                    decode_response(&self.protocol, &schema, payload.as_slice())
                }
            },
        }
    }

    /// One call of the codec on the bytes that are buffered, with a
    /// decompressor of the caller's choice. It returns what the call yields and
    /// how many bytes at the head of `bytes` it has dealt with: the caller
    /// drops those before it calls again.
    ///
    /// The decompressor takes the compressed bytes and the most output that it
    /// may produce. It need only accept what `asked` names, so it is not run
    /// on anything else, and not at all where `asked` names nothing.
    pub fn decode_with<D: Fn(&[u8], u64) -> Option<Vec<u8>>>(
        &mut self,
        bytes: &[u8],
        decompress: D,
    ) -> (result: (Result<Option<Response>, CodecError>, usize))
        requires
            forall|compressed: &[u8]|
                asked(old(self)@, bytes@) == Some(compressed@) ==> call_requires(
                    decompress,
                    (compressed, payload_cap(old(self)@.max_packet_size)),
                ),
        ensures
            exists|answer: Option<Seq<u8>>|
                {
                    &&& answers(decompress, old(self)@, bytes@, answer)
                    &&& result.0 == step_with(old(self)@, bytes@, answer).outcome
                    &&& result.1 == step_with(old(self)@, bytes@, answer).consumed
                    &&& final(self)@ == (CodecView {
                        state: step_with(old(self)@, bytes@, answer).state,
                        ..old(self)@
                    })
                },
            result.1 <= bytes@.len(),
            final(self).spec_fork_context() == old(self).spec_fork_context(),
            final(self).spec_epoch() == old(self).spec_epoch(),
            well_formed(old(self)@),
            well_formed(final(self)@),
    {
        proof {
            use_type_invariant(&*self);
        }
        let ghost before = self@;
        let (length, prefix): (usize, usize) = match self.state {
            CodecState::Failed { error } => {
                assert(answers(decompress, before, bytes@, None));
                return (Err(error), 0);
            },
            CodecState::AwaitingPayload { length } => (length, 0),
            _ => match parse_varint(bytes) {
                Varint::NeedMore => {
                    self.state = CodecState::AwaitingLength;
                    assert(answers(decompress, before, bytes@, None));
                    return (Ok(None), 0);
                },
                Varint::Malformed => {
                    self.state = CodecState::Failed { error: CodecError::MalformedLength };
                    assert(answers(decompress, before, bytes@, None));
                    return (Err(CodecError::MalformedLength), 0);
                },
                Varint::Value { value, len } => {
                    proof {
                        lemma_varint_prefix(bytes@, bytes@.len() as int);
                    }
                    if value > self.max_packet_size as u64 {
                        self.state = CodecState::Failed { error: CodecError::OversizedPayload };
                        assert(answers(decompress, before, bytes@, None));
                        return (Err(CodecError::OversizedPayload), len);
                    }
                    (value as usize, len)
                },
            },
        };
        assert(bytes@.skip(0) =~= bytes@);
        assert(asked(before, bytes@) == compressed_frame(length, bytes@.skip(prefix as int)));
        if bytes.len() - prefix < length {
            self.state = CodecState::AwaitingPayload { length };
            assert(answers(decompress, before, bytes@, None));
            return (Ok(None), prefix);
        }
        let decompressed = if length == 0 {
            Some(Vec::new())
        } else {
            let compressed = slice_subrange(bytes, prefix, prefix + length);
            assert(compressed@ =~= bytes@.skip(prefix as int).take(length as int));
            let cap: u64 = if self.max_packet_size as u64 == u64::MAX {
                u64::MAX
            } else {
                self.max_packet_size as u64 + 1
            };
            decompress(compressed, cap)
        };
        let ghost answer = if length == 0 { None } else { bytes_of(decompressed) };
        assert(answers(decompress, before, bytes@, answer));
        match self.judge(decompressed) {
            Ok(response) => {
                self.state = CodecState::Complete;
                (Ok(Some(response)), prefix + length)
            },
            Err(error) => {
                self.state = CodecState::Failed { error };
                (Err(error), prefix + length)
            },
        }
    }

    /// One call of the codec on the bytes that are buffered. It returns what
    /// the call yields and how many bytes at the head of `bytes` it has dealt
    /// with: the caller drops those before it calls again.
    pub fn decode_slice(&mut self, bytes: &[u8]) -> (result: (
        Result<Option<Response>, CodecError>,
        usize,
    ))
        ensures
            result.0 == step(old(self)@, bytes@).outcome,
            result.1 == step(old(self)@, bytes@).consumed,
            result.1 <= bytes@.len(),
            final(self)@ == (CodecView { state: step(old(self)@, bytes@).state, ..old(self)@ }),
            final(self).spec_fork_context() == old(self).spec_fork_context(),
            final(self).spec_epoch() == old(self).spec_epoch(),
            well_formed(old(self)@),
            well_formed(final(self)@),
    {
        let snappy = |compressed: &[u8], cap: u64| -> (output: Option<Vec<u8>>)
            ensures
                bytes_of(output) == snappy_output(compressed@, cap),
            { snappy_decompress(compressed, cap) };
        self.decode_with(bytes, snappy)
    }

    /// One call of the codec on a buffer that it advances itself: the bytes
    /// that the call has dealt with are gone from `src` when it returns.
    pub fn decode(&mut self, src: &mut BytesMut) -> (outcome: Result<Option<Response>, CodecError>)
        ensures
            outcome == step(old(self)@, buffer_bytes(*old(src))).outcome,
            buffer_bytes(*final(src)) == buffer_bytes(*old(src)).skip(
                step(old(self)@, buffer_bytes(*old(src))).consumed as int,
            ),
            final(self)@ == (CodecView {
                state: step(old(self)@, buffer_bytes(*old(src))).state,
                ..old(self)@
            }),
            final(self).spec_fork_context() == old(self).spec_fork_context(),
            final(self).spec_epoch() == old(self).spec_epoch(),
            well_formed(old(self)@),
            well_formed(final(self)@),
    {
        let (outcome, consumed) = self.decode_slice(buffer_as_slice(src));
        buffer_advance(src, consumed);
        outcome
    }
}

} // verus!
