//! A stream arrives in pieces, and where the pieces are cut is not up to the
//! receiver. What the codec makes of a stream does not depend on it.

use vstd::prelude::*;

use crate::codec::{step, CodecState, CodecView, Step};
use crate::varint::{lemma_varint_extend, lemma_varint_prefix, varint_of, Varint};

verus! {

/// The chunks laid end to end.
pub open spec fn flatten(chunks: Seq<Seq<u8>>) -> Seq<u8>
    decreases chunks.len(),
{
    if chunks.len() == 0 {
        Seq::empty()
    } else {
        chunks[0] + flatten(chunks.skip(1))
    }
}

/// The codec with another state.
pub open spec fn at_state(codec: CodecView, state: CodecState) -> CodecView {
    CodecView { state, ..codec }
}

/// What the calls of a codec come to when `chunks` arrive one after another
/// behind the bytes that are `pending`: the codec is called after each
/// arrival, on what is buffered then, and what it has dealt with is dropped
/// from the buffer before the next chunk is appended. The calls stop at the
/// first that does not ask for more. The result holds the state after the
/// last call, what it returned, and the bytes dealt with by all calls
/// together.
pub open spec fn deliver(codec: CodecView, pending: Seq<u8>, chunks: Seq<Seq<u8>>) -> Step
    recommends
        chunks.len() >= 1,
    decreases chunks.len(),
{
    let buffer = pending + chunks[0];
    let first = step(codec, buffer);
    if chunks.len() > 1 && first.outcome == Ok::<Option<crate::response::Response>, crate::error::CodecError>(None) {
        let later = deliver(
            at_state(codec, first.state),
            buffer.skip(first.consumed as int),
            chunks.skip(1),
        );
        Step { consumed: first.consumed + later.consumed, ..later }
    } else {
        first
    }
}

/// A call never deals with more bytes than it was given.
pub proof fn lemma_consumed_in_bounds(codec: CodecView, bytes: Seq<u8>)
    ensures
        step(codec, bytes).consumed <= bytes.len(),
{
    if varint_of(bytes) is Value {
        lemma_varint_prefix(bytes, bytes.len() as int);
    }
}

/// A call that asks for more bytes has dealt with nothing but a complete
/// length prefix, if with anything at all: the bytes that it cannot interpret
/// yet stay in the buffer.
pub proof fn lemma_waiting_call_keeps_payload(codec: CodecView, bytes: Seq<u8>)
    requires
        step(codec, bytes).outcome == Ok::<Option<crate::response::Response>, crate::error::CodecError>(None),
    ensures
        step(codec, bytes).consumed == 0 || (!(codec.state is AwaitingPayload) && varint_of(bytes)
            is Value && step(codec, bytes).consumed == varint_of(bytes)->len && step(
            codec,
            bytes,
        ).state == CodecState::AwaitingPayload { length: varint_of(bytes)->value as usize }),
{
}

/// A call that has handed out a response or failed would have done the same,
/// and dealt with the same bytes, had more bytes been buffered behind those
/// that it saw.
pub proof fn lemma_settled_call_is_stable(codec: CodecView, bytes: Seq<u8>, more: Seq<u8>)
    requires
        step(codec, bytes).outcome != Ok::<Option<crate::response::Response>, crate::error::CodecError>(None),
    ensures
        step(codec, bytes + more) == step(codec, bytes),
{
    let longer = bytes + more;
    match codec.state {
        CodecState::Failed { error } => {},
        CodecState::AwaitingPayload { length } => {
            assert(longer.take(length as int) =~= bytes.take(length as int));
        },
        _ => {
            lemma_varint_extend(bytes, more);
            if let Varint::Value { value, len } = varint_of(bytes) {
                lemma_varint_prefix(bytes, bytes.len() as int);
                if value <= codec.max_packet_size {
                    let length = value as usize;
                    assert(longer.skip(len as int) =~= bytes.skip(len as int) + more);
                    assert(longer.skip(len as int).take(length as int) =~= bytes.skip(
                        len as int,
                    ).take(length as int));
                }
            }
        },
    }
}

/// A call that asks for more bytes loses nothing: once `more` bytes have
/// arrived behind what it left in the buffer, the next call does what the
/// first would have done had it seen everything at once, and the two calls
/// together have dealt with the same bytes.
pub proof fn lemma_waiting_call_resumes(codec: CodecView, bytes: Seq<u8>, more: Seq<u8>)
    requires
        step(codec, bytes).outcome == Ok::<Option<crate::response::Response>, crate::error::CodecError>(None),
    ensures
        ({
            let first = step(codec, bytes);
            let second = step(
                at_state(codec, first.state),
                bytes.skip(first.consumed as int) + more,
            );
            let whole = step(codec, bytes + more);
            &&& second.outcome == whole.outcome
            &&& second.state == whole.state
            &&& first.consumed + second.consumed == whole.consumed
        }),
{
    let longer = bytes + more;
    let first = step(codec, bytes);
    match codec.state {
        CodecState::Failed { error } => {},
        CodecState::AwaitingPayload { length } => {
            assert(bytes.skip(0) =~= bytes);
        },
        _ => {
            match varint_of(bytes) {
                Varint::Value { value, len } => {
                    lemma_varint_extend(bytes, more);
                    lemma_varint_prefix(bytes, bytes.len() as int);
                    assert(longer.skip(len as int) =~= bytes.skip(len as int) + more);
                },
                _ => {
                    assert(bytes.skip(0) =~= bytes);
                },
            }
        },
    }
}

/// However a stream is cut into chunks, the calls that follow the arrivals
/// come to what a single call on the whole stream comes to: the same response
/// or failure, the same state, the same bytes dealt with. In particular a
/// frame that arrives in two or more pieces, cut anywhere, decodes as it does
/// in one piece.
pub proof fn lemma_delivery_is_independent_of_cuts(
    codec: CodecView,
    pending: Seq<u8>,
    chunks: Seq<Seq<u8>>,
)
    requires
        chunks.len() >= 1,
    ensures
        deliver(codec, pending, chunks) == step(codec, pending + flatten(chunks)),
    decreases chunks.len(),
{
    let buffer = pending + chunks[0];
    let rest = flatten(chunks.skip(1));
    let first = step(codec, buffer);
    assert(pending + flatten(chunks) =~= buffer + rest);
    if first.outcome == Ok::<Option<crate::response::Response>, crate::error::CodecError>(None) {
        if chunks.len() > 1 {
            let resumed = at_state(codec, first.state);
            let left = buffer.skip(first.consumed as int);
            lemma_delivery_is_independent_of_cuts(resumed, left, chunks.skip(1));
            lemma_waiting_call_resumes(codec, buffer, rest);
            let second = step(resumed, left + rest);
            let whole = step(codec, buffer + rest);
            assert(deliver(codec, pending, chunks) == Step {
                consumed: first.consumed + second.consumed,
                ..second
            });
        } else {
            assert(rest =~= Seq::<u8>::empty());
            assert(buffer + rest =~= buffer);
        }
    } else {
        lemma_settled_call_is_stable(codec, buffer, rest);
    }
}

/// A stream cut in two at any byte decodes as it does in one piece.
pub proof fn lemma_split_in_two(codec: CodecView, bytes: Seq<u8>, cut: int)
    requires
        0 <= cut <= bytes.len(),
    ensures
        deliver(codec, Seq::empty(), seq![bytes.take(cut), bytes.skip(cut)]) == step(codec, bytes),
{
    let chunks = seq![bytes.take(cut), bytes.skip(cut)];
    lemma_delivery_is_independent_of_cuts(codec, Seq::empty(), chunks);
    assert(chunks.skip(1) =~= seq![bytes.skip(cut)]);
    assert(chunks.skip(1).skip(1) =~= Seq::<Seq<u8>>::empty());
    assert(flatten(chunks.skip(1)) =~= bytes.skip(cut)) by {
        reveal_with_fuel(flatten, 2);
    }
    assert(flatten(chunks) =~= bytes.take(cut) + bytes.skip(cut));
    assert(Seq::<u8>::empty() + flatten(chunks) =~= bytes);
}

} // verus!
