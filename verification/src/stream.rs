//! The accumulator that one serialization is written into, and the trait of
//! the values that can be written.

use vstd::prelude::*;

verus! {

/// A value with an SSZ encoding.
pub trait Encodable {
    /// The encoding of the value.
    spec fn ssz_bytes(&self) -> Seq<u8>;

    /// Appends the encoding of the value to the stream.
    fn ssz_append(&self, s: &mut SszStream)
        ensures
            final(s)@ == old(s)@ + self.ssz_bytes(),
    ;
}

/// An append-only sequence of bytes. What it holds is the concatenation of
/// everything appended to it, in the order of the calls.
pub struct SszStream {
    buffer: Vec<u8>,
}

impl View for SszStream {
    type V = Seq<u8>;

    closed spec fn view(&self) -> Seq<u8> {
        self.buffer@
    }
}

impl SszStream {
    /// An empty stream.
    pub fn new() -> (stream: SszStream)
        ensures
            stream@ == Seq::<u8>::empty(),
    {
        SszStream { buffer: Vec::new() }
    }

    /// Appends the encoding of `value`.
    pub fn append<E: Encodable>(&mut self, value: &E)
        ensures
            final(self)@ == old(self)@ + value.ssz_bytes(),
    {
        value.ssz_append(self);
    }

    /// Appends the bytes of an encoded value. Values of variable size would
    /// get their length recorded here; every value that this crate encodes
    /// has a fixed size, so the bytes go in as they are.
    pub fn append_encoded_val(&mut self, vec: &Vec<u8>)
        ensures
            final(self)@ == old(self)@ + vec@,
    {
        self.buffer.extend_from_slice(vec.as_slice());
        assert(self.buffer@ =~= old(self).buffer@ + vec@);
    }

    /// Appends bytes that are already in their final form, as they are.
    pub fn append_encoded_raw(&mut self, vec: &Vec<u8>)
        ensures
            final(self)@ == old(self)@ + vec@,
    {
        self.buffer.extend_from_slice(vec.as_slice());
        assert(self.buffer@ =~= old(self).buffer@ + vec@);
    }

    /// Ends the serialization and hands out everything that was appended.
    pub fn drain(self) -> (bytes: Vec<u8>)
        ensures
            bytes@ == self@,
    {
        self.buffer
    }
}

} // verus!
