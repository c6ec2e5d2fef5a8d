//! The Snappy decompressor of the `snap` crate, as the verified code sees it.
//!
//! Nothing in this module is proved, and nothing is claimed about what a
//! stream decompresses to: the output only gets a name, so that the codec can
//! say what it does with it.

use snap::read::FrameDecoder;
use std::io::Read;
use vstd::prelude::*;

verus! {

/// What `snap::read::FrameDecoder` makes of a stream in the Snappy frame
/// format when at most `cap` bytes of output are asked of it: the first `cap`
/// bytes of the decompressed stream, or all of it where it is shorter, and
/// `None` where the decoder rejects the stream before it has produced them.
pub uninterp spec fn snappy_output(compressed: Seq<u8>, cap: u64) -> Option<Seq<u8>>;

/// The bytes of an optional vector.
pub open spec fn bytes_of(output: Option<Vec<u8>>) -> Option<Seq<u8>> {
    match output {
        Some(bytes) => Some(bytes@),
        None => None,
    }
}

/// Runs `snap::read::FrameDecoder` over `compressed` and reads its output to
/// the end through `std::io::Read::take(cap)`, so that the decoder is never
/// asked for more than `cap` bytes. Any error of the decoder gives `None`.
/// The decoder works on the bytes it is given and on nothing else, so the
/// same arguments always give the same result, which is all that the contract
/// says.
#[verifier::external_body]
pub(crate) fn snappy_decompress(compressed: &[u8], cap: u64) -> (output: Option<Vec<u8>>)
    ensures
        bytes_of(output) == snappy_output(compressed@, cap),
{
    let mut output = Vec::new();
    match FrameDecoder::new(compressed).take(cap).read_to_end(&mut output) {
        Ok(_) => Some(output),
        Err(_) => None,
    }
}

} // verus!
