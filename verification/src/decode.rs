//! Reading fixed-size values back from their encodings.

use vstd::prelude::*;
use vstd::slice::slice_subrange;

use crate::big_endian::{
    be_bytes, be_value, lemma_be_bytes_len, lemma_be_bytes_of_be_value, lemma_be_value_bound,
    lemma_be_value_concat, lemma_be_value_of_be_bytes, lemma_pow256_add, lemma_pow256_values,
    pow256, read_be,
};
use crate::error::DecodeError;
use crate::hash::{H256, U256};
use crate::stream::Encodable;

verus! {

/// A value of fixed size that can be read back from its encoding.
///
/// An implementation proves that its encodings all have the one width and that
/// reading and writing undo each other, in both directions.
pub trait Decodable: Encodable + Sized {
    /// The number of bytes in every encoding of the type.
    spec fn ssz_width() -> nat;

    /// The value that `bytes` encode, for bytes of the type's width.
    spec fn ssz_value(bytes: Seq<u8>) -> Self;

    /// Reads a value from bytes that are exactly its encoding.
    fn ssz_decode(bytes: &[u8]) -> (decoded: Result<Self, DecodeError>)
        ensures
            bytes@.len() == Self::ssz_width() ==> decoded == Ok::<Self, DecodeError>(
                Self::ssz_value(bytes@),
            ),
            bytes@.len() != Self::ssz_width() ==> decoded == Err::<Self, DecodeError>(
                DecodeError::MalformedLength,
            ),
    ;

    proof fn lemma_width(self)
        ensures
            self.ssz_bytes().len() == Self::ssz_width(),
    ;

    proof fn lemma_value_of_bytes(self)
        ensures
            Self::ssz_value(self.ssz_bytes()) == self,
    ;

    proof fn lemma_bytes_of_value(bytes: Seq<u8>)
        requires
            bytes.len() == Self::ssz_width(),
        ensures
            Self::ssz_value(bytes).ssz_bytes() == bytes,
    ;
}

/// What decoding makes of `bytes`: the value they encode when they have the
/// width of the type, and a length error when they have any other.
pub open spec fn ssz_decoded<T: Decodable>(bytes: Seq<u8>) -> Result<T, DecodeError> {
    if bytes.len() == T::ssz_width() {
        Ok(T::ssz_value(bytes))
    } else {
        Err(DecodeError::MalformedLength)
    }
}

/// Every encoding of a type has the width of the type.
pub proof fn lemma_encoding_has_fixed_length<T: Decodable>(value: T)
    ensures
        value.ssz_bytes().len() == T::ssz_width(),
{
    value.lemma_width();
}

/// Decoding the encoding of a value gives the value back.
pub proof fn lemma_decode_inverts_encode<T: Decodable>(value: T)
    ensures
        ssz_decoded::<T>(value.ssz_bytes()) == Ok::<T, DecodeError>(value),
{
    value.lemma_width();
    value.lemma_value_of_bytes();
}

/// Encoding is injective: two values with the same encoding are equal.
pub proof fn lemma_encoding_is_injective<T: Decodable>(a: T, b: T)
    requires
        a.ssz_bytes() == b.ssz_bytes(),
    ensures
        a == b,
{
    a.lemma_value_of_bytes();
    b.lemma_value_of_bytes();
}

/// Every byte string of the type's width is the encoding of the value that it
/// decodes to: no bit pattern is invalid.
pub proof fn lemma_encode_inverts_decode<T: Decodable>(bytes: Seq<u8>)
    requires
        bytes.len() == T::ssz_width(),
    ensures
        ssz_decoded::<T>(bytes) is Ok,
        ssz_decoded::<T>(bytes)->Ok_0.ssz_bytes() == bytes,
{
    T::lemma_bytes_of_value(bytes);
}

/// Bytes of any length but the type's width are refused as malformed.
pub proof fn lemma_decode_rejects_other_lengths<T: Decodable>(bytes: Seq<u8>)
    requires
        bytes.len() != T::ssz_width(),
    ensures
        ssz_decoded::<T>(bytes) == Err::<T, DecodeError>(DecodeError::MalformedLength),
{
}

/// The widths of the fixed-size types, in bytes: an eighth of their bits.
pub proof fn lemma_widths()
    ensures
        u8::ssz_width() * 8 == 8,
        u16::ssz_width() * 8 == 16,
        u32::ssz_width() * 8 == 32,
        u64::ssz_width() * 8 == 64,
        H256::ssz_width() * 8 == 256,
        U256::ssz_width() * 8 == 256,
{
}

impl Decodable for u8 {
    open spec fn ssz_width() -> nat {
        1
    }

    open spec fn ssz_value(bytes: Seq<u8>) -> u8 {
        be_value(bytes) as u8
    }

    fn ssz_decode(bytes: &[u8]) -> (decoded: Result<u8, DecodeError>) {
        if bytes.len() != 1 {
            return Err(DecodeError::MalformedLength);
        }
        proof {
            lemma_be_value_bound(bytes@);
            lemma_pow256_values();
        }
        Ok(read_be(bytes) as u8)
    }

    proof fn lemma_width(self) {
        lemma_be_bytes_len(self as nat, 1);
    }

    proof fn lemma_value_of_bytes(self) {
        lemma_pow256_values();
        lemma_be_value_of_be_bytes(self as nat, 1);
    }

    proof fn lemma_bytes_of_value(bytes: Seq<u8>) {
        lemma_pow256_values();
        lemma_be_value_bound(bytes);
        lemma_be_bytes_of_be_value(bytes);
    }
}

impl Decodable for u16 {
    open spec fn ssz_width() -> nat {
        2
    }

    open spec fn ssz_value(bytes: Seq<u8>) -> u16 {
        be_value(bytes) as u16
    }

    fn ssz_decode(bytes: &[u8]) -> (decoded: Result<u16, DecodeError>) {
        if bytes.len() != 2 {
            return Err(DecodeError::MalformedLength);
        }
        proof {
            lemma_be_value_bound(bytes@);
            lemma_pow256_values();
        }
        Ok(read_be(bytes) as u16)
    }

    proof fn lemma_width(self) {
        lemma_be_bytes_len(self as nat, 2);
    }

    proof fn lemma_value_of_bytes(self) {
        lemma_pow256_values();
        lemma_be_value_of_be_bytes(self as nat, 2);
    }

    proof fn lemma_bytes_of_value(bytes: Seq<u8>) {
        lemma_pow256_values();
        lemma_be_value_bound(bytes);
        lemma_be_bytes_of_be_value(bytes);
    }
}

impl Decodable for u32 {
    open spec fn ssz_width() -> nat {
        4
    }

    open spec fn ssz_value(bytes: Seq<u8>) -> u32 {
        be_value(bytes) as u32
    }

    fn ssz_decode(bytes: &[u8]) -> (decoded: Result<u32, DecodeError>) {
        if bytes.len() != 4 {
            return Err(DecodeError::MalformedLength);
        }
        proof {
            lemma_be_value_bound(bytes@);
            lemma_pow256_values();
        }
        Ok(read_be(bytes) as u32)
    }

    proof fn lemma_width(self) {
        lemma_be_bytes_len(self as nat, 4);
    }

    proof fn lemma_value_of_bytes(self) {
        lemma_pow256_values();
        lemma_be_value_of_be_bytes(self as nat, 4);
    }

    proof fn lemma_bytes_of_value(bytes: Seq<u8>) {
        lemma_pow256_values();
        lemma_be_value_bound(bytes);
        lemma_be_bytes_of_be_value(bytes);
    }
}

impl Decodable for u64 {
    open spec fn ssz_width() -> nat {
        8
    }

    open spec fn ssz_value(bytes: Seq<u8>) -> u64 {
        be_value(bytes) as u64
    }

    fn ssz_decode(bytes: &[u8]) -> (decoded: Result<u64, DecodeError>) {
        if bytes.len() != 8 {
            return Err(DecodeError::MalformedLength);
        }
        proof {
            lemma_be_value_bound(bytes@);
            lemma_pow256_values();
        }
        Ok(read_be(bytes))
    }

    proof fn lemma_width(self) {
        lemma_be_bytes_len(self as nat, 8);
    }

    proof fn lemma_value_of_bytes(self) {
        lemma_pow256_values();
        lemma_be_value_of_be_bytes(self as nat, 8);
    }

    proof fn lemma_bytes_of_value(bytes: Seq<u8>) {
        lemma_pow256_values();
        lemma_be_value_bound(bytes);
        lemma_be_bytes_of_be_value(bytes);
    }
}

impl Decodable for H256 {
    open spec fn ssz_width() -> nat {
        32
    }

    open spec fn ssz_value(bytes: Seq<u8>) -> H256 {
        H256::of_bytes(bytes)
    }

    fn ssz_decode(bytes: &[u8]) -> (decoded: Result<H256, DecodeError>) {
        if bytes.len() != 32 {
            return Err(DecodeError::MalformedLength);
        }
        Ok(H256::from_slice(bytes))
    }

    proof fn lemma_width(self) {
    }

    proof fn lemma_value_of_bytes(self) {
        assert(H256::of_bytes(self@).0 =~= self.0);
    }

    proof fn lemma_bytes_of_value(bytes: Seq<u8>) {
        assert(H256::of_bytes(bytes)@ =~= bytes);
    }
}

impl Decodable for U256 {
    open spec fn ssz_width() -> nat {
        32
    }

    open spec fn ssz_value(bytes: Seq<u8>) -> U256 {
        U256::from_nat(be_value(bytes))
    }

    fn ssz_decode(bytes: &[u8]) -> (decoded: Result<U256, DecodeError>) {
        if bytes.len() != 32 {
            return Err(DecodeError::MalformedLength);
        }
        let limb3 = read_be(slice_subrange(bytes, 0, 8));
        let limb2 = read_be(slice_subrange(bytes, 8, 16));
        let limb1 = read_be(slice_subrange(bytes, 16, 24));
        let limb0 = read_be(slice_subrange(bytes, 24, 32));
        let number = U256([limb0, limb1, limb2, limb3]);
        proof {
            let (s3, s2, s1, s0) = (
                bytes@.subrange(0, 8),
                bytes@.subrange(8, 16),
                bytes@.subrange(16, 24),
                bytes@.subrange(24, 32),
            );
            assert(bytes@ =~= s3 + s2 + s1 + s0);
            lemma_be_value_concat(s3 + s2 + s1, s0);
            lemma_be_value_concat(s3 + s2, s1);
            lemma_be_value_concat(s3, s2);
            lemma_pow256_add(8, 8);
            lemma_pow256_add(8, 16);
            let b = pow256(8);
            let (l0, l1, l2, l3) = (limb0 as nat, limb1 as nat, limb2 as nat, limb3 as nat);
            assert(number.0[0] == limb0 && number.0[1] == limb1 && number.0[2] == limb2
                && number.0[3] == limb3);
            assert(((l3 * b + l2) * b + l1) * b + l0 == l0 + l1 * b + l2 * (b * b) + l3 * (b * (b
                * b))) by (nonlinear_arith);
            assert(number@ == be_value(bytes@));
            number.lemma_from_nat_of_view();
        }
        Ok(number)
    }

    proof fn lemma_width(self) {
        lemma_be_bytes_len(self@, 32);
    }

    proof fn lemma_value_of_bytes(self) {
        self.lemma_view_bound();
        lemma_be_value_of_be_bytes(self@, 32);
        self.lemma_from_nat_of_view();
    }

    proof fn lemma_bytes_of_value(bytes: Seq<u8>) {
        lemma_be_value_bound(bytes);
        U256::lemma_view_of_from_nat(be_value(bytes));
        lemma_be_bytes_of_be_value(bytes);
    }
}

} // verus!
