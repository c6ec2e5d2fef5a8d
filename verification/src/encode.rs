//! The encodings of the fixed-size values: unsigned integers most significant
//! byte first, hashes as their bytes.

use vstd::prelude::*;

use crate::big_endian::{be_bytes, lemma_be_bytes_concat, lemma_be_bytes_len, lemma_pow256_add, lemma_pow256_values, pow256};
use crate::buffer::{buffer_put_u16, buffer_put_u32, buffer_put_u64, buffer_put_u8, buffer_to_vec, buffer_with_capacity};
use crate::hash::{H256, U256};
use crate::stream::{Encodable, SszStream};

verus! {

impl Encodable for u8 {
    open spec fn ssz_bytes(&self) -> Seq<u8> {
        be_bytes(*self as nat, 1)
    }

    fn ssz_append(&self, s: &mut SszStream) {
        let mut buf = buffer_with_capacity(1);
        buffer_put_u8(&mut buf, *self);
        assert(Seq::<u8>::empty().push(*self) =~= be_bytes(*self as nat, 1)) by {
            reveal_with_fuel(be_bytes, 2);
        }
        s.append_encoded_raw(&buffer_to_vec(&buf));
    }
}

impl Encodable for u16 {
    open spec fn ssz_bytes(&self) -> Seq<u8> {
        be_bytes(*self as nat, 2)
    }

    fn ssz_append(&self, s: &mut SszStream) {
        let mut buf = buffer_with_capacity(2);
        buffer_put_u16(&mut buf, *self);
        assert(Seq::<u8>::empty() + be_bytes(*self as nat, 2) =~= be_bytes(*self as nat, 2));
        s.append_encoded_raw(&buffer_to_vec(&buf));
    }
}

impl Encodable for u32 {
    open spec fn ssz_bytes(&self) -> Seq<u8> {
        be_bytes(*self as nat, 4)
    }

    fn ssz_append(&self, s: &mut SszStream) {
        let mut buf = buffer_with_capacity(4);
        buffer_put_u32(&mut buf, *self);
        assert(Seq::<u8>::empty() + be_bytes(*self as nat, 4) =~= be_bytes(*self as nat, 4));
        s.append_encoded_raw(&buffer_to_vec(&buf));
    }
}

impl Encodable for u64 {
    open spec fn ssz_bytes(&self) -> Seq<u8> {
        be_bytes(*self as nat, 8)
    }

    fn ssz_append(&self, s: &mut SszStream) {
        let mut buf = buffer_with_capacity(8);
        buffer_put_u64(&mut buf, *self);
        assert(Seq::<u8>::empty() + be_bytes(*self as nat, 8) =~= be_bytes(*self as nat, 8));
        s.append_encoded_raw(&buffer_to_vec(&buf));
    }
}

/// A `usize` is written as the 64-bit integer of the same value, on every
/// platform.
impl Encodable for usize {
    open spec fn ssz_bytes(&self) -> Seq<u8> {
        be_bytes(*self as nat, 8)
    }

    fn ssz_append(&self, s: &mut SszStream) {
        let mut buf = buffer_with_capacity(8);
        buffer_put_u64(&mut buf, *self as u64);
        assert(Seq::<u8>::empty() + be_bytes(*self as nat, 8) =~= be_bytes(*self as nat, 8));
        s.append_encoded_raw(&buffer_to_vec(&buf));
    }
}

impl Encodable for H256 {
    open spec fn ssz_bytes(&self) -> Seq<u8> {
        self@
    }

    fn ssz_append(&self, s: &mut SszStream) {
        s.append_encoded_val(&self.to_vec());
    }
}

impl Encodable for U256 {
    open spec fn ssz_bytes(&self) -> Seq<u8> {
        be_bytes(self@, 32)
    }

    fn ssz_append(&self, s: &mut SszStream) {
        let mut buf = buffer_with_capacity(32);
        proof {
            lemma_be_bytes_len(self.0[3] as nat, 8);
            lemma_be_bytes_len(self.0[2] as nat, 8);
            lemma_be_bytes_len(self.0[1] as nat, 8);
            lemma_limbs_big_endian(*self);
        }
        buffer_put_u64(&mut buf, self.0[3]);
        buffer_put_u64(&mut buf, self.0[2]);
        buffer_put_u64(&mut buf, self.0[1]);
        buffer_put_u64(&mut buf, self.0[0]);
        assert(Seq::<u8>::empty() + be_bytes(self.0[3] as nat, 8) =~= be_bytes(self.0[3] as nat, 8));
        s.append_encoded_val(&buffer_to_vec(&buf));
    }
}

/// A `usize` has the encoding, eight bytes long, of the 64-bit integer of the
/// same value.
pub proof fn lemma_usize_as_u64(value: usize)
    ensures
        value.ssz_bytes() == (value as u64).ssz_bytes(),
        value.ssz_bytes().len() == 8,
{
    lemma_be_bytes_len(value as nat, 8);
}

/// The 32 big-endian bytes of a 256-bit integer are the eight big-endian
/// bytes of each limb, from the most significant limb down.
pub proof fn lemma_limbs_big_endian(number: U256)
    ensures
        be_bytes(number@, 32) == be_bytes(number.0[3] as nat, 8) + be_bytes(
            number.0[2] as nat,
            8,
        ) + be_bytes(number.0[1] as nat, 8) + be_bytes(number.0[0] as nat, 8),
{
    lemma_pow256_values();
    lemma_pow256_add(8, 8);
    lemma_pow256_add(8, 16);
    let b = pow256(8);
    let (l0, l1, l2, l3) = (
        number.0[0] as nat,
        number.0[1] as nat,
        number.0[2] as nat,
        number.0[3] as nat,
    );
    let top2 = l3 * b + l2;
    let top3 = top2 * b + l1;
    assert(number@ == top3 * b + l0) by (nonlinear_arith)
        requires
            number@ == l0 + l1 * b + l2 * (b * b) + l3 * (b * (b * b)),
            top3 == (l3 * b + l2) * b + l1,
    ;
    lemma_be_bytes_concat(top3, 24, l0, 8);
    lemma_be_bytes_concat(top2, 16, l1, 8);
    lemma_be_bytes_concat(l3, 8, l2, 8);
}

} // verus!
