//! Fixed 32-byte values: the hash, which is just its bytes, and the 256-bit
//! unsigned integer, which is four 64-bit limbs.

use vstd::arithmetic::div_mod::{lemma_fundamental_div_mod, lemma_fundamental_div_mod_converse, lemma_small_mod};
use vstd::prelude::*;

use crate::big_endian::{lemma_pow256_add, lemma_pow256_values, pow256};

verus! {

/// A 32-byte hash. It has no numeric meaning: byte `i` is byte `i`.
#[derive(Clone, Copy, Debug, PartialEq, Eq, Hash)]
pub struct H256(pub [u8; 32]);

/// An unsigned 256-bit integer, held as four 64-bit limbs with the least
/// significant limb first.
#[derive(Clone, Copy, Debug, PartialEq, Eq, Hash)]
pub struct U256(pub [u64; 4]);

impl View for H256 {
    type V = Seq<u8>;

    open spec fn view(&self) -> Seq<u8> {
        self.0@
    }
}

impl View for U256 {
    type V = nat;

    /// The number that the limbs stand for.
    open spec fn view(&self) -> nat {
        (self.0[0] + self.0[1] * pow256(8) + self.0[2] * pow256(16) + self.0[3] * pow256(24)) as nat
    }
}

impl H256 {
    /// The hash that holds the first 32 of `bytes`.
    pub open spec fn of_bytes(bytes: Seq<u8>) -> H256 {
        H256(
            [
                bytes[0], bytes[1], bytes[2], bytes[3], bytes[4], bytes[5], bytes[6], bytes[7],
                bytes[8], bytes[9], bytes[10], bytes[11], bytes[12], bytes[13], bytes[14], bytes[15],
                bytes[16], bytes[17], bytes[18], bytes[19], bytes[20], bytes[21], bytes[22], bytes[23],
                bytes[24], bytes[25], bytes[26], bytes[27], bytes[28], bytes[29], bytes[30], bytes[31],
            ],
        )
    }

    /// The hash whose bytes are all zero.
    pub fn zero() -> (hash: H256)
        ensures
            hash@ == Seq::new(32, |i: int| 0u8),
    {
        let hash = H256([0u8; 32]);
        assert(hash@ =~= Seq::new(32, |i: int| 0u8));
        hash
    }

    /// The 32 bytes, first to last.
    pub fn to_vec(&self) -> (bytes: Vec<u8>)
        ensures
            bytes@ == self@,
    {
        let mut bytes: Vec<u8> = Vec::with_capacity(32);
        let mut i: usize = 0;
        while i < 32
            invariant
                i <= 32,
                bytes@ == self@.take(i as int),
            decreases 32 - i,
        {
            bytes.push(self.0[i]);
            assert(self@.take(i + 1) =~= self@.take(i as int).push(self@[i as int]));
            i += 1;
        }
        assert(self@.take(32) =~= self@);
        bytes
    }

    /// The hash that holds the given 32 bytes.
    pub fn from_slice(bytes: &[u8]) -> (hash: H256)
        requires
            bytes@.len() == 32,
        ensures
            hash == H256::of_bytes(bytes@),
            hash@ == bytes@,
    {
        let mut array = [0u8; 32];
        let mut i: usize = 0;
        while i < 32
            invariant
                i <= 32,
                bytes@.len() == 32,
                forall|j: int| 0 <= j < i ==> array@[j] == bytes@[j],
            decreases 32 - i,
        {
            array[i] = bytes[i];
            i += 1;
        }
        assert(array@ =~= bytes@);
        assert(array =~= H256::of_bytes(bytes@).0);
        H256(array)
    }
}

impl U256 {
    /// The integer that equals a 64-bit one.
    pub fn from_u64(value: u64) -> (number: U256)
        ensures
            number@ == value,
    {
        let number = U256([value, 0, 0, 0]);
        assert(number@ == value) by {
            assert(number.0[0] == value && number.0[1] == 0 && number.0[2] == 0 && number.0[3]
                == 0);
            assert(0 * pow256(8) == 0 && 0 * pow256(16) == 0 && 0 * pow256(24) == 0)
                by (nonlinear_arith);
        }
        number
    }

    /// A 256-bit integer is below 256 to the 32.
    pub proof fn lemma_view_bound(self)
        ensures
            self@ < pow256(32),
    {
        lemma_pow256_values();
        lemma_pow256_add(8, 8);
        lemma_pow256_add(8, 16);
        lemma_pow256_add(8, 24);
        let b = pow256(8);
        let (l0, l1, l2, l3) = (self.0[0] as nat, self.0[1] as nat, self.0[2] as nat, self.0[3] as nat);
        assert(l0 + l1 * b + l2 * (b * b) + l3 * (b * (b * b)) < b * (b * (b * b)))
            by (nonlinear_arith)
            requires
                l0 < b,
                l1 < b,
                l2 < b,
                l3 < b,
        ;
    }

    /// The integer that stands for `value`, reduced modulo 2^256: its limbs are
    /// the digits of `value` in base 2^64.
    pub open spec fn from_nat(value: nat) -> U256 {
        let b = pow256(8);
        U256(
            [
                (value % b) as u64,
                (value / b % b) as u64,
                (value / b / b % b) as u64,
                (value / b / b / b % b) as u64,
            ],
        )
    }

    /// The limbs of an integer are the base-2^64 digits of its number.
    pub proof fn lemma_from_nat_of_view(self)
        ensures
            U256::from_nat(self@) == self,
    {
        lemma_pow256_values();
        lemma_pow256_add(8, 8);
        lemma_pow256_add(8, 16);
        let b = pow256(8) as int;
        let (l0, l1, l2, l3) = (self.0[0] as int, self.0[1] as int, self.0[2] as int, self.0[3] as int);
        let v = self@ as int;
        let q1 = l1 + l2 * b + l3 * (b * b);
        let q2 = l2 + l3 * b;
        assert(v == q1 * b + l0 && q1 == q2 * b + l1) by (nonlinear_arith)
            requires
                v == l0 + l1 * b + l2 * (b * b) + l3 * (b * (b * b)),
                q1 == l1 + l2 * b + l3 * (b * b),
                q2 == l2 + l3 * b,
        ;
        lemma_fundamental_div_mod_converse(v, b, q1, l0);
        lemma_fundamental_div_mod_converse(q1, b, q2, l1);
        lemma_fundamental_div_mod_converse(q2, b, l3, l2);
        lemma_fundamental_div_mod_converse(l3, b, 0, l3);
        assert(U256::from_nat(self@).0 =~= self.0);
    }

    /// A number below 2^256 is the number of the integer made from it.
    pub proof fn lemma_view_of_from_nat(value: nat)
        requires
            value < pow256(32),
        ensures
            U256::from_nat(value)@ == value,
    {
        lemma_pow256_values();
        lemma_pow256_add(8, 8);
        lemma_pow256_add(8, 16);
        lemma_pow256_add(8, 24);
        let b = pow256(8) as int;
        let v = value as int;
        let q1 = v / b;
        let q2 = q1 / b;
        let q3 = q2 / b;
        lemma_fundamental_div_mod(v, b);
        lemma_fundamental_div_mod(q1, b);
        lemma_fundamental_div_mod(q2, b);
        assert(q1 < b * (b * b)) by (nonlinear_arith)
            requires
                v == b * q1 + v % b,
                0 <= v % b,
                v < b * (b * (b * b)),
                b > 0,
        ;
        assert(q2 < b * b) by (nonlinear_arith)
            requires
                q1 == b * q2 + q1 % b,
                0 <= q1 % b,
                q1 < b * (b * b),
                b > 0,
        ;
        assert(0 <= q3 < b) by (nonlinear_arith)
            requires
                q2 == b * q3 + q2 % b,
                0 <= q2 % b < b,
                0 <= q2 < b * b,
                b > 0,
        ;
        lemma_small_mod(q3 as nat, b as nat);
        let number = U256::from_nat(value);
        assert(number.0[0] == v % b && number.0[1] == q1 % b && number.0[2] == q2 % b
            && number.0[3] == q3);
        assert(v == v % b + (q1 % b) * b + (q2 % b) * (b * b) + q3 * (b * (b * b)))
            by (nonlinear_arith)
            requires
                v == b * q1 + v % b,
                q1 == b * q2 + q1 % b,
                q2 == b * q3 + q2 % b,
        ;
    }
}

} // verus!
