//! Base-256 positional notation, most significant byte first: the model that
//! every integer encoding in this crate is stated against.

use vstd::prelude::*;

verus! {

/// 256 to the power `n`.
pub open spec fn pow256(n: nat) -> nat
    decreases n,
{
    if n == 0 {
        1
    } else {
        256 * pow256((n - 1) as nat)
    }
}

/// The big-endian digits of `value` in base 256, `width` of them: the most
/// significant byte comes first, and digits above `width` are dropped.
pub open spec fn be_bytes(value: nat, width: nat) -> Seq<u8>
    decreases width,
{
    if width == 0 {
        Seq::empty()
    } else {
        be_bytes(value / 256, (width - 1) as nat).push((value % 256) as u8)
    }
}

/// The number that `bytes` spell in base 256, most significant byte first.
pub open spec fn be_value(bytes: Seq<u8>) -> nat
    decreases bytes.len(),
{
    if bytes.len() == 0 {
        0
    } else {
        256 * be_value(bytes.drop_last()) + bytes.last() as nat
    }
}

pub proof fn lemma_pow256_add(a: nat, b: nat)
    ensures
        pow256(a + b) == pow256(a) * pow256(b),
    decreases a,
{
    if a == 0 {
        assert(pow256(0 + b) == 1 * pow256(b));
    } else {
        lemma_pow256_add((a - 1) as nat, b);
        assert(pow256(a + b) == 256 * pow256((a - 1 + b) as nat));
        assert(256 * (pow256((a - 1) as nat) * pow256(b)) == (256 * pow256((a - 1) as nat))
            * pow256(b)) by (nonlinear_arith);
    }
}

/// The first few powers, as the numbers that the integer types are bounded by.
pub proof fn lemma_pow256_values()
    ensures
        pow256(0) == 1,
        pow256(1) == 0x100,
        pow256(2) == 0x1_0000,
        pow256(3) == 0x100_0000,
        pow256(4) == 0x1_0000_0000,
        pow256(5) == 0x100_0000_0000,
        pow256(6) == 0x1_0000_0000_0000,
        pow256(7) == 0x100_0000_0000_0000,
        pow256(8) == 0x1_0000_0000_0000_0000,
{
    reveal_with_fuel(pow256, 9);
}

/// An encoding has exactly as many bytes as it was asked for.
pub proof fn lemma_be_bytes_len(value: nat, width: nat)
    ensures
        be_bytes(value, width).len() == width,
    decreases width,
{
    if width > 0 {
        lemma_be_bytes_len(value / 256, (width - 1) as nat);
    }
}

/// What `n` bytes spell is below 256 to the `n`.
pub proof fn lemma_be_value_bound(bytes: Seq<u8>)
    ensures
        be_value(bytes) < pow256(bytes.len()),
    decreases bytes.len(),
{
    if bytes.len() > 0 {
        lemma_be_value_bound(bytes.drop_last());
    }
}

/// Reading back the digits of a number that fits in them gives the number.
pub proof fn lemma_be_value_of_be_bytes(value: nat, width: nat)
    requires
        value < pow256(width),
    ensures
        be_value(be_bytes(value, width)) == value,
    decreases width,
{
    if width > 0 {
        let rest = be_bytes(value / 256, (width - 1) as nat);
        let digits = be_bytes(value, width);
        lemma_be_value_of_be_bytes(value / 256, (width - 1) as nat);
        lemma_be_bytes_len(value / 256, (width - 1) as nat);
        assert(digits.drop_last() =~= rest);
        assert(digits.last() == (value % 256) as u8);
    }
}

/// Writing out what some bytes spell, at their own length, gives the bytes.
pub proof fn lemma_be_bytes_of_be_value(bytes: Seq<u8>)
    ensures
        be_bytes(be_value(bytes), bytes.len()) == bytes,
    decreases bytes.len(),
{
    if bytes.len() > 0 {
        let value = be_value(bytes);
        lemma_be_bytes_of_be_value(bytes.drop_last());
        assert(value / 256 == be_value(bytes.drop_last()));
        assert(value % 256 == bytes.last() as nat);
        assert(be_bytes(value, bytes.len()) =~= bytes);
    } else {
        assert(be_bytes(be_value(bytes), 0) =~= bytes);
    }
}

/// The digits of a sequence followed by another: the first is shifted up by
/// the length of the second.
pub proof fn lemma_be_value_concat(high: Seq<u8>, low: Seq<u8>)
    ensures
        be_value(high + low) == be_value(high) * pow256(low.len()) + be_value(low),
    decreases low.len(),
{
    let h = be_value(high);
    if low.len() == 0 {
        assert(high + low =~= high);
        assert(h * 1 == h) by (nonlinear_arith);
    } else {
        let joined = high + low;
        lemma_be_value_concat(high, low.drop_last());
        assert(joined.drop_last() =~= high + low.drop_last());
        assert(joined.last() == low.last());
        let p = pow256((low.len() - 1) as nat);
        let l = be_value(low.drop_last());
        assert(be_value(joined) == 256 * (h * p + l) + low.last() as nat);
        assert(256 * (h * p + l) == h * (256 * p) + 256 * l) by (nonlinear_arith);
    }
}

/// The digits of `high * 256^k + low`, for a `low` that fits in `k` digits,
/// are the digits of `high` followed by the `k` digits of `low`.
pub proof fn lemma_be_bytes_concat(high: nat, high_width: nat, low: nat, low_width: nat)
    requires
        low < pow256(low_width),
    ensures
        be_bytes(high * pow256(low_width) + low, high_width + low_width) == be_bytes(
            high,
            high_width,
        ) + be_bytes(low, low_width),
    decreases low_width,
{
    let whole = high * pow256(low_width) + low;
    if low_width == 0 {
        assert(whole == high) by (nonlinear_arith)
            requires
                whole == high * 1 + low,
                low == 0,
        ;
        assert(be_bytes(high, high_width) + be_bytes(low, 0) =~= be_bytes(high, high_width));
    } else {
        let p = pow256((low_width - 1) as nat);
        assert(whole / 256 == high * p + low / 256 && whole % 256 == low % 256
            && low / 256 < p) by (nonlinear_arith)
            requires
                whole == high * (256 * p) + low,
                low < 256 * p,
        ;
        lemma_be_bytes_concat(high, high_width, low / 256, (low_width - 1) as nat);
        assert(be_bytes(whole, high_width + low_width) =~= be_bytes(high, high_width) + be_bytes(
            low,
            low_width,
        ));
    }
}

pub proof fn lemma_pow256_monotonic(a: nat, b: nat)
    requires
        a <= b,
    ensures
        pow256(a) <= pow256(b),
    decreases b,
{
    if a < b {
        lemma_pow256_monotonic(a, (b - 1) as nat);
    }
}

/// The number that at most eight bytes spell, most significant byte first.
pub fn read_be(bytes: &[u8]) -> (value: u64)
    requires
        bytes@.len() <= 8,
    ensures
        value == be_value(bytes@),
{
    let mut value: u64 = 0;
    let mut i: usize = 0;
    while i < bytes.len()
        invariant
            i <= bytes@.len() <= 8,
            value == be_value(bytes@.take(i as int)),
        decreases bytes@.len() - i,
    {
        proof {
            let seen = bytes@.take(i as int);
            let next = bytes@.take(i + 1);
            lemma_be_value_bound(seen);
            lemma_pow256_values();
            assert(next.drop_last() =~= seen);
            assert(next.last() == bytes@[i as int]);
            assert(pow256(seen.len()) <= pow256(7)) by {
                lemma_pow256_monotonic(seen.len(), 7);
            }
        }
        value = value * 256 + bytes[i] as u64;
        i += 1;
    }
    assert(bytes@.take(i as int) =~= bytes@);
    value
}

} // verus!
