//! The length prefix of a frame: an unsigned integer in base 128, least
//! significant digit first, one digit in the low seven bits of each byte. The
//! high bit of a byte says that another byte follows.

use vstd::prelude::*;

verus! {

/// The longest prefix that can spell a 64-bit length.
pub const MAX_VARINT_LEN: usize = 10;

/// What the head of a buffer says about the length prefix.
#[derive(Clone, Copy, Debug, PartialEq, Eq, Structural)]
pub enum Varint {
    /// Every byte so far announces another one, and there is still room for it.
    NeedMore,
    /// Ten bytes went by without a last one, or the digits exceed 64 bits.
    Malformed,
    /// The prefix is the first `len` bytes and spells `value`.
    Value { value: u64, len: usize },
}

/// 128 to the power `n`.
pub open spec fn pow128(n: nat) -> nat
    decreases n,
{
    if n == 0 {
        1
    } else {
        128 * pow128((n - 1) as nat)
    }
}

/// The number spelled by the low seven bits of the first `n` bytes, the first
/// byte being the least significant digit.
pub open spec fn varint_sum(bytes: Seq<u8>, n: nat) -> nat
    decreases n,
{
    if n == 0 {
        0
    } else {
        varint_sum(bytes, (n - 1) as nat) + (bytes[n - 1] % 128) as nat * pow128((n - 1) as nat)
    }
}

/// The index of the first byte at or after `from` whose high bit is clear.
pub open spec fn last_byte_index(bytes: Seq<u8>, from: nat) -> Option<nat>
    decreases bytes.len() - from,
{
    if from >= bytes.len() {
        None
    } else if bytes[from as int] < 128 {
        Some(from)
    } else {
        last_byte_index(bytes, from + 1)
    }
}

/// The length prefix at the head of `bytes`. Only the first ten bytes count:
/// with no last byte among them the prefix is malformed once all ten are
/// there, and incomplete before that.
pub open spec fn varint_of(bytes: Seq<u8>) -> Varint {
    let head = if bytes.len() <= MAX_VARINT_LEN { bytes } else { bytes.take(MAX_VARINT_LEN as int) };
    match last_byte_index(head, 0) {
        Some(t) => {
            if varint_sum(bytes, t + 1) > u64::MAX {
                Varint::Malformed
            } else {
                Varint::Value { value: varint_sum(bytes, t + 1) as u64, len: (t + 1) as usize }
            }
        },
        None => {
            if bytes.len() >= MAX_VARINT_LEN {
                Varint::Malformed
            } else {
                Varint::NeedMore
            }
        },
    }
}

pub proof fn lemma_pow128_values()
    ensures
        pow128(0) == 1,
        pow128(1) == 0x80,
        pow128(2) == 0x4000,
        pow128(3) == 0x20_0000,
        pow128(4) == 0x1000_0000,
        pow128(5) == 0x8_0000_0000,
        pow128(6) == 0x400_0000_0000,
        pow128(7) == 0x2_0000_0000_0000,
        pow128(8) == 0x100_0000_0000_0000,
        pow128(9) == 0x8000_0000_0000_0000,
{
    reveal_with_fuel(pow128, 10);
}

pub proof fn lemma_pow128_monotonic(a: nat, b: nat)
    requires
        a <= b,
    ensures
        pow128(a) <= pow128(b),
    decreases b,
{
    if a < b {
        lemma_pow128_monotonic(a, (b - 1) as nat);
    }
}

/// `n` digits spell a number below 128 to the `n`.
pub proof fn lemma_varint_sum_bound(bytes: Seq<u8>, n: nat)
    ensures
        varint_sum(bytes, n) < pow128(n),
    decreases n,
{
    if n > 0 {
        lemma_varint_sum_bound(bytes, (n - 1) as nat);
        let d = (bytes[n - 1] % 128) as nat;
        let p = pow128((n - 1) as nat);
        assert(d * p <= 127 * p) by (nonlinear_arith)
            requires
                d <= 127,
        ;
    }
}

/// The sum of the first `n` digits looks at the first `n` bytes only.
pub proof fn lemma_varint_sum_local(a: Seq<u8>, b: Seq<u8>, n: nat)
    requires
        n <= a.len(),
        n <= b.len(),
        forall|i: int| 0 <= i < n ==> a[i] == b[i],
    ensures
        varint_sum(a, n) == varint_sum(b, n),
    decreases n,
{
    if n > 0 {
        lemma_varint_sum_local(a, b, (n - 1) as nat);
    }
}

/// `last_byte_index` finds the first byte with a clear high bit, and says
/// `None` exactly when there is none.
pub proof fn lemma_last_byte_index(bytes: Seq<u8>, from: nat)
    ensures
        match last_byte_index(bytes, from) {
            Some(t) => from <= t < bytes.len() && bytes[t as int] < 128 && forall|j: int|
                from <= j < t ==> bytes[j] >= 128,
            None => forall|j: int| from <= j < bytes.len() ==> bytes[j] >= 128,
        },
    decreases bytes.len() - from,
{
    if from < bytes.len() && bytes[from as int] >= 128 {
        lemma_last_byte_index(bytes, from + 1);
    }
}

/// Whatever index holds the first byte with a clear high bit is the one that
/// `last_byte_index` returns.
pub proof fn lemma_last_byte_index_is(bytes: Seq<u8>, from: nat, t: nat)
    requires
        from <= t < bytes.len(),
        bytes[t as int] < 128,
        forall|j: int| from <= j < t ==> bytes[j] >= 128,
    ensures
        last_byte_index(bytes, from) == Some(t),
    decreases t - from,
{
    if from < t {
        lemma_last_byte_index_is(bytes, from + 1, t);
    }
}

pub proof fn lemma_last_byte_index_none(bytes: Seq<u8>, from: nat)
    requires
        forall|j: int| from <= j < bytes.len() ==> bytes[j] >= 128,
    ensures
        last_byte_index(bytes, from) is None,
    decreases bytes.len() - from,
{
    if from < bytes.len() {
        lemma_last_byte_index_none(bytes, from + 1);
    }
}

/// A prefix that has been read stays what it is when more bytes follow it, and
/// reads as incomplete from any buffer that stops short of its last byte.
pub proof fn lemma_varint_prefix(bytes: Seq<u8>, k: int)
    requires
        varint_of(bytes) is Value,
        0 <= k <= bytes.len(),
    ensures
        k >= varint_of(bytes)->len ==> varint_of(bytes.take(k)) == varint_of(bytes),
        k < varint_of(bytes)->len ==> varint_of(bytes.take(k)) == Varint::NeedMore,
        1 <= varint_of(bytes)->len <= MAX_VARINT_LEN,
        varint_of(bytes)->len <= bytes.len(),
{
    let head = if bytes.len() <= MAX_VARINT_LEN { bytes } else { bytes.take(MAX_VARINT_LEN as int) };
    let cut = bytes.take(k);
    let cut_head = if cut.len() <= MAX_VARINT_LEN { cut } else { cut.take(MAX_VARINT_LEN as int) };
    lemma_last_byte_index(head, 0);
    let t = last_byte_index(head, 0)->0;
    if k >= t + 1 {
        lemma_last_byte_index_is(cut_head, 0, t);
        lemma_varint_sum_local(bytes, cut, t + 1);
    } else {
        lemma_last_byte_index_none(cut_head, 0);
    }
}

/// A prefix that is complete, or malformed, is the same whatever follows it.
pub proof fn lemma_varint_extend(bytes: Seq<u8>, more: Seq<u8>)
    requires
        !(varint_of(bytes) is NeedMore),
    ensures
        varint_of(bytes + more) == varint_of(bytes),
{
    let longer = bytes + more;
    let head = if bytes.len() <= MAX_VARINT_LEN { bytes } else { bytes.take(MAX_VARINT_LEN as int) };
    let longer_head = if longer.len() <= MAX_VARINT_LEN {
        longer
    } else {
        longer.take(MAX_VARINT_LEN as int)
    };
    lemma_last_byte_index(head, 0);
    match last_byte_index(head, 0) {
        Some(t) => {
            assert forall|j: int| 0 <= j <= t implies longer_head[j] == head[j] by {}
            lemma_last_byte_index_is(longer_head, 0, t);
            lemma_varint_sum_local(bytes, longer, t + 1);
        },
        None => {
            assert(longer_head =~= head);
        },
    }
}

/// Reads the length prefix at the head of `bytes`.
pub fn parse_varint(bytes: &[u8]) -> (parsed: Varint)
    ensures
        parsed == varint_of(bytes@),
{
    let ghost head = if bytes@.len() <= MAX_VARINT_LEN { bytes@ } else { bytes@.take(MAX_VARINT_LEN as int) };
    let mut value: u64 = 0;
    let mut scale: u64 = 1;
    let mut i: usize = 0;
    while i < bytes.len() && i < 9
        invariant
            i <= 9,
            i <= bytes@.len(),
            head == if bytes@.len() <= MAX_VARINT_LEN { bytes@ } else { bytes@.take(MAX_VARINT_LEN as int) },
            forall|j: int| 0 <= j < i ==> bytes@[j] >= 128,
            value == varint_sum(bytes@, i as nat),
            scale == pow128(i as nat),
        decreases bytes@.len() - i,
    {
        let byte = bytes[i];
        proof {
            lemma_varint_sum_bound(bytes@, i as nat);
            lemma_pow128_values();
            lemma_pow128_monotonic(i as nat, 8);
            lemma_pow128_monotonic((i + 1) as nat, 9);
            assert((byte % 128) as nat * pow128(i as nat) <= 127 * pow128(i as nat))
                by (nonlinear_arith)
                requires
                    byte % 128 <= 127,
            ;
        }
        value = value + (byte % 128) as u64 * scale;
        if byte < 128 {
            proof {
                lemma_last_byte_index_is(head, 0, i as nat);
                lemma_varint_sum_bound(bytes@, (i + 1) as nat);
            }
            return Varint::Value { value, len: i + 1 };
        }
        scale = scale * 128;
        i += 1;
    }
    if i < bytes.len() {
        let byte = bytes[9];
        proof {
            lemma_varint_sum_bound(bytes@, 9);
            lemma_pow128_values();
        }
        if byte >= 128 {
            proof {
                lemma_last_byte_index_none(head, 0);
            }
            Varint::Malformed
        } else if byte > 1 {
            proof {
                lemma_last_byte_index_is(head, 0, 9);
                assert((byte % 128) as nat * pow128(9) >= 2 * pow128(9)) by (nonlinear_arith)
                    requires
                        byte % 128 >= 2,
                ;
            }
            Varint::Malformed
        } else {
            proof {
                lemma_last_byte_index_is(head, 0, 9);
                assert((byte % 128) as nat * pow128(9) <= pow128(9)) by (nonlinear_arith)
                    requires
                        byte % 128 <= 1,
                ;
            }
            value = value + byte as u64 * scale;
            Varint::Value { value, len: 10 }
        }
    } else {
        proof {
            lemma_last_byte_index_none(head, 0);
        }
        Varint::NeedMore
    }
}

} // verus!
