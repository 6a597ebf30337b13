//! The byte-order strategy: the stateless rule that maps a fixed-width byte
//! sequence to a number, in two variants.

use vstd::prelude::*;

verus! {

/// How a fixed-width byte sequence is interpreted as a number.
///
/// Selected per call site; a record field may override it locally without
/// affecting any sibling field.
#[derive(Clone, Copy, PartialEq, Eq, Structural, Debug)]
pub enum ByteOrder {
    /// The first byte is the most significant.
    BigEndian,
    /// The first byte is the least significant.
    LittleEndian,
}

/// Little-endian reading of a byte sequence: the first byte is the least
/// significant.
pub open spec fn le_value(s: Seq<u8>) -> nat
    decreases s.len(),
{
    if s.len() == 0 {
        0
    } else {
        s[0] as nat + 256 * le_value(s.skip(1))
    }
}

/// Big-endian reading of a byte sequence: the last byte is the least
/// significant.
pub open spec fn be_value(s: Seq<u8>) -> nat
    decreases s.len(),
{
    if s.len() == 0 {
        0
    } else {
        256 * be_value(s.drop_last()) + s.last() as nat
    }
}

/// The unsigned number that `s` encodes under byte order `bo`.
pub open spec fn value_of(s: Seq<u8>, bo: ByteOrder) -> nat {
    match bo {
        ByteOrder::BigEndian => be_value(s),
        ByteOrder::LittleEndian => le_value(s),
    }
}

/// `256 ^ n`: the number of values a sequence of `n` bytes can encode.
pub open spec fn pow256(n: nat) -> nat
    decreases n,
{
    if n == 0 {
        1
    } else {
        256 * pow256((n - 1) as nat)
    }
}

/// Every `n`-byte sequence encodes a value below `256 ^ n`, under either
/// byte order.
pub proof fn lemma_value_of_bound(s: Seq<u8>, bo: ByteOrder)
    ensures
        value_of(s, bo) < pow256(s.len()),
    decreases s.len(),
{
    match bo {
        ByteOrder::LittleEndian => {
            if s.len() > 0 {
                lemma_value_of_bound(s.skip(1), bo);
            }
        },
        ByteOrder::BigEndian => {
            if s.len() > 0 {
                lemma_value_of_bound(s.drop_last(), bo);
            }
        },
    }
}

/// `pow256` grows monotonically.
pub proof fn lemma_pow256_le(a: nat, b: nat)
    requires
        a <= b,
    ensures
        pow256(a) <= pow256(b),
    decreases b,
{
    if a < b && b > 0 {
        lemma_pow256_le(a, (b - 1) as nat);
        assert(pow256(b) == 256 * pow256((b - 1) as nat));
    }
}

/// A single byte reads the same under either byte order.
pub proof fn lemma_single_byte_order_independent(s: Seq<u8>)
    requires
        s.len() == 1,
    ensures
        value_of(s, ByteOrder::BigEndian) == value_of(s, ByteOrder::LittleEndian),
        value_of(s, ByteOrder::LittleEndian) == s[0],
{
    assert(s.skip(1) =~= Seq::<u8>::empty());
    assert(s.drop_last() =~= Seq::<u8>::empty());
    assert(s.last() == s[0]);
    assert(le_value(Seq::<u8>::empty()) == 0);
    assert(be_value(Seq::<u8>::empty()) == 0);
    assert(le_value(s) == s[0] + 256 * le_value(s.skip(1)));
    assert(be_value(s) == 256 * be_value(s.drop_last()) + s.last());
}

/// Two's-complement reading of an unsigned value encoded in `width` bytes.
pub open spec fn as_signed(v: nat, width: nat) -> int {
    if 2 * v < pow256(width) {
        v as int
    } else {
        v as int - pow256(width) as int
    }
}

} // verus!
