//! The primitive decoder library: the built-in scalar types' decode
//! implementations, anchored in the byte-order model, and the batched
//! fixed-array decoder.

use vstd::prelude::*;

use crate::byte_order::{
    as_signed, be_value, le_value, lemma_pow256_le, lemma_value_of_bound, pow256, value_of,
    ByteOrder,
};
use crate::decode::{Decode, Nil};
use crate::reader::{DecodeError, Reader};

verus! {

/// Reads a `width`-byte unsigned word (at most 8 bytes) under byte order
/// `bo`.  Succeeds exactly when `width` bytes remain, consuming them;
/// otherwise fails with the cursor unmoved.
pub fn read_word(r: &mut Reader, width: usize, bo: ByteOrder) -> (res: Result<u64, DecodeError>)
    requires
        old(r).wf(),
        1 <= width <= 8,
    ensures
        final(r).wf(),
        final(r).sdata() == old(r).sdata(),
        (match res {
            Ok(v) => {
                &&& old(r).remaining() >= width
                &&& final(r).spos() == old(r).spos() + width
                &&& v as nat == value_of(
                    old(r).sdata().subrange(
                        old(r).spos() as int,
                        old(r).spos() as int + width as int,
                    ),
                    bo,
                )
            },
            Err(e) => {
                &&& e == DecodeError::ShortRead
                &&& old(r).remaining() < width
                &&& final(r).spos() == old(r).spos()
            },
        }),
{
    if r.remaining_len() < width {
        return Err(DecodeError::ShortRead);
    }
    let ghost win = old(r).sdata().subrange(
        old(r).spos() as int,
        old(r).spos() as int + width as int,
    );
    let mut v: u64 = 0;
    match bo {
        ByteOrder::LittleEndian => {
            let mut i: usize = width;
            assert(win.skip(i as int) =~= Seq::<u8>::empty());
            while i > 0
                invariant
                    i <= width <= 8,
                    old(r).wf(),
                    r == old(r),
                    width <= old(r).remaining(),
                    win == old(r).sdata().subrange(
                        old(r).spos() as int,
                        old(r).spos() as int + width as int,
                    ),
                    v as nat == le_value(win.skip(i as int)),
                decreases i,
            {
                i = i - 1;
                let b = r.peek(i);
                proof {
                    lemma_value_of_bound(win.skip(i as int + 1), ByteOrder::LittleEndian);
                    lemma_pow256_le(win.skip(i as int + 1).len() as nat, 7);
                    reveal_with_fuel(pow256, 8);
                    assert(win.skip(i as int).skip(1) =~= win.skip(i as int + 1));
                    assert(win.skip(i as int)[0] == win[i as int]);
                    assert(win[i as int] == b);
                }
                v = v * 256 + (b as u64);
            }
            proof {
                assert(win.skip(0) =~= win);
            }
        },
        ByteOrder::BigEndian => {
            let mut i: usize = 0;
            assert(win.subrange(0, 0) =~= Seq::<u8>::empty());
            while i < width
                invariant
                    i <= width <= 8,
                    old(r).wf(),
                    r == old(r),
                    width <= old(r).remaining(),
                    win == old(r).sdata().subrange(
                        old(r).spos() as int,
                        old(r).spos() as int + width as int,
                    ),
                    v as nat == be_value(win.subrange(0, i as int)),
                decreases width - i,
            {
                let b = r.peek(i);
                proof {
                    lemma_value_of_bound(win.subrange(0, i as int), ByteOrder::BigEndian);
                    lemma_pow256_le(i as nat, 7);
                    reveal_with_fuel(pow256, 8);
                    assert(win.subrange(0, i as int + 1).drop_last() =~= win.subrange(0, i as int));
                    assert(win.subrange(0, i as int + 1).last() == win[i as int]);
                    assert(win[i as int] == b);
                }
                v = v * 256 + (b as u64);
                i = i + 1;
            }
            proof {
                assert(win.subrange(0, width as int) =~= win);
            }
        },
    }
    r.advance(width);
    Ok(v)
}

impl Decode<Nil> for u8 {
    open spec fn spec_width() -> nat {
        1
    }

    open spec fn spec_value(bytes: Seq<u8>, bo: ByteOrder, arg: Nil) -> u8 {
        value_of(bytes, bo) as u8
    }

    fn decode(r: &mut Reader, bo: ByteOrder, arg: Nil) -> Result<u8, DecodeError> {
        match read_word(r, 1, bo) {
            Ok(v) => {
                proof {
                    lemma_value_of_bound(
                        old(r).sdata().subrange(old(r).spos() as int, old(r).spos() as int + 1),
                        bo,
                    );
                    reveal_with_fuel(pow256, 2);
                }
                Ok(v as u8)
            },
            Err(e) => Err(e),
        }
    }
}

impl Decode<Nil> for u16 {
    open spec fn spec_width() -> nat {
        2
    }

    open spec fn spec_value(bytes: Seq<u8>, bo: ByteOrder, arg: Nil) -> u16 {
        value_of(bytes, bo) as u16
    }

    fn decode(r: &mut Reader, bo: ByteOrder, arg: Nil) -> Result<u16, DecodeError> {
        match read_word(r, 2, bo) {
            Ok(v) => {
                proof {
                    lemma_value_of_bound(
                        old(r).sdata().subrange(old(r).spos() as int, old(r).spos() as int + 2),
                        bo,
                    );
                    reveal_with_fuel(pow256, 3);
                }
                Ok(v as u16)
            },
            Err(e) => Err(e),
        }
    }
}

impl Decode<Nil> for u32 {
    open spec fn spec_width() -> nat {
        4
    }

    open spec fn spec_value(bytes: Seq<u8>, bo: ByteOrder, arg: Nil) -> u32 {
        value_of(bytes, bo) as u32
    }

    fn decode(r: &mut Reader, bo: ByteOrder, arg: Nil) -> Result<u32, DecodeError> {
        match read_word(r, 4, bo) {
            Ok(v) => {
                proof {
                    lemma_value_of_bound(
                        old(r).sdata().subrange(old(r).spos() as int, old(r).spos() as int + 4),
                        bo,
                    );
                    reveal_with_fuel(pow256, 5);
                }
                Ok(v as u32)
            },
            Err(e) => Err(e),
        }
    }
}

impl Decode<Nil> for u64 {
    open spec fn spec_width() -> nat {
        8
    }

    open spec fn spec_value(bytes: Seq<u8>, bo: ByteOrder, arg: Nil) -> u64 {
        value_of(bytes, bo) as u64
    }

    fn decode(r: &mut Reader, bo: ByteOrder, arg: Nil) -> Result<u64, DecodeError> {
        match read_word(r, 8, bo) {
            Ok(v) => {
                proof {
                    lemma_value_of_bound(
                        old(r).sdata().subrange(old(r).spos() as int, old(r).spos() as int + 8),
                        bo,
                    );
                    reveal_with_fuel(pow256, 9);
                }
                Ok(v)
            },
            Err(e) => Err(e),
        }
    }
}

impl Decode<Nil> for i8 {
    open spec fn spec_width() -> nat {
        1
    }

    open spec fn spec_value(bytes: Seq<u8>, bo: ByteOrder, arg: Nil) -> i8 {
        as_signed(value_of(bytes, bo), 1) as i8
    }

    fn decode(r: &mut Reader, bo: ByteOrder, arg: Nil) -> Result<i8, DecodeError> {
        match read_word(r, 1, bo) {
            Ok(v) => {
                proof {
                    lemma_value_of_bound(
                        old(r).sdata().subrange(old(r).spos() as int, old(r).spos() as int + 1),
                        bo,
                    );
                    reveal_with_fuel(pow256, 2);
                }
                if v < 0x80 {
                    Ok(v as i8)
                } else {
                    Ok(((v as i32) - 0x100) as i8)
                }
            },
            Err(e) => Err(e),
        }
    }
}

impl Decode<Nil> for i16 {
    open spec fn spec_width() -> nat {
        2
    }

    open spec fn spec_value(bytes: Seq<u8>, bo: ByteOrder, arg: Nil) -> i16 {
        as_signed(value_of(bytes, bo), 2) as i16
    }

    fn decode(r: &mut Reader, bo: ByteOrder, arg: Nil) -> Result<i16, DecodeError> {
        match read_word(r, 2, bo) {
            Ok(v) => {
                proof {
                    lemma_value_of_bound(
                        old(r).sdata().subrange(old(r).spos() as int, old(r).spos() as int + 2),
                        bo,
                    );
                    reveal_with_fuel(pow256, 3);
                }
                if v < 0x8000 {
                    Ok(v as i16)
                } else {
                    Ok(((v as i32) - 0x10000) as i16)
                }
            },
            Err(e) => Err(e),
        }
    }
}

impl Decode<Nil> for i32 {
    open spec fn spec_width() -> nat {
        4
    }

    open spec fn spec_value(bytes: Seq<u8>, bo: ByteOrder, arg: Nil) -> i32 {
        as_signed(value_of(bytes, bo), 4) as i32
    }

    fn decode(r: &mut Reader, bo: ByteOrder, arg: Nil) -> Result<i32, DecodeError> {
        match read_word(r, 4, bo) {
            Ok(v) => {
                proof {
                    lemma_value_of_bound(
                        old(r).sdata().subrange(old(r).spos() as int, old(r).spos() as int + 4),
                        bo,
                    );
                    reveal_with_fuel(pow256, 5);
                }
                if v < 0x8000_0000 {
                    Ok(v as i32)
                } else {
                    Ok(((v as i64) - 0x1_0000_0000) as i32)
                }
            },
            Err(e) => Err(e),
        }
    }
}

impl Decode<Nil> for i64 {
    open spec fn spec_width() -> nat {
        8
    }

    open spec fn spec_value(bytes: Seq<u8>, bo: ByteOrder, arg: Nil) -> i64 {
        as_signed(value_of(bytes, bo), 8) as i64
    }

    fn decode(r: &mut Reader, bo: ByteOrder, arg: Nil) -> Result<i64, DecodeError> {
        match read_word(r, 8, bo) {
            Ok(v) => {
                proof {
                    lemma_value_of_bound(
                        old(r).sdata().subrange(old(r).spos() as int, old(r).spos() as int + 8),
                        bo,
                    );
                    reveal_with_fuel(pow256, 9);
                }
                if v < 0x8000_0000_0000_0000 {
                    Ok(v as i64)
                } else {
                    Ok(((v as i128) - 0x1_0000_0000_0000_0000) as i64)
                }
            },
            Err(e) => Err(e),
        }
    }
}

/// The values of a fixed array of `n` elements of `T`, laid out back to
/// back from `off` in `data`: element `i` is decoded from its own
/// `T::spec_width()`-byte slot under the one shared byte order.
pub open spec fn array_values<T: Decode<Nil>>(
    data: Seq<u8>,
    off: int,
    bo: ByteOrder,
    n: nat,
) -> Seq<T> {
    Seq::new(
        n,
        |i: int|
            T::spec_value(
                data.subrange(
                    off + i * T::spec_width() as int,
                    off + (i + 1) * T::spec_width() as int,
                ),
                bo,
                Nil,
            ),
    )
}

/// Batch equivalence: decoding a fixed array of `n` elements gives, at each
/// position, exactly what a scalar decode of the same type and byte order
/// gives on that element's own bytes.  A batched array read is therefore
/// byte-for-byte equivalent to `n` individual scalar reads.
pub proof fn lemma_array_batch_equivalence<T: Decode<Nil>>(
    data: Seq<u8>,
    off: int,
    bo: ByteOrder,
    n: nat,
    i: int,
)
    requires
        0 <= i < n,
    ensures
        array_values::<T>(data, off, bo, n)[i] == T::spec_value(
            data.subrange(
                off + i * T::spec_width() as int,
                off + (i + 1) * T::spec_width() as int,
            ),
            bo,
            Nil,
        ),
{
}

/// Decodes a fixed array of `n` elements of `T`, element by element in
/// order, under one byte order.  Succeeds exactly when all `n` slots fit in
/// the remaining input; on a short source the cursor is restored to where
/// the array began, so a truncated read leaves nothing partially consumed.
pub fn decode_array<T: Decode<Nil>>(r: &mut Reader, bo: ByteOrder, n: usize) -> (res: Result<
    Vec<T>,
    DecodeError,
>)
    requires
        old(r).wf(),
    ensures
        final(r).wf(),
        final(r).sdata() == old(r).sdata(),
        (match res {
            Ok(vs) => {
                &&& old(r).remaining() >= n * T::spec_width()
                &&& final(r).spos() == old(r).spos() + n * T::spec_width()
                &&& vs@ == array_values::<T>(old(r).sdata(), old(r).spos() as int, bo, n as nat)
            },
            Err(e) => {
                &&& e == DecodeError::ShortRead
                &&& old(r).remaining() < n * T::spec_width()
                &&& final(r).spos() == old(r).spos()
            },
        }),
{
    let start = r.position();
    let mut out: Vec<T> = Vec::new();
    let mut i: usize = 0;
    assert(out@ =~= array_values::<T>(old(r).sdata(), old(r).spos() as int, bo, 0));
    while i < n
        invariant
            i <= n,
            r.wf(),
            r.sdata() == old(r).sdata(),
            old(r).wf(),
            start as nat == old(r).spos(),
            r.spos() == old(r).spos() + i as nat * T::spec_width(),
            out@ == array_values::<T>(old(r).sdata(), old(r).spos() as int, bo, i as nat),
        decreases n - i,
    {
        let ghost w = T::spec_width() as int;
        let ghost off = old(r).spos() as int;
        match T::decode(r, bo, Nil) {
            Ok(v) => {
                out.push(v);
                proof {
                    assert((i as int + 1) * w == i as int * w + w) by (nonlinear_arith);
                    let av = array_values::<T>(old(r).sdata(), off, bo, (i + 1) as nat);
                    assert forall|k: int| 0 <= k < out@.len() implies out@[k] == av[k] by {
                        if k < i as int {
                            assert(out@[k] == array_values::<T>(
                                old(r).sdata(),
                                off,
                                bo,
                                i as nat,
                            )[k]);
                        }
                    }
                    assert(out@ =~= av);
                }
            },
            Err(_) => {
                proof {
                    assert((i as int + 1) * w == i as int * w + w) by (nonlinear_arith);
                    assert((i as int + 1) * w <= n as int * w) by (nonlinear_arith)
                        requires
                            i as int + 1 <= n as int,
                            w >= 0,
                    ;
                }
                r.seek(start);
                return Err(DecodeError::ShortRead);
            },
        }
        i = i + 1;
    }
    Ok(out)
}

/// The bit pattern of a 32-bit IEEE-754 value.
///
/// Floating-point arithmetic stays outside this library; the wire encoding
/// of a 32-bit float is exactly its bit pattern under the active byte order,
/// and the caller reinterprets the bits as a float.
#[derive(Clone, Copy, PartialEq, Eq, Structural, Debug)]
pub struct F32Bits(pub u32);

impl Decode<Nil> for F32Bits {
    open spec fn spec_width() -> nat {
        4
    }

    open spec fn spec_value(bytes: Seq<u8>, bo: ByteOrder, arg: Nil) -> F32Bits {
        F32Bits(value_of(bytes, bo) as u32)
    }

    fn decode(r: &mut Reader, bo: ByteOrder, arg: Nil) -> Result<F32Bits, DecodeError> {
        match <u32 as Decode<Nil>>::decode(r, bo, arg) {
            Ok(v) => Ok(F32Bits(v)),
            Err(e) => Err(e),
        }
    }
}

/// The bit pattern of a 64-bit IEEE-754 value; see [`F32Bits`].
#[derive(Clone, Copy, PartialEq, Eq, Structural, Debug)]
pub struct F64Bits(pub u64);

impl Decode<Nil> for F64Bits {
    open spec fn spec_width() -> nat {
        8
    }

    open spec fn spec_value(bytes: Seq<u8>, bo: ByteOrder, arg: Nil) -> F64Bits {
        F64Bits(value_of(bytes, bo) as u64)
    }

    fn decode(r: &mut Reader, bo: ByteOrder, arg: Nil) -> Result<F64Bits, DecodeError> {
        match <u64 as Decode<Nil>>::decode(r, bo, arg) {
            Ok(v) => Ok(F64Bits(v)),
            Err(e) => Err(e),
        }
    }
}

} // verus!
