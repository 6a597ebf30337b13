//! The decode capability: the protocol every decodable type implements.
//!
//! A decodable type occupies a fixed number of bytes on the wire.  Its
//! `decode` reads exactly that many bytes from the shared cursor under a
//! chosen byte order, optionally consuming a caller-supplied argument; a
//! source holding fewer bytes fails the whole read and leaves the cursor
//! where it started.

use vstd::prelude::*;

use crate::byte_order::{value_of, ByteOrder};
use crate::reader::{DecodeError, Reader};

verus! {

/// The neutral "no argument" type: a decode call that needs no extra context
/// takes a `Nil`.
#[derive(Clone, Copy, PartialEq, Eq, Structural, Debug)]
pub struct Nil;

/// The decode capability.
///
/// `Arg` is the type of the caller-supplied context value threaded into the
/// call; types that need none take [`Nil`].  The contract is the decode
/// protocol itself:
///
/// - a value of `Self` occupies exactly [`Decode::spec_width`] bytes;
/// - decoding succeeds if and only if that many bytes remain, and then
///   consumes exactly those bytes, yielding the value that
///   [`Decode::spec_value`] gives them;
/// - on failure the error is [`DecodeError::ShortRead`] and the cursor is
///   left where it started, so no partial consumption is ever observable
///   from a single failed read;
/// - the underlying data is never modified and never read beyond the bytes
///   consumed.
pub trait Decode<Arg = Nil>: Sized {
    /// The fixed number of bytes one value of `Self` occupies on the wire.
    spec fn spec_width() -> nat;

    /// The value that `bytes` (exactly `Self::spec_width()` of them) encode
    /// under byte order `bo`, given the argument `arg`.
    spec fn spec_value(bytes: Seq<u8>, bo: ByteOrder, arg: Arg) -> Self;

    /// Reads exactly one value of `Self` from `r` under byte order `bo`.
    fn decode(r: &mut Reader, bo: ByteOrder, arg: Arg) -> (res: Result<Self, DecodeError>)
        requires
            old(r).wf(),
        ensures
            final(r).wf(),
            final(r).sdata() == old(r).sdata(),
            (match res {
                Ok(v) => {
                    &&& old(r).remaining() >= Self::spec_width()
                    &&& final(r).spos() == old(r).spos() + Self::spec_width()
                    &&& v == Self::spec_value(
                        old(r).sdata().subrange(
                            old(r).spos() as int,
                            old(r).spos() as int + Self::spec_width() as int,
                        ),
                        bo,
                        arg,
                    )
                },
                Err(e) => {
                    &&& e == DecodeError::ShortRead
                    &&& old(r).remaining() < Self::spec_width()
                    &&& final(r).spos() == old(r).spos()
                },
            }),
    ;
}

/// A byte offset by a caller-supplied amount: decoding reads one byte and
/// adds the `u8` argument to it, wrapping on overflow.
///
/// This is the library's argument-consuming decoder: it shows how a context
/// value threads from a decode entry point into the field that requests it.
#[derive(Clone, Copy, PartialEq, Eq, Structural, Debug)]
pub struct OffsetU8(pub u8);

impl Decode<u8> for OffsetU8 {
    open spec fn spec_width() -> nat {
        1
    }

    open spec fn spec_value(bytes: Seq<u8>, bo: ByteOrder, arg: u8) -> OffsetU8 {
        OffsetU8(((value_of(bytes, bo) + arg) % 256) as u8)
    }

    fn decode(r: &mut Reader, bo: ByteOrder, arg: u8) -> Result<OffsetU8, DecodeError> {
        match crate::primitives::read_word(r, 1, bo) {
            Ok(v) => {
                proof {
                    crate::byte_order::lemma_value_of_bound(
                        old(r).sdata().subrange(
                            old(r).spos() as int,
                            old(r).spos() as int + 1,
                        ),
                        bo,
                    );
                    reveal_with_fuel(crate::byte_order::pow256, 2);
                }
                let sum = v + arg as u64;
                Ok(OffsetU8((sum % 256) as u8))
            },
            Err(e) => Err(e),
        }
    }
}

} // verus!
