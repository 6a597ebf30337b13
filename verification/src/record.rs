//! Record decoding: turns a validated [`RecordDescriptor`] into an ordered
//! sequence of per-field decode invocations against one shared cursor.
//!
//! This is the schema-driven counterpart of a hand-written record decoder:
//! fields are read strictly in declaration order, each under its own
//! effective byte order and resolved argument; the first failure aborts the
//! whole record, and no partially populated record is ever returned.

use vstd::prelude::*;

use crate::byte_order::ByteOrder;
use crate::decode::{Decode, Nil, OffsetU8};
use crate::primitives::{array_values, decode_array, F32Bits, F64Bits};
use crate::reader::{DecodeError, Reader};
use crate::schema::{
    effective_order, field_decodable, field_width, fields_width, lemma_record_ok_iff, record_ok,
    record_width, FieldDescriptor, FieldType, Prim, RecordDescriptor,
};

verus! {

/// One decoded field value, tagged with the field's declared type.
///
/// Floats are carried as their IEEE-754 bit patterns ([`F32Bits`],
/// [`F64Bits`]); the caller reinterprets them.
#[derive(PartialEq, Debug)]
pub enum Value {
    U8(u8),
    I8(i8),
    U16(u16),
    I16(i16),
    U32(u32),
    I32(i32),
    U64(u64),
    I64(i64),
    F32(F32Bits),
    F64(F64Bits),
    U8Array(Vec<u8>),
    I8Array(Vec<i8>),
    U16Array(Vec<u16>),
    I16Array(Vec<i16>),
    U32Array(Vec<u32>),
    I32Array(Vec<i32>),
    U64Array(Vec<u64>),
    I64Array(Vec<i64>),
    F32Array(Vec<F32Bits>),
    F64Array(Vec<F64Bits>),
    Offset(OffsetU8),
    /// A nested record's values, one per field, in declaration order.
    Record(Vec<Value>),
}

/// The mathematical shape of a decoded field value: like [`Value`], with
/// sequences in place of vectors.
pub enum AbsValue {
    U8(u8),
    I8(i8),
    U16(u16),
    I16(i16),
    U32(u32),
    I32(i32),
    U64(u64),
    I64(i64),
    F32(F32Bits),
    F64(F64Bits),
    U8Array(Seq<u8>),
    I8Array(Seq<i8>),
    U16Array(Seq<u16>),
    I16Array(Seq<i16>),
    U32Array(Seq<u32>),
    I32Array(Seq<i32>),
    U64Array(Seq<u64>),
    I64Array(Seq<i64>),
    F32Array(Seq<F32Bits>),
    F64Array(Seq<F64Bits>),
    Offset(OffsetU8),
    /// A nested record's values, one per field, in declaration order.
    Record(Seq<AbsValue>),
}

/// The mathematical shape of one decoded value.
pub open spec fn abs_of(v: Value) -> AbsValue
    decreases v,
{
    match v {
        Value::U8(x) => AbsValue::U8(x),
        Value::I8(x) => AbsValue::I8(x),
        Value::U16(x) => AbsValue::U16(x),
        Value::I16(x) => AbsValue::I16(x),
        Value::U32(x) => AbsValue::U32(x),
        Value::I32(x) => AbsValue::I32(x),
        Value::U64(x) => AbsValue::U64(x),
        Value::I64(x) => AbsValue::I64(x),
        Value::F32(x) => AbsValue::F32(x),
        Value::F64(x) => AbsValue::F64(x),
        Value::U8Array(v) => AbsValue::U8Array(v@),
        Value::I8Array(v) => AbsValue::I8Array(v@),
        Value::U16Array(v) => AbsValue::U16Array(v@),
        Value::I16Array(v) => AbsValue::I16Array(v@),
        Value::U32Array(v) => AbsValue::U32Array(v@),
        Value::I32Array(v) => AbsValue::I32Array(v@),
        Value::U64Array(v) => AbsValue::U64Array(v@),
        Value::I64Array(v) => AbsValue::I64Array(v@),
        Value::F32Array(v) => AbsValue::F32Array(v@),
        Value::F64Array(v) => AbsValue::F64Array(v@),
        Value::Offset(x) => AbsValue::Offset(x),
        Value::Record(vals) => AbsValue::Record(abs_seq(vals@)),
    }
}

/// The mathematical shapes of a sequence of decoded values.
pub open spec fn abs_seq(s: Seq<Value>) -> Seq<AbsValue>
    decreases s,
{
    if s.len() == 0 {
        Seq::empty()
    } else {
        seq![abs_of(s[0])] + abs_seq(s.skip(1))
    }
}

impl View for Value {
    type V = AbsValue;

    open spec fn view(&self) -> AbsValue {
        abs_of(*self)
    }
}

/// Taking shapes commutes with walking the sequence.
pub proof fn lemma_abs_seq(s: Seq<Value>)
    ensures
        abs_seq(s) == s.map_values(|v: Value| v@),
    decreases s.len(),
{
    if s.len() == 0 {
        assert(abs_seq(s) =~= s.map_values(|v: Value| v@));
    } else {
        lemma_abs_seq(s.skip(1));
        assert(abs_seq(s) =~= s.map_values(|v: Value| v@));
    }
}

/// The byte the argument-consuming decoder sees: the record's argument when
/// one was supplied.
pub open spec fn arg_byte(arg: Option<u8>) -> u8 {
    match arg {
        Some(b) => b,
        None => 0,
    }
}

/// The value a scalar field of primitive type `p` takes from its own
/// `prim_width(p)` bytes at `off`, under byte order `bo`.
pub open spec fn scalar_field_value(p: Prim, data: Seq<u8>, off: int, bo: ByteOrder) -> AbsValue {
    let s = data.subrange(off, off + crate::schema::prim_width(p) as int);
    match p {
        Prim::U8 => AbsValue::U8(<u8 as Decode<Nil>>::spec_value(s, bo, Nil)),
        Prim::I8 => AbsValue::I8(<i8 as Decode<Nil>>::spec_value(s, bo, Nil)),
        Prim::U16 => AbsValue::U16(<u16 as Decode<Nil>>::spec_value(s, bo, Nil)),
        Prim::I16 => AbsValue::I16(<i16 as Decode<Nil>>::spec_value(s, bo, Nil)),
        Prim::U32 => AbsValue::U32(<u32 as Decode<Nil>>::spec_value(s, bo, Nil)),
        Prim::I32 => AbsValue::I32(<i32 as Decode<Nil>>::spec_value(s, bo, Nil)),
        Prim::U64 => AbsValue::U64(<u64 as Decode<Nil>>::spec_value(s, bo, Nil)),
        Prim::I64 => AbsValue::I64(<i64 as Decode<Nil>>::spec_value(s, bo, Nil)),
        Prim::F32 => AbsValue::F32(<F32Bits as Decode<Nil>>::spec_value(s, bo, Nil)),
        Prim::F64 => AbsValue::F64(<F64Bits as Decode<Nil>>::spec_value(s, bo, Nil)),
    }
}

/// The value an array field of primitive type `p` and length `n` takes
/// from its `n * prim_width(p)` bytes at `off`, under byte order `bo`:
/// slot by slot, in order.
pub open spec fn array_field_value(
    p: Prim,
    data: Seq<u8>,
    off: int,
    bo: ByteOrder,
    n: nat,
) -> AbsValue {
    match p {
        Prim::U8 => AbsValue::U8Array(array_values::<u8>(data, off, bo, n)),
        Prim::I8 => AbsValue::I8Array(array_values::<i8>(data, off, bo, n)),
        Prim::U16 => AbsValue::U16Array(array_values::<u16>(data, off, bo, n)),
        Prim::I16 => AbsValue::I16Array(array_values::<i16>(data, off, bo, n)),
        Prim::U32 => AbsValue::U32Array(array_values::<u32>(data, off, bo, n)),
        Prim::I32 => AbsValue::I32Array(array_values::<i32>(data, off, bo, n)),
        Prim::U64 => AbsValue::U64Array(array_values::<u64>(data, off, bo, n)),
        Prim::I64 => AbsValue::I64Array(array_values::<i64>(data, off, bo, n)),
        Prim::F32 => AbsValue::F32Array(array_values::<F32Bits>(data, off, bo, n)),
        Prim::F64 => AbsValue::F64Array(array_values::<F64Bits>(data, off, bo, n)),
    }
}

/// The value a field takes from the bytes at `off`, under its own
/// effective byte order and with the record's argument `arg`.  A field's
/// value depends only on its own descriptor, its own bytes and the
/// argument: a sibling's byte-order override can never reach it.
pub open spec fn field_value(
    f: FieldDescriptor,
    data: Seq<u8>,
    off: int,
    arg: Option<u8>,
) -> AbsValue
    decreases f,
{
    let bo = effective_order(f);
    match f.ty {
        FieldType::Scalar(p) => scalar_field_value(p, data, off, bo),
        FieldType::Array(p, n) => array_field_value(p, data, off, bo, n as nat),
        FieldType::Offset => AbsValue::Offset(
            <OffsetU8 as Decode<u8>>::spec_value(data.subrange(off, off + 1), bo, arg_byte(arg)),
        ),
        FieldType::Record(sub) => AbsValue::Record(
            fields_values(
                sub.fields@,
                data,
                off,
                if f.arg_type is Some {
                    arg
                } else {
                    None
                },
            ),
        ),
    }
}

/// Decodes one field from `r`: resolves the field's effective byte order
/// (its override, or the little-endian default) and its argument (the
/// record's, for the field type that consumes one), then reads exactly
/// `field_width` bytes.  Fails exactly on a short source, with the cursor
/// left where the field began.
pub fn decode_field(r: &mut Reader, f: &FieldDescriptor, arg: Option<u8>) -> (res: Result<
    Value,
    DecodeError,
>)
    requires
        old(r).wf(),
        field_decodable(*f, arg),
    ensures
        final(r).wf(),
        final(r).sdata() == old(r).sdata(),
        (match res {
            Ok(v) => {
                &&& old(r).remaining() >= field_width(*f)
                &&& final(r).spos() == old(r).spos() + field_width(*f)
                &&& v@ == field_value(*f, old(r).sdata(), old(r).spos() as int, arg)
            },
            Err(e) => {
                &&& e == DecodeError::ShortRead
                &&& old(r).remaining() < field_width(*f)
                &&& final(r).spos() == old(r).spos()
            },
        }),
    decreases *f,
{
    let bo = match f.byte_order {
        Some(b) => b,
        None => ByteOrder::LittleEndian,
    };
    match &f.ty {
        FieldType::Scalar(p) => match p {
            Prim::U8 => match <u8 as Decode<Nil>>::decode(r, bo, Nil) {
                Ok(v) => Ok(Value::U8(v)),
                Err(e) => Err(e),
            },
            Prim::I8 => match <i8 as Decode<Nil>>::decode(r, bo, Nil) {
                Ok(v) => Ok(Value::I8(v)),
                Err(e) => Err(e),
            },
            Prim::U16 => match <u16 as Decode<Nil>>::decode(r, bo, Nil) {
                Ok(v) => Ok(Value::U16(v)),
                Err(e) => Err(e),
            },
            Prim::I16 => match <i16 as Decode<Nil>>::decode(r, bo, Nil) {
                Ok(v) => Ok(Value::I16(v)),
                Err(e) => Err(e),
            },
            Prim::U32 => match <u32 as Decode<Nil>>::decode(r, bo, Nil) {
                Ok(v) => Ok(Value::U32(v)),
                Err(e) => Err(e),
            },
            Prim::I32 => match <i32 as Decode<Nil>>::decode(r, bo, Nil) {
                Ok(v) => Ok(Value::I32(v)),
                Err(e) => Err(e),
            },
            Prim::U64 => match <u64 as Decode<Nil>>::decode(r, bo, Nil) {
                Ok(v) => Ok(Value::U64(v)),
                Err(e) => Err(e),
            },
            Prim::I64 => match <i64 as Decode<Nil>>::decode(r, bo, Nil) {
                Ok(v) => Ok(Value::I64(v)),
                Err(e) => Err(e),
            },
            Prim::F32 => match <F32Bits as Decode<Nil>>::decode(r, bo, Nil) {
                Ok(v) => Ok(Value::F32(v)),
                Err(e) => Err(e),
            },
            Prim::F64 => match <F64Bits as Decode<Nil>>::decode(r, bo, Nil) {
                Ok(v) => Ok(Value::F64(v)),
                Err(e) => Err(e),
            },
        },
        FieldType::Array(p, n) => match p {
            Prim::U8 => match decode_array::<u8>(r, bo, *n) {
                Ok(v) => Ok(Value::U8Array(v)),
                Err(e) => Err(e),
            },
            Prim::I8 => match decode_array::<i8>(r, bo, *n) {
                Ok(v) => Ok(Value::I8Array(v)),
                Err(e) => Err(e),
            },
            Prim::U16 => match decode_array::<u16>(r, bo, *n) {
                Ok(v) => Ok(Value::U16Array(v)),
                Err(e) => Err(e),
            },
            Prim::I16 => match decode_array::<i16>(r, bo, *n) {
                Ok(v) => Ok(Value::I16Array(v)),
                Err(e) => Err(e),
            },
            Prim::U32 => match decode_array::<u32>(r, bo, *n) {
                Ok(v) => Ok(Value::U32Array(v)),
                Err(e) => Err(e),
            },
            Prim::I32 => match decode_array::<i32>(r, bo, *n) {
                Ok(v) => Ok(Value::I32Array(v)),
                Err(e) => Err(e),
            },
            Prim::U64 => match decode_array::<u64>(r, bo, *n) {
                Ok(v) => Ok(Value::U64Array(v)),
                Err(e) => Err(e),
            },
            Prim::I64 => match decode_array::<i64>(r, bo, *n) {
                Ok(v) => Ok(Value::I64Array(v)),
                Err(e) => Err(e),
            },
            Prim::F32 => match decode_array::<F32Bits>(r, bo, *n) {
                Ok(v) => Ok(Value::F32Array(v)),
                Err(e) => Err(e),
            },
            Prim::F64 => match decode_array::<F64Bits>(r, bo, *n) {
                Ok(v) => Ok(Value::F64Array(v)),
                Err(e) => Err(e),
            },
        },
        FieldType::Offset => {
            let a = match arg {
                Some(b) => b,
                None => 0,
            };
            match <OffsetU8 as Decode<u8>>::decode(r, bo, a) {
                Ok(v) => Ok(Value::Offset(v)),
                Err(e) => Err(e),
            }
        },
        FieldType::Record(sub) => {
            let sub_arg = match f.arg_type {
                Some(_) => arg,
                None => None,
            };
            proof {
                lemma_record_ok_iff(**sub);
                assert(decreases_to!(*f => **sub));
            }
            match decode_record(r, &**sub, sub_arg) {
                Ok(vals) => {
                    proof {
                        lemma_abs_seq(vals@);
                    }
                    Ok(Value::Record(vals))
                },
                Err(e) => Err(e),
            }
        },
    }
}

/// The values a field sequence takes from `data` starting at `off`: each
/// field reads its own width's worth of bytes, in declaration order, from
/// where its predecessor stopped.
pub open spec fn fields_values(
    fields: Seq<FieldDescriptor>,
    data: Seq<u8>,
    off: int,
    arg: Option<u8>,
) -> Seq<AbsValue>
    decreases fields,
{
    if fields.len() == 0 {
        Seq::empty()
    } else {
        seq![field_value(fields[0], data, off, arg)] + fields_values(
            fields.skip(1),
            data,
            off + field_width(fields[0]) as int,
            arg,
        )
    }
}

/// The values a whole record takes from `data` starting at `off`.
pub open spec fn record_values(
    d: RecordDescriptor,
    data: Seq<u8>,
    off: int,
    arg: Option<u8>,
) -> Seq<AbsValue> {
    fields_values(d.fields@, data, off, arg)
}

/// Appending a field to a sequence appends its value, read at the offset
/// the earlier fields lead to, and adds its width.
proof fn lemma_fields_snoc(
    fields: Seq<FieldDescriptor>,
    f: FieldDescriptor,
    data: Seq<u8>,
    off: int,
    arg: Option<u8>,
)
    ensures
        fields_width(fields.push(f)) == fields_width(fields) + field_width(f),
        fields_values(fields.push(f), data, off, arg) == fields_values(fields, data, off, arg).push(
            field_value(f, data, off + fields_width(fields) as int, arg),
        ),
    decreases fields.len(),
{
    let p = fields.push(f);
    if fields.len() == 0 {
        assert(p[0] == f);
        assert(p.skip(1) =~= Seq::<FieldDescriptor>::empty());
        assert(fields_width(Seq::<FieldDescriptor>::empty()) == 0);
        assert(fields_values(
            Seq::<FieldDescriptor>::empty(),
            data,
            off + field_width(f) as int,
            arg,
        ) == Seq::<AbsValue>::empty());
        assert(fields_width(p) == field_width(f) + fields_width(p.skip(1)));
        assert(fields_values(p, data, off, arg) == seq![field_value(f, data, off, arg)]
            + Seq::<AbsValue>::empty());
        assert(fields_values(p, data, off, arg) =~= fields_values(fields, data, off, arg).push(
            field_value(f, data, off + fields_width(fields) as int, arg),
        ));
    } else {
        let w0 = field_width(fields[0]) as int;
        lemma_fields_snoc(fields.skip(1), f, data, off + w0, arg);
        assert(p[0] == fields[0]);
        assert(p.skip(1) =~= fields.skip(1).push(f));
        assert(fields_width(p) == field_width(fields[0]) + fields_width(fields.skip(1).push(f)));
        assert(fields_width(fields) == field_width(fields[0]) + fields_width(fields.skip(1)));
        assert(fields_values(p, data, off, arg) == seq![field_value(fields[0], data, off, arg)]
            + fields_values(fields.skip(1).push(f), data, off + w0, arg));
        assert(fields_values(fields, data, off, arg) == seq![field_value(fields[0], data, off, arg)]
            + fields_values(fields.skip(1), data, off + w0, arg));
        assert(fields_values(p, data, off, arg) =~= fields_values(fields, data, off, arg).push(
            field_value(f, data, off + fields_width(fields) as int, arg),
        ));
    }
}

/// Sequential composition: decoding the concatenation of two field
/// sequences is decoding the first and then the second, the second picking
/// up at the cursor position the first's width leads to.  This is how a
/// record nests inside another: the wire format is plain concatenation,
/// with one shared cursor and no framing.
pub proof fn lemma_fields_concat(
    fs1: Seq<FieldDescriptor>,
    fs2: Seq<FieldDescriptor>,
    data: Seq<u8>,
    off: int,
    arg: Option<u8>,
)
    ensures
        fields_width(fs1 + fs2) == fields_width(fs1) + fields_width(fs2),
        fields_values(fs1 + fs2, data, off, arg) == fields_values(fs1, data, off, arg)
            + fields_values(fs2, data, off + fields_width(fs1) as int, arg),
    decreases fs1.len(),
{
    if fs1.len() == 0 {
        assert(fs1 + fs2 =~= fs2);
        assert(fields_width(fs1) == 0);
        assert(fields_values(fs1, data, off, arg) == Seq::<AbsValue>::empty());
        assert(fields_values(fs1 + fs2, data, off, arg) =~= fields_values(fs1, data, off, arg)
            + fields_values(fs2, data, off + fields_width(fs1) as int, arg));
    } else {
        let w0 = field_width(fs1[0]) as int;
        lemma_fields_concat(fs1.skip(1), fs2, data, off + w0, arg);
        assert((fs1 + fs2)[0] == fs1[0]);
        assert((fs1 + fs2).skip(1) =~= fs1.skip(1) + fs2);
        assert(fields_width(fs1 + fs2) == field_width(fs1[0]) + fields_width(fs1.skip(1) + fs2));
        assert(fields_width(fs1) == field_width(fs1[0]) + fields_width(fs1.skip(1)));
        assert(fields_values(fs1 + fs2, data, off, arg) == seq![
            field_value(fs1[0], data, off, arg),
        ] + fields_values(fs1.skip(1) + fs2, data, off + w0, arg));
        assert(fields_values(fs1, data, off, arg) == seq![field_value(fs1[0], data, off, arg)]
            + fields_values(fs1.skip(1), data, off + w0, arg));
        assert(fields_values(fs1 + fs2, data, off, arg) =~= fields_values(fs1, data, off, arg)
            + fields_values(fs2, data, off + fields_width(fs1) as int, arg));
    }
}

/// A field sequence's width splits at any point into the width of the
/// prefix plus the width of the suffix.
proof fn lemma_fields_width_split(fields: Seq<FieldDescriptor>, k: int)
    requires
        0 <= k <= fields.len(),
    ensures
        fields_width(fields) == fields_width(fields.take(k)) + fields_width(fields.skip(k)),
    decreases k,
{
    if k == 0 {
        assert(fields.take(0) =~= Seq::<FieldDescriptor>::empty());
        assert(fields.skip(0) =~= fields);
    } else {
        lemma_fields_width_split(fields.skip(1), k - 1);
        assert(fields.take(k)[0] == fields[0]);
        assert(fields.take(k).skip(1) =~= fields.skip(1).take(k - 1));
        assert(fields.skip(k) =~= fields.skip(1).skip(k - 1));
    }
}

/// A field sequence yields exactly one value per field.
pub proof fn lemma_fields_values_len(
    fields: Seq<FieldDescriptor>,
    data: Seq<u8>,
    off: int,
    arg: Option<u8>,
)
    ensures
        fields_values(fields, data, off, arg).len() == fields.len(),
    decreases fields.len(),
{
    if fields.len() > 0 {
        lemma_fields_values_len(fields.skip(1), data, off + field_width(fields[0]) as int, arg);
    }
}

/// Each field's value comes from its own window alone: field `k` of a
/// record is decoded from the bytes its predecessors' widths lead to, as a
/// function of nothing but its own descriptor, those bytes and the
/// argument.
pub proof fn lemma_field_value_at(
    fields: Seq<FieldDescriptor>,
    data: Seq<u8>,
    off: int,
    arg: Option<u8>,
    k: int,
)
    requires
        0 <= k < fields.len(),
    ensures
        fields_values(fields, data, off, arg)[k] == field_value(
            fields[k],
            data,
            off + fields_width(fields.take(k)) as int,
            arg,
        ),
    decreases k,
{
    lemma_fields_values_len(fields.skip(1), data, off + field_width(fields[0]) as int, arg);
    if k == 0 {
        assert(fields.take(0) =~= Seq::<FieldDescriptor>::empty());
        assert(fields_width(Seq::<FieldDescriptor>::empty()) == 0);
    } else {
        let w0 = field_width(fields[0]) as int;
        lemma_field_value_at(fields.skip(1), data, off + w0, arg, k - 1);
        assert(fields.skip(1)[k - 1] == fields[k]);
        assert(fields.take(k)[0] == fields[0]);
        assert(fields.take(k).skip(1) =~= fields.skip(1).take(k - 1));
        assert(fields_width(fields.take(k)) == field_width(fields[0]) + fields_width(
            fields.skip(1).take(k - 1),
        ));
        assert(fields_values(fields, data, off, arg)[k] == fields_values(
            fields.skip(1),
            data,
            off + w0,
            arg,
        )[k - 1]);
    }
}

/// A field's wire width depends on its declared type alone.
proof fn lemma_field_width_same_type(f1: FieldDescriptor, f2: FieldDescriptor)
    requires
        f1.ty == f2.ty,
    ensures
        field_width(f1) == field_width(f2),
{
}

/// Field sequences whose declared types agree slot for slot occupy the
/// same width, whatever their byte-order overrides or argument
/// references.
proof fn lemma_fields_width_same_types(fields1: Seq<FieldDescriptor>, fields2: Seq<FieldDescriptor>)
    requires
        fields1.len() == fields2.len(),
        forall|k: int| 0 <= k < fields1.len() ==> fields1[k].ty == fields2[k].ty,
    ensures
        fields_width(fields1) == fields_width(fields2),
    decreases fields1.len(),
{
    if fields1.len() > 0 {
        assert(fields1[0].ty == fields2[0].ty);
        lemma_field_width_same_type(fields1[0], fields2[0]);
        assert forall|k: int|
            0 <= k < fields1.skip(1).len() implies fields1.skip(1)[k].ty == fields2.skip(
            1,
        )[k].ty by {
            assert(fields1.skip(1)[k] == fields1[k + 1]);
            assert(fields2.skip(1)[k] == fields2[k + 1]);
            assert(fields1[k + 1].ty == fields2[k + 1].ty);
        }
        lemma_fields_width_same_types(fields1.skip(1), fields2.skip(1));
    }
}

/// Byte-order override independence: changing one field's byte-order
/// override changes no sibling's decoded value.  Two field sequences that
/// agree everywhere except in field `j`'s override (same declared types
/// and argument references throughout) decode every field other than `j`
/// to the same value, from the same bytes.
pub proof fn lemma_override_independence(
    fields1: Seq<FieldDescriptor>,
    fields2: Seq<FieldDescriptor>,
    data: Seq<u8>,
    off: int,
    arg: Option<u8>,
    j: int,
)
    requires
        fields1.len() == fields2.len(),
        0 <= j < fields1.len(),
        forall|k: int| 0 <= k < fields1.len() && k != j ==> fields1[k] == fields2[k],
        fields1[j].ty == fields2[j].ty,
        fields1[j].arg_type == fields2[j].arg_type,
    ensures
        fields_width(fields1) == fields_width(fields2),
        fields_values(fields1, data, off, arg).len() == fields_values(
            fields2,
            data,
            off,
            arg,
        ).len(),
        forall|k: int|
            0 <= k < fields1.len() && k != j ==> fields_values(fields1, data, off, arg)[k]
                == fields_values(fields2, data, off, arg)[k],
{
    lemma_fields_values_len(fields1, data, off, arg);
    lemma_fields_values_len(fields2, data, off, arg);
    assert(forall|k: int| 0 <= k < fields1.len() ==> fields1[k].ty == fields2[k].ty);
    lemma_fields_width_same_types(fields1, fields2);
    assert forall|k: int| 0 <= k < fields1.len() && k != j implies fields_values(
        fields1,
        data,
        off,
        arg,
    )[k] == fields_values(fields2, data, off, arg)[k] by {
        lemma_field_value_at(fields1, data, off, arg, k);
        lemma_field_value_at(fields2, data, off, arg, k);
        assert(forall|m: int|
            0 <= m < fields1.take(k).len() ==> fields1.take(k)[m].ty == fields2.take(k)[m].ty);
        lemma_fields_width_same_types(fields1.take(k), fields2.take(k));
        assert(fields1[k] == fields2[k]);
    }
}

/// The library default: a field with no byte-order annotation decodes
/// under little-endian, exactly as if it were annotated so, whatever its
/// siblings specify.
pub proof fn lemma_default_byte_order(
    f: FieldDescriptor,
    data: Seq<u8>,
    off: int,
    arg: Option<u8>,
)
    requires
        f.byte_order is None,
    ensures
        effective_order(f) == ByteOrder::LittleEndian,
        field_value(f, data, off, arg) == field_value(
            (FieldDescriptor { byte_order: Some(ByteOrder::LittleEndian), ..f }),
            data,
            off,
            arg,
        ),
{
}

/// Decodes a whole record from `r` under a validated schema.
///
/// Each field is decoded in declaration order, with its own effective byte
/// order and its resolved argument, against the one shared cursor.  The
/// record's declared argument type obliges the caller to supply an
/// argument instance; it is forwarded only into the fields that request
/// it.  Decoding succeeds exactly when the source holds the record's full
/// width, consuming exactly that many bytes; a short source fails the
/// whole record with [`DecodeError::ShortRead`], returns no partial
/// record, and restores the cursor to where the record began.
pub fn decode_record(r: &mut Reader, desc: &RecordDescriptor, arg: Option<u8>) -> (res: Result<
    Vec<Value>,
    DecodeError,
>)
    requires
        old(r).wf(),
        record_ok(*desc),
        arg is Some <==> desc.arg_type is Some,
    ensures
        final(r).wf(),
        final(r).sdata() == old(r).sdata(),
        (match res {
            Ok(vals) => {
                &&& old(r).remaining() >= record_width(*desc)
                &&& final(r).spos() == old(r).spos() + record_width(*desc)
                &&& vals@.map_values(|v: Value| v@) == record_values(
                    *desc,
                    old(r).sdata(),
                    old(r).spos() as int,
                    arg,
                )
            },
            Err(e) => {
                &&& e == DecodeError::ShortRead
                &&& old(r).remaining() < record_width(*desc)
                &&& final(r).spos() == old(r).spos()
            },
        }),
    decreases *desc,
{
    let start = r.position();
    let mut vals: Vec<Value> = Vec::new();
    let n = desc.fields.len();
    let mut i: usize = 0;
    proof {
        assert(desc.fields@.take(0) =~= Seq::<FieldDescriptor>::empty());
        assert(vals@.map_values(|v: Value| v@) =~= Seq::<AbsValue>::empty());
    }
    while i < n
        invariant
            i <= n,
            n == desc.fields@.len(),
            record_ok(*desc),
            arg is Some <==> desc.arg_type is Some,
            old(r).wf(),
            r.wf(),
            r.sdata() == old(r).sdata(),
            start as nat == old(r).spos(),
            r.spos() == old(r).spos() + fields_width(desc.fields@.take(i as int)),
            vals@.map_values(|v: Value| v@) == fields_values(
                desc.fields@.take(i as int),
                old(r).sdata(),
                old(r).spos() as int,
                arg,
            ),
        decreases n - i,
    {
        let ghost fs = desc.fields@;
        let ghost prefix = fs.take(i as int);
        proof {
            assert(crate::schema::field_ok(fs[i as int], desc.arg_type));
            assert(crate::schema::arg_ref_ok(fs[i as int], desc.arg_type));
            assert(field_decodable(fs[i as int], arg));
            assert(decreases_to!(*desc => fs[i as int]));
        }
        match decode_field(r, &desc.fields[i], arg) {
            Ok(v) => {
                vals.push(v);
                proof {
                    lemma_fields_snoc(prefix, fs[i as int], old(r).sdata(), start as int, arg);
                    assert(fs.take(i as int + 1) =~= prefix.push(fs[i as int]));
                    assert(vals@.map_values(|v: Value| v@) =~= fields_values(
                        fs.take(i as int + 1),
                        old(r).sdata(),
                        old(r).spos() as int,
                        arg,
                    ));
                }
            },
            Err(_) => {
                proof {
                    lemma_fields_width_split(fs, i as int);
                    assert(fs.skip(i as int)[0] == fs[i as int]);
                    assert(fields_width(fs.skip(i as int)) >= field_width(fs[i as int]));
                }
                r.seek(start);
                return Err(DecodeError::ShortRead);
            },
        }
        i = i + 1;
    }
    proof {
        assert(desc.fields@.take(n as int) =~= desc.fields@);
    }
    Ok(vals)
}

} // verus!
