//! The normalized record schema: an ordered sequence of field descriptors,
//! and its generation-time validation.
//!
//! A schema is metadata, built once and never mutated.  Malformed schemas
//! (a record with no fields, an unsupported array length, a malformed
//! argument-type reference, an unrecognized byte-order token) are fatal at
//! generation time and are reported as [`SchemaError`], a category kept
//! strictly apart from the runtime [`crate::reader::DecodeError`].

use vstd::prelude::*;
use vstd::string::StrSliceExecFns;

use crate::byte_order::ByteOrder;

verus! {

/// A generation-time schema error.  Never raised while decoding a stream.
#[derive(Clone, Copy, PartialEq, Eq, Structural, Debug)]
pub enum SchemaError {
    /// The record declares no fields.
    EmptyRecord,
    /// A fixed-array field has a length outside the supported 2..=4.
    UnsupportedArrayLength,
    /// A field's argument-type reference is malformed: it does not match
    /// the record's declared argument type, is missing where one is needed,
    /// or is given for a field type that takes no argument.
    ArgumentMismatch,
    /// A byte-order annotation token is neither `LE` nor `BE`.
    UnknownByteOrder,
}

/// The primitive scalar types a field can hold.
#[derive(Clone, Copy, PartialEq, Eq, Structural, Debug)]
pub enum Prim {
    U8,
    I8,
    U16,
    I16,
    U32,
    I32,
    U64,
    I64,
    /// A 32-bit IEEE-754 value, decoded as its bit pattern.
    F32,
    /// A 64-bit IEEE-754 value, decoded as its bit pattern.
    F64,
}

/// A field's declared type.
#[derive(PartialEq, Eq, Debug)]
pub enum FieldType {
    /// One primitive scalar.
    Scalar(Prim),
    /// A fixed-size array of a primitive scalar; supported lengths are 2,
    /// 3 and 4.
    Array(Prim, usize),
    /// An [`crate::decode::OffsetU8`]: one byte offset by the record's
    /// caller-supplied argument.  The field must reference the record's
    /// argument type.
    Offset,
    /// A nested record: the field decodes by running the sub-record's own
    /// decoder against the same shared cursor.  The field's argument-type
    /// reference must agree with the sub-record's declared argument type,
    /// and, when one is declared, with the outer record's.
    Record(Box<RecordDescriptor>),
}

/// One field of a record: its name, declared type, optional byte-order
/// override, and optional argument-type reference.
#[derive(PartialEq, Eq, Debug)]
pub struct FieldDescriptor {
    /// The field's name; metadata only, never interpreted.
    pub name: String,
    /// The field's declared type.
    pub ty: FieldType,
    /// The byte-order override; `None` inherits the library default,
    /// little-endian.  Local to this field: it never affects siblings.
    pub byte_order: Option<ByteOrder>,
    /// The identity of the argument type this field requests, if any.  The
    /// record's argument is forwarded to this field exactly when the
    /// reference matches the record's declared argument type.
    pub arg_type: Option<u32>,
}

/// A record schema: a name and an ordered sequence of fields.  Field order
/// is load-bearing: it is the wire order.
#[derive(PartialEq, Eq, Debug)]
pub struct RecordDescriptor {
    /// The record's name; metadata only.
    pub name: String,
    /// The fields, in declaration order.
    pub fields: Vec<FieldDescriptor>,
    /// The identity of the record's declared argument type, if any.  When
    /// declared, the record's decode entry point requires the caller to
    /// supply an argument instance.
    pub arg_type: Option<u32>,
}

/// The wire width of one primitive scalar, in bytes.
pub open spec fn prim_width(p: Prim) -> nat {
    match p {
        Prim::U8 => 1,
        Prim::I8 => 1,
        Prim::U16 => 2,
        Prim::I16 => 2,
        Prim::U32 => 4,
        Prim::I32 => 4,
        Prim::U64 => 8,
        Prim::I64 => 8,
        Prim::F32 => 4,
        Prim::F64 => 8,
    }
}

/// The wire width of one field, in bytes: a nested record contributes the
/// widths of its own fields, there being no framing.
pub open spec fn field_width(f: FieldDescriptor) -> nat
    decreases f,
{
    match f.ty {
        FieldType::Scalar(p) => prim_width(p),
        FieldType::Array(p, n) => (n as nat) * prim_width(p),
        FieldType::Offset => 1,
        FieldType::Record(sub) => fields_width(sub.fields@),
    }
}

/// The total wire width of a field sequence: the sum of the fields'
/// widths, in order.
pub open spec fn fields_width(fields: Seq<FieldDescriptor>) -> nat
    decreases fields,
{
    if fields.len() == 0 {
        0
    } else {
        field_width(fields[0]) + fields_width(fields.skip(1))
    }
}

/// The number of bytes a record requires on the wire.
pub open spec fn record_width(d: RecordDescriptor) -> nat {
    fields_width(d.fields@)
}

/// The byte order a field decodes under: its own override, or the library
/// default, little-endian.
pub open spec fn effective_order(f: FieldDescriptor) -> ByteOrder {
    match f.byte_order {
        Some(bo) => bo,
        None => ByteOrder::LittleEndian,
    }
}

/// Whether a field's declared type is within the supported shapes.
pub open spec fn array_len_ok(t: FieldType) -> bool {
    match t {
        FieldType::Array(_, n) => 2 <= n <= 4,
        _ => true,
    }
}

/// Whether a field's argument-type reference is well formed against the
/// record's declared argument type: an argument-consuming field must
/// reference exactly the record's argument type, and no other field may
/// reference anything.
pub open spec fn arg_ref_ok(f: FieldDescriptor, rec_arg: Option<u32>) -> bool {
    match f.ty {
        FieldType::Offset => f.arg_type is Some && f.arg_type == rec_arg,
        FieldType::Record(sub) => {
            &&& f.arg_type == sub.arg_type
            &&& (f.arg_type is Some ==> f.arg_type == rec_arg)
        },
        _ => f.arg_type is None,
    }
}

/// The first schema error a field exhibits, if any: its own shape and
/// argument reference first, then, for a nested record, the sub-record's
/// own first error.
pub open spec fn field_error(f: FieldDescriptor, rec_arg: Option<u32>) -> Option<SchemaError>
    decreases f,
{
    if !array_len_ok(f.ty) {
        Some(SchemaError::UnsupportedArrayLength)
    } else if !arg_ref_ok(f, rec_arg) {
        Some(SchemaError::ArgumentMismatch)
    } else {
        match f.ty {
            FieldType::Record(sub) => record_error(*sub),
            _ => None,
        }
    }
}

/// Whether a field is well formed against the record's argument type.
pub open spec fn field_ok(f: FieldDescriptor, rec_arg: Option<u32>) -> bool {
    field_error(f, rec_arg) is None
}

/// The first error over a field sequence, scanning in declaration order.
pub open spec fn fields_first_error(
    fields: Seq<FieldDescriptor>,
    rec_arg: Option<u32>,
) -> Option<SchemaError>
    decreases fields,
{
    if fields.len() == 0 {
        None
    } else {
        match field_error(fields[0], rec_arg) {
            Some(e) => Some(e),
            None => fields_first_error(fields.skip(1), rec_arg),
        }
    }
}

/// The first error a record schema exhibits, if any: an empty record is
/// reported first, then the fields' own errors in declaration order.
pub open spec fn record_error(d: RecordDescriptor) -> Option<SchemaError>
    decreases d,
{
    if d.fields@.len() == 0 {
        Some(SchemaError::EmptyRecord)
    } else {
        fields_first_error(d.fields@, d.arg_type)
    }
}

/// A well-formed record schema: at least one field, every field well
/// formed.
pub open spec fn record_ok(d: RecordDescriptor) -> bool {
    &&& d.fields@.len() > 0
    &&& forall|i: int|
        0 <= i < d.fields@.len() ==> field_ok(#[trigger] d.fields@[i], d.arg_type)
}

/// What a field's decoder needs of the field and the supplied argument:
/// a nested record field must carry a consistent argument-type reference,
/// a well-formed sub-schema, and an argument instance whenever it
/// references one.  Every other field type decodes unconditionally.
pub open spec fn field_decodable(f: FieldDescriptor, arg: Option<u8>) -> bool {
    match f.ty {
        FieldType::Record(sub) => {
            &&& f.arg_type == sub.arg_type
            &&& record_error(*sub) is None
            &&& (f.arg_type is Some ==> arg is Some)
        },
        _ => true,
    }
}

/// A field sequence's first error is absent exactly when every field is
/// well formed.
pub proof fn lemma_first_error_none(fields: Seq<FieldDescriptor>, rec_arg: Option<u32>)
    ensures
        (fields_first_error(fields, rec_arg) is None) <==> (forall|i: int|
            0 <= i < fields.len() ==> field_ok(#[trigger] fields[i], rec_arg)),
    decreases fields.len(),
{
    if fields.len() > 0 {
        lemma_first_error_none(fields.skip(1), rec_arg);
        assert(forall|i: int|
            0 <= i < fields.skip(1).len() ==> fields.skip(1)[i] == fields[i + 1]);
        if fields_first_error(fields, rec_arg) is None {
            assert(forall|i: int|
                0 <= i < fields.len() ==> field_ok(#[trigger] fields[i], rec_arg)) by {
                assert forall|i: int|
                    0 <= i < fields.len() implies field_ok(#[trigger] fields[i], rec_arg) by {
                    if i > 0 {
                        assert(field_ok(fields.skip(1)[i - 1], rec_arg));
                    }
                }
            }
        }
        if forall|i: int| 0 <= i < fields.len() ==> field_ok(#[trigger] fields[i], rec_arg) {
            assert forall|i: int|
                0 <= i < fields.skip(1).len() implies field_ok(
                #[trigger] fields.skip(1)[i],
                rec_arg,
            ) by {
                assert(field_ok(fields[i + 1], rec_arg));
            }
        }
    }
}

/// A record schema is well formed exactly when it exhibits no error.
pub proof fn lemma_record_ok_iff(d: RecordDescriptor)
    ensures
        record_ok(d) <==> record_error(d) is None,
{
    if d.fields@.len() > 0 {
        lemma_first_error_none(d.fields@, d.arg_type);
    }
}

/// Checks one field against the record's declared argument type.
fn check_field(f: &FieldDescriptor, rec_arg: Option<u32>) -> (res: Result<(), SchemaError>)
    ensures
        res == (match field_error(*f, rec_arg) {
            Some(e) => Err::<(), SchemaError>(e),
            None => Ok::<(), SchemaError>(()),
        }),
    decreases *f,
{
    match &f.ty {
        FieldType::Array(_, n) => {
            if *n < 2 || *n > 4 {
                return Err(SchemaError::UnsupportedArrayLength);
            }
        },
        _ => {},
    }
    let refs_ok: bool = match &f.ty {
        FieldType::Offset => match (f.arg_type, rec_arg) {
            (Some(fa), Some(ra)) => fa == ra,
            _ => false,
        },
        FieldType::Record(sub) => match (f.arg_type, sub.arg_type) {
            (Some(fa), Some(sa)) => fa == sa && (match rec_arg {
                Some(ra) => fa == ra,
                None => false,
            }),
            (None, None) => true,
            _ => false,
        },
        _ => match f.arg_type {
            Some(_) => false,
            None => true,
        },
    };
    if !refs_ok {
        return Err(SchemaError::ArgumentMismatch);
    }
    match &f.ty {
        FieldType::Record(sub) => {
            proof {
                assert(decreases_to!(*f => **sub));
            }
            validate(&**sub)
        },
        _ => Ok(()),
    }
}

/// Validates a record schema, as the code generator does before emitting a
/// decoder.  Returns the record's first error, scanning fields in
/// declaration order; succeeds exactly on well-formed schemas.
pub fn validate(desc: &RecordDescriptor) -> (res: Result<(), SchemaError>)
    ensures
        res is Ok <==> record_ok(*desc),
        res == (match record_error(*desc) {
            Some(e) => Err::<(), SchemaError>(e),
            None => Ok::<(), SchemaError>(()),
        }),
    decreases *desc,
{
    let n = desc.fields.len();
    if n == 0 {
        return Err(SchemaError::EmptyRecord);
    }
    let mut i: usize = 0;
    proof {
        assert(desc.fields@.skip(0) =~= desc.fields@);
    }
    while i < n
        invariant
            i <= n,
            n == desc.fields@.len(),
            forall|k: int| 0 <= k < i ==> field_ok(#[trigger] desc.fields@[k], desc.arg_type),
            fields_first_error(desc.fields@, desc.arg_type) == fields_first_error(
                desc.fields@.skip(i as int),
                desc.arg_type,
            ),
        decreases n - i,
    {
        let ghost fs = desc.fields@;
        proof {
            assert(fs.skip(i as int)[0] == fs[i as int]);
            assert(fs.skip(i as int).skip(1) =~= fs.skip(i as int + 1));
        }
        proof {
            assert(decreases_to!(*desc => desc.fields@[i as int]));
        }
        match check_field(&desc.fields[i], desc.arg_type) {
            Ok(_) => {},
            Err(e) => {
                return Err(e);
            },
        }
        i = i + 1;
    }
    proof {
        assert(desc.fields@.skip(n as int) =~= Seq::<FieldDescriptor>::empty());
    }
    Ok(())
}

/// The byte order a textual annotation token names: `LE` or `BE`; anything
/// else is an unrecognized byte-order token, a generation-time error.
pub open spec fn spec_parse_byte_order(token: Seq<char>) -> Result<ByteOrder, SchemaError> {
    if token == seq!['L', 'E'] {
        Ok(ByteOrder::LittleEndian)
    } else if token == seq!['B', 'E'] {
        Ok(ByteOrder::BigEndian)
    } else {
        Err(SchemaError::UnknownByteOrder)
    }
}

/// Parses a byte-order annotation token, as the schema front end hands it
/// over: `LE` and `BE` name the two strategies, anything else is rejected.
pub fn parse_byte_order(token: &str) -> (res: Result<ByteOrder, SchemaError>)
    ensures
        res == spec_parse_byte_order(token@),
{
    proof {
        assert(seq!['L', 'E'].len() == 2);
        assert(seq!['B', 'E'].len() == 2);
        assert(seq!['L', 'E'][0] == 'L' && seq!['L', 'E'][1] == 'E');
        assert(seq!['B', 'E'][0] == 'B' && seq!['B', 'E'][1] == 'E');
    }
    let n = token.unicode_len();
    if n != 2 {
        return Err(SchemaError::UnknownByteOrder);
    }
    let c0 = token.get_char(0);
    let c1 = token.get_char(1);
    if c0 == 'L' && c1 == 'E' {
        proof {
            assert(token@ =~= seq!['L', 'E']);
        }
        Ok(ByteOrder::LittleEndian)
    } else if c0 == 'B' && c1 == 'E' {
        proof {
            assert(token@ =~= seq!['B', 'E']);
        }
        Ok(ByteOrder::BigEndian)
    } else {
        Err(SchemaError::UnknownByteOrder)
    }
}

} // verus!
