use pod_io::byte_order::ByteOrder;
use pod_io::decode::{Decode, Nil, OffsetU8};
use pod_io::primitives::{decode_array, F32Bits, F64Bits};
use pod_io::reader::{DecodeError, Reader};
use pod_io::record::{decode_record, Value};
use pod_io::schema::{validate, FieldDescriptor, FieldType, Prim, RecordDescriptor};

fn field(name: &str, ty: FieldType) -> FieldDescriptor {
    FieldDescriptor { name: name.to_string(), ty, byte_order: None, arg_type: None }
}

#[test]
fn it_works() {
    assert_eq!(2 + 2, 4);
}

#[test]
fn lib_it_works() {
    let data: Vec<u8> = vec![
        1u8,
        0u8, 1u8,
        1u8, 0u8, 0u8, 0u8,
        0xC3, 0xF5, 0x48, 0x40,
        1u8, 0u8, 0u8, 0u8, 1u8, 0u8, 0u8, 0u8, 1u8, 0u8, 0u8, 0u8,
        0xC3, 0xF5, 0x48, 0x40, 0xC3, 0xF5, 0x48, 0x40, 0xC3, 0xF5, 0x48, 0x40,
        0x44,
    ];
    let desc = RecordDescriptor {
        name: "ABC".to_string(),
        fields: vec![
            field("a", FieldType::Scalar(Prim::U8)),
            FieldDescriptor {
                name: "b".to_string(),
                ty: FieldType::Scalar(Prim::U16),
                byte_order: Some(ByteOrder::BigEndian),
                arg_type: None,
            },
            field("c", FieldType::Scalar(Prim::I32)),
            field("d", FieldType::Scalar(Prim::F32)),
            field("e", FieldType::Array(Prim::I32, 3)),
            field("f", FieldType::Array(Prim::F32, 3)),
            FieldDescriptor {
                name: "g".to_string(),
                ty: FieldType::Offset,
                byte_order: None,
                arg_type: Some(1),
            },
        ],
        arg_type: Some(1),
    };
    assert_eq!(validate(&desc), Ok(()));
    let mut r = Reader::new(data);
    let vals = decode_record(&mut r, &desc, Some(0x55)).unwrap();
    let pi_bits = F32Bits(0x4048F5C3);
    assert_eq!(f32::from_bits(pi_bits.0), 3.14f32);
    assert_eq!(
        vals,
        vec![
            Value::U8(1),
            Value::U16(1),
            Value::I32(1),
            Value::F32(pi_bits),
            Value::I32Array(vec![1, 1, 1]),
            Value::F32Array(vec![pi_bits, pi_bits, pi_bits]),
            Value::Offset(OffsetU8(0x99)),
        ]
    );
    assert_eq!(r.remaining_len(), 0);
}

#[test]
fn scalar_values_under_both_orders() {
    let le = ByteOrder::LittleEndian;
    let be = ByteOrder::BigEndian;

    let mut r = Reader::new(vec![0x01, 0x00]);
    assert_eq!(<u16 as Decode<Nil>>::decode(&mut r, le, Nil), Ok(1));
    let mut r = Reader::new(vec![0x01, 0x00]);
    assert_eq!(<u16 as Decode<Nil>>::decode(&mut r, be, Nil), Ok(256));

    // one-byte values are byte-order-independent
    let mut r = Reader::new(vec![0xFF]);
    assert_eq!(<u8 as Decode<Nil>>::decode(&mut r, le, Nil), Ok(255));
    let mut r = Reader::new(vec![0xFF]);
    assert_eq!(<u8 as Decode<Nil>>::decode(&mut r, be, Nil), Ok(255));
    let mut r = Reader::new(vec![0xFF]);
    assert_eq!(<i8 as Decode<Nil>>::decode(&mut r, le, Nil), Ok(-1));
    let mut r = Reader::new(vec![0xFF]);
    assert_eq!(<i8 as Decode<Nil>>::decode(&mut r, be, Nil), Ok(-1));

    let mut r = Reader::new(vec![0x00, 0x80]);
    assert_eq!(<i16 as Decode<Nil>>::decode(&mut r, le, Nil), Ok(i16::MIN));
    let mut r = Reader::new(vec![0x80, 0x00]);
    assert_eq!(<i16 as Decode<Nil>>::decode(&mut r, be, Nil), Ok(i16::MIN));

    let mut r = Reader::new(vec![0x78, 0x56, 0x34, 0x12]);
    assert_eq!(<u32 as Decode<Nil>>::decode(&mut r, le, Nil), Ok(0x12345678));
    let mut r = Reader::new(vec![0x78, 0x56, 0x34, 0x12]);
    assert_eq!(<u32 as Decode<Nil>>::decode(&mut r, be, Nil), Ok(0x78563412));

    let mut r = Reader::new(vec![0xFF, 0xFF, 0xFF, 0xFF]);
    assert_eq!(<i32 as Decode<Nil>>::decode(&mut r, be, Nil), Ok(-1));
    let mut r = Reader::new(vec![0xFE, 0xFF, 0xFF, 0xFF]);
    assert_eq!(<i32 as Decode<Nil>>::decode(&mut r, le, Nil), Ok(-2));

    let mut r = Reader::new(vec![0xEF, 0xCD, 0xAB, 0x89, 0x67, 0x45, 0x23, 0x01]);
    assert_eq!(
        <u64 as Decode<Nil>>::decode(&mut r, le, Nil),
        Ok(0x0123456789ABCDEF)
    );
    let mut r = Reader::new(vec![0xEF, 0xCD, 0xAB, 0x89, 0x67, 0x45, 0x23, 0x01]);
    assert_eq!(
        <u64 as Decode<Nil>>::decode(&mut r, be, Nil),
        Ok(0xEFCDAB8967452301)
    );

    let mut r = Reader::new(vec![0x00, 0x00, 0x00, 0x00, 0x00, 0x00, 0x00, 0x80]);
    assert_eq!(<i64 as Decode<Nil>>::decode(&mut r, le, Nil), Ok(i64::MIN));
    let mut r = Reader::new(vec![0x80, 0x00, 0x00, 0x00, 0x00, 0x00, 0x00, 0x00]);
    assert_eq!(<i64 as Decode<Nil>>::decode(&mut r, be, Nil), Ok(i64::MIN));

    let mut r = Reader::new(vec![0xC3, 0xF5, 0x48, 0x40]);
    let bits = <F32Bits as Decode<Nil>>::decode(&mut r, le, Nil).unwrap();
    assert_eq!(f32::from_bits(bits.0), 3.14f32);
    let mut r = Reader::new(vec![0x40, 0x48, 0xF5, 0xC3]);
    let bits = <F32Bits as Decode<Nil>>::decode(&mut r, be, Nil).unwrap();
    assert_eq!(f32::from_bits(bits.0), 3.14f32);

    let mut r = Reader::new(vec![0x18, 0x2D, 0x44, 0x54, 0xFB, 0x21, 0x09, 0x40]);
    let bits = <F64Bits as Decode<Nil>>::decode(&mut r, le, Nil).unwrap();
    assert_eq!(f64::from_bits(bits.0), std::f64::consts::PI);
    let mut r = Reader::new(vec![0x40, 0x09, 0x21, 0xFB, 0x54, 0x44, 0x2D, 0x18]);
    let bits = <F64Bits as Decode<Nil>>::decode(&mut r, be, Nil).unwrap();
    assert_eq!(f64::from_bits(bits.0), std::f64::consts::PI);
}

#[test]
fn array_batch_matches_individual_scalars() {
    let bytes = vec![0x01, 0x02, 0x03, 0x04, 0x05, 0x06];
    let mut r = Reader::new(bytes.clone());
    let batch = decode_array::<u16>(&mut r, ByteOrder::BigEndian, 3).unwrap();
    let mut r = Reader::new(bytes);
    let mut one_by_one = Vec::new();
    for _ in 0..3 {
        one_by_one.push(<u16 as Decode<Nil>>::decode(&mut r, ByteOrder::BigEndian, Nil).unwrap());
    }
    assert_eq!(batch, one_by_one);
    assert_eq!(batch, vec![0x0102, 0x0304, 0x0506]);
}

#[test]
fn byte_arrays_decode_per_element() {
    let mut r = Reader::new(vec![1, 2, 250, 255]);
    assert_eq!(
        decode_array::<u8>(&mut r, ByteOrder::LittleEndian, 2).unwrap(),
        vec![1, 2]
    );
    assert_eq!(
        decode_array::<i8>(&mut r, ByteOrder::BigEndian, 2).unwrap(),
        vec![-6, -1]
    );
    assert_eq!(r.remaining_len(), 0);
}

#[test]
fn argument_offsets_the_read_byte() {
    let mut r = Reader::new(vec![0x44]);
    let v = OffsetU8::decode(&mut r, ByteOrder::LittleEndian, 0x55).unwrap();
    assert_eq!(v, OffsetU8(0x99));

    let mut r = Reader::new(vec![0xFF]);
    let v = OffsetU8::decode(&mut r, ByteOrder::LittleEndian, 0x02).unwrap();
    assert_eq!(v, OffsetU8(0x01));
}

#[test]
fn short_stream_fails_whole_record_and_rewinds() {
    let desc = RecordDescriptor {
        name: "Pair".to_string(),
        fields: vec![
            field("a", FieldType::Scalar(Prim::U8)),
            field("b", FieldType::Scalar(Prim::U32)),
        ],
        arg_type: None,
    };
    assert_eq!(validate(&desc), Ok(()));
    // 3 bytes for a record that needs 5: the first field alone would fit.
    let mut r = Reader::new(vec![0x01, 0x02, 0x03]);
    assert_eq!(decode_record(&mut r, &desc, None), Err(DecodeError::ShortRead));
    assert_eq!(r.position(), 0);
    assert_eq!(r.remaining_len(), 3);

    let mut r = Reader::new(vec![]);
    assert_eq!(
        <u16 as Decode<Nil>>::decode(&mut r, ByteOrder::LittleEndian, Nil),
        Err(DecodeError::ShortRead)
    );

    let mut r = Reader::new(vec![0x01, 0x02, 0x03]);
    assert_eq!(
        decode_array::<u16>(&mut r, ByteOrder::LittleEndian, 2),
        Err(DecodeError::ShortRead)
    );
    assert_eq!(r.position(), 0);
}

#[test]
fn default_order_is_little_endian_beside_big_endian_siblings() {
    let desc = RecordDescriptor {
        name: "Mixed".to_string(),
        fields: vec![
            field("a", FieldType::Scalar(Prim::U8)),
            FieldDescriptor {
                name: "b".to_string(),
                ty: FieldType::Scalar(Prim::U16),
                byte_order: Some(ByteOrder::BigEndian),
                arg_type: None,
            },
            field("c", FieldType::Scalar(Prim::I32)),
        ],
        arg_type: None,
    };
    assert_eq!(validate(&desc), Ok(()));
    let mut r = Reader::new(vec![0x01, 0x00, 0x01, 0x78, 0x56, 0x34, 0x12]);
    let vals = decode_record(&mut r, &desc, None).unwrap();
    // b is read per its BigEndian override, c per the little-endian
    // default, each untouched by the other's choice.
    assert_eq!(
        vals,
        vec![Value::U8(1), Value::U16(1), Value::I32(0x12345678)]
    );
}

#[test]
fn nested_record_threads_the_argument() {
    // inner: { x: u16 (BigEndian), g: Offset }, consuming the argument
    let inner = RecordDescriptor {
        name: "Inner".to_string(),
        fields: vec![
            FieldDescriptor {
                name: "x".to_string(),
                ty: FieldType::Scalar(Prim::U16),
                byte_order: Some(ByteOrder::BigEndian),
                arg_type: None,
            },
            FieldDescriptor {
                name: "g".to_string(),
                ty: FieldType::Offset,
                byte_order: None,
                arg_type: Some(9),
            },
        ],
        arg_type: Some(9),
    };
    // outer: { a: u8, inner, b: u8 }, forwarding its argument into `inner`
    let outer = RecordDescriptor {
        name: "Outer".to_string(),
        fields: vec![
            field("a", FieldType::Scalar(Prim::U8)),
            FieldDescriptor {
                name: "inner".to_string(),
                ty: FieldType::Record(Box::new(inner)),
                byte_order: None,
                arg_type: Some(9),
            },
            field("b", FieldType::Scalar(Prim::U8)),
        ],
        arg_type: Some(9),
    };
    assert_eq!(validate(&outer), Ok(()));
    let mut r = Reader::new(vec![0x07, 0x01, 0x00, 0x44, 0x0A]);
    let vals = decode_record(&mut r, &outer, Some(0x55)).unwrap();
    assert_eq!(
        vals,
        vec![
            Value::U8(7),
            Value::Record(vec![Value::U16(256), Value::Offset(OffsetU8(0x99))]),
            Value::U8(10),
        ]
    );
    assert_eq!(r.remaining_len(), 0);

    // a nested record whose argument reference does not match is a schema
    // error, and an inner field failing to fit fails the whole decode
    let mut r = Reader::new(vec![0x07, 0x01, 0x00]);
    assert_eq!(decode_record(&mut r, &outer, Some(0x55)), Err(DecodeError::ShortRead));
    assert_eq!(r.position(), 0);
}

#[test]
fn records_compose_by_concatenation() {
    // The wire format adds no framing, so decoding two records in sequence
    // from one cursor equals decoding the record their fields concatenate
    // to.
    let data = vec![0x01, 0x02, 0xAA, 0xBB, 0xCC, 0xDD];
    let head = RecordDescriptor {
        name: "Head".to_string(),
        fields: vec![field("a", FieldType::Scalar(Prim::U16))],
        arg_type: None,
    };
    let tail = RecordDescriptor {
        name: "Tail".to_string(),
        fields: vec![FieldDescriptor {
            name: "b".to_string(),
            ty: FieldType::Scalar(Prim::U32),
            byte_order: Some(ByteOrder::BigEndian),
            arg_type: None,
        }],
        arg_type: None,
    };
    let combined = RecordDescriptor {
        name: "Both".to_string(),
        fields: vec![
            field("a", FieldType::Scalar(Prim::U16)),
            FieldDescriptor {
                name: "b".to_string(),
                ty: FieldType::Scalar(Prim::U32),
                byte_order: Some(ByteOrder::BigEndian),
                arg_type: None,
            },
        ],
        arg_type: None,
    };
    let mut r = Reader::new(data.clone());
    let mut seq_vals = decode_record(&mut r, &head, None).unwrap();
    seq_vals.extend(decode_record(&mut r, &tail, None).unwrap());
    let end = r.position();

    let mut r = Reader::new(data);
    let both = decode_record(&mut r, &combined, None).unwrap();
    assert_eq!(seq_vals, both);
    assert_eq!(end, r.position());
    assert_eq!(both, vec![Value::U16(0x0201), Value::U32(0xAABBCCDD)]);
}

#[test]
fn successful_decode_consumes_exact_width() {
    let mut r = Reader::new(vec![0x01, 0x02, 0x03, 0x04, 0x05]);
    assert_eq!(r.position(), 0);
    let _ = <u32 as Decode<Nil>>::decode(&mut r, ByteOrder::LittleEndian, Nil).unwrap();
    assert_eq!(r.position(), 4);
    assert_eq!(r.remaining_len(), 1);
    assert_eq!(r.peek(0), 0x05);
    // peeking does not consume
    assert_eq!(r.position(), 4);
}
