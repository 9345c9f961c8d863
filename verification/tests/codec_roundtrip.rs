use binrec::codec::{native_is_little, read_record, write_record, CodecError};
use binrec::model::{
    ArrayLen, ByteOrder, ElemType, FieldSpec, Padding, PrimType, RecordSpec, Shape, Value,
};

fn prim_field(name: &str, p: PrimType, o: ByteOrder) -> FieldSpec {
    FieldSpec {
        name: name.to_string(),
        elem: ElemType::Prim(p, o),
        shape: Shape::Scalar,
        pad: None,
    }
}

fn array_field(name: &str, p: PrimType, o: ByteOrder, n: usize) -> FieldSpec {
    FieldSpec {
        name: name.to_string(),
        elem: ElemType::Prim(p, o),
        shape: Shape::FixedArray(ArrayLen::Lit(n)),
        pad: None,
    }
}

fn roundtrip(r: &RecordSpec, v: &Value, nle: bool) -> Value {
    let bytes = write_record(r, nle, v).expect("write should succeed");
    read_record(r, &bytes, nle).expect("read should succeed")
}

#[test]
fn scenario_u16_le_pad3_u8x4() {
    // a: 2-byte little-endian unsigned = 300; pad: explicit 3 filler bytes;
    // b: 4 one-byte unsigned integers = [1, 2, 3, 4].
    let r = RecordSpec {
        fields: vec![
            prim_field("a", PrimType::U16, ByteOrder::Little),
            FieldSpec {
                name: "pad".to_string(),
                elem: ElemType::Prim(PrimType::U8, ByteOrder::Normal),
                shape: Shape::Scalar,
                pad: Some(Padding::Explicit(3)),
            },
            array_field("b", PrimType::U8, ByteOrder::Normal, 4),
        ],
    };
    let v = Value::Record(vec![
        Value::Uint(300),
        Value::Uint(0x77), // in-memory value of the padding field: never written
        Value::Array(vec![Value::Uint(1), Value::Uint(2), Value::Uint(3), Value::Uint(4)]),
    ]);
    let bytes = write_record(&r, true, &v).unwrap();
    assert_eq!(bytes, vec![0x2C, 0x01, 0x00, 0x00, 0x00, 0x01, 0x02, 0x03, 0x04]);
    let back = read_record(&r, &bytes, true).unwrap();
    let expected = Value::Record(vec![
        Value::Uint(300),
        Value::Uint(0), // a padding field reads back as the zero value
        Value::Array(vec![Value::Uint(1), Value::Uint(2), Value::Uint(3), Value::Uint(4)]),
    ]);
    assert_eq!(back, expected);
}

#[test]
fn roundtrip_scalars_every_order() {
    for nle in [false, true] {
        for o in [ByteOrder::Little, ByteOrder::Big, ByteOrder::Native, ByteOrder::Normal] {
            let r = RecordSpec {
                fields: vec![
                    prim_field("a", PrimType::U8, o),
                    prim_field("b", PrimType::U16, o),
                    prim_field("c", PrimType::U32, o),
                    prim_field("d", PrimType::U64, o),
                ],
            };
            let v = Value::Record(vec![
                Value::Uint(0xAB),
                Value::Uint(0xBEEF),
                Value::Uint(0xDEAD_BEEF),
                Value::Uint(0x0123_4567_89AB_CDEF),
            ]);
            assert_eq!(roundtrip(&r, &v, nle), v);
        }
    }
}

#[test]
fn roundtrip_extreme_values() {
    let r = RecordSpec {
        fields: vec![
            prim_field("lo", PrimType::U64, ByteOrder::Big),
            prim_field("hi", PrimType::U64, ByteOrder::Little),
        ],
    };
    let v = Value::Record(vec![Value::Uint(0), Value::Uint(u64::MAX)]);
    assert_eq!(roundtrip(&r, &v, true), v);
}

#[test]
fn roundtrip_signed_patterns() {
    // A signed value travels as its two's-complement pattern of the type's
    // width: -2 as i16 is 0xFFFE.
    let r = RecordSpec {
        fields: vec![prim_field("x", PrimType::I16, ByteOrder::Little)],
    };
    let pattern = (-2i16 as u16) as u64;
    let v = Value::Record(vec![Value::Uint(pattern)]);
    let bytes = write_record(&r, true, &v).unwrap();
    assert_eq!(bytes, vec![0xFE, 0xFF]);
    assert_eq!(roundtrip(&r, &v, true), v);
}

#[test]
fn roundtrip_array_every_order() {
    for o in [ByteOrder::Little, ByteOrder::Big, ByteOrder::Native] {
        let r = RecordSpec {
            fields: vec![array_field("xs", PrimType::U16, o, 3)],
        };
        let v = Value::Record(vec![Value::Array(vec![
            Value::Uint(1),
            Value::Uint(0x8000),
            Value::Uint(0xFFFF),
        ])]);
        assert_eq!(roundtrip(&r, &v, false), v);
        assert_eq!(roundtrip(&r, &v, true), v);
    }
}

#[test]
fn roundtrip_nested_record() {
    let inner = RecordSpec {
        fields: vec![
            prim_field("x", PrimType::U16, ByteOrder::Big),
            prim_field("y", PrimType::U8, ByteOrder::Normal),
        ],
    };
    let r = RecordSpec {
        fields: vec![
            prim_field("head", PrimType::U8, ByteOrder::Normal),
            FieldSpec {
                name: "point".to_string(),
                elem: ElemType::Record(Box::new(inner)),
                shape: Shape::Scalar,
                pad: None,
            },
        ],
    };
    let v = Value::Record(vec![
        Value::Uint(7),
        Value::Record(vec![Value::Uint(0x0102), Value::Uint(9)]),
    ]);
    let bytes = write_record(&r, true, &v).unwrap();
    assert_eq!(bytes, vec![7, 0x01, 0x02, 9]);
    assert_eq!(roundtrip(&r, &v, true), v);
}

#[test]
fn roundtrip_array_of_nested_records() {
    let inner = RecordSpec {
        fields: vec![prim_field("x", PrimType::U8, ByteOrder::Normal)],
    };
    let r = RecordSpec {
        fields: vec![FieldSpec {
            name: "ps".to_string(),
            elem: ElemType::Record(Box::new(inner)),
            shape: Shape::FixedArray(ArrayLen::Sym(2)),
            pad: None,
        }],
    };
    let v = Value::Record(vec![Value::Array(vec![
        Value::Record(vec![Value::Uint(1)]),
        Value::Record(vec![Value::Uint(2)]),
    ])]);
    let bytes = write_record(&r, true, &v).unwrap();
    assert_eq!(bytes, vec![1, 2]);
    assert_eq!(roundtrip(&r, &v, true), v);
}

#[test]
fn roundtrip_with_machine_order() {
    let nle = native_is_little();
    let r = RecordSpec {
        fields: vec![prim_field("n", PrimType::U32, ByteOrder::Native)],
    };
    let v = Value::Record(vec![Value::Uint(0x0A0B0C0D)]);
    let bytes = write_record(&r, nle, &v).unwrap();
    assert_eq!(bytes, 0x0A0B0C0Du32.to_ne_bytes().to_vec());
    assert_eq!(roundtrip(&r, &v, nle), v);
}

#[test]
fn field_order_fixes_the_bytes() {
    let a = prim_field("a", PrimType::U16, ByteOrder::Little);
    let b = prim_field("b", PrimType::U8, ByteOrder::Normal);
    let r1 = RecordSpec { fields: vec![a, b] };
    let r2 = RecordSpec {
        fields: vec![
            prim_field("b", PrimType::U8, ByteOrder::Normal),
            prim_field("a", PrimType::U16, ByteOrder::Little),
        ],
    };
    let v1 = Value::Record(vec![Value::Uint(0x0102), Value::Uint(9)]);
    let v2 = Value::Record(vec![Value::Uint(9), Value::Uint(0x0102)]);
    let b1 = write_record(&r1, true, &v1).unwrap();
    let b2 = write_record(&r2, true, &v2).unwrap();
    // Each field's encoding stands in declared order: reordering the field
    // list moves the pieces correspondingly.
    assert_eq!(b1, vec![0x02, 0x01, 9]);
    assert_eq!(b2, vec![9, 0x02, 0x01]);
}

#[test]
fn order_changes_interpretation_not_width() {
    let le = RecordSpec {
        fields: vec![prim_field("x", PrimType::U16, ByteOrder::Little)],
    };
    let be = RecordSpec {
        fields: vec![prim_field("x", PrimType::U16, ByteOrder::Big)],
    };
    let v = Value::Record(vec![Value::Uint(0x0102)]);
    let lb = write_record(&le, true, &v).unwrap();
    let bb = write_record(&be, true, &v).unwrap();
    // Same width under either order...
    assert_eq!(lb.len(), 2);
    assert_eq!(bb.len(), 2);
    // ...but a deliberately mismatched reader sees a different number.
    let misread = read_record(&be, &lb, true).unwrap();
    assert_eq!(misread, Value::Record(vec![Value::Uint(0x0201)]));
}

#[test]
fn explicit_padding_writes_zeros_regardless_of_value() {
    let r = RecordSpec {
        fields: vec![FieldSpec {
            name: "gap".to_string(),
            elem: ElemType::Prim(PrimType::U32, ByteOrder::Little),
            shape: Shape::Scalar,
            pad: Some(Padding::Explicit(5)),
        }],
    };
    let v = Value::Record(vec![Value::Uint(0xFFFF_FFFF)]);
    let bytes = write_record(&r, true, &v).unwrap();
    assert_eq!(bytes, vec![0, 0, 0, 0, 0]);
}

#[test]
fn auto_padding_consumes_size_times_count_and_reads_zero() {
    // element size 2, repeat count 3: exactly 6 bytes consumed, and the
    // field reads back as the zero array even from non-zero bytes.
    let r = RecordSpec {
        fields: vec![
            FieldSpec {
                name: "gap".to_string(),
                elem: ElemType::Prim(PrimType::U16, ByteOrder::Big),
                shape: Shape::FixedArray(ArrayLen::Lit(3)),
                pad: Some(Padding::Auto),
            },
            prim_field("tail", PrimType::U8, ByteOrder::Normal),
        ],
    };
    let bytes = vec![0xAA, 0xBB, 0xCC, 0xDD, 0xEE, 0xFF, 0x42];
    let back = read_record(&r, &bytes, true).unwrap();
    let expected = Value::Record(vec![
        Value::Array(vec![Value::Uint(0), Value::Uint(0), Value::Uint(0)]),
        Value::Uint(0x42),
    ]);
    assert_eq!(back, expected);
    // six zero bytes on write, whatever the in-memory value held
    let v = Value::Record(vec![Value::Uint(7), Value::Uint(0x42)]);
    let written = write_record(&r, true, &v).unwrap();
    assert_eq!(written, vec![0, 0, 0, 0, 0, 0, 0x42]);
}

#[test]
fn zero_length_array_contributes_nothing() {
    let r = RecordSpec {
        fields: vec![
            array_field("none", PrimType::U32, ByteOrder::Little, 0),
            prim_field("tail", PrimType::U8, ByteOrder::Normal),
        ],
    };
    let v = Value::Record(vec![Value::Array(vec![]), Value::Uint(5)]);
    let bytes = write_record(&r, true, &v).unwrap();
    assert_eq!(bytes, vec![5]);
    let back = read_record(&r, &bytes, true).unwrap();
    assert_eq!(back, v);
}

#[test]
fn read_fails_on_short_input() {
    let r = RecordSpec {
        fields: vec![prim_field("x", PrimType::U32, ByteOrder::Little)],
    };
    assert_eq!(read_record(&r, &[1, 2, 3], true), Err(CodecError::UnexpectedEnd));
    let padded = RecordSpec {
        fields: vec![FieldSpec {
            name: "gap".to_string(),
            elem: ElemType::Prim(PrimType::U8, ByteOrder::Normal),
            shape: Shape::Scalar,
            pad: Some(Padding::Explicit(4)),
        }],
    };
    // too few bytes during padding consumption is the same stream failure
    assert_eq!(read_record(&padded, &[0, 0, 0], true), Err(CodecError::UnexpectedEnd));
}

#[test]
fn write_rejects_mismatched_values() {
    let r = RecordSpec {
        fields: vec![prim_field("x", PrimType::U8, ByteOrder::Normal)],
    };
    // wrong arity
    let bad1 = Value::Record(vec![]);
    assert_eq!(write_record(&r, true, &bad1), Err(CodecError::ValueMismatch));
    // out of range for a one-byte field
    let bad2 = Value::Record(vec![Value::Uint(256)]);
    assert_eq!(write_record(&r, true, &bad2), Err(CodecError::ValueMismatch));
    // wrong shape
    let bad3 = Value::Record(vec![Value::Array(vec![])]);
    assert_eq!(write_record(&r, true, &bad3), Err(CodecError::ValueMismatch));
}

#[test]
fn trailing_bytes_are_left_alone() {
    let r = RecordSpec {
        fields: vec![prim_field("x", PrimType::U16, ByteOrder::Big)],
    };
    let back = read_record(&r, &[0x12, 0x34, 0x56, 0x78], true).unwrap();
    assert_eq!(back, Value::Record(vec![Value::Uint(0x1234)]));
}
