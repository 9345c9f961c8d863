use binrec::attrs::{
    parse_padding, Attributes, Directive, GenError, PadToken, TokenKind,
};
use binrec::builder::{build_record, resolve_shape, RawElem, RawField, RawLen, RawRecord, RawType};
use binrec::codec::{read_record, write_record};
use binrec::model::{
    ArrayLen, ByteOrder, ElemType, Padding, PrimType, RecordSpec, Shape, Value,
};

fn pad_tokens(ts: Vec<PadToken>) -> Directive {
    Directive::Pad(Some(ts))
}

#[test]
fn padding_without_arguments_is_auto() {
    assert_eq!(parse_padding(&None), Ok(Padding::Auto));
}

#[test]
fn padding_bytes_equals_integer_is_explicit() {
    let args = Some(vec![
        PadToken::Ident("bytes".to_string()),
        PadToken::Punct('='),
        PadToken::Int(3),
    ]);
    assert_eq!(parse_padding(&args), Ok(Padding::Explicit(3)));
}

#[test]
fn padding_missing_bytes_keyword_is_rejected() {
    // a group that does not start with `bytes` must abort generation,
    // never silently fall back to automatic sizing
    let args = Some(vec![
        PadToken::Ident("size".to_string()),
        PadToken::Punct('='),
        PadToken::Int(3),
    ]);
    assert_eq!(
        parse_padding(&args),
        Err(GenError::PadExpectedIdent { found: Some(TokenKind::Ident) })
    );
    let empty = Some(vec![]);
    assert_eq!(parse_padding(&empty), Err(GenError::PadExpectedIdent { found: None }));
}

#[test]
fn padding_missing_equals_is_rejected() {
    let args = Some(vec![
        PadToken::Ident("bytes".to_string()),
        PadToken::Int(3),
    ]);
    assert_eq!(
        parse_padding(&args),
        Err(GenError::PadExpectedPunct { found: Some(TokenKind::Int) })
    );
}

#[test]
fn padding_non_integer_literal_is_rejected() {
    let args = Some(vec![
        PadToken::Ident("bytes".to_string()),
        PadToken::Punct('='),
        PadToken::Other,
    ]);
    assert_eq!(
        parse_padding(&args),
        Err(GenError::PadExpectedInt { found: Some(TokenKind::Other) })
    );
    let short = Some(vec![
        PadToken::Ident("bytes".to_string()),
        PadToken::Punct('='),
    ]);
    assert_eq!(parse_padding(&short), Err(GenError::PadExpectedInt { found: None }));
}

#[test]
fn last_byte_order_directive_wins() {
    let ds = vec![Directive::Little, Directive::Other, Directive::Big];
    let a = Attributes::resolve(&ds).unwrap();
    assert_eq!(a.order, ByteOrder::Big);
    assert_eq!(a.padding, None);
    let none = Attributes::resolve(&vec![Directive::Other]).unwrap();
    assert_eq!(none.order, ByteOrder::Normal);
}

#[test]
fn pad_directive_sets_padding() {
    let ds = vec![Directive::Native, Directive::Pad(None)];
    let a = Attributes::resolve(&ds).unwrap();
    assert_eq!(a.order, ByteOrder::Native);
    assert_eq!(a.padding, Some(Padding::Auto));
    let ds2 = vec![pad_tokens(vec![
        PadToken::Ident("bytes".to_string()),
        PadToken::Punct('='),
        PadToken::Int(7),
    ])];
    assert_eq!(Attributes::resolve(&ds2).unwrap().padding, Some(Padding::Explicit(7)));
}

#[test]
fn malformed_pad_directive_aborts_resolution() {
    let ds = vec![
        Directive::Little,
        pad_tokens(vec![PadToken::Punct('=')]),
        Directive::Big,
    ];
    assert_eq!(
        Attributes::resolve(&ds),
        Err(GenError::PadExpectedIdent { found: Some(TokenKind::Punct) })
    );
}

#[test]
fn shape_resolution_classifies_lengths() {
    assert_eq!(
        resolve_shape(&RawType::Scalar(RawElem::Prim(PrimType::U8))),
        Ok(Shape::Scalar)
    );
    assert_eq!(
        resolve_shape(&RawType::Array(RawElem::Prim(PrimType::U8), RawLen::Lit(4))),
        Ok(Shape::FixedArray(ArrayLen::Lit(4)))
    );
    assert_eq!(
        resolve_shape(&RawType::Array(RawElem::Prim(PrimType::U8), RawLen::Named(16))),
        Ok(Shape::FixedArray(ArrayLen::Sym(16)))
    );
    assert_eq!(
        resolve_shape(&RawType::Array(RawElem::Prim(PrimType::U8), RawLen::Opaque)),
        Err(GenError::BadArrayLen)
    );
}

fn named(n: &str, ty: RawType, dirs: Vec<Directive>) -> RawField {
    RawField { name: Some(n.to_string()), ty, dirs }
}

#[test]
fn build_record_translates_fields_in_order() {
    let rr = RawRecord {
        fields: vec![
            named(
                "a",
                RawType::Scalar(RawElem::Prim(PrimType::U16)),
                vec![Directive::Little],
            ),
            named(
                "gap",
                RawType::Scalar(RawElem::Prim(PrimType::U8)),
                vec![pad_tokens(vec![
                    PadToken::Ident("bytes".to_string()),
                    PadToken::Punct('='),
                    PadToken::Int(3),
                ])],
            ),
            named(
                "b",
                RawType::Array(RawElem::Prim(PrimType::U8), RawLen::Lit(4)),
                vec![],
            ),
        ],
    };
    let r = build_record(rr).unwrap();
    assert_eq!(r.fields.len(), 3);
    assert_eq!(r.fields[0].elem, ElemType::Prim(PrimType::U16, ByteOrder::Little));
    assert_eq!(r.fields[0].name, "a");
    assert_eq!(r.fields[1].pad, Some(Padding::Explicit(3)));
    assert_eq!(r.fields[2].shape, Shape::FixedArray(ArrayLen::Lit(4)));

    // the built description drives both procedures end to end
    let v = Value::Record(vec![
        Value::Uint(300),
        Value::Uint(0),
        Value::Array(vec![Value::Uint(1), Value::Uint(2), Value::Uint(3), Value::Uint(4)]),
    ]);
    let bytes = write_record(&r, true, &v).unwrap();
    assert_eq!(bytes, vec![0x2C, 0x01, 0x00, 0x00, 0x00, 0x01, 0x02, 0x03, 0x04]);
    assert_eq!(read_record(&r, &bytes, true).unwrap(), v);
}

#[test]
fn build_record_rejects_unnamed_fields_first() {
    let rr = RawRecord {
        fields: vec![
            named(
                "a",
                RawType::Array(RawElem::Prim(PrimType::U8), RawLen::Opaque),
                vec![],
            ),
            RawField {
                name: None,
                ty: RawType::Scalar(RawElem::Prim(PrimType::U8)),
                dirs: vec![],
            },
        ],
    };
    // the record's field list is checked for names before any field is
    // translated, so the unnamed field wins over the bad array length
    assert_eq!(build_record(rr), Err(GenError::UnnamedField));
}

#[test]
fn build_record_rejects_order_on_nested_record() {
    let inner = RecordSpec { fields: vec![] };
    let rr = RawRecord {
        fields: vec![named(
            "p",
            RawType::Scalar(RawElem::Record(inner)),
            vec![Directive::Little],
        )],
    };
    assert_eq!(build_record(rr), Err(GenError::OrderOnComposite));
}

#[test]
fn build_record_propagates_first_field_error() {
    let rr = RawRecord {
        fields: vec![
            named("ok", RawType::Scalar(RawElem::Prim(PrimType::U8)), vec![]),
            named(
                "bad",
                RawType::Array(RawElem::Prim(PrimType::U8), RawLen::Opaque),
                vec![],
            ),
        ],
    };
    assert_eq!(build_record(rr), Err(GenError::BadArrayLen));
}

#[test]
fn build_record_accepts_nested_records() {
    let inner = RawRecord {
        fields: vec![named(
            "x",
            RawType::Scalar(RawElem::Prim(PrimType::U16)),
            vec![Directive::Big],
        )],
    };
    let inner_spec = build_record(inner).unwrap();
    let rr = RawRecord {
        fields: vec![named("pt", RawType::Scalar(RawElem::Record(inner_spec)), vec![])],
    };
    let r = build_record(rr).unwrap();
    let v = Value::Record(vec![Value::Record(vec![Value::Uint(0x0102)])]);
    let bytes = write_record(&r, true, &v).unwrap();
    assert_eq!(bytes, vec![0x01, 0x02]);
}
