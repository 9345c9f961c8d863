//! The record description model and the value model.
//!
//! A [`RecordSpec`] is the declarative description of one record type: an
//! ordered list of named fields, each with an element type, a scalar or
//! fixed-array shape, and an optional padding directive. The description is
//! built once from raw field declarations and then drives both the read and
//! the write procedure, so the two can never disagree about the wire layout.
//!
//! Values are carried by the exec type [`Value`] and, in specifications, by
//! its mathematical counterpart [`ValueModel`].

use crate::bytes::pow256;
use vstd::prelude::*;

verus! {

/// A primitive field type, identified by its width on the wire. A signed
/// integer field travels as its two's-complement bit pattern, so it shares
/// the codec of the unsigned type of the same width; [`Value::Uint`] holds
/// that pattern.
#[derive(Clone, Copy, Debug, PartialEq, Eq)]
pub enum PrimType {
    U8,
    U16,
    U32,
    U64,
    I8,
    I16,
    I32,
    I64,
}

/// The byte order a primitive field is encoded with.
///
/// `Normal` delegates to the element type's own codec: for a nested record
/// that is the record's composite codec, and a nested record always uses
/// `Normal`. A primitive under `Normal` is encoded in the machine's native
/// order, which is also what `Native` requests explicitly.
#[derive(Clone, Copy, Debug, PartialEq, Eq)]
pub enum ByteOrder {
    Little,
    Big,
    Native,
    Normal,
}

/// A padding directive: the field's bytes are raw filler instead of an
/// encoded value.
///
/// `Auto` sizes the filler as element size times repeat count; `Explicit`
/// states the byte count directly, ignoring the field's type and shape.
#[derive(Clone, Copy, Debug, PartialEq, Eq)]
pub enum Padding {
    Auto,
    Explicit(usize),
}

/// A fixed array length, classified by how it was written: a literal
/// integer, or a named constant expression whose value was resolved at
/// generation time. Both behave alike once resolved.
#[derive(Clone, Copy, Debug, PartialEq, Eq)]
pub enum ArrayLen {
    Lit(usize),
    Sym(usize),
}

/// A field's repeat shape: a single value, or a fixed-length array.
#[derive(Clone, Copy, Debug, PartialEq, Eq)]
pub enum Shape {
    Scalar,
    FixedArray(ArrayLen),
}

/// One element's type: a primitive with its byte order, or a nested record
/// read and written through its own composite codec. Attaching a byte order
/// to a non-primitive element is unrepresentable by construction.
#[derive(Debug, PartialEq, Eq)]
pub enum ElemType {
    Prim(PrimType, ByteOrder),
    Record(Box<RecordSpec>),
}

/// One declared field of a record.
#[derive(Debug, PartialEq, Eq)]
pub struct FieldSpec {
    /// The field's name. It plays no part in the wire layout; order does.
    pub name: String,
    /// The element type, with its byte order if primitive.
    pub elem: ElemType,
    /// Scalar or fixed-array repeat shape.
    pub shape: Shape,
    /// When present, the field's bytes are filler: read bytes are consumed
    /// and discarded, written bytes are all zero.
    pub pad: Option<Padding>,
}

/// An ordered record description; insertion order is wire order.
#[derive(Debug, PartialEq, Eq)]
pub struct RecordSpec {
    pub fields: Vec<FieldSpec>,
}

/// A runtime record or field value.
///
/// `Uint` carries a primitive's wire pattern (for signed types, the
/// two's-complement pattern zero-extended to 64 bits). `Array` carries a
/// fixed array's elements in order; `Record` carries a record's field
/// values in declared field order.
#[derive(Debug, PartialEq, Eq)]
pub enum Value {
    Uint(u64),
    Array(Vec<Value>),
    Record(Vec<Value>),
}

/// The specification-level counterpart of [`Value`], with sequences in
/// place of vectors.
pub enum ValueModel {
    Uint(u64),
    Array(Seq<ValueModel>),
    Record(Seq<ValueModel>),
}

impl Value {
    /// The mathematical value this runtime value stands for.
    pub open spec fn model(self) -> ValueModel
        decreases self,
    {
        match self {
            Value::Uint(n) => ValueModel::Uint(n),
            Value::Array(es) => ValueModel::Array(models_of(es@)),
            Value::Record(es) => ValueModel::Record(models_of(es@)),
        }
    }
}

/// The mathematical values of a list of runtime values, in order.
pub open spec fn models_of(es: Seq<Value>) -> Seq<ValueModel>
    decreases es,
{
    if es.len() == 0 {
        Seq::empty()
    } else {
        seq![es[0].model()] + models_of(es.drop_first())
    }
}

/// The byte width of one primitive value on the wire.
pub open spec fn prim_size(p: PrimType) -> nat {
    match p {
        PrimType::U8 => 1,
        PrimType::U16 => 2,
        PrimType::U32 => 4,
        PrimType::U64 => 8,
        PrimType::I8 => 1,
        PrimType::I16 => 2,
        PrimType::I32 => 4,
        PrimType::I64 => 8,
    }
}

/// The resolved element count of an array length.
pub open spec fn len_of(l: ArrayLen) -> nat {
    match l {
        ArrayLen::Lit(n) => n as nat,
        ArrayLen::Sym(n) => n as nat,
    }
}

/// How many elements a field's shape holds: 1 for a scalar.
pub open spec fn shape_count(s: Shape) -> nat {
    match s {
        Shape::Scalar => 1,
        Shape::FixedArray(l) => len_of(l),
    }
}

/// The byte width of one element.
pub open spec fn elem_size(e: ElemType) -> nat
    decreases e,
{
    match e {
        ElemType::Prim(p, _) => prim_size(p),
        ElemType::Record(r) => record_size(*r),
    }
}

/// The byte width of one field: its explicit padding count if stated,
/// otherwise element size times repeat count (also the sizing rule for
/// automatic padding). The byte order never enters: changing it cannot
/// change a field's width.
pub open spec fn field_size(f: FieldSpec) -> nat
    decreases f,
{
    match f.pad {
        Some(Padding::Explicit(n)) => n as nat,
        _ => elem_size(f.elem) * shape_count(f.shape),
    }
}

/// The byte width of a list of fields laid end to end.
pub open spec fn fields_size(fs: Seq<FieldSpec>) -> nat
    decreases fs,
{
    if fs.len() == 0 {
        0
    } else {
        field_size(fs[0]) + fields_size(fs.drop_first())
    }
}

/// The byte width of a whole record.
pub open spec fn record_size(r: RecordSpec) -> nat
    decreases r,
{
    fields_size(r.fields@)
}

/// Whether `n` is a valid wire pattern for primitive type `p`.
pub open spec fn prim_in_range(p: PrimType, n: u64) -> bool {
    (n as nat) < pow256(prim_size(p))
}

/// Whether `v` is a value of element type `e`.
pub open spec fn elem_matches(e: ElemType, v: ValueModel) -> bool
    decreases e,
{
    match e {
        ElemType::Prim(p, _) => match v {
            ValueModel::Uint(n) => prim_in_range(p, n),
            _ => false,
        },
        ElemType::Record(r) => record_matches(*r, v),
    }
}

/// Whether `v` is a value of the field `f`. A padding field's in-memory
/// value is never encoded, so any value fits it.
pub open spec fn field_matches(f: FieldSpec, v: ValueModel) -> bool
    decreases f,
{
    if f.pad is Some {
        true
    } else {
        match f.shape {
            Shape::Scalar => elem_matches(f.elem, v),
            Shape::FixedArray(l) => match v {
                ValueModel::Array(es) => es.len() == len_of(l) && (forall|i: int|
                    0 <= i < es.len() ==> elem_matches(f.elem, #[trigger] es[i])),
                _ => false,
            },
        }
    }
}

/// Whether `vs` are values of the fields `fs`, in order.
pub open spec fn fields_match(fs: Seq<FieldSpec>, vs: Seq<ValueModel>) -> bool
    decreases fs,
{
    &&& fs.len() == vs.len()
    &&& (fs.len() == 0 || (field_matches(fs[0], vs[0]) && fields_match(
        fs.drop_first(),
        vs.drop_first(),
    )))
}

/// Whether `v` is a value of the record `r`.
pub open spec fn record_matches(r: RecordSpec, v: ValueModel) -> bool
    decreases r,
{
    match v {
        ValueModel::Record(vs) => fields_match(r.fields@, vs),
        _ => false,
    }
}

/// Whether no padding directive occurs anywhere in an element type.
pub open spec fn elem_no_padding(e: ElemType) -> bool
    decreases e,
{
    match e {
        ElemType::Prim(..) => true,
        ElemType::Record(r) => record_no_padding(*r),
    }
}

/// Whether a field neither is padding itself nor contains padding in a
/// nested record.
pub open spec fn field_no_padding(f: FieldSpec) -> bool
    decreases f,
{
    f.pad is None && elem_no_padding(f.elem)
}

/// Whether no field in the list carries or contains padding.
pub open spec fn fields_no_padding(fs: Seq<FieldSpec>) -> bool
    decreases fs,
{
    fs.len() == 0 || (field_no_padding(fs[0]) && fields_no_padding(fs.drop_first()))
}

/// Whether no field of the record carries or contains padding.
pub open spec fn record_no_padding(r: RecordSpec) -> bool
    decreases r,
{
    fields_no_padding(r.fields@)
}

/// `models_of` maps the list elementwise and keeps its length.
pub proof fn lemma_models_of_index(es: Seq<Value>)
    ensures
        models_of(es).len() == es.len(),
        forall|i: int| 0 <= i < es.len() ==> models_of(es)[i] == es[i].model(),
    decreases es,
{
    if es.len() > 0 {
        lemma_models_of_index(es.drop_first());
        assert forall|i: int| 0 <= i < es.len() implies models_of(es)[i] == es[i].model() by {
            if i > 0 {
                assert(models_of(es)[i] == models_of(es.drop_first())[i - 1]);
                assert(es.drop_first()[i - 1] == es[i]);
            }
        }
    }
}

/// Appending a value appends its model.
pub proof fn lemma_models_of_push(es: Seq<Value>, v: Value)
    ensures
        models_of(es.push(v)) =~= models_of(es).push(v.model()),
    decreases es,
{
    lemma_models_of_index(es.push(v));
    lemma_models_of_index(es);
    assert forall|i: int| 0 <= i < es.len() + 1 implies models_of(es.push(v))[i] == models_of(
        es,
    ).push(v.model())[i] by {
        if i < es.len() {
            assert(es.push(v)[i] == es[i]);
        } else {
            assert(es.push(v)[i] == v);
        }
    }
}

/// The zero value of an element type: zero for a primitive, the all-zero
/// record for a nested record.
pub open spec fn zero_of_elem(e: ElemType) -> ValueModel
    decreases e,
{
    match e {
        ElemType::Prim(..) => ValueModel::Uint(0),
        ElemType::Record(r) => zero_of_record(*r),
    }
}

/// The zero value of a field: the element zero, repeated per the shape.
pub open spec fn zero_of_field(f: FieldSpec) -> ValueModel
    decreases f,
{
    match f.shape {
        Shape::Scalar => zero_of_elem(f.elem),
        Shape::FixedArray(l) => ValueModel::Array(
            Seq::new(len_of(l), |i: int| zero_of_elem(f.elem)),
        ),
    }
}

/// The zero values of a list of fields, in order.
pub open spec fn zero_of_fields(fs: Seq<FieldSpec>) -> Seq<ValueModel>
    decreases fs,
{
    if fs.len() == 0 {
        Seq::empty()
    } else {
        seq![zero_of_field(fs[0])] + zero_of_fields(fs.drop_first())
    }
}

/// The all-zero value of a record.
pub open spec fn zero_of_record(r: RecordSpec) -> ValueModel
    decreases r,
{
    ValueModel::Record(zero_of_fields(r.fields@))
}

} // verus!
