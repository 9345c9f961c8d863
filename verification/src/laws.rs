//! The codec's laws, stated and proved over the specification functions
//! that the executable procedures' contracts use.

use crate::bytes::{
    lemma_be_bytes_of_len, lemma_be_round_trip, lemma_le_bytes_of_len, lemma_le_round_trip,
};
use crate::codec::{
    decode_elem, decode_elems, decode_field, decode_fields, decode_record, encode_elem,
    encode_elems, encode_field, encode_fields, encode_record, prim_bytes,
};
use crate::model::{
    elem_matches, elem_no_padding, elem_size, field_matches, field_no_padding, field_size,
    fields_match, fields_no_padding, fields_size, len_of, prim_size, record_matches,
    record_no_padding, record_size, shape_count, zero_of_field, ArrayLen, ByteOrder, ElemType,
    FieldSpec, Padding, PrimType, RecordSpec, Shape, ValueModel,
};
use vstd::prelude::*;

verus! {

/// A matching element value encodes to exactly `elem_size` bytes.
pub proof fn lemma_encode_elem_len(e: ElemType, native_le: bool, v: ValueModel)
    requires
        elem_matches(e, v),
    ensures
        encode_elem(e, native_le, v).len() == elem_size(e),
    decreases e, 0int,
{
    match e {
        ElemType::Prim(p, o) => {
            lemma_le_bytes_of_len(prim_size(p), (v->Uint_0) as nat);
            lemma_be_bytes_of_len(prim_size(p), (v->Uint_0) as nat);
        },
        ElemType::Record(r) => {
            lemma_encode_record_len(*r, native_le, v);
        },
    }
}

/// A list of matching element values encodes to element size times count.
pub proof fn lemma_encode_elems_len(e: ElemType, native_le: bool, vs: Seq<ValueModel>)
    requires
        forall|i: int| 0 <= i < vs.len() ==> elem_matches(e, #[trigger] vs[i]),
    ensures
        encode_elems(e, native_le, vs).len() == vs.len() * elem_size(e),
    decreases e, vs.len(),
{
    if vs.len() == 0 {
        assert(0 * elem_size(e) == 0) by (nonlinear_arith);
    } else {
        lemma_encode_elem_len(e, native_le, vs[0]);
        assert(forall|i: int|
            0 <= i < vs.drop_first().len() ==> elem_matches(e, #[trigger] vs.drop_first()[i]));
        lemma_encode_elems_len(e, native_le, vs.drop_first());
        assert(elem_size(e) + (vs.len() - 1) * elem_size(e) == vs.len() * elem_size(e))
            by (nonlinear_arith);
    }
}

/// A matching field value encodes to exactly `field_size` bytes — for a
/// padding field, whatever the value.
pub proof fn lemma_encode_field_len(f: FieldSpec, native_le: bool, v: ValueModel)
    requires
        field_matches(f, v),
    ensures
        encode_field(f, native_le, v).len() == field_size(f),
    decreases f, 1int,
{
    if f.pad is Some {
    } else {
        match f.shape {
            Shape::Scalar => {
                lemma_encode_elem_len(f.elem, native_le, v);
                assert(elem_size(f.elem) * 1 == elem_size(f.elem)) by (nonlinear_arith);
            },
            Shape::FixedArray(l) => {
                let es = v->Array_0;
                lemma_encode_elems_len(f.elem, native_le, es);
                assert(es.len() * elem_size(f.elem) == elem_size(f.elem) * len_of(l))
                    by (nonlinear_arith)
                    requires
                        es.len() == len_of(l),
                ;
            },
        }
    }
}

/// Matching field values encode to exactly `fields_size` bytes.
pub proof fn lemma_encode_fields_len(fs: Seq<FieldSpec>, native_le: bool, vs: Seq<ValueModel>)
    requires
        fields_match(fs, vs),
    ensures
        encode_fields(fs, native_le, vs).len() == fields_size(fs),
    decreases fs, 0int,
{
    if fs.len() > 0 {
        lemma_encode_field_len(fs[0], native_le, vs[0]);
        lemma_encode_fields_len(fs.drop_first(), native_le, vs.drop_first());
    }
}

/// A matching record value encodes to exactly `record_size` bytes.
pub proof fn lemma_encode_record_len(r: RecordSpec, native_le: bool, v: ValueModel)
    requires
        record_matches(r, v),
    ensures
        encode_record(r, native_le, v).len() == record_size(r),
    decreases r, 2int,
{
    lemma_encode_fields_len(r.fields@, native_le, v->Record_0);
}

/// Law: a matching element value with no padding anywhere round-trips.
pub proof fn lemma_elem_round_trip(e: ElemType, native_le: bool, v: ValueModel)
    requires
        elem_matches(e, v),
        elem_no_padding(e),
    ensures
        decode_elem(e, native_le, encode_elem(e, native_le, v)) == v,
    decreases e, 0int,
{
    match e {
        ElemType::Prim(p, o) => {
            let n = v->Uint_0;
            if crate::codec::order_is_le(o, native_le) {
                lemma_le_round_trip(prim_size(p), n as nat);
            } else {
                lemma_be_round_trip(prim_size(p), n as nat);
            }
        },
        ElemType::Record(r) => {
            lemma_record_round_trip(*r, native_le, v);
        },
    }
}

/// Law: a list of matching element values with no padding round-trips.
pub proof fn lemma_elems_round_trip(e: ElemType, native_le: bool, vs: Seq<ValueModel>)
    requires
        forall|i: int| 0 <= i < vs.len() ==> elem_matches(e, #[trigger] vs[i]),
        elem_no_padding(e),
    ensures
        decode_elems(e, native_le, vs.len(), encode_elems(e, native_le, vs)) == vs,
    decreases e, vs.len(),
{
    if vs.len() == 0 {
        assert(vs =~= Seq::<ValueModel>::empty());
    } else {
        let es = elem_size(e) as int;
        let head = encode_elem(e, native_le, vs[0]);
        let rest = encode_elems(e, native_le, vs.drop_first());
        let enc = encode_elems(e, native_le, vs);
        assert(enc == head + rest);
        lemma_encode_elem_len(e, native_le, vs[0]);
        assert(forall|i: int|
            0 <= i < vs.drop_first().len() ==> elem_matches(e, #[trigger] vs.drop_first()[i]));
        lemma_encode_elems_len(e, native_le, vs.drop_first());
        assert(enc.take(es) =~= head);
        assert(enc.skip(es) =~= rest);
        lemma_elem_round_trip(e, native_le, vs[0]);
        lemma_elems_round_trip(e, native_le, vs.drop_first());
        assert(decode_elems(e, native_le, vs.len(), enc) == seq![
            decode_elem(e, native_le, enc.take(es)),
        ] + decode_elems(e, native_le, (vs.len() - 1) as nat, enc.skip(es)));
        assert(seq![vs[0]] + vs.drop_first() =~= vs);
    }
}

/// Law: a matching field value with no padding round-trips.
pub proof fn lemma_field_round_trip(f: FieldSpec, native_le: bool, v: ValueModel)
    requires
        field_matches(f, v),
        field_no_padding(f),
    ensures
        decode_field(f, native_le, encode_field(f, native_le, v)) == v,
    decreases f, 1int,
{
    match f.shape {
        Shape::Scalar => {
            lemma_elem_round_trip(f.elem, native_le, v);
        },
        Shape::FixedArray(l) => {
            let es = v->Array_0;
            lemma_elems_round_trip(f.elem, native_le, es);
        },
    }
}

/// Law: matching field values with no padding round-trip.
pub proof fn lemma_fields_round_trip(fs: Seq<FieldSpec>, native_le: bool, vs: Seq<ValueModel>)
    requires
        fields_match(fs, vs),
        fields_no_padding(fs),
    ensures
        decode_fields(fs, native_le, encode_fields(fs, native_le, vs)) == vs,
    decreases fs, 0int,
{
    if fs.len() == 0 {
        assert(vs =~= Seq::<ValueModel>::empty());
    } else {
        let fsz = field_size(fs[0]) as int;
        let head = encode_field(fs[0], native_le, vs[0]);
        let rest = encode_fields(fs.drop_first(), native_le, vs.drop_first());
        let enc = encode_fields(fs, native_le, vs);
        assert(enc == head + rest);
        lemma_encode_field_len(fs[0], native_le, vs[0]);
        assert(enc.take(fsz) =~= head);
        assert(enc.skip(fsz) =~= rest);
        lemma_field_round_trip(fs[0], native_le, vs[0]);
        lemma_fields_round_trip(fs.drop_first(), native_le, vs.drop_first());
        assert(decode_fields(fs, native_le, enc) == seq![
            decode_field(fs[0], native_le, enc.take(fsz)),
        ] + decode_fields(fs.drop_first(), native_le, enc.skip(fsz)));
        assert(seq![vs[0]] + vs.drop_first() =~= vs);
    }
}

/// Law: for any record description without padding fields and any
/// matching value, reading back the written bytes reconstructs the value —
/// for every combination of scalar or array shape and byte order, on
/// either kind of machine.
pub proof fn lemma_record_round_trip(r: RecordSpec, native_le: bool, v: ValueModel)
    requires
        record_matches(r, v),
        record_no_padding(r),
    ensures
        encode_record(r, native_le, v).len() == record_size(r),
        decode_record(r, native_le, encode_record(r, native_le, v)) == v,
    decreases r, 2int,
{
    lemma_encode_record_len(r, native_le, v);
    lemma_fields_round_trip(r.fields@, native_le, v->Record_0);
}

/// Law: the bytes of a field list are the strict concatenation of each
/// field's own encoding, in declared order — so splitting, reordering or
/// extending the field list changes the byte sequence correspondingly and
/// deterministically.
pub proof fn lemma_encode_fields_append(
    fs1: Seq<FieldSpec>,
    vs1: Seq<ValueModel>,
    fs2: Seq<FieldSpec>,
    vs2: Seq<ValueModel>,
    native_le: bool,
)
    requires
        fs1.len() == vs1.len(),
    ensures
        encode_fields(fs1 + fs2, native_le, vs1 + vs2) == encode_fields(fs1, native_le, vs1)
            + encode_fields(fs2, native_le, vs2),
    decreases fs1.len(),
{
    if fs1.len() == 0 {
        assert(fs1 + fs2 =~= fs2);
        assert(vs1 + vs2 =~= vs2);
        assert(encode_fields(fs1, native_le, vs1) + encode_fields(fs2, native_le, vs2)
            =~= encode_fields(fs2, native_le, vs2));
    } else {
        assert((fs1 + fs2)[0] == fs1[0]);
        assert((vs1 + vs2)[0] == vs1[0]);
        assert((fs1 + fs2).drop_first() =~= fs1.drop_first() + fs2);
        assert((vs1 + vs2).drop_first() =~= vs1.drop_first() + vs2);
        lemma_encode_fields_append(fs1.drop_first(), vs1.drop_first(), fs2, vs2, native_le);
        assert((encode_field(fs1[0], native_le, vs1[0]) + (encode_fields(
            fs1.drop_first(),
            native_le,
            vs1.drop_first(),
        ) + encode_fields(fs2, native_le, vs2))) =~= ((encode_field(fs1[0], native_le, vs1[0])
            + encode_fields(fs1.drop_first(), native_le, vs1.drop_first())) + encode_fields(
            fs2,
            native_le,
            vs2,
        )));
    }
}

/// Law: the bytes a record writes split at every field boundary into the
/// bytes of the fields before it and the bytes of the fields from it on —
/// the wire layout is positional and order-significant.
pub proof fn lemma_record_bytes_split(r: RecordSpec, native_le: bool, v: ValueModel, i: int)
    requires
        record_matches(r, v),
        0 <= i <= r.fields@.len(),
    ensures
        encode_record(r, native_le, v) == encode_fields(
            r.fields@.take(i),
            native_le,
            (v->Record_0).take(i),
        ) + encode_fields(r.fields@.skip(i), native_le, (v->Record_0).skip(i)),
{
    let fs = r.fields@;
    let vs = v->Record_0;
    assert(fs.take(i) + fs.skip(i) =~= fs);
    assert(vs.take(i) + vs.skip(i) =~= vs);
    lemma_encode_fields_append(fs.take(i), vs.take(i), fs.skip(i), vs.skip(i), native_le);
}

/// Law: a field with an explicit padding directive writes exactly its
/// stated count of zero bytes, whatever the field's in-memory value.
pub proof fn lemma_explicit_padding_write(
    f: FieldSpec,
    native_le: bool,
    v: ValueModel,
    n: usize,
)
    requires
        f.pad == Some(Padding::Explicit(n)),
    ensures
        encode_field(f, native_le, v) =~= Seq::new(n as nat, |i: int| 0u8),
{
}

/// Law: a field with an automatic padding directive occupies element size
/// times repeat count bytes, and reads to the zero value of its type, even
/// when the consumed bytes are not zero.
pub proof fn lemma_auto_padding_read(f: FieldSpec, native_le: bool, s: Seq<u8>)
    requires
        f.pad == Some(Padding::Auto),
    ensures
        field_size(f) == elem_size(f.elem) * shape_count(f.shape),
        decode_field(f, native_le, s) == zero_of_field(f),
{
}

/// Law: a fixed array of length zero occupies no bytes on write and reads
/// to the empty array from any input, consuming nothing.
pub proof fn lemma_zero_length_array(
    f: FieldSpec,
    native_le: bool,
    v: ValueModel,
    s: Seq<u8>,
    l: ArrayLen,
)
    requires
        f.shape == Shape::FixedArray(l),
        len_of(l) == 0,
        f.pad is None,
        field_matches(f, v),
    ensures
        field_size(f) == 0,
        encode_field(f, native_le, v) == Seq::<u8>::empty(),
        decode_field(f, native_le, s) == ValueModel::Array(Seq::<ValueModel>::empty()),
{
    assert(elem_size(f.elem) * 0 == 0) by (nonlinear_arith);
    let es = v->Array_0;
    assert(es =~= Seq::<ValueModel>::empty());
}

/// Law: a field's width on the wire never depends on its byte order:
/// two fields that differ only in the byte order of a shared primitive
/// element type have the same size, and a primitive encodes to its type's
/// width under every order.
pub proof fn lemma_width_order_independent(
    f1: FieldSpec,
    f2: FieldSpec,
    p: PrimType,
    o1: ByteOrder,
    o2: ByteOrder,
)
    requires
        f1.elem == ElemType::Prim(p, o1),
        f2.elem == ElemType::Prim(p, o2),
        f1.shape == f2.shape,
        f1.pad == f2.pad,
    ensures
        field_size(f1) == field_size(f2),
{
}

/// Law: a primitive's encoding has the type's width under every byte
/// order and on either kind of machine; only the interpretation differs.
pub proof fn lemma_prim_bytes_width(p: PrimType, o: ByteOrder, native_le: bool, n: u64)
    ensures
        prim_bytes(p, o, native_le, n).len() == prim_size(p),
{
    lemma_le_bytes_of_len(prim_size(p), n as nat);
    lemma_be_bytes_of_len(prim_size(p), n as nat);
}

} // verus!
